//! Which virtual documents are open on one downstream server.

use crate::lsp::bridge::protocol::{
    did_open_of, DidCloseNotification, DidOpenNotification, SyncError, VirtualDocumentUri,
};
use crate::lsp::in_progress_set::InProgressSet;
use vstd::prelude::*;

verus! {

/// The virtual documents believed open on one downstream server. A locator
/// is in the set from the moment its open notification was sent until the
/// moment its close notification was sent.
///
/// The tracker sends nothing itself. Opening and closing take two calls each:
/// the first says what to send, if anything; the second records how the send
/// went.
pub struct DocumentTracker {
    opened: InProgressSet<String>,
}

impl View for DocumentTracker {
    type V = Set<Seq<char>>;

    closed spec fn view(&self) -> Set<Seq<char>> {
        self.opened@
    }
}

impl DocumentTracker {
    /// The tracker is well formed.
    pub closed spec fn wf(&self) -> bool {
        self.opened.wf()
    }

    /// A tracker with no document open.
    pub fn new() -> (tracker: Self)
        ensures
            tracker.wf(),
            tracker@ == Set::<Seq<char>>::empty(),
    {
        DocumentTracker { opened: InProgressSet::new() }
    }

    /// Whether the virtual document is open.
    pub fn is_document_opened(&self, uri: &VirtualDocumentUri) -> (opened: bool)
        requires
            self.wf(),
        ensures
            opened == self@.contains(uri@.locator()),
    {
        self.opened.contains(&uri.to_uri_string())
    }

    /// What has to be sent so that the virtual document is open: nothing if
    /// it is open already, else the notification that opens it with
    /// `content`. The caller sends the notification and reports the outcome
    /// to [`document_open_sent`](DocumentTracker::document_open_sent).
    pub fn ensure_document_opened(
        &self,
        uri: &VirtualDocumentUri,
        content: &str,
    ) -> (to_send: Option<DidOpenNotification>)
        requires
            self.wf(),
        ensures
            match to_send {
                None => self@.contains(uri@.locator()),
                Some(notification) => !self@.contains(uri@.locator()) && notification@
                    == did_open_of(uri@, content@),
            },
    {
        if self.is_document_opened(uri) {
            None
        } else {
            Some(uri.did_open(content))
        }
    }

    /// Records how sending the open notification went. After a successful
    /// send the document is open. After a failed one it is not, so that a
    /// later attempt sends again, and the error is handed back.
    pub fn document_open_sent(
        &mut self,
        uri: &VirtualDocumentUri,
        sent: Result<(), SyncError>,
    ) -> (result: Result<(), SyncError>)
        requires
            old(self).wf(),
        ensures
            final(self).wf(),
            result == sent,
            final(self)@ == if sent is Ok {
                old(self)@.insert(uri@.locator())
            } else {
                old(self)@
            },
    {
        if sent.is_ok() {
            self.opened.try_start(&uri.to_uri_string());
        }
        sent
    }

    /// What has to be sent so that the virtual document is closed: nothing
    /// if it is not open, else the notification that closes it.
    pub fn close_document(&self, uri: &VirtualDocumentUri) -> (to_send: Option<DidCloseNotification>)
        requires
            self.wf(),
        ensures
            match to_send {
                None => !self@.contains(uri@.locator()),
                Some(notification) => self@.contains(uri@.locator()) && notification.uri@
                    == uri@.locator(),
            },
    {
        if self.is_document_opened(uri) {
            Some(uri.did_close())
        } else {
            None
        }
    }

    /// Records how sending the close notification went. The document leaves
    /// the set only after a successful send.
    pub fn document_close_sent(
        &mut self,
        uri: &VirtualDocumentUri,
        sent: Result<(), SyncError>,
    ) -> (result: Result<(), SyncError>)
        requires
            old(self).wf(),
        ensures
            final(self).wf(),
            result == sent,
            final(self)@ == if sent is Ok {
                old(self)@.remove(uri@.locator())
            } else {
                old(self)@
            },
    {
        if sent.is_ok() {
            self.opened.finish(&uri.to_uri_string());
        }
        sent
    }
}

} // verus!
