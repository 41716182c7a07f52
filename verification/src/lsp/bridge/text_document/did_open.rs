//! Eager opening of virtual documents.
//!
//! When injection regions are found in a host document, their virtual
//! documents are opened on the downstream server at once, so that the server
//! analyses them before the first request arrives. This runs ahead of
//! anything the user asked for: whatever goes wrong is recorded for the log
//! and goes no further.

use crate::lsp::bridge::pool::{
    ConnectionError, ConnectionHandle, ConnectionHandleView, LanguageServerPool, PoolView,
};
use crate::lsp::bridge::protocol::{
    did_open_of, DidOpenNotification, DidOpenNotificationView, SyncError, VirtualDocumentUri,
    VirtualDocumentUriView,
};
use vstd::prelude::*;

verus! {

/// What went wrong during an eager open. It is material for the log, and
/// nothing else: no failure is handed to whoever asked for the eager open.
#[derive(Clone, Copy, Debug, PartialEq, Eq, Structural)]
pub enum EagerOpenFailure {
    /// The server did not become ready: none of the `skipped` regions was
    /// attempted.
    ServerNotReady { skipped: usize, reason: ConnectionError },
    /// The virtual document of the region at position `region` of the list
    /// could not be opened.
    OpenFailed { region: usize, error: SyncError },
}

/// An injection region as contracts see it: language, region identifier and
/// content.
pub type InjectionView = (Seq<char>, Seq<char>, Seq<char>);

/// The views of a list of injection regions.
pub open spec fn injection_views(injections: Seq<(String, String, String)>) -> Seq<InjectionView> {
    injections.map_values(|injection: (String, String, String)| (injection.0@, injection.1@, injection.2@))
}

/// The view of the outcome of waiting for a server.
pub open spec fn readiness_view(
    readiness: Result<ConnectionHandle, ConnectionError>,
) -> Result<ConnectionHandleView, ConnectionError> {
    match readiness {
        Ok(handle) => Ok(handle@),
        Err(error) => Err(error),
    }
}

/// An eager open as contracts see it.
pub struct EagerOpenView {
    /// The connection to open on; `None` where the server did not become
    /// ready.
    pub handle: Option<ConnectionHandleView>,
    /// The locator of the host document.
    pub host_uri: Seq<char>,
    /// The regions, in the order in which they are attempted.
    pub injections: Seq<InjectionView>,
    /// The position of the region whose open notification is to be sent
    /// now. Every region before it is settled. The eager open is done when
    /// no region is left.
    pub cursor: nat,
    /// What went wrong so far, oldest first.
    pub failures: Seq<EagerOpenFailure>,
}

impl EagerOpenView {
    /// The virtual document of the region at position `i`.
    pub open spec fn uri(self, i: int) -> VirtualDocumentUriView {
        VirtualDocumentUriView {
            host_uri: self.host_uri,
            language: self.injections[i].0,
            region_id: self.injections[i].1,
        }
    }

    /// The locator of the virtual document of the region at position `i`.
    pub open spec fn locator(self, i: int) -> Seq<char> {
        self.uri(i).locator()
    }

    /// Every region is settled.
    pub open spec fn is_done(self) -> bool {
        self.cursor >= self.injections.len()
    }

    /// The notification that is to be sent now, if any.
    pub open spec fn pending(self) -> Option<DidOpenNotificationView> {
        if self.is_done() {
            None
        } else {
            Some(did_open_of(self.uri(self.cursor as int), self.injections[self.cursor as int].2))
        }
    }

    /// Settles the regions from position `from` on that need no send, and
    /// stops at the first one that needs one: a region whose document is
    /// open already is passed over, and a region is recorded as failed where
    /// the connection takes no notifications.
    pub open spec fn advance(self, pool: PoolView, from: nat) -> EagerOpenView
        decreases self.injections.len() - from,
    {
        if from >= self.injections.len() {
            EagerOpenView { cursor: self.injections.len(), ..self }
        } else if !pool.can_send(self.handle->0) {
            (EagerOpenView {
                failures: self.failures.push(
                    EagerOpenFailure::OpenFailed {
                        region: from as usize,
                        error: SyncError::SendFailed,
                    },
                ),
                ..self
            }).advance(pool, from + 1)
        } else if pool.opened(self.handle->0).contains(self.locator(from as int)) {
            self.advance(pool, from + 1)
        } else {
            EagerOpenView { cursor: from, ..self }
        }
    }

    /// The pool after the outcome of the pending send was reported.
    pub open spec fn pool_after_sent(self, pool: PoolView, sent: bool) -> PoolView {
        if self.is_done() {
            pool
        } else {
            pool.after_open_sent(self.handle->0, self.locator(self.cursor as int), sent)
        }
    }

    /// The eager open after the outcome of the pending send was reported,
    /// `pool` being the pool before the report: a failure is recorded, and in
    /// either case the eager open goes on with the regions that follow.
    pub open spec fn after_sent(self, pool: PoolView, sent: bool) -> EagerOpenView {
        if self.is_done() {
            self
        } else {
            let recorded = if pool.can_send(self.handle->0) && sent {
                self
            } else {
                EagerOpenView {
                    failures: self.failures.push(
                        EagerOpenFailure::OpenFailed {
                            region: self.cursor as usize,
                            error: SyncError::SendFailed,
                        },
                    ),
                    ..self
                }
            };
            recorded.advance(self.pool_after_sent(pool, sent), self.cursor + 1)
        }
    }
}

/// The eager open of `injections` of the host document `host_uri`, as it
/// starts once the wait for the server has ended with `readiness`.
///
/// Where the server did not become ready, every region is skipped and one
/// failure says so. Where it did, the eager open stands at the first region
/// that needs a send.
pub open spec fn eager_open_start(
    pool: PoolView,
    readiness: Result<ConnectionHandleView, ConnectionError>,
    host_uri: Seq<char>,
    injections: Seq<InjectionView>,
) -> EagerOpenView {
    match readiness {
        Ok(handle) => (EagerOpenView {
            handle: Some(handle),
            host_uri,
            injections,
            cursor: 0,
            failures: Seq::empty(),
        }).advance(pool, 0),
        Err(reason) => EagerOpenView {
            handle: None,
            host_uri,
            injections,
            cursor: injections.len(),
            failures: seq![
                EagerOpenFailure::ServerNotReady { skipped: injections.len() as usize, reason },
            ],
        },
    }
}

/// What `advance` leaves as it was, and where it stops.
pub proof fn lemma_advance(run: EagerOpenView, pool: PoolView, from: nat)
    requires
        from <= run.injections.len(),
    ensures
        ({
            let after = run.advance(pool, from);
            &&& after.handle == run.handle
            &&& after.host_uri == run.host_uri
            &&& after.injections == run.injections
            &&& from <= after.cursor <= run.injections.len()
            &&& !pool.can_send(run.handle->0) ==> after.cursor == run.injections.len()
            &&& pool.can_send(run.handle->0) ==> {
                &&& after.failures == run.failures
                &&& forall|i: int|
                    from <= i < after.cursor ==> pool.opened(run.handle->0).contains(
                        #[trigger] run.locator(i),
                    )
                &&& after.cursor < run.injections.len() ==> !pool.opened(run.handle->0).contains(
                    run.locator(after.cursor as int),
                )
            }
        }),
    decreases run.injections.len() - from,
{
    if from >= run.injections.len() {
    } else if !pool.can_send(run.handle->0) {
        let recorded = EagerOpenView {
            failures: run.failures.push(
                EagerOpenFailure::OpenFailed { region: from as usize, error: SyncError::SendFailed },
            ),
            ..run
        };
        lemma_advance(recorded, pool, from + 1);
    } else if pool.opened(run.handle->0).contains(run.locator(from as int)) {
        lemma_advance(run, pool, from + 1);
        let after = run.advance(pool, from);
        assert forall|i: int| from <= i < after.cursor implies pool.opened(run.handle->0).contains(
            #[trigger] run.locator(i),
        ) by {
            if i == from {
            }
        }
    } else {
    }
}

/// An eager open under way: which regions are settled, which notification
/// is to be sent now, and what went wrong so far.
///
/// The eager open sends nothing itself. Its owner sends the notification
/// that [`next_notification`](EagerOpen::next_notification) gives on the
/// connection's channel, reports the outcome to
/// [`document_open_sent`](EagerOpen::document_open_sent), and goes on until
/// no notification is left. Nothing is retried: a region that failed is
/// attempted again by the eager open that the next edit brings, because its
/// document was never marked open.
pub struct EagerOpen {
    handle: Option<ConnectionHandle>,
    host_uri: String,
    injections: Vec<(String, String, String)>,
    cursor: usize,
    pending: Option<DidOpenNotification>,
    failures: Vec<EagerOpenFailure>,
}

impl View for EagerOpen {
    type V = EagerOpenView;

    closed spec fn view(&self) -> EagerOpenView {
        EagerOpenView {
            handle: match self.handle {
                Some(handle) => Some(handle@),
                None => None,
            },
            host_uri: self.host_uri@,
            injections: injection_views(self.injections@),
            cursor: self.cursor as nat,
            failures: self.failures@,
        }
    }
}

/// The view of a notification that may be there.
pub open spec fn notification_view(
    notification: Option<&DidOpenNotification>,
) -> Option<DidOpenNotificationView> {
    match notification {
        Some(notification) => Some(notification@),
        None => None,
    }
}

impl EagerOpen {
    /// The eager open is well formed.
    pub closed spec fn wf(&self) -> bool {
        &&& self.cursor <= self.injections.len()
        &&& self.cursor < self.injections.len() ==> self.handle is Some
        &&& self@.pending() == match self.pending {
            Some(notification) => Some(notification@),
            None => None,
        }
    }

    /// The notification that is to be sent now; `None` when every region is
    /// settled.
    pub fn next_notification(&self) -> (notification: Option<&DidOpenNotification>)
        requires
            self.wf(),
        ensures
            notification_view(notification) == self@.pending(),
    {
        self.pending.as_ref()
    }

    /// Whether every region is settled.
    pub fn is_done(&self) -> (done: bool)
        requires
            self.wf(),
        ensures
            done == self@.is_done(),
    {
        self.cursor >= self.injections.len()
    }

    /// The connection that the documents are opened on; `None` where the
    /// server did not become ready.
    pub fn handle(&self) -> (handle: Option<&ConnectionHandle>)
        ensures
            match handle {
                Some(handle) => self@.handle == Some(handle@),
                None => self@.handle is None,
            },
    {
        self.handle.as_ref()
    }

    /// What went wrong so far, oldest first.
    pub fn failures(&self) -> (failures: &Vec<EagerOpenFailure>)
        ensures
            failures@ == self@.failures,
    {
        &self.failures
    }

    /// Settles the regions from position `from` on that need no send.
    fn advance(&mut self, pool: &LanguageServerPool, from: usize)
        requires
            pool.wf(),
            from <= old(self).injections.len(),
            old(self).handle is Some,
        ensures
            final(self).wf(),
            final(self)@ == old(self)@.advance(pool@, from as nat),
    {
        let handle = match &self.handle {
            Some(handle) => handle.clone(),
            None => {
                return ;
            },
        };
        let mut i: usize = from;
        while i < self.injections.len()
            invariant
                pool.wf(),
                from <= i <= self.injections.len(),
                self.handle == old(self).handle,
                self.handle is Some,
                handle@ == self.handle->0@,
                self.host_uri == old(self).host_uri,
                self.injections == old(self).injections,
                self@.advance(pool@, i as nat) == old(self)@.advance(pool@, from as nat),
            decreases self.injections.len() - i,
        {
            let uri = VirtualDocumentUri::new(
                self.host_uri.as_str(),
                self.injections[i].0.as_str(),
                self.injections[i].1.as_str(),
            );
            assert(uri@ == self@.uri(i as int));
            match pool.ensure_document_opened(&handle, &uri, self.injections[i].2.as_str()) {
                Ok(None) => {},
                Ok(Some(notification)) => {
                    self.cursor = i;
                    self.pending = Some(notification);
                    return ;
                },
                Err(_) => {
                    self.failures.push(
                        EagerOpenFailure::OpenFailed { region: i, error: SyncError::SendFailed },
                    );
                },
            }
            i += 1;
        }
        self.cursor = self.injections.len();
        self.pending = None;
    }

    /// Records how sending the pending notification went, and goes on to the
    /// next region that needs a send. After a successful send the document
    /// is marked open in `pool`. After a failed one it is not, the failure is
    /// recorded, and the regions that follow are attempted all the same.
    /// Does nothing when every region is settled.
    pub fn document_open_sent(&mut self, pool: &mut LanguageServerPool, sent: Result<(), SyncError>)
        requires
            old(self).wf(),
            old(pool).wf(),
        ensures
            final(self).wf(),
            final(pool).wf(),
            final(pool)@ == old(self)@.pool_after_sent(old(pool)@, sent is Ok),
            final(self)@ == old(self)@.after_sent(old(pool)@, sent is Ok),
    {
        if self.cursor >= self.injections.len() {
            return ;
        }
        let handle = match &self.handle {
            Some(handle) => handle.clone(),
            None => {
                return ;
            },
        };
        let region = self.cursor;
        let uri = VirtualDocumentUri::new(
            self.host_uri.as_str(),
            self.injections[region].0.as_str(),
            self.injections[region].1.as_str(),
        );
        assert(uri@ == self@.uri(region as int));
        if pool.document_open_sent(&handle, &uri, sent).is_err() {
            self.failures.push(
                EagerOpenFailure::OpenFailed { region, error: SyncError::SendFailed },
            );
        }
        self.advance(pool, region + 1);
    }
}

impl LanguageServerPool {
    /// Starts the eager open of the virtual documents of `injections`, the
    /// regions found in the host document `host_uri`, each given as
    /// language, region identifier and content. `readiness` is the outcome
    /// of waiting for the server, for [`INIT_TIMEOUT_SECS`] at most.
    ///
    /// Where the server did not become ready, every region is skipped and
    /// the failure is recorded. Where it did, the eager open stands at the
    /// first region whose document is not open yet.
    ///
    /// [`INIT_TIMEOUT_SECS`]: crate::lsp::bridge::pool::INIT_TIMEOUT_SECS
    pub fn eager_open_virtual_documents(
        &self,
        readiness: Result<ConnectionHandle, ConnectionError>,
        host_uri: &str,
        injections: Vec<(String, String, String)>,
    ) -> (run: EagerOpen)
        requires
            self.wf(),
        ensures
            run.wf(),
            run@ == eager_open_start(
                self@,
                readiness_view(readiness),
                host_uri@,
                injection_views(injections@),
            ),
    {
        match readiness {
            Ok(handle) => {
                let mut run = EagerOpen {
                    handle: Some(handle),
                    host_uri: String::from_str(host_uri),
                    injections,
                    cursor: 0,
                    pending: None,
                    failures: Vec::new(),
                };
                assert(run@.failures =~= Seq::<EagerOpenFailure>::empty());
                run.advance(self, 0);
                run
            },
            Err(reason) => {
                let skipped = injections.len();
                let mut failures: Vec<EagerOpenFailure> = Vec::new();
                failures.push(EagerOpenFailure::ServerNotReady { skipped, reason });
                let run = EagerOpen {
                    handle: None,
                    host_uri: String::from_str(host_uri),
                    injections,
                    cursor: skipped,
                    pending: None,
                    failures,
                };
                assert(run@.failures =~= seq![
                    EagerOpenFailure::ServerNotReady { skipped, reason },
                ]);
                run
            },
        }
    }
}

impl EagerOpenView {
    /// The eager open and the pool once every region is settled, when
    /// nothing else touches the pool meanwhile. `outcomes` says for each
    /// region how sending its notification goes, should it be sent.
    pub open spec fn run(self, pool: PoolView, outcomes: Seq<bool>) -> (EagerOpenView, PoolView)
        decreases self.injections.len() - self.cursor,
    {
        if self.is_done() {
            (self, pool)
        } else {
            let sent = outcomes[self.cursor as int];
            proof {
                lemma_after_sent(self, pool, sent);
            }
            self.after_sent(pool, sent).run(self.pool_after_sent(pool, sent), outcomes)
        }
    }

    /// The locators of the regions from position `from` on whose send
    /// succeeds according to `outcomes`.
    pub open spec fn sent_locators(self, outcomes: Seq<bool>, from: nat) -> Set<Seq<char>> {
        Set::new(
            |locator: Seq<char>|
                exists|i: int|
                    from <= i < self.injections.len() && outcomes[i] && #[trigger] self.locator(i)
                        == locator,
        )
    }
}

/// Reporting the outcome of a send keeps the regions and moves on, whether
/// the send succeeded or not.
pub proof fn lemma_after_sent(run: EagerOpenView, pool: PoolView, sent: bool)
    requires
        !run.is_done(),
    ensures
        ({
            let after = run.after_sent(pool, sent);
            &&& after.handle == run.handle
            &&& after.host_uri == run.host_uri
            &&& after.injections == run.injections
            &&& run.cursor < after.cursor <= run.injections.len()
        }),
{
    let recorded = if pool.can_send(run.handle->0) && sent {
        run
    } else {
        EagerOpenView {
            failures: run.failures.push(
                EagerOpenFailure::OpenFailed {
                    region: run.cursor as usize,
                    error: SyncError::SendFailed,
                },
            ),
            ..run
        }
    };
    lemma_advance(recorded, run.pool_after_sent(pool, sent), run.cursor + 1);
}

/// From wherever the eager open stands, the documents open at the end are
/// those open now and those of the remaining regions whose send succeeds.
proof fn lemma_run_opens_sent(run: EagerOpenView, pool: PoolView, outcomes: Seq<bool>)
    requires
        run.handle is Some,
        pool.can_send(run.handle->0),
        run.cursor <= run.injections.len(),
        outcomes.len() == run.injections.len(),
    ensures
        ({
            let handle = run.handle->0;
            let (end, pool_end) = run.run(pool, outcomes);
            &&& end.is_done()
            &&& pool_end == pool.with_opened(
                handle,
                pool.opened(handle).union(run.sent_locators(outcomes, run.cursor)),
            )
        }),
    decreases run.injections.len() - run.cursor,
{
    let handle = run.handle->0;
    if run.is_done() {
        assert(run.sent_locators(outcomes, run.cursor) =~= Set::<Seq<char>>::empty());
        assert(pool.opened(handle).union(Set::<Seq<char>>::empty()) =~= pool.opened(handle));
        assert(pool.connections =~= pool.with_opened(handle, pool.opened(handle)).connections);
    } else {
        let sent = outcomes[run.cursor as int];
        let next = run.after_sent(pool, sent);
        let pool_next = run.pool_after_sent(pool, sent);
        lemma_after_sent(run, pool, sent);
        let recorded = if sent {
            run
        } else {
            EagerOpenView {
                failures: run.failures.push(
                    EagerOpenFailure::OpenFailed {
                        region: run.cursor as usize,
                        error: SyncError::SendFailed,
                    },
                ),
                ..run
            }
        };
        lemma_advance(recorded, pool_next, run.cursor + 1);
        lemma_run_opens_sent(next, pool_next, outcomes);
        let now = pool.opened(handle).union(run.sent_locators(outcomes, run.cursor));
        let later = pool_next.opened(handle).union(next.sent_locators(outcomes, next.cursor));
        assert forall|locator: Seq<char>| now.contains(locator) <==> later.contains(locator) by {
            if run.sent_locators(outcomes, run.cursor).contains(locator) {
                let i = choose|i: int|
                    run.cursor <= i < run.injections.len() && outcomes[i] && #[trigger] run.locator(
                        i,
                    ) == locator;
                if i == run.cursor {
                    assert(pool_next.opened(handle).contains(locator));
                } else if i < next.cursor {
                    assert(pool_next.opened(handle).contains(recorded.locator(i)));
                } else {
                    assert(next.locator(i) == locator);
                }
            }
            if next.sent_locators(outcomes, next.cursor).contains(locator) {
                let i = choose|i: int|
                    next.cursor <= i < next.injections.len() && outcomes[i]
                        && #[trigger] next.locator(i) == locator;
                assert(run.locator(i) == locator);
            }
            if pool_next.opened(handle).contains(locator) && !pool.opened(handle).contains(
                locator,
            ) {
                assert(sent);
                assert(run.locator(run.cursor as int) == locator);
            }
        }
        assert(now =~= later);
        assert(pool_next.with_opened(handle, later).connections =~= pool.with_opened(
            handle,
            now,
        ).connections);
    }
}

/// Each region stands for itself: once the eager open is done, the
/// documents open on the connection are those that were open before and
/// those of the regions whose send succeeded. A send that fails keeps its
/// own document closed and no other, and every region after it is still
/// attempted.
pub proof fn law_failure_stays_with_its_region(
    pool: PoolView,
    handle: ConnectionHandleView,
    host_uri: Seq<char>,
    injections: Seq<InjectionView>,
    outcomes: Seq<bool>,
)
    requires
        pool.can_send(handle),
        outcomes.len() == injections.len(),
    ensures
        ({
            let start = eager_open_start(pool, Ok(handle), host_uri, injections);
            let (end, pool_end) = start.run(pool, outcomes);
            &&& end.is_done()
            &&& pool_end == pool.with_opened(
                handle,
                pool.opened(handle).union(start.sent_locators(outcomes, 0)),
            )
        }),
{
    let first = EagerOpenView {
        handle: Some(handle),
        host_uri,
        injections,
        cursor: 0,
        failures: Seq::empty(),
    };
    let start = eager_open_start(pool, Ok(handle), host_uri, injections);
    lemma_advance(first, pool, 0);
    lemma_run_opens_sent(start, pool, outcomes);
    let from_start = pool.opened(handle).union(start.sent_locators(outcomes, 0));
    let from_cursor = pool.opened(handle).union(start.sent_locators(outcomes, start.cursor));
    assert forall|locator: Seq<char>| from_start.contains(locator) implies from_cursor.contains(
        locator,
    ) by {
        if start.sent_locators(outcomes, 0).contains(locator) {
            let i = choose|i: int|
                0 <= i < start.injections.len() && outcomes[i] && #[trigger] start.locator(i)
                    == locator;
            if i < start.cursor {
                assert(pool.opened(handle).contains(first.locator(i)));
            }
        }
    }
    assert(from_start =~= from_cursor);
}

/// An eager open that follows one in which every send succeeded, with the
/// same regions, has nothing to do: it is done as it starts, it sends no
/// notification, and it records no failure. The open documents are those
/// that the first one left.
pub proof fn law_second_eager_open_sends_nothing(
    pool: PoolView,
    handle: ConnectionHandleView,
    host_uri: Seq<char>,
    injections: Seq<InjectionView>,
    outcomes: Seq<bool>,
)
    requires
        pool.can_send(handle),
        outcomes.len() == injections.len(),
        forall|i: int| 0 <= i < outcomes.len() ==> outcomes[i],
    ensures
        ({
            let first = eager_open_start(pool, Ok(handle), host_uri, injections);
            let pool_once = first.run(pool, outcomes).1;
            let second = eager_open_start(pool_once, Ok(handle), host_uri, injections);
            &&& second.is_done()
            &&& second.pending() is None
            &&& second.failures == Seq::<EagerOpenFailure>::empty()
            &&& forall|any: Seq<bool>| (#[trigger] second.run(pool_once, any)).1 == pool_once
        }),
{
    let first = eager_open_start(pool, Ok(handle), host_uri, injections);
    let pool_once = first.run(pool, outcomes).1;
    law_failure_stays_with_its_region(pool, handle, host_uri, injections, outcomes);
    let blank = EagerOpenView {
        handle: Some(handle),
        host_uri,
        injections,
        cursor: 0,
        failures: Seq::empty(),
    };
    lemma_advance(blank, pool, 0);
    lemma_advance(blank, pool_once, 0);
    let second = eager_open_start(pool_once, Ok(handle), host_uri, injections);
    assert(pool_once.can_send(handle));
    if second.cursor < injections.len() {
        let i = second.cursor as int;
        assert(outcomes[i]);
        assert(first.locator(i) == blank.locator(i));
        assert(first.sent_locators(outcomes, 0).contains(first.locator(i)));
        assert(pool_once.opened(handle).contains(blank.locator(i)));
    }
}

/// Where the connection takes no notifications, an eager open leaves the
/// pool as it was.
proof fn lemma_run_without_connection(run: EagerOpenView, pool: PoolView, outcomes: Seq<bool>)
    requires
        run.handle is Some,
        !pool.can_send(run.handle->0),
        run.cursor <= run.injections.len(),
    ensures
        run.run(pool, outcomes).1 == pool,
    decreases run.injections.len() - run.cursor,
{
    if !run.is_done() {
        let sent = outcomes[run.cursor as int];
        lemma_after_sent(run, pool, sent);
        lemma_run_without_connection(run.after_sent(pool, sent), pool, outcomes);
    }
}

/// Eager opening is idempotent: two eager opens of the same regions, one
/// after the other, leave the pool as one of them does, whenever the sends
/// of the second go as those of the first went. What the first opened is not
/// sent again; what failed is attempted again and fails again.
pub proof fn law_eager_open_twice_is_eager_open_once(
    pool: PoolView,
    handle: ConnectionHandleView,
    host_uri: Seq<char>,
    injections: Seq<InjectionView>,
    outcomes: Seq<bool>,
)
    requires
        outcomes.len() == injections.len(),
    ensures
        ({
            let first = eager_open_start(pool, Ok(handle), host_uri, injections);
            let pool_once = first.run(pool, outcomes).1;
            let second = eager_open_start(pool_once, Ok(handle), host_uri, injections);
            let pool_twice = second.run(pool_once, outcomes).1;
            &&& pool_twice == pool_once
            &&& second.pending() matches Some(notification) ==> !pool_once.opened(handle).contains(
                notification.uri,
            )
        }),
{
    let blank = EagerOpenView {
        handle: Some(handle),
        host_uri,
        injections,
        cursor: 0,
        failures: Seq::empty(),
    };
    let first = eager_open_start(pool, Ok(handle), host_uri, injections);
    let pool_once = first.run(pool, outcomes).1;
    let second = eager_open_start(pool_once, Ok(handle), host_uri, injections);
    lemma_advance(blank, pool, 0);
    lemma_advance(blank, pool_once, 0);
    if pool.can_send(handle) {
        law_failure_stays_with_its_region(pool, handle, host_uri, injections, outcomes);
        law_failure_stays_with_its_region(pool_once, handle, host_uri, injections, outcomes);
        let sent = first.sent_locators(outcomes, 0);
        assert forall|locator: Seq<char>|
            second.sent_locators(outcomes, 0).contains(locator) <==> sent.contains(locator) by {
            if second.sent_locators(outcomes, 0).contains(locator) {
                let i = choose|i: int|
                    0 <= i < second.injections.len() && outcomes[i] && #[trigger] second.locator(i)
                        == locator;
                assert(first.locator(i) == locator);
            }
            if sent.contains(locator) {
                let i = choose|i: int|
                    0 <= i < first.injections.len() && outcomes[i] && #[trigger] first.locator(i)
                        == locator;
                assert(second.locator(i) == locator);
            }
        }
        assert(second.sent_locators(outcomes, 0) =~= sent);
        let once = pool.opened(handle).union(sent);
        assert(pool_once.opened(handle) == once);
        assert(once.union(sent) =~= once);
        assert(pool_once.with_opened(handle, once).connections =~= pool_once.connections);
        let pool_twice = second.run(pool_once, outcomes).1;
        assert(pool_twice == pool_once);
        if second.pending() is Some {
            assert(second.pending()->0.uri == blank.locator(second.cursor as int));
            assert(!pool_once.opened(handle).contains(second.pending()->0.uri));
        }
    } else {
        lemma_run_without_connection(first, pool, outcomes);
        assert(pool_once == pool);
        lemma_run_without_connection(second, pool, outcomes);
    }
}

} // verus!
