//! The install coordinator: who installs, and what the others get to see.

use crate::lsp::in_progress_set::InProgressSet;
use vstd::prelude::*;

verus! {

/// Why an installation failed.
#[derive(Debug, PartialEq, Eq)]
pub enum InstallError {
    /// The installer gave up, for the reason given.
    InstallFailed(String),
}

impl InstallError {
    /// The reason of the failure.
    pub open spec fn reason(self) -> Seq<char> {
        match self {
            InstallError::InstallFailed(reason) => reason@,
        }
    }
}

/// What happened to the installation of a language. `Finished` and `Failed`
/// are terminal: no further event follows for that installation.
#[derive(Debug, PartialEq, Eq)]
pub enum InstallEvent {
    /// An installation of the language has started.
    Started { language: String },
    /// The installation of the language succeeded.
    Finished { language: String },
    /// The installation of the language failed.
    Failed { language: String, reason: String },
}

/// An [`InstallEvent`] as contracts see it.
pub enum InstallEventView {
    Started { language: Seq<char> },
    Finished { language: Seq<char> },
    Failed { language: Seq<char>, reason: Seq<char> },
}

impl View for InstallEvent {
    type V = InstallEventView;

    open spec fn view(&self) -> InstallEventView {
        match self {
            InstallEvent::Started { language } => InstallEventView::Started { language: language@ },
            InstallEvent::Finished { language } => InstallEventView::Finished {
                language: language@,
            },
            InstallEvent::Failed { language, reason } => InstallEventView::Failed {
                language: language@,
                reason: reason@,
            },
        }
    }
}

impl Clone for InstallEvent {
    fn clone(&self) -> (copy: Self)
        ensures
            copy@ == self@,
    {
        match self {
            InstallEvent::Started { language } => InstallEvent::Started {
                language: language.clone(),
            },
            InstallEvent::Finished { language } => InstallEvent::Finished {
                language: language.clone(),
            },
            InstallEvent::Failed { language, reason } => InstallEvent::Failed {
                language: language.clone(),
                reason: reason.clone(),
            },
        }
    }
}

/// The views of a list of events.
pub open spec fn event_views(events: Seq<InstallEvent>) -> Seq<InstallEventView> {
    events.map_values(|e: InstallEvent| e@)
}

/// The terminal event of an installation of `language` that ended with
/// `outcome`.
pub open spec fn terminal_event(
    language: Seq<char>,
    outcome: Result<(), InstallError>,
) -> InstallEventView {
    match outcome {
        Ok(_) => InstallEventView::Finished { language },
        Err(error) => InstallEventView::Failed { language, reason: error.reason() },
    }
}

/// The event stream after `try_start_install` of `language`: the winner's
/// call appends `Started`, a loser's call appends nothing.
pub open spec fn events_after_start(
    installing: Set<Seq<char>>,
    events: Seq<InstallEventView>,
    language: Seq<char>,
) -> Seq<InstallEventView> {
    if installing.contains(language) {
        events
    } else {
        events.push(InstallEventView::Started { language })
    }
}

/// The event stream after `finish_install` of `language` with `outcome`: the
/// terminal event is appended if the language was being installed.
pub open spec fn events_after_finish(
    installing: Set<Seq<char>>,
    events: Seq<InstallEventView>,
    language: Seq<char>,
    outcome: Result<(), InstallError>,
) -> Seq<InstallEventView> {
    if installing.contains(language) {
        events.push(terminal_event(language, outcome))
    } else {
        events
    }
}

/// The events that a listener who has seen the first `seen` events has still
/// to see.
pub open spec fn unseen_events(events: Seq<InstallEventView>, seen: nat) -> Seq<InstallEventView> {
    if seen <= events.len() {
        events.skip(seen as int)
    } else {
        Seq::empty()
    }
}

/// A place in the event stream: the listener sees the events that are
/// emitted after it subscribed, and none of the earlier ones.
#[derive(Debug)]
pub struct InstallListener {
    seen: usize,
}

impl InstallListener {
    /// How many events of the stream lie before this listener's place.
    pub closed spec fn seen(&self) -> nat {
        self.seen as nat
    }
}

/// Coordinates installations: at most one installation per language runs at
/// a time, and whoever did not get to install can watch the event stream for
/// its end.
///
/// The coordinator never installs anything itself and never retries.
pub struct AutoInstallManager {
    installing: InProgressSet<String>,
    events: Vec<InstallEvent>,
}

impl AutoInstallManager {
    /// The coordinator is well formed.
    pub closed spec fn wf(&self) -> bool {
        self.installing.wf()
    }

    /// The languages being installed.
    pub closed spec fn installing(&self) -> Set<Seq<char>> {
        self.installing@
    }

    /// Every event emitted so far, oldest first.
    pub closed spec fn events(&self) -> Seq<InstallEventView> {
        event_views(self.events@)
    }

    /// A coordinator with nothing being installed and no event emitted.
    pub fn new() -> (manager: Self)
        ensures
            manager.wf(),
            manager.installing() == Set::<Seq<char>>::empty(),
            manager.events() == Seq::<InstallEventView>::empty(),
    {
        let manager = AutoInstallManager { installing: InProgressSet::new(), events: Vec::new() };
        assert(manager.events() =~= Seq::<InstallEventView>::empty());
        manager
    }

    /// Tries to start installing `language`. The call that returns `true`
    /// has emitted `Started` and owes the installation and a
    /// [`finish_install`](AutoInstallManager::finish_install), whether the
    /// installation succeeds or not. A call that returns `false` emits
    /// nothing: the language is being installed by somebody else.
    pub fn try_start_install(&mut self, language: &str) -> (started: bool)
        requires
            old(self).wf(),
        ensures
            final(self).wf(),
            started == !old(self).installing().contains(language@),
            final(self).installing() == old(self).installing().insert(language@),
            final(self).events() == events_after_start(
                old(self).installing(),
                old(self).events(),
                language@,
            ),
    {
        let key = String::from_str(language);
        let started = self.installing.try_start(&key);
        if started {
            self.events.push(InstallEvent::Started { language: key });
            assert(self.events() =~= old(self).events().push(
                InstallEventView::Started { language: language@ },
            ));
        }
        started
    }

    /// Releases `language` and emits the terminal event of its installation:
    /// `Finished` for `Ok`, `Failed` with the reason for `Err`. Does nothing
    /// if the language was not being installed.
    pub fn finish_install(&mut self, language: &str, outcome: Result<(), InstallError>)
        requires
            old(self).wf(),
        ensures
            final(self).wf(),
            final(self).installing() == old(self).installing().remove(language@),
            final(self).events() == events_after_finish(
                old(self).installing(),
                old(self).events(),
                language@,
                outcome,
            ),
    {
        let key = String::from_str(language);
        if self.installing.contains(&key) {
            self.installing.finish(&key);
            let event = match outcome {
                Ok(_) => InstallEvent::Finished { language: key },
                Err(InstallError::InstallFailed(reason)) => InstallEvent::Failed {
                    language: key,
                    reason,
                },
            };
            self.events.push(event);
            assert(self.events() =~= old(self).events().push(terminal_event(language@, outcome)));
        } else {
            self.installing.finish(&key);
        }
    }

    /// Whether `language` is being installed. A listener that subscribed
    /// while an installation may already have ended checks here afterwards.
    pub fn is_installing(&self, language: &str) -> (installing: bool)
        requires
            self.wf(),
        ensures
            installing == self.installing().contains(language@),
    {
        self.installing.contains(&String::from_str(language))
    }

    /// A listener placed at the end of the stream: it sees what is emitted
    /// from now on.
    pub fn subscribe(&self) -> (listener: InstallListener)
        ensures
            listener.seen() == self.events().len(),
    {
        InstallListener { seen: self.events.len() }
    }

    /// The events that `listener` has not seen yet, oldest first. The
    /// listener moves to the end of the stream.
    pub fn poll(&self, listener: &mut InstallListener) -> (news: Vec<InstallEvent>)
        ensures
            event_views(news@) == unseen_events(self.events(), old(listener).seen()),
            final(listener).seen() == if old(listener).seen() <= self.events().len() {
                self.events().len()
            } else {
                old(listener).seen()
            },
    {
        let mut news: Vec<InstallEvent> = Vec::new();
        let start = listener.seen;
        if start > self.events.len() {
            assert(event_views(news@) =~= unseen_events(self.events(), start as nat));
            return news;
        }
        let mut i: usize = start;
        while i < self.events.len()
            invariant
                start <= i <= self.events.len(),
                news.len() == i - start,
                forall|j: int| 0 <= j < news.len() ==> news[j]@ == self.events[start + j]@,
            decreases self.events.len() - i,
        {
            news.push(self.events[i].clone());
            i += 1;
        }
        listener.seen = self.events.len();
        assert(event_views(news@) =~= unseen_events(self.events(), start as nat));
        news
    }
}

/// A listener that subscribed before an installation finished sees its
/// terminal event: whatever was emitted before, the events that the listener
/// has still to see after `finish_install` hold that event.
pub proof fn law_subscribed_listener_sees_terminal_event(
    installing: Set<Seq<char>>,
    events: Seq<InstallEventView>,
    seen: nat,
    language: Seq<char>,
    outcome: Result<(), InstallError>,
)
    requires
        installing.contains(language),
        seen <= events.len(),
    ensures
        unseen_events(events_after_finish(installing, events, language, outcome), seen).contains(
            terminal_event(language, outcome),
        ),
{
    let after = events_after_finish(installing, events, language, outcome);
    let unseen = unseen_events(after, seen);
    assert(unseen[unseen.len() - 1] == terminal_event(language, outcome));
}

/// Of two calls of `try_start_install` on one language with no finish in
/// between, exactly the first emits `Started`: the second leaves the stream
/// as it was.
pub proof fn law_one_started_event_per_install(
    installing: Set<Seq<char>>,
    events: Seq<InstallEventView>,
    language: Seq<char>,
)
    ensures
        events_after_start(
            installing.insert(language),
            events_after_start(installing, events, language),
            language,
        ) == events_after_start(installing, events, language),
{
}

} // verus!
