//! The pool of connections to downstream language servers.
//!
//! The pool holds one record per server name and decides, for every caller
//! that needs a server, what that caller does next: use the connection, give
//! up, launch the server, or wait for whoever is launching it. It starts no
//! process and waits for nothing itself: the caller performs the step that
//! the pool hands out and reports what happened.

pub mod document_tracker;

use crate::lsp::bridge::protocol::{
    did_open_of, DidCloseNotification, DidOpenNotification, SyncError, VirtualDocumentUri,
};
pub use document_tracker::DocumentTracker;
use vstd::prelude::*;

verus! {

/// How long a caller waits for a downstream server to become ready, in
/// seconds.
pub const INIT_TIMEOUT_SECS: u64 = 30;

/// Why a caller did not get a ready connection.
#[derive(Clone, Copy, Debug, PartialEq, Eq, Structural)]
pub enum ConnectionError {
    /// The downstream process could not be started.
    SpawnFailed,
    /// The downstream server rejected the handshake or answered it badly.
    HandshakeFailed,
    /// Nothing was settled within the time allowed.
    Timeout,
}

/// Where a connection stands in its life.
#[derive(Clone, Copy, Debug, PartialEq, Eq, Structural)]
pub enum ConnectionState {
    /// Nobody has asked for the server yet: the pool holds no record of it.
    Uninitialized,
    /// The downstream process is being started.
    Spawning,
    /// The handshake was sent and its answer is awaited.
    Initializing,
    /// The handshake is complete: the server takes notifications.
    Ready,
    /// The attempt failed, for the reason given.
    Failed(ConnectionError),
}

/// What can happen to a connection.
#[derive(Clone, Copy, Debug, PartialEq, Eq, Structural)]
pub enum ConnectionEvent {
    /// A caller found no record and was told to launch the server.
    SpawnRequested,
    /// The process runs and the handshake was sent to it.
    HandshakeSent,
    /// The server answered the handshake.
    HandshakeCompleted,
    /// The attempt failed, for the reason given.
    Failed(ConnectionError),
}

impl ConnectionState {
    /// The transition table: the state that `event` leads to from `self`, or
    /// `None` where the event is not allowed. `Ready` and `Failed` allow no
    /// event: they stand until the record is evicted.
    pub open spec fn after(self, event: ConnectionEvent) -> Option<ConnectionState> {
        match (self, event) {
            (ConnectionState::Uninitialized, ConnectionEvent::SpawnRequested) => Some(
                ConnectionState::Spawning,
            ),
            (ConnectionState::Spawning, ConnectionEvent::HandshakeSent) => Some(
                ConnectionState::Initializing,
            ),
            (ConnectionState::Initializing, ConnectionEvent::HandshakeCompleted) => Some(
                ConnectionState::Ready,
            ),
            (ConnectionState::Spawning, ConnectionEvent::Failed(reason)) => Some(
                ConnectionState::Failed(reason),
            ),
            (ConnectionState::Initializing, ConnectionEvent::Failed(reason)) => Some(
                ConnectionState::Failed(reason),
            ),
            _ => None,
        }
    }

    /// The attempt is under way: neither settled nor unstarted.
    pub open spec fn in_flight(self) -> bool {
        self == ConnectionState::Spawning || self == ConnectionState::Initializing
    }

    /// The state that `event` leads to from `self`, or `None` where the
    /// event is not allowed.
    pub fn transition(self, event: ConnectionEvent) -> (next: Option<ConnectionState>)
        ensures
            next == self.after(event),
    {
        match (self, event) {
            (ConnectionState::Uninitialized, ConnectionEvent::SpawnRequested) => Some(
                ConnectionState::Spawning,
            ),
            (ConnectionState::Spawning, ConnectionEvent::HandshakeSent) => Some(
                ConnectionState::Initializing,
            ),
            (ConnectionState::Initializing, ConnectionEvent::HandshakeCompleted) => Some(
                ConnectionState::Ready,
            ),
            (ConnectionState::Spawning, ConnectionEvent::Failed(reason)) => Some(
                ConnectionState::Failed(reason),
            ),
            (ConnectionState::Initializing, ConnectionEvent::Failed(reason)) => Some(
                ConnectionState::Failed(reason),
            ),
            _ => None,
        }
    }
}

/// A reference to one connection of the pool: the server's name and the
/// number of the record. It carries no state of the connection. A handle
/// whose record was evicted refers to nothing, also after a new record was
/// made for the same name.
#[derive(Debug, PartialEq, Eq, Hash)]
pub struct ConnectionHandle {
    server_name: String,
    id: u64,
}

/// A [`ConnectionHandle`] as contracts see it.
pub struct ConnectionHandleView {
    pub server_name: Seq<char>,
    pub id: u64,
}

impl View for ConnectionHandle {
    type V = ConnectionHandleView;

    closed spec fn view(&self) -> ConnectionHandleView {
        ConnectionHandleView { server_name: self.server_name@, id: self.id }
    }
}

impl Clone for ConnectionHandle {
    fn clone(&self) -> (copy: Self)
        ensures
            copy@ == self@,
    {
        ConnectionHandle { server_name: self.server_name.clone(), id: self.id }
    }
}

impl ConnectionHandle {
    /// The name of the server that the connection leads to.
    pub fn server_name(&self) -> (server_name: &str)
        ensures
            server_name@ == self@.server_name,
    {
        self.server_name.as_str()
    }

    /// The number of the connection's record. It also names the outbound
    /// channel to the downstream process: whoever launched the process keeps
    /// the channel under this number.
    pub fn id(&self) -> (id: u64)
        ensures
            id == self@.id,
    {
        self.id
    }
}

/// What a caller that needs a server does next.
#[derive(Debug, PartialEq, Eq)]
pub enum ReadyStep {
    /// The server is ready: use this connection.
    Ready(ConnectionHandle),
    /// Give up with this error.
    Failed(ConnectionError),
    /// This caller launches the server: start the process, send the
    /// handshake, report each event under this handle, and ask again.
    Spawn(ConnectionHandle),
    /// Somebody else is launching the server: wait until the pool changes or
    /// the time is up, and ask again.
    Wait,
}

/// A [`ReadyStep`] as contracts see it.
pub enum ReadyStepView {
    Ready(ConnectionHandleView),
    Failed(ConnectionError),
    Spawn(ConnectionHandleView),
    Wait,
}

impl View for ReadyStep {
    type V = ReadyStepView;

    open spec fn view(&self) -> ReadyStepView {
        match self {
            ReadyStep::Ready(handle) => ReadyStepView::Ready(handle@),
            ReadyStep::Failed(error) => ReadyStepView::Failed(*error),
            ReadyStep::Spawn(handle) => ReadyStepView::Spawn(handle@),
            ReadyStep::Wait => ReadyStepView::Wait,
        }
    }
}

/// One connection record as contracts see it.
pub struct ConnectionView {
    /// The number of the record.
    pub id: u64,
    /// Where the connection stands.
    pub state: ConnectionState,
    /// What the server answered to the handshake, once it is ready.
    pub metadata: Option<Seq<char>>,
    /// The locators of the virtual documents open on the server.
    pub opened: Set<Seq<char>>,
}

/// The pool as contracts see it: the records by server name, and the number
/// that the next record gets.
pub struct PoolView {
    pub connections: Map<Seq<char>, ConnectionView>,
    pub next_id: u64,
}

impl PoolView {
    /// The state of the connection to `name`; `Uninitialized` where the pool
    /// holds no record of it.
    pub open spec fn state_of(self, name: Seq<char>) -> ConnectionState {
        if self.connections.contains_key(name) {
            self.connections[name].state
        } else {
            ConnectionState::Uninitialized
        }
    }

    /// The record that `handle` refers to is in the pool.
    pub open spec fn is_live(self, handle: ConnectionHandleView) -> bool {
        self.connections.contains_key(handle.server_name) && self.connections[handle.server_name].id
            == handle.id
    }

    /// The connection that `handle` refers to takes notifications.
    pub open spec fn can_send(self, handle: ConnectionHandleView) -> bool {
        self.is_live(handle) && self.connections[handle.server_name].state == ConnectionState::Ready
    }

    /// The locators open on the connection that `handle` refers to.
    pub open spec fn opened(self, handle: ConnectionHandleView) -> Set<Seq<char>> {
        if self.is_live(handle) {
            self.connections[handle.server_name].opened
        } else {
            Set::empty()
        }
    }

    /// Some connection of the pool has `locator` open.
    pub open spec fn is_document_opened(self, locator: Seq<char>) -> bool {
        exists|name: Seq<char>| #[trigger]
            self.connections.contains_key(name) && self.connections[name].opened.contains(locator)
    }

    /// What a caller that needs the server `name` does next; `timed_out`
    /// says whether the caller's time is up.
    ///
    /// A settled record answers for itself, whatever the time. While the
    /// attempt is under way the caller waits, or gives up with `Timeout` when
    /// its time is up. Where there is no record the caller launches the
    /// server, unless its time is up or the record numbers have run out.
    pub open spec fn ready_step(self, name: Seq<char>, timed_out: bool) -> ReadyStepView {
        if self.connections.contains_key(name) {
            let connection = self.connections[name];
            match connection.state {
                ConnectionState::Ready => ReadyStepView::Ready(
                    ConnectionHandleView { server_name: name, id: connection.id },
                ),
                ConnectionState::Failed(reason) => ReadyStepView::Failed(reason),
                _ => if timed_out {
                    ReadyStepView::Failed(ConnectionError::Timeout)
                } else {
                    ReadyStepView::Wait
                },
            }
        } else if timed_out {
            ReadyStepView::Failed(ConnectionError::Timeout)
        } else if self.next_id == u64::MAX {
            ReadyStepView::Failed(ConnectionError::SpawnFailed)
        } else {
            ReadyStepView::Spawn(ConnectionHandleView { server_name: name, id: self.next_id })
        }
    }

    /// The pool after a caller asked for the server `name`: a new record in
    /// state `Spawning` where the caller was told to launch the server, and
    /// no change otherwise.
    pub open spec fn after_ready_step(self, name: Seq<char>, timed_out: bool) -> PoolView {
        if self.ready_step(name, timed_out) is Spawn {
            PoolView {
                connections: self.connections.insert(
                    name,
                    ConnectionView {
                        id: self.next_id,
                        state: ConnectionState::Spawning,
                        metadata: None,
                        opened: Set::empty(),
                    },
                ),
                next_id: (self.next_id + 1) as u64,
            }
        } else {
            self
        }
    }

    /// The pool takes `event` for the connection that `handle` refers to: the
    /// record is there and the transition table allows the event.
    pub open spec fn accepts(self, handle: ConnectionHandleView, event: ConnectionEvent) -> bool {
        self.is_live(handle) && self.connections[handle.server_name].state.after(event) is Some
    }

    /// The pool after `event` was reported for the connection that `handle`
    /// refers to. An event that the pool does not take changes nothing.
    /// `metadata` is kept where the event makes the connection ready.
    pub open spec fn after_event(
        self,
        handle: ConnectionHandleView,
        event: ConnectionEvent,
        metadata: Seq<char>,
    ) -> PoolView {
        if self.accepts(handle, event) {
            let connection = self.connections[handle.server_name];
            let state = connection.state.after(event)->0;
            PoolView {
                connections: self.connections.insert(
                    handle.server_name,
                    ConnectionView {
                        state,
                        metadata: if state == ConnectionState::Ready {
                            Some(metadata)
                        } else {
                            None
                        },
                        ..connection
                    },
                ),
                ..self
            }
        } else {
            self
        }
    }

    /// The pool after the record of `name` was evicted.
    pub open spec fn after_evict(self, name: Seq<char>) -> PoolView {
        PoolView { connections: self.connections.remove(name), ..self }
    }

    /// The pool with `opened` as the open documents of the connection that
    /// `handle` refers to.
    pub open spec fn with_opened(
        self,
        handle: ConnectionHandleView,
        opened: Set<Seq<char>>,
    ) -> PoolView {
        PoolView {
            connections: self.connections.insert(
                handle.server_name,
                ConnectionView { opened, ..self.connections[handle.server_name] },
            ),
            ..self
        }
    }

    /// The pool after the outcome of sending the open notification for
    /// `locator` was reported: the locator is open after a successful send on
    /// a connection that takes notifications, and nothing changes otherwise.
    pub open spec fn after_open_sent(
        self,
        handle: ConnectionHandleView,
        locator: Seq<char>,
        sent: bool,
    ) -> PoolView {
        if self.can_send(handle) && sent {
            self.with_opened(handle, self.opened(handle).insert(locator))
        } else {
            self
        }
    }

    /// The pool after the outcome of sending the close notification for
    /// `locator` was reported: the locator is closed after a successful send
    /// on a connection that takes notifications, and nothing changes
    /// otherwise.
    pub open spec fn after_close_sent(
        self,
        handle: ConnectionHandleView,
        locator: Seq<char>,
        sent: bool,
    ) -> PoolView {
        if self.can_send(handle) && sent {
            self.with_opened(handle, self.opened(handle).remove(locator))
        } else {
            self
        }
    }
}

/// One connection record: what the pool knows of one downstream server.
struct ConnectionRecord {
    name: String,
    id: u64,
    state: ConnectionState,
    metadata: Option<String>,
    documents: DocumentTracker,
}

spec fn record_view(record: ConnectionRecord) -> ConnectionView {
    ConnectionView {
        id: record.id,
        state: record.state,
        metadata: match record.metadata {
            Some(metadata) => Some(metadata@),
            None => None,
        },
        opened: record.documents@,
    }
}

spec fn has_name(records: Seq<ConnectionRecord>, name: Seq<char>) -> bool {
    exists|i: int| 0 <= i < records.len() && #[trigger] records[i].name@ == name
}

spec fn index_of(records: Seq<ConnectionRecord>, name: Seq<char>) -> int {
    choose|i: int| 0 <= i < records.len() && #[trigger] records[i].name@ == name
}

spec fn distinct_names(records: Seq<ConnectionRecord>) -> bool {
    forall|i: int, j: int|
        0 <= i < j < records.len() ==> #[trigger] records[i].name@ != #[trigger] records[j].name@
}

spec fn connections_of(records: Seq<ConnectionRecord>) -> Map<Seq<char>, ConnectionView> {
    Map::new(
        |name: Seq<char>| has_name(records, name),
        |name: Seq<char>| record_view(records[index_of(records, name)]),
    )
}

/// Each record is found under its name.
proof fn lemma_record_at(records: Seq<ConnectionRecord>, i: int)
    requires
        distinct_names(records),
        0 <= i < records.len(),
    ensures
        connections_of(records).contains_key(records[i].name@),
        connections_of(records)[records[i].name@] == record_view(records[i]),
{
    let name = records[i].name@;
    assert(has_name(records, name));
    let j = index_of(records, name);
    assert(records[j].name@ == name);
    if i < j {
        assert(records[i].name@ != records[j].name@);
    }
    if j < i {
        assert(records[j].name@ != records[i].name@);
    }
}

/// A record that changes but keeps its name changes the entry of its name,
/// and no other.
proof fn lemma_record_updated(
    before: Seq<ConnectionRecord>,
    after: Seq<ConnectionRecord>,
    i: int,
)
    requires
        distinct_names(before),
        0 <= i < before.len(),
        after.len() == before.len(),
        after[i].name@ == before[i].name@,
        forall|j: int| 0 <= j < before.len() && j != i ==> after[j] == before[j],
    ensures
        distinct_names(after),
        connections_of(after) == connections_of(before).insert(
            before[i].name@,
            record_view(after[i]),
        ),
{
    assert forall|a: int, b: int| 0 <= a < b < after.len() implies #[trigger] after[a].name@
        != #[trigger] after[b].name@ by {
        assert(before[a].name@ != before[b].name@);
    }
    let expected = connections_of(before).insert(before[i].name@, record_view(after[i]));
    assert forall|name: Seq<char>| #[trigger]
        connections_of(after).contains_key(name) <==> expected.contains_key(name) by {
        if has_name(after, name) {
            let j = index_of(after, name);
            assert(before[j].name@ == name);
        }
        if has_name(before, name) {
            let j = index_of(before, name);
            assert(after[j].name@ == name);
        }
        if name == before[i].name@ {
            assert(after[i].name@ == name);
        }
    }
    assert forall|name: Seq<char>| #[trigger]
        connections_of(after).contains_key(name) implies connections_of(after)[name]
        == expected[name] by {
        let j = index_of(after, name);
        lemma_record_at(after, j);
        if j != i {
            lemma_record_at(before, j);
            assert(before[j].name@ != before[i].name@) by {
                if j < i {
                    assert(before[j].name@ != before[i].name@);
                } else {
                    assert(before[i].name@ != before[j].name@);
                }
            }
        }
    }
    assert(connections_of(after) =~= expected);
}

/// A record added under a name that no record has adds the entry of its
/// name.
proof fn lemma_record_added(before: Seq<ConnectionRecord>, record: ConnectionRecord)
    requires
        distinct_names(before),
        !has_name(before, record.name@),
    ensures
        distinct_names(before.push(record)),
        connections_of(before.push(record)) == connections_of(before).insert(
            record.name@,
            record_view(record),
        ),
{
    let after = before.push(record);
    assert forall|a: int, b: int| 0 <= a < b < after.len() implies #[trigger] after[a].name@
        != #[trigger] after[b].name@ by {
        if b < before.len() {
            assert(before[a].name@ != before[b].name@);
        } else {
            assert(before[a].name@ == after[a].name@);
        }
    }
    let expected = connections_of(before).insert(record.name@, record_view(record));
    assert forall|name: Seq<char>| #[trigger]
        connections_of(after).contains_key(name) <==> expected.contains_key(name) by {
        if has_name(after, name) {
            let j = index_of(after, name);
            if j < before.len() {
                assert(before[j].name@ == name);
            }
        }
        if has_name(before, name) {
            let j = index_of(before, name);
            assert(after[j].name@ == name);
        }
        if name == record.name@ {
            assert(after[before.len() as int].name@ == name);
        }
    }
    assert forall|name: Seq<char>| #[trigger]
        connections_of(after).contains_key(name) implies connections_of(after)[name]
        == expected[name] by {
        let j = index_of(after, name);
        lemma_record_at(after, j);
        if j < before.len() {
            assert(before[j].name@ == name);
            lemma_record_at(before, j);
        }
    }
    assert(connections_of(after) =~= expected);
}

/// A record taken out, with the last record moved to its place, takes the
/// entry of its name out, and no other.
proof fn lemma_record_removed(
    before: Seq<ConnectionRecord>,
    after: Seq<ConnectionRecord>,
    i: int,
)
    requires
        distinct_names(before),
        0 <= i < before.len(),
        after == before.update(i, before.last()).drop_last(),
    ensures
        distinct_names(after),
        connections_of(after) == connections_of(before).remove(before[i].name@),
{
    let last = before.len() - 1;
    assert forall|a: int| 0 <= a < after.len() implies #[trigger] after[a] == before[if a == i {
        last
    } else {
        a
    }] by {}
    assert forall|a: int, b: int| 0 <= a < b < after.len() implies #[trigger] after[a].name@
        != #[trigger] after[b].name@ by {
        let a0 = if a == i {
            last
        } else {
            a
        };
        let b0 = if b == i {
            last
        } else {
            b
        };
        assert(after[a] == before[a0]);
        assert(after[b] == before[b0]);
        if a0 < b0 {
            assert(before[a0].name@ != before[b0].name@);
        } else {
            assert(before[b0].name@ != before[a0].name@);
        }
    }
    let expected = connections_of(before).remove(before[i].name@);
    assert forall|name: Seq<char>| #[trigger]
        connections_of(after).contains_key(name) <==> expected.contains_key(name) by {
        if has_name(after, name) {
            let j = index_of(after, name);
            let j0 = if j == i {
                last
            } else {
                j
            };
            assert(after[j] == before[j0]);
            assert(before[j0].name@ == name);
            if j0 < i {
                assert(before[j0].name@ != before[i].name@);
            } else {
                assert(before[i].name@ != before[j0].name@);
            }
        }
        if expected.contains_key(name) {
            let j = index_of(before, name);
            assert(j != i);
            if j == last {
                assert(after[i] == before[last]);
                assert(after[i].name@ == name);
            } else {
                assert(after[j] == before[j]);
                assert(after[j].name@ == name);
            }
        }
    }
    assert forall|name: Seq<char>| #[trigger]
        connections_of(after).contains_key(name) implies connections_of(after)[name]
        == expected[name] by {
        let j = index_of(after, name);
        let j0 = if j == i {
            last
        } else {
            j
        };
        lemma_record_at(after, j);
        assert(after[j] == before[j0]);
        lemma_record_at(before, j0);
    }
    assert(connections_of(after) =~= expected);
}

/// The connections to downstream language servers, one record per server
/// name.
pub struct LanguageServerPool {
    records: Vec<ConnectionRecord>,
    next_id: u64,
}

impl View for LanguageServerPool {
    type V = PoolView;

    closed spec fn view(&self) -> PoolView {
        PoolView { connections: connections_of(self.records@), next_id: self.next_id }
    }
}

impl PoolView {
    /// What holds of every pool: each record has a number below the next
    /// one, no stored record is `Uninitialized`, and a record has handshake
    /// metadata exactly while it is `Ready`.
    pub open spec fn wf(self) -> bool {
        forall|name: Seq<char>| #[trigger]
            self.connections.contains_key(name) ==> {
                let connection = self.connections[name];
                &&& connection.id < self.next_id
                &&& connection.state != ConnectionState::Uninitialized
                &&& connection.metadata is Some <==> connection.state == ConnectionState::Ready
            }
    }
}

spec fn record_wf(record: ConnectionRecord, next_id: u64) -> bool {
    &&& record.documents.wf()
    &&& record.id < next_id
    &&& record.state != ConnectionState::Uninitialized
    &&& record.metadata is Some <==> record.state == ConnectionState::Ready
}

impl LanguageServerPool {
    /// The pool is well formed.
    pub closed spec fn wf(&self) -> bool {
        &&& distinct_names(self.records@)
        &&& forall|i: int| 0 <= i < self.records.len() ==> record_wf(#[trigger] self.records[i], self.next_id)
    }

    /// What holds of every pool holds of the view of a well-formed one.
    pub proof fn lemma_view_wf(&self)
        requires
            self.wf(),
        ensures
            self@.wf(),
    {
        assert forall|name: Seq<char>| #[trigger] self@.connections.contains_key(name) implies {
            let connection = self@.connections[name];
            &&& connection.id < self@.next_id
            &&& connection.state != ConnectionState::Uninitialized
            &&& connection.metadata is Some <==> connection.state == ConnectionState::Ready
        } by {
            let i = index_of(self.records@, name);
            lemma_record_at(self.records@, i);
            assert(record_wf(self.records[i], self.next_id));
        }
    }

    /// The position of the record of `name`, if there is one.
    fn position(&self, name: &String) -> (found: Option<usize>)
        requires
            self.wf(),
        ensures
            match found {
                Some(i) => {
                    &&& i < self.records.len()
                    &&& self.records[i as int].name@ == name@
                    &&& self@.connections.contains_key(name@)
                    &&& self@.connections[name@] == record_view(self.records[i as int])
                },
                None => !self@.connections.contains_key(name@),
            },
    {
        let mut i: usize = 0;
        while i < self.records.len()
            invariant
                self.wf(),
                i <= self.records.len(),
                forall|j: int| 0 <= j < i ==> self.records[j].name@ != name@,
            decreases self.records.len() - i,
        {
            if self.records[i].name == *name {
                proof {
                    lemma_record_at(self.records@, i as int);
                }
                return Some(i);
            }
            i += 1;
        }
        None
    }

    /// The position of the record that `handle` refers to, if the pool holds
    /// it.
    fn position_of(&self, handle: &ConnectionHandle) -> (found: Option<usize>)
        requires
            self.wf(),
        ensures
            match found {
                Some(i) => {
                    &&& i < self.records.len()
                    &&& self.records[i as int].name@ == handle@.server_name
                    &&& self@.is_live(handle@)
                    &&& self@.connections[handle@.server_name] == record_view(self.records[i as int])
                },
                None => !self@.is_live(handle@),
            },
    {
        match self.position(&handle.server_name) {
            Some(i) => if self.records[i].id == handle.id {
                Some(i)
            } else {
                None
            },
            None => None,
        }
    }

    /// A pool without records.
    pub fn new() -> (pool: Self)
        ensures
            pool.wf(),
            pool@.connections == Map::<Seq<char>, ConnectionView>::empty(),
            pool@.next_id == 0,
    {
        let pool = LanguageServerPool { records: Vec::new(), next_id: 0 };
        assert(pool@.connections =~= Map::<Seq<char>, ConnectionView>::empty());
        pool
    }

    /// The state of the connection to `server_name`; `Uninitialized` where
    /// the pool holds no record of it.
    pub fn connection_state(&self, server_name: &str) -> (state: ConnectionState)
        requires
            self.wf(),
        ensures
            state == self@.state_of(server_name@),
    {
        match self.position(&String::from_str(server_name)) {
            Some(i) => self.records[i].state,
            None => ConnectionState::Uninitialized,
        }
    }

    /// One turn of getting a ready connection to `server_name`: says what
    /// the caller does next. `timed_out` says whether the caller's time is
    /// up.
    ///
    /// - A `Ready` record answers `Ready` with its handle, at once.
    /// - A `Failed` record answers `Failed` with its reason, the same for
    ///   every caller.
    /// - While the attempt is under way the answer is `Wait`, or `Failed`
    ///   with `Timeout` for a caller whose time is up. The attempt goes on
    ///   and the pool is unchanged: a later call may find the server ready.
    /// - Where there is no record, the caller is told to `Spawn`, and the
    ///   record is made in state `Spawning`, so that every other caller
    ///   waits for this attempt. A caller whose time is up gets `Timeout`
    ///   instead, and `SpawnFailed` answers when the record numbers have run
    ///   out.
    pub fn get_or_create_connection_wait_ready(
        &mut self,
        server_name: &str,
        timed_out: bool,
    ) -> (step: ReadyStep)
        requires
            old(self).wf(),
        ensures
            final(self).wf(),
            step@ == old(self)@.ready_step(server_name@, timed_out),
            final(self)@ == old(self)@.after_ready_step(server_name@, timed_out),
    {
        let name = String::from_str(server_name);
        match self.position(&name) {
            Some(i) => {
                let id = self.records[i].id;
                match self.records[i].state {
                    ConnectionState::Ready => ReadyStep::Ready(
                        ConnectionHandle { server_name: name, id },
                    ),
                    ConnectionState::Failed(reason) => ReadyStep::Failed(reason),
                    _ => if timed_out {
                        ReadyStep::Failed(ConnectionError::Timeout)
                    } else {
                        ReadyStep::Wait
                    },
                }
            },
            None => {
                if timed_out {
                    ReadyStep::Failed(ConnectionError::Timeout)
                } else if self.next_id == u64::MAX {
                    ReadyStep::Failed(ConnectionError::SpawnFailed)
                } else {
                    let id = self.next_id;
                    let record = ConnectionRecord {
                        name: name.clone(),
                        id,
                        state: ConnectionState::Spawning,
                        metadata: None,
                        documents: DocumentTracker::new(),
                    };
                    proof {
                        lemma_record_added(self.records@, record);
                    }
                    self.records.push(record);
                    self.next_id = id + 1;
                    ReadyStep::Spawn(ConnectionHandle { server_name: name, id })
                }
            },
        }
    }

    /// Reports `event` for the connection that `handle` refers to. Returns
    /// whether the pool took the event: the record is there and the
    /// transition table allows the event in its state. An event that is not
    /// taken changes nothing. `metadata` is what the server answered to the
    /// handshake; it is kept where the event makes the connection ready.
    pub fn connection_event(
        &mut self,
        handle: &ConnectionHandle,
        event: ConnectionEvent,
        metadata: &str,
    ) -> (taken: bool)
        requires
            old(self).wf(),
        ensures
            final(self).wf(),
            taken == old(self)@.accepts(handle@, event),
            final(self)@ == old(self)@.after_event(handle@, event, metadata@),
    {
        match self.position_of(handle) {
            Some(i) => match self.records[i].state.transition(event) {
                Some(state) => {
                    self.records[i].state = state;
                    self.records[i].metadata = match state {
                        ConnectionState::Ready => Some(String::from_str(metadata)),
                        _ => None,
                    };
                    proof {
                        lemma_record_updated(old(self).records@, self.records@, i as int);
                    }
                    true
                },
                None => false,
            },
            None => false,
        }
    }

    /// What the server that `handle` refers to answered to the handshake;
    /// `None` unless the connection is in the pool and ready.
    pub fn handshake_metadata(&self, handle: &ConnectionHandle) -> (metadata: Option<String>)
        requires
            self.wf(),
        ensures
            match metadata {
                Some(text) => self@.can_send(handle@) && self@.connections[handle@.server_name].metadata
                    == Some(text@),
                None => !self@.can_send(handle@),
            },
    {
        match self.position_of(handle) {
            Some(i) => {
                assert(record_wf(self.records[i as int], self.next_id));
                match &self.records[i].metadata {
                    Some(text) => Some(text.clone()),
                    None => None,
                }
            },
            None => None,
        }
    }

    /// Whether the virtual document is open on some connection of the pool.
    pub fn is_document_opened(&self, uri: &VirtualDocumentUri) -> (opened: bool)
        requires
            self.wf(),
        ensures
            opened == self@.is_document_opened(uri@.locator()),
    {
        let mut i: usize = 0;
        while i < self.records.len()
            invariant
                self.wf(),
                i <= self.records.len(),
                forall|j: int| 0 <= j < i ==> !self.records[j].documents@.contains(uri@.locator()),
            decreases self.records.len() - i,
        {
            assert(record_wf(self.records[i as int], self.next_id));
            if self.records[i].documents.is_document_opened(uri) {
                proof {
                    lemma_record_at(self.records@, i as int);
                }
                return true;
            }
            i += 1;
        }
        proof {
            if self@.is_document_opened(uri@.locator()) {
                let name = choose|name: Seq<char>| #[trigger]
                    self@.connections.contains_key(name) && self@.connections[name].opened.contains(
                        uri@.locator(),
                    );
                let j = index_of(self.records@, name);
                lemma_record_at(self.records@, j);
            }
        }
        false
    }

    /// What has to be sent so that the virtual document is open on the
    /// connection that `handle` refers to:
    ///
    /// - `Ok(None)`: nothing, the document is open already;
    /// - `Ok(Some(notification))`: the notification that opens it with
    ///   `content`; the caller sends it on the connection's channel and
    ///   reports the outcome to
    ///   [`document_open_sent`](LanguageServerPool::document_open_sent);
    /// - `Err(SendFailed)`: the connection is gone or not ready, so nothing
    ///   can be sent.
    pub fn ensure_document_opened(
        &self,
        handle: &ConnectionHandle,
        uri: &VirtualDocumentUri,
        content: &str,
    ) -> (to_send: Result<Option<DidOpenNotification>, SyncError>)
        requires
            self.wf(),
        ensures
            match to_send {
                Ok(None) => self@.can_send(handle@) && self@.opened(handle@).contains(
                    uri@.locator(),
                ),
                Ok(Some(notification)) => {
                    &&& self@.can_send(handle@)
                    &&& !self@.opened(handle@).contains(uri@.locator())
                    &&& notification@ == did_open_of(uri@, content@)
                },
                Err(error) => !self@.can_send(handle@),
            },
    {
        match self.position_of(handle) {
            Some(i) => {
                assert(record_wf(self.records[i as int], self.next_id));
                match self.records[i].state {
                    ConnectionState::Ready => Ok(
                        self.records[i].documents.ensure_document_opened(uri, content),
                    ),
                    _ => Err(SyncError::SendFailed),
                }
            },
            None => Err(SyncError::SendFailed),
        }
    }

    /// Records how sending the open notification of the virtual document
    /// went. After a successful send on a connection that takes
    /// notifications the document is open there. After a failed send it is
    /// not, so that a later attempt sends again, and the error is handed
    /// back. Where the connection is gone or not ready the answer is
    /// `SendFailed` and nothing changes.
    pub fn document_open_sent(
        &mut self,
        handle: &ConnectionHandle,
        uri: &VirtualDocumentUri,
        sent: Result<(), SyncError>,
    ) -> (result: Result<(), SyncError>)
        requires
            old(self).wf(),
        ensures
            final(self).wf(),
            result == if old(self)@.can_send(handle@) {
                sent
            } else {
                Err(SyncError::SendFailed)
            },
            final(self)@ == old(self)@.after_open_sent(handle@, uri@.locator(), sent is Ok),
    {
        match self.position_of(handle) {
            Some(i) => {
                assert(record_wf(self.records[i as int], self.next_id));
                match self.records[i].state {
                    ConnectionState::Ready => {
                        let result = self.records[i].documents.document_open_sent(uri, sent);
                        proof {
                            lemma_record_updated(old(self).records@, self.records@, i as int);
                            if sent is Err {
                                assert(self@.connections =~= old(self)@.connections);
                            }
                        }
                        result
                    },
                    _ => Err(SyncError::SendFailed),
                }
            },
            None => Err(SyncError::SendFailed),
        }
    }

    /// What has to be sent so that the virtual document is closed on the
    /// connection that `handle` refers to: the close notification if the
    /// document is open there, and nothing if it is not open or the
    /// connection is gone or not ready. The documents of a connection that is
    /// gone were discarded with its record: there is nobody to notify.
    pub fn close_document(
        &self,
        handle: &ConnectionHandle,
        uri: &VirtualDocumentUri,
    ) -> (to_send: Option<DidCloseNotification>)
        requires
            self.wf(),
        ensures
            match to_send {
                Some(notification) => {
                    &&& self@.can_send(handle@)
                    &&& self@.opened(handle@).contains(uri@.locator())
                    &&& notification.uri@ == uri@.locator()
                },
                None => !(self@.can_send(handle@) && self@.opened(handle@).contains(
                    uri@.locator(),
                )),
            },
    {
        match self.position_of(handle) {
            Some(i) => {
                assert(record_wf(self.records[i as int], self.next_id));
                match self.records[i].state {
                    ConnectionState::Ready => self.records[i].documents.close_document(uri),
                    _ => None,
                }
            },
            None => None,
        }
    }

    /// Records how sending the close notification of the virtual document
    /// went. The document leaves the set only after a successful send; after
    /// a failed one it stays and the error is handed back. Where the
    /// connection is gone or not ready there is nothing to close: the answer
    /// is `Ok` and nothing changes.
    pub fn document_close_sent(
        &mut self,
        handle: &ConnectionHandle,
        uri: &VirtualDocumentUri,
        sent: Result<(), SyncError>,
    ) -> (result: Result<(), SyncError>)
        requires
            old(self).wf(),
        ensures
            final(self).wf(),
            result == if old(self)@.can_send(handle@) {
                sent
            } else {
                Ok(())
            },
            final(self)@ == old(self)@.after_close_sent(handle@, uri@.locator(), sent is Ok),
    {
        match self.position_of(handle) {
            Some(i) => {
                assert(record_wf(self.records[i as int], self.next_id));
                match self.records[i].state {
                    ConnectionState::Ready => {
                        let result = self.records[i].documents.document_close_sent(uri, sent);
                        proof {
                            lemma_record_updated(old(self).records@, self.records@, i as int);
                            if sent is Err {
                                assert(self@.connections =~= old(self)@.connections);
                            }
                        }
                        result
                    },
                    _ => Ok(()),
                }
            },
            None => Ok(()),
        }
    }

    /// Evicts the record of `server_name`, with the documents open on it:
    /// the next caller that asks for the server starts afresh. Returns
    /// whether there was a record.
    pub fn evict(&mut self, server_name: &str) -> (evicted: bool)
        requires
            old(self).wf(),
        ensures
            final(self).wf(),
            evicted == old(self)@.connections.contains_key(server_name@),
            final(self)@ == old(self)@.after_evict(server_name@),
    {
        match self.position(&String::from_str(server_name)) {
            Some(i) => {
                self.records.swap_remove(i);
                proof {
                    lemma_record_removed(old(self).records@, self.records@, i as int);
                }
                true
            },
            None => {
                assert(self@.connections.remove(server_name@) =~= self@.connections);
                false
            },
        }
    }

    /// Evicts the record that `handle` refers to, with the documents open on
    /// it. Does nothing where the pool does not hold that record, also where
    /// a newer record stands under the same name. Returns whether the record
    /// was evicted.
    pub fn evict_connection(&mut self, handle: &ConnectionHandle) -> (evicted: bool)
        requires
            old(self).wf(),
        ensures
            final(self).wf(),
            evicted == old(self)@.is_live(handle@),
            final(self)@ == if old(self)@.is_live(handle@) {
                old(self)@.after_evict(handle@.server_name)
            } else {
                old(self)@
            },
    {
        match self.position_of(handle) {
            Some(i) => {
                self.records.swap_remove(i);
                proof {
                    lemma_record_removed(old(self).records@, self.records@, i as int);
                }
                true
            },
            None => false,
        }
    }
}

/// One call that may change the pool, as the pool sees it: the calls of
/// many concurrent callers reach the pool one at a time, in some order.
pub enum PoolCall {
    /// `get_or_create_connection_wait_ready`.
    Request { server_name: Seq<char>, timed_out: bool },
    /// `connection_event`.
    Event { handle: ConnectionHandleView, event: ConnectionEvent, metadata: Seq<char> },
    /// `evict`.
    Evict { server_name: Seq<char> },
    /// `document_open_sent`.
    OpenSent { handle: ConnectionHandleView, locator: Seq<char>, sent: bool },
    /// `document_close_sent`.
    CloseSent { handle: ConnectionHandleView, locator: Seq<char>, sent: bool },
}

impl PoolView {
    /// The pool after `call`.
    pub open spec fn after_call(self, call: PoolCall) -> PoolView {
        match call {
            PoolCall::Request { server_name, timed_out } => self.after_ready_step(
                server_name,
                timed_out,
            ),
            PoolCall::Event { handle, event, metadata } => self.after_event(
                handle,
                event,
                metadata,
            ),
            PoolCall::Evict { server_name } => self.after_evict(server_name),
            PoolCall::OpenSent { handle, locator, sent } => self.after_open_sent(
                handle,
                locator,
                sent,
            ),
            PoolCall::CloseSent { handle, locator, sent } => self.after_close_sent(
                handle,
                locator,
                sent,
            ),
        }
    }

    /// The pool after `calls`, in order.
    pub open spec fn after_calls(self, calls: Seq<PoolCall>) -> PoolView
        decreases calls.len(),
    {
        if calls.len() == 0 {
            self
        } else {
            self.after_calls(calls.drop_last()).after_call(calls.last())
        }
    }
}

/// No call breaks what holds of every pool.
pub proof fn law_calls_keep_pool_well_formed(pool: PoolView, call: PoolCall)
    requires
        pool.wf(),
    ensures
        pool.after_call(call).wf(),
{
}

/// Only eviction discards a record: after any other call the server still
/// has its record, under the same number.
pub proof fn law_only_eviction_discards(pool: PoolView, call: PoolCall, name: Seq<char>)
    requires
        pool.connections.contains_key(name),
        call != (PoolCall::Evict { server_name: name }),
    ensures
        pool.after_call(call).connections.contains_key(name),
        pool.after_call(call).connections[name].id == pool.connections[name].id,
{
}

/// `Ready` and `Failed` stand until eviction: after any other call the
/// connection is in the same state, and every caller that asks for the
/// server gets the answer it would have got before, the same handle or the
/// same failure.
pub proof fn law_settled_connection_stands(
    pool: PoolView,
    call: PoolCall,
    name: Seq<char>,
    timed_out: bool,
)
    requires
        pool.state_of(name) == ConnectionState::Ready || pool.state_of(name) is Failed,
        call != (PoolCall::Evict { server_name: name }),
    ensures
        pool.after_call(call).state_of(name) == pool.state_of(name),
        pool.after_call(call).ready_step(name, timed_out) == pool.ready_step(name, false),
{
}

/// A caller whose time is up gets `Timeout` while the attempt is under way,
/// and its call changes nothing: the attempt goes on for the others.
pub proof fn law_timeout_leaves_attempt_alone(pool: PoolView, name: Seq<char>)
    ensures
        pool.after_ready_step(name, true) == pool,
        pool.state_of(name).in_flight() ==> pool.ready_step(name, true) == ReadyStepView::Failed(
            ConnectionError::Timeout,
        ),
{
}

/// The handle that a caller is told to spawn under refers to no record that
/// the pool holds or ever held: its number is above every number in use.
pub proof fn law_spawn_handle_is_fresh(pool: PoolView, name: Seq<char>, other: Seq<char>)
    requires
        pool.wf(),
        pool.ready_step(name, false) is Spawn,
        pool.connections.contains_key(other),
    ensures
        pool.connections[other].id < pool.ready_step(name, false)->Spawn_0.id,
{
}

/// A record that is there stays there while it is not evicted.
proof fn lemma_record_stays(pool: PoolView, calls: Seq<PoolCall>, name: Seq<char>, i: int, j: int)
    requires
        0 <= i <= j <= calls.len(),
        pool.after_calls(calls.take(i)).connections.contains_key(name),
        forall|m: int| i <= m < j ==> calls[m] != (PoolCall::Evict { server_name: name }),
    ensures
        pool.after_calls(calls.take(j)).connections.contains_key(name),
    decreases j - i,
{
    if i < j {
        lemma_record_stays(pool, calls, name, i, j - 1);
        assert(calls.take(j).drop_last() =~= calls.take(j - 1));
        assert(calls.take(j).last() == calls[j - 1]);
        law_only_eviction_discards(pool.after_calls(calls.take(j - 1)), calls[j - 1], name);
    }
}

/// At most one caller launches a server: between two callers that ask for
/// the server `name` and are both told to spawn it, whatever else is called
/// in between and in whatever order, the record of `name` is evicted.
pub proof fn law_one_spawn_until_evicted(
    pool: PoolView,
    calls: Seq<PoolCall>,
    name: Seq<char>,
    i: int,
    j: int,
)
    requires
        0 <= i < j < calls.len(),
        calls[i] == (PoolCall::Request { server_name: name, timed_out: false }),
        calls[j] == (PoolCall::Request { server_name: name, timed_out: false }),
        pool.after_calls(calls.take(i)).ready_step(name, false) is Spawn,
        pool.after_calls(calls.take(j)).ready_step(name, false) is Spawn,
    ensures
        exists|m: int| i < m < j && calls[m] == (PoolCall::Evict { server_name: name }),
{
    if forall|m: int| i < m < j ==> calls[m] != (PoolCall::Evict { server_name: name }) {
        assert(calls.take(i + 1).drop_last() =~= calls.take(i));
        assert(calls.take(i + 1).last() == calls[i]);
        assert(pool.after_calls(calls.take(i + 1)).connections.contains_key(name));
        lemma_record_stays(pool, calls, name, i + 1, j);
    }
}

} // verus!
