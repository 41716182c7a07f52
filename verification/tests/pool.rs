use kakehashi::lsp::bridge::pool::{
    ConnectionError, ConnectionEvent, ConnectionHandle, ConnectionState, LanguageServerPool,
    ReadyStep, INIT_TIMEOUT_SECS,
};
use kakehashi::lsp::bridge::protocol::{SyncError, VirtualDocumentUri};

const ALL_STATES: [ConnectionState; 7] = [
    ConnectionState::Uninitialized,
    ConnectionState::Spawning,
    ConnectionState::Initializing,
    ConnectionState::Ready,
    ConnectionState::Failed(ConnectionError::SpawnFailed),
    ConnectionState::Failed(ConnectionError::HandshakeFailed),
    ConnectionState::Failed(ConnectionError::Timeout),
];

const ALL_ERRORS: [ConnectionError; 3] =
    [ConnectionError::SpawnFailed, ConnectionError::HandshakeFailed, ConnectionError::Timeout];

fn spawn(pool: &mut LanguageServerPool, name: &str) -> ConnectionHandle {
    match pool.get_or_create_connection_wait_ready(name, false) {
        ReadyStep::Spawn(handle) => handle,
        other => panic!("expected to be told to spawn, got {:?}", other),
    }
}

fn make_ready(pool: &mut LanguageServerPool, name: &str) -> ConnectionHandle {
    let handle = spawn(pool, name);
    assert!(pool.connection_event(&handle, ConnectionEvent::HandshakeSent, ""));
    assert!(pool.connection_event(&handle, ConnectionEvent::HandshakeCompleted, "{}"));
    handle
}

fn uri(region: &str) -> VirtualDocumentUri {
    VirtualDocumentUri::new("file:///test/pool.md", "lua", region)
}

#[test]
fn transition_table_allows_exactly_the_documented_moves() {
    assert_eq!(ConnectionState::Uninitialized.transition(ConnectionEvent::SpawnRequested), Some(ConnectionState::Spawning));
    assert_eq!(ConnectionState::Spawning.transition(ConnectionEvent::HandshakeSent), Some(ConnectionState::Initializing));
    assert_eq!(ConnectionState::Initializing.transition(ConnectionEvent::HandshakeCompleted), Some(ConnectionState::Ready));
    for error in ALL_ERRORS {
        assert_eq!(ConnectionState::Spawning.transition(ConnectionEvent::Failed(error)), Some(ConnectionState::Failed(error)));
        assert_eq!(ConnectionState::Initializing.transition(ConnectionEvent::Failed(error)), Some(ConnectionState::Failed(error)));
    }
    let mut events = vec![ConnectionEvent::SpawnRequested, ConnectionEvent::HandshakeSent, ConnectionEvent::HandshakeCompleted];
    for error in ALL_ERRORS {
        events.push(ConnectionEvent::Failed(error));
    }
    let mut allowed = 0;
    for state in ALL_STATES {
        for event in events.iter() {
            if state.transition(*event).is_some() {
                allowed += 1;
            }
        }
    }
    assert_eq!(allowed, 3 + 3 + 3);
}

#[test]
fn ready_and_failed_allow_no_event() {
    for state in [
        ConnectionState::Ready,
        ConnectionState::Failed(ConnectionError::SpawnFailed),
        ConnectionState::Failed(ConnectionError::HandshakeFailed),
        ConnectionState::Failed(ConnectionError::Timeout),
    ] {
        assert_eq!(state.transition(ConnectionEvent::SpawnRequested), None);
        assert_eq!(state.transition(ConnectionEvent::HandshakeSent), None);
        assert_eq!(state.transition(ConnectionEvent::HandshakeCompleted), None);
        for error in ALL_ERRORS {
            assert_eq!(state.transition(ConnectionEvent::Failed(error)), None);
        }
    }
}

#[test]
fn no_shortcut_to_ready() {
    assert_eq!(ConnectionState::Uninitialized.transition(ConnectionEvent::HandshakeSent), None);
    assert_eq!(ConnectionState::Uninitialized.transition(ConnectionEvent::HandshakeCompleted), None);
    assert_eq!(ConnectionState::Uninitialized.transition(ConnectionEvent::Failed(ConnectionError::Timeout)), None);
    assert_eq!(ConnectionState::Spawning.transition(ConnectionEvent::HandshakeCompleted), None);
    assert_eq!(ConnectionState::Spawning.transition(ConnectionEvent::SpawnRequested), None);
    assert_eq!(ConnectionState::Initializing.transition(ConnectionEvent::HandshakeSent), None);
    assert_eq!(ConnectionState::Initializing.transition(ConnectionEvent::SpawnRequested), None);
}

#[test]
fn unknown_server_is_uninitialized() {
    let pool = LanguageServerPool::new();
    assert_eq!(pool.connection_state("test-server"), ConnectionState::Uninitialized);
}

#[test]
fn first_caller_spawns_and_the_record_walks_to_ready() {
    let mut pool = LanguageServerPool::new();
    let handle = spawn(&mut pool, "test-server");
    assert_eq!(handle.server_name(), "test-server");
    assert_eq!(handle.id(), 0);
    assert_eq!(pool.connection_state("test-server"), ConnectionState::Spawning);
    assert!(pool.connection_event(&handle, ConnectionEvent::HandshakeSent, ""));
    assert_eq!(pool.connection_state("test-server"), ConnectionState::Initializing);
    assert_eq!(pool.handshake_metadata(&handle), None);
    assert!(pool.connection_event(&handle, ConnectionEvent::HandshakeCompleted, "{\"caps\":1}"));
    assert_eq!(pool.connection_state("test-server"), ConnectionState::Ready);
    assert_eq!(pool.handshake_metadata(&handle), Some("{\"caps\":1}".to_string()));
    assert_eq!(
        pool.get_or_create_connection_wait_ready("test-server", false),
        ReadyStep::Ready(handle)
    );
}

#[test]
fn callers_share_one_spawn_and_one_ready_handle() {
    let mut pool = LanguageServerPool::new();
    // two callers at once: one spawns, the other waits on the same attempt
    let first = pool.get_or_create_connection_wait_ready("test-server", false);
    let second = pool.get_or_create_connection_wait_ready("test-server", false);
    let handle = match first {
        ReadyStep::Spawn(handle) => handle,
        other => panic!("{:?}", other),
    };
    assert_eq!(second, ReadyStep::Wait);

    // a third caller whose time is up gets Timeout; the attempt goes on
    assert!(pool.connection_event(&handle, ConnectionEvent::HandshakeSent, ""));
    assert_eq!(
        pool.get_or_create_connection_wait_ready("test-server", true),
        ReadyStep::Failed(ConnectionError::Timeout)
    );
    assert_eq!(pool.connection_state("test-server"), ConnectionState::Initializing);
    assert_eq!(pool.get_or_create_connection_wait_ready("test-server", false), ReadyStep::Wait);

    // the single attempt completes: both first callers see the same handle
    assert!(pool.connection_event(&handle, ConnectionEvent::HandshakeCompleted, "{}"));
    let seen_by_first = pool.get_or_create_connection_wait_ready("test-server", false);
    let seen_by_second = pool.get_or_create_connection_wait_ready("test-server", false);
    assert_eq!(seen_by_first, ReadyStep::Ready(handle.clone()));
    assert_eq!(seen_by_second, seen_by_first);

    // a fourth caller still succeeds, and so does a late one whose time is up
    assert_eq!(
        pool.get_or_create_connection_wait_ready("test-server", false),
        ReadyStep::Ready(handle.clone())
    );
    assert_eq!(
        pool.get_or_create_connection_wait_ready("test-server", true),
        ReadyStep::Ready(handle)
    );
}

#[test]
fn timed_out_caller_of_unknown_server_spawns_nothing() {
    let mut pool = LanguageServerPool::new();
    assert_eq!(
        pool.get_or_create_connection_wait_ready("test-server", true),
        ReadyStep::Failed(ConnectionError::Timeout)
    );
    assert_eq!(pool.connection_state("test-server"), ConnectionState::Uninitialized);
    let handle = spawn(&mut pool, "test-server");
    assert_eq!(handle.id(), 0);
}

#[test]
fn every_waiter_gets_the_same_failure() {
    for error in ALL_ERRORS {
        let mut pool = LanguageServerPool::new();
        let handle = spawn(&mut pool, "test-server");
        assert_eq!(pool.get_or_create_connection_wait_ready("test-server", false), ReadyStep::Wait);
        assert!(pool.connection_event(&handle, ConnectionEvent::Failed(error), ""));
        assert_eq!(pool.connection_state("test-server"), ConnectionState::Failed(error));
        for timed_out in [false, true, false] {
            assert_eq!(
                pool.get_or_create_connection_wait_ready("test-server", timed_out),
                ReadyStep::Failed(error)
            );
        }
    }
}

#[test]
fn handshake_can_fail_after_it_was_sent() {
    let mut pool = LanguageServerPool::new();
    let handle = spawn(&mut pool, "test-server");
    assert!(pool.connection_event(&handle, ConnectionEvent::HandshakeSent, ""));
    assert!(pool.connection_event(
        &handle,
        ConnectionEvent::Failed(ConnectionError::HandshakeFailed),
        ""
    ));
    assert_eq!(
        pool.connection_state("test-server"),
        ConnectionState::Failed(ConnectionError::HandshakeFailed)
    );
    assert_eq!(pool.handshake_metadata(&handle), None);
}

#[test]
fn events_out_of_order_are_refused_and_change_nothing() {
    let mut pool = LanguageServerPool::new();
    let handle = spawn(&mut pool, "test-server");
    assert!(!pool.connection_event(&handle, ConnectionEvent::HandshakeCompleted, "{}"));
    assert!(!pool.connection_event(&handle, ConnectionEvent::SpawnRequested, ""));
    assert_eq!(pool.connection_state("test-server"), ConnectionState::Spawning);
    assert!(pool.connection_event(&handle, ConnectionEvent::HandshakeSent, ""));
    assert!(!pool.connection_event(&handle, ConnectionEvent::HandshakeSent, ""));
    assert!(pool.connection_event(&handle, ConnectionEvent::HandshakeCompleted, "{}"));
    assert!(!pool.connection_event(&handle, ConnectionEvent::Failed(ConnectionError::Timeout), ""));
    assert!(!pool.connection_event(&handle, ConnectionEvent::HandshakeCompleted, "other"));
    assert_eq!(pool.connection_state("test-server"), ConnectionState::Ready);
    assert_eq!(pool.handshake_metadata(&handle), Some("{}".to_string()));
}

#[test]
fn eviction_discards_the_record_and_the_next_caller_starts_afresh() {
    let mut pool = LanguageServerPool::new();
    let old = make_ready(&mut pool, "test-server");
    assert!(pool.evict("test-server"));
    assert!(!pool.evict("test-server"));
    assert_eq!(pool.connection_state("test-server"), ConnectionState::Uninitialized);

    let new = spawn(&mut pool, "test-server");
    assert_ne!(new, old);
    assert_eq!(new.id(), 1);
    assert_eq!(pool.connection_state("test-server"), ConnectionState::Spawning);

    // the old handle refers to nothing: its events do not reach the new record
    assert!(!pool.connection_event(&old, ConnectionEvent::HandshakeSent, ""));
    assert!(!pool.connection_event(&old, ConnectionEvent::Failed(ConnectionError::Timeout), ""));
    assert_eq!(pool.connection_state("test-server"), ConnectionState::Spawning);
    assert_eq!(pool.handshake_metadata(&old), None);
}

#[test]
fn failed_record_is_replaced_only_after_eviction() {
    let mut pool = LanguageServerPool::new();
    let handle = spawn(&mut pool, "test-server");
    assert!(pool.connection_event(&handle, ConnectionEvent::Failed(ConnectionError::SpawnFailed), ""));
    assert_eq!(
        pool.get_or_create_connection_wait_ready("test-server", false),
        ReadyStep::Failed(ConnectionError::SpawnFailed)
    );
    assert!(pool.evict("test-server"));
    let again = spawn(&mut pool, "test-server");
    assert_eq!(again.id(), 1);
}

#[test]
fn servers_are_independent() {
    let mut pool = LanguageServerPool::new();
    let lua = make_ready(&mut pool, "lua-ls");
    let rust = spawn(&mut pool, "rust-analyzer");
    assert_eq!(lua.id(), 0);
    assert_eq!(rust.id(), 1);
    assert_eq!(pool.connection_state("lua-ls"), ConnectionState::Ready);
    assert_eq!(pool.connection_state("rust-analyzer"), ConnectionState::Spawning);
    assert!(pool.connection_event(&rust, ConnectionEvent::Failed(ConnectionError::SpawnFailed), ""));
    assert_eq!(pool.connection_state("lua-ls"), ConnectionState::Ready);
    assert!(pool.evict("lua-ls"));
    assert_eq!(
        pool.connection_state("rust-analyzer"),
        ConnectionState::Failed(ConnectionError::SpawnFailed)
    );
    assert_eq!(pool.connection_state("lua-ls"), ConnectionState::Uninitialized);
}

#[test]
fn documents_are_opened_per_connection() {
    let mut pool = LanguageServerPool::new();
    let handle = make_ready(&mut pool, "test-server");
    let to_send = pool.ensure_document_opened(&handle, &uri("R0"), "print('hello')");
    assert_eq!(to_send, Ok(Some(uri("R0").did_open("print('hello')"))));
    assert!(!pool.is_document_opened(&uri("R0")));
    assert_eq!(pool.document_open_sent(&handle, &uri("R0"), Ok(())), Ok(()));
    assert!(pool.is_document_opened(&uri("R0")));
    assert_eq!(pool.ensure_document_opened(&handle, &uri("R0"), "print('hello')"), Ok(None));

    // another connection has its own set
    let other = make_ready(&mut pool, "other-server");
    assert!(matches!(pool.ensure_document_opened(&other, &uri("R0"), "x"), Ok(Some(_))));
}

#[test]
fn failed_send_is_handed_back_and_opens_nothing() {
    let mut pool = LanguageServerPool::new();
    let handle = make_ready(&mut pool, "test-server");
    assert_eq!(
        pool.document_open_sent(&handle, &uri("R0"), Err(SyncError::SendFailed)),
        Err(SyncError::SendFailed)
    );
    assert!(!pool.is_document_opened(&uri("R0")));
    assert!(matches!(pool.ensure_document_opened(&handle, &uri("R0"), "x"), Ok(Some(_))));
}

#[test]
fn nothing_is_sent_on_a_connection_that_is_not_ready() {
    let mut pool = LanguageServerPool::new();
    let handle = spawn(&mut pool, "test-server");
    assert_eq!(pool.ensure_document_opened(&handle, &uri("R0"), "x"), Err(SyncError::SendFailed));
    assert_eq!(pool.document_open_sent(&handle, &uri("R0"), Ok(())), Err(SyncError::SendFailed));
    assert!(!pool.is_document_opened(&uri("R0")));
    assert!(pool.connection_event(&handle, ConnectionEvent::HandshakeSent, ""));
    assert_eq!(pool.ensure_document_opened(&handle, &uri("R0"), "x"), Err(SyncError::SendFailed));
}

#[test]
fn eviction_discards_the_open_documents() {
    let mut pool = LanguageServerPool::new();
    let handle = make_ready(&mut pool, "test-server");
    pool.document_open_sent(&handle, &uri("R0"), Ok(())).unwrap();
    assert!(pool.is_document_opened(&uri("R0")));
    assert!(pool.evict("test-server"));
    assert!(!pool.is_document_opened(&uri("R0")));
    // nothing to close, nobody to notify
    assert_eq!(pool.close_document(&handle, &uri("R0")), None);
    assert_eq!(pool.document_close_sent(&handle, &uri("R0"), Ok(())), Ok(()));
    assert_eq!(pool.document_open_sent(&handle, &uri("R0"), Ok(())), Err(SyncError::SendFailed));
    // the new connection starts with nothing open
    let new = make_ready(&mut pool, "test-server");
    assert!(matches!(pool.ensure_document_opened(&new, &uri("R0"), "x"), Ok(Some(_))));
}

#[test]
fn close_removes_the_document_only_after_a_successful_send() {
    let mut pool = LanguageServerPool::new();
    let handle = make_ready(&mut pool, "test-server");
    pool.document_open_sent(&handle, &uri("R0"), Ok(())).unwrap();
    let to_send = pool.close_document(&handle, &uri("R0")).unwrap();
    assert_eq!(to_send.uri, uri("R0").to_uri_string());
    assert_eq!(
        pool.document_close_sent(&handle, &uri("R0"), Err(SyncError::SendFailed)),
        Err(SyncError::SendFailed)
    );
    assert!(pool.is_document_opened(&uri("R0")));
    assert_eq!(pool.document_close_sent(&handle, &uri("R0"), Ok(())), Ok(()));
    assert!(!pool.is_document_opened(&uri("R0")));
    assert_eq!(pool.close_document(&handle, &uri("R0")), None);
}

#[test]
fn init_timeout_is_thirty_seconds() {
    assert_eq!(INIT_TIMEOUT_SECS, 30);
}

#[test]
fn evict_connection_spares_a_newer_record() {
    let mut pool = LanguageServerPool::new();
    let old = make_ready(&mut pool, "test-server");
    assert!(pool.evict_connection(&old));
    assert!(!pool.evict_connection(&old));
    assert_eq!(pool.connection_state("test-server"), ConnectionState::Uninitialized);
    let new = make_ready(&mut pool, "test-server");
    assert!(!pool.evict_connection(&old));
    assert_eq!(pool.connection_state("test-server"), ConnectionState::Ready);
    assert!(pool.evict_connection(&new));
    assert_eq!(pool.connection_state("test-server"), ConnectionState::Uninitialized);
}
