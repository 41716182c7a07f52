use kakehashi::lsp::bridge::pool::{
    ConnectionError, ConnectionEvent, ConnectionHandle, ConnectionState, LanguageServerPool,
    ReadyStep,
};
use kakehashi::lsp::bridge::protocol::{SyncError, VirtualDocumentUri};
use kakehashi::lsp::bridge::text_document::did_open::{EagerOpen, EagerOpenFailure};

const TEST_ULID_LUA_0: &str = "01ARZ3NDEKTSV4RRFFQ69G5FA0";
const TEST_ULID_LUA_1: &str = "01ARZ3NDEKTSV4RRFFQ69G5FA1";
const TEST_ULID_LUA_2: &str = "01ARZ3NDEKTSV4RRFFQ69G5FA2";

fn test_host_uri(name: &str) -> String {
    format!("file:///test/{}.md", name)
}

/// A pool that holds a connection to `server_name` in `state`.
fn pool_with_connection(server_name: &str, state: ConnectionState) -> (LanguageServerPool, ConnectionHandle) {
    let mut pool = LanguageServerPool::new();
    let handle = match pool.get_or_create_connection_wait_ready(server_name, false) {
        ReadyStep::Spawn(handle) => handle,
        other => panic!("{:?}", other),
    };
    match state {
        ConnectionState::Spawning => {}
        ConnectionState::Initializing => {
            assert!(pool.connection_event(&handle, ConnectionEvent::HandshakeSent, ""));
        }
        ConnectionState::Ready => {
            assert!(pool.connection_event(&handle, ConnectionEvent::HandshakeSent, ""));
            assert!(pool.connection_event(&handle, ConnectionEvent::HandshakeCompleted, "{}"));
        }
        ConnectionState::Failed(error) => {
            assert!(pool.connection_event(&handle, ConnectionEvent::Failed(error), ""));
        }
        ConnectionState::Uninitialized => {
            assert!(pool.evict(server_name));
        }
    }
    assert_eq!(pool.connection_state(server_name), state);
    (pool, handle)
}

/// What the caller of the pool does: waits for the server (here without
/// waiting) and hands the outcome on.
fn readiness(pool: &mut LanguageServerPool, server_name: &str) -> Result<ConnectionHandle, ConnectionError> {
    match pool.get_or_create_connection_wait_ready(server_name, false) {
        ReadyStep::Ready(handle) => Ok(handle),
        ReadyStep::Failed(error) => Err(error),
        ReadyStep::Spawn(_) | ReadyStep::Wait => {
            match pool.get_or_create_connection_wait_ready(server_name, true) {
                ReadyStep::Ready(handle) => Ok(handle),
                ReadyStep::Failed(error) => Err(error),
                other => panic!("{:?}", other),
            }
        }
    }
}

/// A connection double: takes the notifications of an eager open and lets
/// the send of some locators fail. Returns what it was given, in order.
fn drive(run: &mut EagerOpen, pool: &mut LanguageServerPool, failing: &[String]) -> Vec<(String, String)> {
    let mut received = Vec::new();
    loop {
        let outcome = match run.next_notification() {
            None => break,
            Some(notification) => {
                assert_eq!(notification.version, 1);
                received.push((notification.uri.clone(), notification.text.clone()));
                if failing.contains(&notification.uri) {
                    Err(SyncError::SendFailed)
                } else {
                    Ok(())
                }
            }
        };
        run.document_open_sent(pool, outcome);
    }
    assert!(run.is_done());
    received
}

fn eager_open(
    pool: &mut LanguageServerPool,
    server_name: &str,
    host_uri: &str,
    injections: Vec<(String, String, String)>,
    failing: &[String],
) -> (Vec<(String, String)>, Vec<EagerOpenFailure>) {
    let ready = readiness(pool, server_name);
    let mut run = pool.eager_open_virtual_documents(ready, host_uri, injections);
    let received = drive(&mut run, pool, failing);
    (received, run.failures().clone())
}

fn injection(language: &str, region: &str, content: &str) -> (String, String, String) {
    (language.to_string(), region.to_string(), content.to_string())
}

#[test]
fn eager_open_marks_documents_as_opened() {
    let server_name = "test-server";
    let (mut pool, _handle) = pool_with_connection(server_name, ConnectionState::Ready);

    let host_uri = test_host_uri("eager_open");

    let injections = vec![
        ("lua".to_string(), TEST_ULID_LUA_0.to_string(), "print('hello')".to_string()),
        ("lua".to_string(), TEST_ULID_LUA_1.to_string(), "print('world')".to_string()),
    ];

    let (received, failures) = eager_open(&mut pool, server_name, &host_uri, injections, &[]);

    let vuri_0 = VirtualDocumentUri::new(&host_uri, "lua", TEST_ULID_LUA_0);
    let vuri_1 = VirtualDocumentUri::new(&host_uri, "lua", TEST_ULID_LUA_1);

    assert!(
        pool.is_document_opened(&vuri_0),
        "First virtual document should be marked as opened"
    );
    assert!(
        pool.is_document_opened(&vuri_1),
        "Second virtual document should be marked as opened"
    );
    assert_eq!(
        received,
        vec![
            (vuri_0.to_uri_string(), "print('hello')".to_string()),
            (vuri_1.to_uri_string(), "print('world')".to_string()),
        ]
    );
    assert!(failures.is_empty());
}

#[test]
fn eager_open_is_idempotent() {
    let server_name = "test-server";
    let (mut pool, _handle) = pool_with_connection(server_name, ConnectionState::Ready);

    let host_uri = test_host_uri("idempotent");

    let injections =
        vec![("lua".to_string(), TEST_ULID_LUA_0.to_string(), "print('hello')".to_string())];

    let (first, _) = eager_open(&mut pool, server_name, &host_uri, injections.clone(), &[]);

    let vuri = VirtualDocumentUri::new(&host_uri, "lua", TEST_ULID_LUA_0);
    assert!(pool.is_document_opened(&vuri), "Should be opened after first call");
    assert_eq!(first.len(), 1);

    let (second, failures) = eager_open(&mut pool, server_name, &host_uri, injections, &[]);

    assert!(pool.is_document_opened(&vuri), "Should still be opened after second call");
    assert!(second.is_empty());
    assert!(failures.is_empty());
}

#[test]
fn second_eager_open_is_done_as_it_starts() {
    let (mut pool, handle) = pool_with_connection("test-server", ConnectionState::Ready);
    let host_uri = test_host_uri("idempotent");
    let injections = vec![
        injection("lua", TEST_ULID_LUA_0, "a"),
        injection("lua", TEST_ULID_LUA_1, "b"),
        injection("lua", TEST_ULID_LUA_2, "c"),
    ];
    eager_open(&mut pool, "test-server", &host_uri, injections.clone(), &[]);
    let run = pool.eager_open_virtual_documents(Ok(handle.clone()), &host_uri, injections);
    assert!(run.is_done());
    assert_eq!(run.next_notification(), None);
    assert!(run.failures().is_empty());
    assert_eq!(run.handle(), Some(&handle));
}

#[test]
fn failure_of_one_region_does_not_stop_the_others() {
    let server_name = "test-server";
    let (mut pool, _handle) = pool_with_connection(server_name, ConnectionState::Ready);
    let host_uri = test_host_uri("partial");
    let vuri_0 = VirtualDocumentUri::new(&host_uri, "lua", TEST_ULID_LUA_0);
    let vuri_1 = VirtualDocumentUri::new(&host_uri, "lua", TEST_ULID_LUA_1);
    let vuri_2 = VirtualDocumentUri::new(&host_uri, "lua", TEST_ULID_LUA_2);
    let injections = vec![
        injection("lua", TEST_ULID_LUA_0, "print(0)"),
        injection("lua", TEST_ULID_LUA_1, "print(1)"),
        injection("lua", TEST_ULID_LUA_2, "print(2)"),
    ];

    let (received, failures) = eager_open(
        &mut pool,
        server_name,
        &host_uri,
        injections.clone(),
        &[vuri_1.to_uri_string()],
    );

    assert!(pool.is_document_opened(&vuri_0));
    assert!(!pool.is_document_opened(&vuri_1));
    assert!(pool.is_document_opened(&vuri_2));
    assert_eq!(received.len(), 3);
    assert_eq!(received[2], (vuri_2.to_uri_string(), "print(2)".to_string()));
    assert_eq!(
        failures,
        vec![EagerOpenFailure::OpenFailed { region: 1, error: SyncError::SendFailed }]
    );

    // the next edit cycle attempts the region that failed, and only that one
    let (retried, failures) = eager_open(&mut pool, server_name, &host_uri, injections, &[]);
    assert_eq!(retried, vec![(vuri_1.to_uri_string(), "print(1)".to_string())]);
    assert!(failures.is_empty());
    assert!(pool.is_document_opened(&vuri_1));
}

#[test]
fn every_region_may_fail() {
    let (mut pool, _handle) = pool_with_connection("test-server", ConnectionState::Ready);
    let host_uri = test_host_uri("all_fail");
    let vuri_0 = VirtualDocumentUri::new(&host_uri, "lua", TEST_ULID_LUA_0);
    let vuri_1 = VirtualDocumentUri::new(&host_uri, "lua", TEST_ULID_LUA_1);
    let injections =
        vec![injection("lua", TEST_ULID_LUA_0, "a"), injection("lua", TEST_ULID_LUA_1, "b")];
    let (received, failures) = eager_open(
        &mut pool,
        "test-server",
        &host_uri,
        injections,
        &[vuri_0.to_uri_string(), vuri_1.to_uri_string()],
    );
    assert_eq!(received.len(), 2);
    assert_eq!(
        failures,
        vec![
            EagerOpenFailure::OpenFailed { region: 0, error: SyncError::SendFailed },
            EagerOpenFailure::OpenFailed { region: 1, error: SyncError::SendFailed },
        ]
    );
    assert!(!pool.is_document_opened(&vuri_0));
    assert!(!pool.is_document_opened(&vuri_1));
}

#[test]
fn server_that_is_not_ready_skips_every_region() {
    for (state, error) in [
        (ConnectionState::Initializing, ConnectionError::Timeout),
        (ConnectionState::Spawning, ConnectionError::Timeout),
        (
            ConnectionState::Failed(ConnectionError::SpawnFailed),
            ConnectionError::SpawnFailed,
        ),
        (
            ConnectionState::Failed(ConnectionError::HandshakeFailed),
            ConnectionError::HandshakeFailed,
        ),
    ] {
        let (mut pool, _handle) = pool_with_connection("test-server", state);
        let host_uri = test_host_uri("not_ready");
        let injections =
            vec![injection("lua", TEST_ULID_LUA_0, "a"), injection("lua", TEST_ULID_LUA_1, "b")];
        let (received, failures) = eager_open(&mut pool, "test-server", &host_uri, injections, &[]);
        assert!(received.is_empty());
        assert_eq!(failures, vec![EagerOpenFailure::ServerNotReady { skipped: 2, reason: error }]);
        assert!(!pool.is_document_opened(&VirtualDocumentUri::new(&host_uri, "lua", TEST_ULID_LUA_0)));
        assert!(!pool.is_document_opened(&VirtualDocumentUri::new(&host_uri, "lua", TEST_ULID_LUA_1)));
        assert_eq!(pool.connection_state("test-server"), state);
    }
}

#[test]
fn not_ready_run_has_no_handle_and_is_done() {
    let pool = LanguageServerPool::new();
    let run = pool.eager_open_virtual_documents(
        Err(ConnectionError::Timeout),
        "file:///test/x.md",
        vec![injection("lua", TEST_ULID_LUA_0, "a")],
    );
    assert!(run.is_done());
    assert_eq!(run.handle(), None);
    assert_eq!(run.next_notification(), None);
    assert_eq!(
        run.failures().clone(),
        vec![EagerOpenFailure::ServerNotReady { skipped: 1, reason: ConnectionError::Timeout }]
    );
}

#[test]
fn empty_injection_list_sends_nothing() {
    let (mut pool, _handle) = pool_with_connection("test-server", ConnectionState::Ready);
    let (received, failures) =
        eager_open(&mut pool, "test-server", &test_host_uri("empty"), Vec::new(), &[]);
    assert!(received.is_empty());
    assert!(failures.is_empty());
}

#[test]
fn region_listed_twice_is_sent_once() {
    let (mut pool, _handle) = pool_with_connection("test-server", ConnectionState::Ready);
    let host_uri = test_host_uri("twice");
    let injections =
        vec![injection("lua", TEST_ULID_LUA_0, "a"), injection("lua", TEST_ULID_LUA_0, "a")];
    let (received, failures) = eager_open(&mut pool, "test-server", &host_uri, injections, &[]);
    assert_eq!(received.len(), 1);
    assert!(failures.is_empty());
}

#[test]
fn connection_that_goes_away_fails_the_remaining_regions() {
    let (mut pool, handle) = pool_with_connection("test-server", ConnectionState::Ready);
    let host_uri = test_host_uri("gone");
    let injections = vec![
        injection("lua", TEST_ULID_LUA_0, "a"),
        injection("lua", TEST_ULID_LUA_1, "b"),
        injection("lua", TEST_ULID_LUA_2, "c"),
    ];
    let mut run = pool.eager_open_virtual_documents(Ok(handle), &host_uri, injections);
    assert!(run.next_notification().is_some());
    run.document_open_sent(&mut pool, Ok(()));
    assert!(pool.is_document_opened(&VirtualDocumentUri::new(&host_uri, "lua", TEST_ULID_LUA_0)));
    assert!(run.next_notification().is_some());
    // the downstream process exits while the second notification is under way
    assert!(pool.evict("test-server"));
    run.document_open_sent(&mut pool, Ok(()));
    assert!(run.is_done());
    assert_eq!(run.next_notification(), None);
    assert_eq!(
        run.failures().clone(),
        vec![
            EagerOpenFailure::OpenFailed { region: 1, error: SyncError::SendFailed },
            EagerOpenFailure::OpenFailed { region: 2, error: SyncError::SendFailed },
        ]
    );
    assert!(!pool.is_document_opened(&VirtualDocumentUri::new(&host_uri, "lua", TEST_ULID_LUA_1)));
}

#[test]
fn report_after_the_end_changes_nothing() {
    let (mut pool, handle) = pool_with_connection("test-server", ConnectionState::Ready);
    let host_uri = test_host_uri("after_end");
    let mut run = pool.eager_open_virtual_documents(
        Ok(handle),
        &host_uri,
        vec![injection("lua", TEST_ULID_LUA_0, "a")],
    );
    run.document_open_sent(&mut pool, Ok(()));
    assert!(run.is_done());
    run.document_open_sent(&mut pool, Err(SyncError::SendFailed));
    run.document_open_sent(&mut pool, Ok(()));
    assert!(run.is_done());
    assert!(run.failures().is_empty());
    assert!(pool.is_document_opened(&VirtualDocumentUri::new(&host_uri, "lua", TEST_ULID_LUA_0)));
}

#[test]
fn regions_of_several_languages_get_their_own_documents() {
    let (mut pool, _handle) = pool_with_connection("test-server", ConnectionState::Ready);
    let host_uri = test_host_uri("languages");
    let injections = vec![
        injection("lua", TEST_ULID_LUA_0, "print(1)"),
        injection("python", TEST_ULID_LUA_0, "print(1)"),
    ];
    let (received, _) = eager_open(&mut pool, "test-server", &host_uri, injections, &[]);
    assert_eq!(received.len(), 2);
    assert_ne!(received[0].0, received[1].0);
}
