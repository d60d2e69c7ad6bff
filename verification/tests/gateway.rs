use tapo_gateway::credential::resolve_credential;
use tapo_gateway::errors::ApiError;
use tapo_gateway::registry::DeviceRegistry;
use tapo_gateway::sessions::SessionStore;
use tapo_gateway::state::{action_outcome, SharedState};

fn state_with(credential: &str, devices: &[&str]) -> SharedState {
    let names: Vec<String> = devices.iter().map(|d| d.to_string()).collect();
    SharedState::init(credential.to_string(), names, SessionStore::new())
}

#[test]
fn credential_inline_only_succeeds() {
    let r = resolve_credential(Some("secret123".to_string()), None);
    assert_eq!(r.unwrap(), "secret123");
}

#[test]
fn credential_file_only_succeeds() {
    let r = resolve_credential(None, Some("from-the-file".to_string()));
    assert_eq!(r.unwrap(), "from-the-file");
}

#[test]
fn credential_both_sources_fail() {
    let r = resolve_credential(Some("a".to_string()), Some("b".to_string()));
    let e = r.unwrap_err();
    assert!(matches!(e, ApiError::Config { .. }));
    assert_eq!(e.status_code(), 500);
}

#[test]
fn credential_no_source_fails() {
    let r = resolve_credential(None, None);
    let e = r.unwrap_err();
    assert!(matches!(e, ApiError::Config { .. }));
    assert_eq!(e.status_code(), 500);
}

#[test]
fn login_with_configured_credential_succeeds_and_persists() {
    let mut st = state_with("secret123", &["lamp"]);
    let token = b"tok-1".to_vec();
    let bytes = st
        .login_begin(&"secret123".to_string(), &token)
        .expect("exact credential must log in");
    // What must stand on disk decodes to exactly the one new session.
    let on_disk = SessionStore::decode(&bytes).expect("fresh file must decode");
    assert_eq!(on_disk.count(), 1);
    assert_eq!(on_disk.token_at(0), &token);
    // The write succeeded, so the session enters memory too.
    st.login_commit(token.clone(), Ok(())).expect("commit after a good write");
    assert_eq!(st.store().count(), 1);
    assert_eq!(st.store().token_at(0), &token);
}

#[test]
fn login_with_wrong_credential_is_unauthorized() {
    let st = state_with("secret123", &["lamp"]);
    let e = st
        .login_begin(&"wrong".to_string(), &b"tok".to_vec())
        .unwrap_err();
    assert!(matches!(e, ApiError::Unauthorized));
    assert_eq!(e.status_code(), 401);
    assert_eq!(e.message(), "invalid credentials");
    // No state mutation and nothing to write.
    assert_eq!(st.store().count(), 0);
}

#[test]
fn login_write_failure_keeps_memory_behind_disk() {
    let mut st = state_with("secret123", &[]);
    let token = b"tok".to_vec();
    st.login_begin(&"secret123".to_string(), &token).unwrap();
    let e = st
        .login_commit(token, Err("disk full".to_string()))
        .unwrap_err();
    assert!(matches!(e, ApiError::PersistenceFailure { .. }));
    assert_eq!(e.status_code(), 500);
    assert_eq!(e.message(), "session store failure: disk full");
    assert_eq!(st.store().count(), 0);
}

#[test]
fn refresh_known_device_records_exactly_one_invocation() {
    let mut st = state_with("pw", &["lamp", "plug"]);
    let i = st.find_device(&"lamp".to_string()).expect("known device");
    st.refresh_finish(i, Ok(())).expect("driver succeeded");
    let reg = st.registry();
    let lamp = reg.lookup(&"lamp".to_string()).unwrap();
    let plug = reg.lookup(&"plug".to_string()).unwrap();
    assert_eq!(reg.count_at(lamp), 1);
    assert_eq!(reg.count_at(plug), 0);
}

#[test]
fn refresh_unknown_device_is_not_found_and_touches_nothing() {
    let st = state_with("pw", &["lamp"]);
    let e = st.find_device(&"living-room-plug".to_string()).unwrap_err();
    assert_eq!(e.status_code(), 404);
    assert_eq!(e.message(), "unknown device: living-room-plug");
    assert!(matches!(e, ApiError::NotFound { device } if device == "living-room-plug"));
    let reg = st.registry();
    assert_eq!(reg.device_count(), 1);
    assert_eq!(reg.count_at(0), 0);
}

#[test]
fn refresh_driver_failure_is_surfaced_and_changes_nothing() {
    let mut st = state_with("pw", &["lamp"]);
    let i = st.find_device(&"lamp".to_string()).unwrap();
    let e = st
        .refresh_finish(i, Err("device unreachable".to_string()))
        .unwrap_err();
    assert!(matches!(e, ApiError::UpstreamFailure { .. }));
    assert_eq!(e.status_code(), 502);
    assert_eq!(e.message(), "upstream failure: device unreachable");
    assert_eq!(st.registry().count_at(i), 0);
}

#[test]
fn batch_of_refreshes_leaves_registry_intact() {
    // The exclusive guard serializes concurrent refreshes; whatever the
    // order, the registry must afterwards hold exactly the same devices,
    // none missing, none duplicated, each refreshed once.
    let names = ["d0", "d1", "d2", "d3", "d4"];
    let mut st = state_with("pw", &names);
    for name in names.iter().rev() {
        let i = st.find_device(&name.to_string()).unwrap();
        st.refresh_finish(i, Ok(())).unwrap();
    }
    let reg = st.registry();
    assert_eq!(reg.device_count(), names.len());
    for name in names.iter() {
        let i = reg.lookup(&name.to_string()).expect("no device went missing");
        assert_eq!(reg.name_at(i).as_str(), *name);
        assert_eq!(reg.count_at(i), 1);
    }
}

#[test]
fn duplicate_startup_names_collapse_to_one_device() {
    let reg = DeviceRegistry::new(vec![
        "lamp".to_string(),
        "lamp".to_string(),
        "plug".to_string(),
    ]);
    assert_eq!(reg.device_count(), 2);
    assert!(reg.contains(&"lamp".to_string()));
    assert!(reg.contains(&"plug".to_string()));
}

#[test]
fn session_store_round_trip_preserves_content() {
    let mut store = SessionStore::new();
    store.add(b"alpha".to_vec());
    store.add(Vec::new());
    store.add(vec![0u8, 10, 255, 10, 0]);
    let bytes = store.encode();
    let back = SessionStore::decode(&bytes).expect("own encoding must decode");
    assert_eq!(back.count(), 3);
    assert_eq!(back.token_at(0), &b"alpha".to_vec());
    assert_eq!(back.token_at(1), &Vec::new());
    assert_eq!(back.token_at(2), &vec![0u8, 10, 255, 10, 0]);
}

#[test]
fn empty_file_decodes_to_empty_store() {
    let store = SessionStore::decode(&Vec::new()).unwrap();
    assert_eq!(store.count(), 0);
}

#[test]
fn truncated_file_is_a_persistence_failure() {
    let e = SessionStore::decode(&vec![1u8, 2, 3]).unwrap_err();
    assert!(matches!(e, ApiError::PersistenceFailure { .. }));
    assert_eq!(e.status_code(), 500);
}

#[test]
fn overrunning_record_is_a_persistence_failure() {
    // A header that claims nine token bytes where only one follows.
    let bytes = vec![9u8, 0, 0, 0, 0, 0, 0, 0, 42];
    let e = SessionStore::decode(&bytes).unwrap_err();
    assert!(matches!(e, ApiError::PersistenceFailure { .. }));
}

#[test]
fn encoding_is_not_the_tokens_verbatim() {
    // The length fields make the file differ from the raw tokens.
    let mut store = SessionStore::new();
    store.add(b"ab".to_vec());
    let bytes = store.encode();
    assert_eq!(bytes, vec![2u8, 0, 0, 0, 0, 0, 0, 0, b'a', b'b']);
}

#[test]
fn length_field_is_little_endian() {
    let mut store = SessionStore::new();
    store.add(vec![7u8; 300]);
    let bytes = store.encode();
    assert_eq!(bytes.len(), 308);
    assert_eq!(&bytes[0..8], &[44, 1, 0, 0, 0, 0, 0, 0]);
    assert_eq!(bytes[8], 7);
}

#[test]
fn restart_preserves_sessions() {
    let mut st = state_with("pw", &["lamp"]);
    let token = b"tok-9".to_vec();
    let bytes = st.login_begin(&"pw".to_string(), &token).unwrap();
    st.login_commit(token.clone(), Ok(())).unwrap();
    // The process restarts: the new aggregate is built from the very bytes
    // the login left on disk, and holds the same sessions.
    let reloaded = SessionStore::decode(&bytes).unwrap();
    let st2 = SharedState::init("pw".to_string(), vec!["lamp".to_string()], reloaded);
    assert_eq!(st2.store().count(), st.store().count());
    assert_eq!(st2.store().token_at(0), st.store().token_at(0));
}

#[test]
fn encoded_with_matches_encode_after_add() {
    let mut store = SessionStore::new();
    store.add(b"one".to_vec());
    let preview = store.encoded_with(&b"two".to_vec());
    store.add(b"two".to_vec());
    assert_eq!(preview, store.encode());
}

#[test]
fn action_outcome_passes_the_reply_through() {
    let r = action_outcome(Ok("device says on".to_string()));
    assert_eq!(r.unwrap(), "device says on");
}

#[test]
fn action_outcome_preserves_the_driver_error() {
    let e = action_outcome(Err("timeout".to_string())).unwrap_err();
    assert!(matches!(e, ApiError::UpstreamFailure { .. }));
    assert_eq!(e.status_code(), 502);
    assert_eq!(e.message(), "upstream failure: timeout");
}

#[test]
fn scenario_login_then_unknown_device() {
    // credential "secret123": the right word logs in, the wrong one is 401,
    // and refreshing the unregistered "living-room-plug" is a 404 whose
    // body names it.
    let mut st = state_with("secret123", &["kitchen-lamp"]);
    let token = b"session-token".to_vec();
    assert!(st.login_begin(&"secret123".to_string(), &token).is_ok());
    st.login_commit(token, Ok(())).unwrap();
    let wrong = st.login_begin(&"wrong".to_string(), &b"t2".to_vec());
    assert_eq!(wrong.unwrap_err().status_code(), 401);
    let e = st.find_device(&"living-room-plug".to_string()).unwrap_err();
    assert_eq!(e.status_code(), 404);
    assert!(e.message().contains("living-room-plug"));
}
