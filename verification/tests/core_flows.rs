use pro_cache_backend::clock::{GlobalClock, FIFTY_YEARS_MS, ONE_DAY_MS};
use pro_cache_backend::paths::PathInput;
use pro_cache_backend::sessions::SessionRegistry;
use pro_cache_backend::state::{
    admit_session, invalidate_at, register_token, snapshot_pairs, AdmissionError, AppState,
    InvalidateOutcome, InvalidateRequest, RegisterTokenRequest,
};
use pro_cache_backend::store::{InvalidationStore, RouteCatalog};
use pro_cache_backend::tokens::TokenRegistry;

fn fresh_state() -> AppState {
    AppState {
        clock: GlobalClock::new(5),
        tokens: TokenRegistry::new(),
        store: InvalidationStore::new(),
        catalog: RouteCatalog::new(),
        sessions: SessionRegistry::new(),
    }
}

fn single_path_request(project: &str, path: PathInput) -> InvalidateRequest {
    InvalidateRequest {
        project_id: String::from(project),
        path: Some(path),
        paths: None,
        user_id: None,
    }
}

fn stored_ts(state: &AppState, project: &str, route: &str) -> Option<i64> {
    let pairs = snapshot_pairs(state, &String::from(project));
    for (k, v) in pairs {
        if k == route {
            return Some(v);
        }
    }
    None
}

#[test]
fn monotone_sequence_stores_maximum() {
    let mut state = fresh_state();
    for ts in [100i64, 100, 250, 999] {
        let req = single_path_request("p", PathInput::Text(String::from("/a")));
        let (outcome, _) = invalidate_at(&mut state, &req, ts, ts);
        assert!(matches!(outcome, InvalidateOutcome::Success { .. }));
    }
    assert_eq!(stored_ts(&state, "p", "/a"), Some(999));
}

#[test]
fn reregistering_token_renders_old_one_unusable() {
    let mut state = fresh_state();
    register_token(
        &mut state,
        &RegisterTokenRequest {
            token: String::from("t1"),
            user_id: String::from("u1"),
            project_id: String::from("p"),
            ttl: None,
        },
    );
    assert!(admit_session(&state, "token=t1").is_ok());
    register_token(
        &mut state,
        &RegisterTokenRequest {
            token: String::from("t2"),
            user_id: String::from("u1"),
            project_id: String::from("p"),
            ttl: Some(60),
        },
    );
    let old = admit_session(&state, "token=t1");
    assert!(matches!(old, Err(AdmissionError::UnknownToken)));
    assert!(admit_session(&state, "token=t2").is_ok());
}

#[test]
fn backward_clock_jump_triggers_global_reset() {
    let mut state = fresh_state();
    let req_a = single_path_request("p1", PathInput::Text(String::from("/a")));
    invalidate_at(&mut state, &req_a, 100, 100);
    let req_b = single_path_request("p2", PathInput::Text(String::from("/b")));
    invalidate_at(&mut state, &req_b, 120, 120);

    let (tx1, mut rx1) = tokio::sync::mpsc::unbounded_channel::<String>();
    let (tx2, mut rx2) = tokio::sync::mpsc::unbounded_channel::<String>();
    state
        .sessions
        .join(&String::from("p1"), String::from("s1"), String::from("u1"), tx1);
    state
        .sessions
        .join(&String::from("p2"), String::from("s2"), String::from("u2"), tx2);

    // Wall clock jumps back: 50 < 120 with a recorded baseline.
    let req_c = single_path_request("p1", PathInput::Text(String::from("/c")));
    let (outcome, routes_changed) = invalidate_at(&mut state, &req_c, 50, 777);
    match outcome {
        InvalidateOutcome::ClockReset { drift_time } => assert_eq!(drift_time, 777),
        _ => panic!("expected a clock reset outcome"),
    }
    assert!(!routes_changed);

    // Every entry of every project is forced beyond the sentinel window.
    let floor = 777 + FIFTY_YEARS_MS - ONE_DAY_MS;
    assert!(stored_ts(&state, "p1", "/a").unwrap() > floor);
    assert!(stored_ts(&state, "p2", "/b").unwrap() > floor);
    // The triggering request's own path was not separately recorded.
    assert_eq!(stored_ts(&state, "p1", "/c"), None);

    // The drift message reaches every session in every project.
    let expected = "{\"type\":\"invalidate\",\"data\":{},\"drift_time\":777}";
    assert_eq!(rx1.try_recv().unwrap(), expected);
    assert_eq!(rx2.try_recv().unwrap(), expected);
}

#[test]
fn numeric_and_string_paths_update_same_entry() {
    let mut state = fresh_state();
    let req_num = single_path_request("p", PathInput::IntNum(42));
    invalidate_at(&mut state, &req_num, 100, 100);
    let req_str = single_path_request("p", PathInput::Text(String::from("42")));
    invalidate_at(&mut state, &req_str, 200, 200);
    assert_eq!(stored_ts(&state, "p", "42"), Some(200));
    let pairs = snapshot_pairs(&state, &String::from("p"));
    assert_eq!(pairs.len(), 1);
}

#[test]
fn snapshot_reflects_recorded_invalidation() {
    let mut state = fresh_state();
    register_token(
        &mut state,
        &RegisterTokenRequest {
            token: String::from("tok"),
            user_id: String::from("u"),
            project_id: String::from("p"),
            ttl: None,
        },
    );
    let req = single_path_request("p", PathInput::Text(String::from("/a")));
    invalidate_at(&mut state, &req, 100, 100);
    let adm = admit_session(&state, "token=tok").ok().unwrap();
    assert_eq!(adm.project_id, "p");
    assert_eq!(adm.user_id, "u");
    assert_eq!(adm.snapshot, "{\"/a\":100}");
}

#[test]
fn snapshot_of_untouched_project_is_empty_not_an_error() {
    let mut state = fresh_state();
    register_token(
        &mut state,
        &RegisterTokenRequest {
            token: String::from("tok"),
            user_id: String::from("u"),
            project_id: String::from("empty-project"),
            ttl: None,
        },
    );
    let adm = admit_session(&state, "token=tok").ok().unwrap();
    assert_eq!(adm.snapshot, "{}");
    assert_eq!(adm.snapshot_pairs.len(), 0);
}

#[test]
fn user_filter_addresses_only_matching_sessions() {
    let mut state = fresh_state();
    let (tx1, mut rx1) = tokio::sync::mpsc::unbounded_channel::<String>();
    let (tx2, mut rx2) = tokio::sync::mpsc::unbounded_channel::<String>();
    state
        .sessions
        .join(&String::from("p"), String::from("s1"), String::from("u1"), tx1);
    state
        .sessions
        .join(&String::from("p"), String::from("s2"), String::from("u2"), tx2);

    let req = InvalidateRequest {
        project_id: String::from("p"),
        path: Some(PathInput::Text(String::from("/a"))),
        paths: None,
        user_id: Some(String::from("u1")),
    };
    let (outcome, _) = invalidate_at(&mut state, &req, 100, 100);
    match outcome {
        InvalidateOutcome::Success { broadcast_count, affected_paths, timestamp, drift_time } => {
            assert_eq!(broadcast_count, 1);
            assert_eq!(affected_paths, 1);
            assert_eq!(timestamp, 100);
            assert_eq!(drift_time, 5);
        },
        _ => panic!("expected success"),
    }
    let msg = rx1.try_recv().unwrap();
    assert_eq!(msg, "{\"type\":\"invalidate-delta\",\"data\":{\"/a\":100},\"drift_time\":5}");
    assert!(rx2.try_recv().is_err());
}

#[test]
fn closed_session_receives_no_further_broadcasts() {
    let mut state = fresh_state();
    let (tx1, mut rx1) = tokio::sync::mpsc::unbounded_channel::<String>();
    state
        .sessions
        .join(&String::from("p"), String::from("s1"), String::from("u1"), tx1);
    state.sessions.leave(&String::from("p"), &String::from("s1"));

    let req = single_path_request("p", PathInput::Text(String::from("/a")));
    let (outcome, _) = invalidate_at(&mut state, &req, 100, 100);
    match outcome {
        InvalidateOutcome::Success { broadcast_count, .. } => assert_eq!(broadcast_count, 0),
        _ => panic!("expected success"),
    }
    assert!(rx1.try_recv().is_err());
}

#[test]
fn leave_is_idempotent_and_safe_without_project() {
    let mut state = fresh_state();
    state.sessions.leave(&String::from("never-seen"), &String::from("s"));
    state.sessions.leave(&String::from("never-seen"), &String::from("s"));
}

#[test]
fn empty_request_is_rejected_without_mutation() {
    let mut state = fresh_state();
    let req = InvalidateRequest {
        project_id: String::from("p"),
        path: None,
        paths: None,
        user_id: None,
    };
    let (outcome, routes_changed) = invalidate_at(&mut state, &req, 100, 100);
    assert!(matches!(outcome, InvalidateOutcome::MalformedRequest));
    assert!(!routes_changed);
    assert_eq!(snapshot_pairs(&state, &String::from("p")).len(), 0);
    // The rejected request did not advance the clock baseline: no drift
    // when the next request carries a smaller reading.
    let ok = single_path_request("p", PathInput::Text(String::from("/a")));
    let (outcome2, _) = invalidate_at(&mut state, &ok, 40, 40);
    assert!(matches!(outcome2, InvalidateOutcome::Success { .. }));
}

#[test]
fn missing_token_is_rejected_before_upgrade() {
    let state = fresh_state();
    let r = admit_session(&state, "other=1&x=2");
    assert!(matches!(r, Err(AdmissionError::MissingToken)));
    let r2 = admit_session(&state, "token=unknown");
    assert!(matches!(r2, Err(AdmissionError::UnknownToken)));
}

#[test]
fn token_value_is_percent_decoded_from_query() {
    let mut state = fresh_state();
    register_token(
        &mut state,
        &RegisterTokenRequest {
            token: String::from("a b"),
            user_id: String::from("u"),
            project_id: String::from("p"),
            ttl: None,
        },
    );
    let adm = admit_session(&state, "token=a%20b");
    assert!(adm.is_ok());
}

#[test]
fn routes_changed_flag_marks_new_catalog_entries() {
    let mut state = fresh_state();
    let req = single_path_request("p", PathInput::Text(String::from("/a")));
    let (_, first) = invalidate_at(&mut state, &req, 100, 100);
    assert!(first);
    let req2 = single_path_request("p", PathInput::Text(String::from("/a")));
    let (_, second) = invalidate_at(&mut state, &req2, 200, 200);
    assert!(!second);
    let list = state.catalog.routes_list();
    assert_eq!(list, vec![String::from("/a")]);
}

#[test]
fn catalog_reload_seeds_snapshot_baseline() {
    let mut state = fresh_state();
    state
        .catalog
        .load(&vec![String::from("/x"), String::from("/y")]);
    register_token(
        &mut state,
        &RegisterTokenRequest {
            token: String::from("tok"),
            user_id: String::from("u"),
            project_id: String::from("p"),
            ttl: None,
        },
    );
    let req = single_path_request("p", PathInput::Text(String::from("/x")));
    invalidate_at(&mut state, &req, 100, 100);
    // "/x" carries its recorded timestamp; "/y" the server start baseline.
    assert_eq!(stored_ts(&state, "p", "/x"), Some(100));
    assert_eq!(stored_ts(&state, "p", "/y"), Some(5));
}

#[test]
fn multiple_paths_are_all_recorded_and_counted() {
    let mut state = fresh_state();
    let req = InvalidateRequest {
        project_id: String::from("p"),
        path: Some(PathInput::Text(String::from("/a"))),
        paths: Some(vec![PathInput::IntNum(7), PathInput::Text(String::from("/b"))]),
        user_id: None,
    };
    let (outcome, _) = invalidate_at(&mut state, &req, 300, 300);
    match outcome {
        InvalidateOutcome::Success { affected_paths, .. } => assert_eq!(affected_paths, 3),
        _ => panic!("expected success"),
    }
    assert_eq!(stored_ts(&state, "p", "/a"), Some(300));
    assert_eq!(stored_ts(&state, "p", "7"), Some(300));
    assert_eq!(stored_ts(&state, "p", "/b"), Some(300));
}
