use claude_code_agent_sdk::errors::ClaudeError;
use claude_code_agent_sdk::session::{
    all_messages_step, decide_session_query, managed_query_id, query_not_found, response_step, ClientSession,
    Received, SessionQueries, SessionStep, StreamStep,
};

#[test]
fn requests_before_connect_fail() {
    let s = ClientSession::new();
    match s.active_query() {
        Err(ClaudeError::InvalidConfig(m)) => {
            assert_eq!(m, "Client not connected. Call connect() first.")
        }
        other => panic!("unexpected: {:?}", other),
    }
    assert!(s.require_connected().is_err());
    assert!(s.needs_connect());
    assert!(!s.dropped_while_connected());
}

#[test]
fn connected_session_tracks_current_query() {
    let mut s = ClientSession::new();
    s.mark_connected("query_0_x".to_string());
    assert!(!s.needs_connect());
    assert_eq!(s.active_query().unwrap(), "query_0_x");
    s.set_current_query("query_1_y".to_string());
    assert_eq!(s.active_query().unwrap(), "query_1_y");
    assert!(s.require_connected().is_ok());
    assert!(s.dropped_while_connected());
    assert!(s.disconnect());
    assert!(!s.disconnect());
    assert!(s.active_query().is_err());
}

#[test]
fn no_active_query_error() {
    let mut s = ClientSession::new();
    s.mark_connected("q".to_string());
    assert!(s.disconnect());
    s.mark_connected("q2".to_string());
    assert_eq!(s.active_query().unwrap(), "q2");
}

#[test]
fn response_stream_ends_after_result() {
    assert_eq!(response_step(Received::Message { is_result: false }), StreamStep::Yield);
    assert_eq!(response_step(Received::Message { is_result: true }), StreamStep::YieldThenEnd);
    assert_eq!(response_step(Received::Unparsable), StreamStep::Yield);
    assert_eq!(response_step(Received::Closed), StreamStep::End);
    assert_eq!(all_messages_step(Received::Message { is_result: true }), StreamStep::Yield);
    assert_eq!(all_messages_step(Received::Closed), StreamStep::End);
}

#[test]
fn session_query_decisions() {
    assert_eq!(decide_session_query(None, false, false), SessionStep::Create);
    assert_eq!(decide_session_query(Some("q"), false, true), SessionStep::DropStaleMapping);
    assert_eq!(decide_session_query(Some("q"), true, true), SessionStep::Reuse("q".to_string()));
    assert_eq!(
        decide_session_query(Some("q"), true, false),
        SessionStep::ReplaceInactive("q".to_string())
    );
    match query_not_found("abc") {
        ClaudeError::InvalidConfig(m) => assert_eq!(m, "Query not found: abc"),
        other => panic!("unexpected: {:?}", other),
    }
}

#[test]
fn managed_query_ids() {
    let a = claude_code_agent_sdk::session::new_managed_query_id();
    let b = claude_code_agent_sdk::session::new_managed_query_id();
    assert!(a.starts_with("query_"));
    let rest = &a["query_".len()..];
    assert_eq!(&rest[32..33], "_");
    assert!(rest[..32].chars().all(|c| c.is_ascii_hexdigit()));
    assert!(rest[33..].chars().all(|c| c.is_ascii_digit()));
    assert_ne!(a, b);
}

#[test]
fn session_queries_bind_and_lookup() {
    let mut sq = SessionQueries::new();
    assert_eq!(sq.query_of("s1"), None);
    sq.bind("s1", "q1".to_string());
    sq.bind("s2", "q2".to_string());
    assert_eq!(sq.query_of("s1"), Some("q1".to_string()));
    assert_eq!(sq.query_of("s2"), Some("q2".to_string()));
    sq.bind("s1", "q3".to_string());
    assert_eq!(sq.query_of("s1"), Some("q3".to_string()));
    assert_eq!(sq.query_of("s2"), Some("q2".to_string()));
}

#[test]
fn session_queries_resolve() {
    let mut sq = SessionQueries::new();
    assert_eq!(sq.resolve("s", true, true), SessionStep::Create);
    sq.bind("s", "q".to_string());
    assert_eq!(sq.resolve("s", true, true), SessionStep::Reuse("q".to_string()));
    assert_eq!(sq.query_of("s"), Some("q".to_string()));
    assert_eq!(sq.resolve("s", true, false), SessionStep::ReplaceInactive("q".to_string()));
    assert_eq!(sq.query_of("s"), None);
    sq.bind("s", "q2".to_string());
    sq.bind("t", "q9".to_string());
    assert_eq!(sq.resolve("s", false, false), SessionStep::DropStaleMapping);
    assert_eq!(sq.query_of("s"), None);
    assert_eq!(sq.query_of("t"), Some("q9".to_string()));
}

#[test]
fn managed_query_ids_are_assembled_from_uuid_and_time() {
    assert_eq!(managed_query_id("abc", 1700000000000000), "query_abc_1700000000000000");
    assert_eq!(managed_query_id("", 0), "query__0");
}
