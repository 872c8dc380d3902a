use claude_code_agent_sdk::control::{
    classify_message, decide_control_request, finish_control_request, ControlAction,
    ControlCounters, ControlRequestFields, InboundKind, WaitOutcome, request_id_for,
    DEFAULT_CONTROL_REQUEST_TIMEOUT_SECS,
};
use claude_code_agent_sdk::control::{reader_step, ReaderAction};
use claude_code_agent_sdk::routing::{PendingRequests, QueryRouter, RoutePlan};
use claude_code_agent_sdk::errors::ClaudeError;

fn req(subtype: Option<&str>) -> ControlRequestFields {
    ControlRequestFields {
        subtype: subtype.map(|s| s.to_string()),
        tool_name: None,
        tool_use_id: None,
        callback_id: None,
        server_name: None,
        has_message: false,
    }
}

fn protocol_message(r: Result<ControlAction, ClaudeError>) -> String {
    match r {
        Err(ClaudeError::ControlProtocol(m)) => m,
        other => panic!("expected a control-protocol error, got {:?}", other),
    }
}

#[test]
fn can_use_tool_with_callback_asks_permission() {
    let mut r = req(Some("can_use_tool"));
    r.tool_name = Some("Bash".to_string());
    r.tool_use_id = Some("toolu_1".to_string());
    match decide_control_request(&r, true, &vec![], &vec![]) {
        Ok(ControlAction::AskPermission { tool_name, tool_use_id }) => {
            assert_eq!(tool_name, "Bash");
            assert_eq!(tool_use_id, Some("toolu_1".to_string()));
        }
        other => panic!("unexpected: {:?}", other),
    }
}

#[test]
fn test_can_use_tool_without_callback_denies_by_default() {
    let mut r = req(Some("can_use_tool"));
    r.tool_name = Some("Bash".to_string());
    match decide_control_request(&r, false, &vec![], &vec![]) {
        Ok(ControlAction::Deny { tool_name, result }) => {
            assert_eq!(tool_name, "Bash");
            assert_eq!(result.message, "No permission callback registered");
            assert!(!result.interrupt);
        }
        other => panic!("unexpected: {:?}", other),
    }
}

#[test]
fn test_can_use_tool_missing_tool_name() {
    let r = req(Some("can_use_tool"));
    let m = protocol_message(decide_control_request(&r, true, &vec![], &vec![]));
    assert!(m.contains("Missing tool_name"));
}

#[test]
fn test_missing_subtype_returns_error() {
    let mut r = req(None);
    r.tool_name = Some("Bash".to_string());
    let m = protocol_message(decide_control_request(&r, false, &vec![], &vec![]));
    assert!(m.contains("Missing subtype"));
}

#[test]
fn test_unknown_subtype_returns_error() {
    let r = req(Some("unknown_subtype"));
    let m = protocol_message(decide_control_request(&r, false, &vec![], &vec![]));
    assert_eq!(m, "Unsupported control request subtype: unknown_subtype");
}

#[test]
fn test_mcp_message_missing_server_name() {
    let mut r = req(Some("mcp_message"));
    r.has_message = true;
    let m = protocol_message(decide_control_request(&r, false, &vec![], &vec![]));
    assert!(m.contains("Missing server_name"));
}

#[test]
fn mcp_message_routing() {
    let servers = vec!["calc".to_string()];
    let mut r = req(Some("mcp_message"));
    r.server_name = Some("calc".to_string());
    let m = protocol_message(decide_control_request(&r, false, &vec![], &servers));
    assert_eq!(m, "Missing message for mcp_message");
    r.has_message = true;
    match decide_control_request(&r, false, &vec![], &servers) {
        Ok(ControlAction::ForwardMcp { server_name }) => assert_eq!(server_name, "calc"),
        other => panic!("unexpected: {:?}", other),
    }
    r.server_name = Some("other".to_string());
    let m = protocol_message(decide_control_request(&r, false, &vec![], &servers));
    assert_eq!(m, "SDK MCP server not found: other");
}

#[test]
fn test_hook_callback_missing_callback_id() {
    let mut r = req(Some("hook_callback"));
    r.has_message = false;
    let m = protocol_message(decide_control_request(&r, false, &vec![], &vec![]));
    assert!(m.contains("Missing callback_id"));
}

#[test]
fn hook_callback_lookup() {
    let ids = vec!["hook_0".to_string(), "hook_1".to_string()];
    let mut r = req(Some("hook_callback"));
    r.callback_id = Some("hook_1".to_string());
    match decide_control_request(&r, false, &ids, &vec![]) {
        Ok(ControlAction::RunHook { callback_id, tool_use_id }) => {
            assert_eq!(callback_id, "hook_1");
            assert_eq!(tool_use_id, None);
        }
        other => panic!("unexpected: {:?}", other),
    }
    r.callback_id = Some("hook_7".to_string());
    let m = protocol_message(decide_control_request(&r, false, &ids, &vec![]));
    assert_eq!(m, "Hook callback not found: hook_7");
}

#[test]
fn classify_messages() {
    assert_eq!(classify_message(Some("control_response")), InboundKind::ControlResponse);
    assert_eq!(classify_message(Some("control_request")), InboundKind::ControlRequest);
    assert_eq!(classify_message(Some("result")), InboundKind::Conversation);
    assert_eq!(classify_message(Some("assistant")), InboundKind::Conversation);
    assert_eq!(classify_message(None), InboundKind::Conversation);
}

#[test]
fn request_ids_count_up() {
    let mut c = ControlCounters::new();
    let a = c.next_request_id();
    let b = c.next_request_id();
    assert!(a.starts_with("req_0_"));
    assert!(b.starts_with("req_1_"));
    assert_eq!(a.len(), "req_0_".len() + 32);
    assert!(a["req_0_".len()..].chars().all(|ch| ch.is_ascii_hexdigit() && !ch.is_ascii_uppercase()));
    assert_ne!(a, b);
}

#[test]
fn hook_callback_ids_are_consecutive() {
    let mut c = ControlCounters::new();
    assert_eq!(c.next_hook_callback_id(), "hook_0");
    let ids = c.assign_hook_callback_ids(&vec![2, 0, 3]);
    assert_eq!(ids.len(), 3);
    assert_eq!(ids[0], vec!["hook_1".to_string(), "hook_2".to_string()]);
    assert!(ids[1].is_empty());
    assert_eq!(
        ids[2],
        vec!["hook_3".to_string(), "hook_4".to_string(), "hook_5".to_string()]
    );
    assert_eq!(c.next_hook_callback_id(), "hook_6");
    // The request counter is independent.
    assert!(c.next_request_id().starts_with("req_0_"));
}

#[test]
fn pending_requests_deliver_once() {
    let mut p = PendingRequests::new();
    p.insert("req_0_a".to_string());
    p.insert("req_1_b".to_string());
    p.insert("req_0_a".to_string());
    assert!(p.take("req_0_a"));
    assert!(!p.take("req_0_a"));
    assert!(!p.take("unknown"));
    assert!(p.take("req_1_b"));
}

#[test]
fn finishing_control_requests() {
    let mut p = PendingRequests::new();
    p.insert("r1".to_string());
    p.insert("r2".to_string());
    p.insert("r3".to_string());
    assert!(finish_control_request(&mut p, "r1", WaitOutcome::Responded, "60s").is_ok());
    match finish_control_request(&mut p, "r2", WaitOutcome::ChannelClosed, "60s") {
        Err(ClaudeError::ControlProtocol(m)) => {
            assert_eq!(m, "Control request response channel closed")
        }
        other => panic!("unexpected: {:?}", other),
    }
    match finish_control_request(&mut p, "r3", WaitOutcome::TimedOut, "60s") {
        Err(ClaudeError::Timeout(m)) => assert_eq!(m, "Control request timed out after 60s"),
        other => panic!("unexpected: {:?}", other),
    }
    assert!(p.take("r1"));
    assert!(!p.take("r2"));
    assert!(!p.take("r3"));
}

#[test]
fn request_ids_are_assembled_from_counter_and_uuid() {
    assert_eq!(request_id_for(7, "ff"), "req_7_ff");
    assert_eq!(request_id_for(u64::MAX, ""), "req_18446744073709551615_");
    assert_eq!(DEFAULT_CONTROL_REQUEST_TIMEOUT_SECS, 60);
}

#[test]
fn reader_step_delivers_control_responses_only_to_their_request() {
    let mut pending = PendingRequests::new();
    pending.insert("req_0_a".to_string());
    pending.insert("req_1_b".to_string());
    let mut router = QueryRouter::new();
    router.register_query_receiver("q".to_string());
    match reader_step(Some("control_response"), Some("req_1_b"), &mut pending, &router) {
        ReaderAction::DeliverResponse(id) => assert_eq!(id, "req_1_b"),
        other => panic!("unexpected: {:?}", other),
    }
    assert!(!pending.take("req_1_b"));
    assert!(matches!(
        reader_step(Some("control_response"), Some("req_9_z"), &mut pending, &router),
        ReaderAction::DropResponse
    ));
    assert!(matches!(
        reader_step(Some("control_response"), None, &mut pending, &router),
        ReaderAction::DropResponse
    ));
    assert!(pending.take("req_0_a"));
}

#[test]
fn reader_step_handles_requests_and_routes_conversation() {
    let mut pending = PendingRequests::new();
    pending.insert("req_0_a".to_string());
    let mut router = QueryRouter::new();
    assert!(matches!(
        reader_step(Some("assistant"), None, &mut pending, &router),
        ReaderAction::Route(RoutePlan::Global)
    ));
    router.register_query_receiver("q1".to_string());
    router.register_query_receiver("q2".to_string());
    assert!(matches!(
        reader_step(Some("control_request"), Some("req_0_a"), &mut pending, &router),
        ReaderAction::HandleControlRequest
    ));
    match reader_step(Some("result"), None, &mut pending, &router) {
        ReaderAction::Route(RoutePlan::CurrentThenFirst { current, first }) => {
            assert_eq!(current, Some("q2".to_string()));
            assert_eq!(first, "q1");
        }
        other => panic!("unexpected: {:?}", other),
    }
    match reader_step(None, None, &mut pending, &router) {
        ReaderAction::Route(RoutePlan::Broadcast(all)) => assert_eq!(all, vec!["q1".to_string(), "q2".to_string()]),
        other => panic!("unexpected: {:?}", other),
    }
    assert!(pending.take("req_0_a"));
}
