use claude_code_agent_sdk::errors::ClaudeError;
use claude_code_agent_sdk::mcp::{
    sdk_server_names, McpServerKind,
    acp_tool_name, dispatch_mcp_request, is_acp_tool, strip_acp_prefix, McpAction,
    ToolAnnotations, ToolResult, ToolResultContent, ACP_TOOL_PREFIX,
};

#[test]
fn test_tool_annotations_default() {
    let annotations = ToolAnnotations::default();
    assert_eq!(annotations.read_only_hint, None);
    assert_eq!(annotations.destructive_hint, None);
    assert_eq!(annotations.idempotent_hint, None);
    assert_eq!(annotations.open_world_hint, None);
}

#[test]
fn acp_tool_name_examples() {
    assert_eq!(acp_tool_name("Bash"), "mcp__acp__Bash");
    assert_eq!(acp_tool_name("Read"), "mcp__acp__Read");
    assert_eq!(acp_tool_name(""), ACP_TOOL_PREFIX);
}

#[test]
fn is_acp_tool_examples() {
    assert!(is_acp_tool("mcp__acp__Bash"));
    assert!(!is_acp_tool("Bash"));
    assert!(is_acp_tool("mcp__acp__"));
    assert!(!is_acp_tool("mcp__acp_"));
    assert!(!is_acp_tool("mcp__other__Bash"));
}

#[test]
fn strip_acp_prefix_examples() {
    assert_eq!(strip_acp_prefix("mcp__acp__Bash"), "Bash");
    assert_eq!(strip_acp_prefix("Bash"), "Bash");
    assert_eq!(strip_acp_prefix("mcp__acp__"), "");
    assert_eq!(strip_acp_prefix("mcp__acp__mcp__acp__X"), "mcp__acp__X");
}

#[test]
fn acp_prefix_roundtrip_example() {
    for name in ["Bash", "Write", "", "mcp__acp__Nested", "ünïcode"] {
        let full = acp_tool_name(name);
        assert!(is_acp_tool(&full));
        assert_eq!(strip_acp_prefix(&full), name);
    }
}

fn tools() -> Vec<String> {
    vec!["echo".to_string(), "add".to_string()]
}

#[test]
fn dispatch_initialize_and_list() {
    assert!(matches!(
        dispatch_mcp_request(Some("initialize"), None, &tools()),
        Ok(McpAction::Initialize)
    ));
    assert!(matches!(
        dispatch_mcp_request(Some("notifications/initialized"), None, &tools()),
        Ok(McpAction::Initialized)
    ));
    assert!(matches!(
        dispatch_mcp_request(Some("tools/list"), None, &tools()),
        Ok(McpAction::ListTools)
    ));
}

#[test]
fn dispatch_tools_call() {
    match dispatch_mcp_request(Some("tools/call"), Some("add"), &tools()) {
        Ok(McpAction::CallTool { tool_name }) => assert_eq!(tool_name, "add"),
        other => panic!("unexpected: {:?}", other),
    }
    match dispatch_mcp_request(Some("tools/call"), Some("missing"), &tools()) {
        Err(ClaudeError::Transport(m)) => assert_eq!(m, "Tool not found: missing"),
        other => panic!("unexpected: {:?}", other),
    }
    match dispatch_mcp_request(Some("tools/call"), None, &tools()) {
        Err(ClaudeError::Transport(m)) => assert_eq!(m, "Missing tool name"),
        other => panic!("unexpected: {:?}", other),
    }
}

#[test]
fn dispatch_errors() {
    match dispatch_mcp_request(None, None, &tools()) {
        Err(ClaudeError::Transport(m)) => assert_eq!(m, "Missing method"),
        other => panic!("unexpected: {:?}", other),
    }
    match dispatch_mcp_request(Some("resources/list"), None, &tools()) {
        Err(ClaudeError::Mcp(e)) => {
            assert_eq!(e.code, -32601);
            assert_eq!(e.message, "Method not found: resources/list");
        }
        other => panic!("unexpected: {:?}", other),
    }
}

#[test]
fn jsonrpc_error_codes() {
    let e = dispatch_mcp_request(Some("bogus"), None, &tools()).unwrap_err();
    assert_eq!(e.jsonrpc_error(), (-32601, "Method not found: bogus".to_string()));
    let e = ClaudeError::Transport("boom".to_string());
    assert_eq!(e.jsonrpc_error(), (-32603, "boom".to_string()));
    assert_eq!(e.message(), "boom");
}

#[test]
fn tool_result_values() {
    let r = ToolResult {
        content: vec![
            ToolResultContent::Text { text: "hi".to_string() },
            ToolResultContent::Image { data: "AAAA".to_string(), mime_type: "image/png".to_string() },
        ],
        is_error: false,
    };
    assert_eq!(r.content.len(), 2);
    assert!(!r.is_error);
}

#[test]
fn sdk_servers_are_picked_in_order() {
    let entries = vec![
        ("calc".to_string(), McpServerKind::Sdk),
        ("files".to_string(), McpServerKind::Stdio),
        ("web".to_string(), McpServerKind::Http),
        ("notes".to_string(), McpServerKind::Sdk),
        ("feed".to_string(), McpServerKind::Sse),
    ];
    assert_eq!(sdk_server_names(&entries), vec!["calc".to_string(), "notes".to_string()]);
    assert!(sdk_server_names(&Vec::new()).is_empty());
}
