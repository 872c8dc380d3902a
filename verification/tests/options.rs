use claude_code_agent_sdk::errors::ClaudeError;
use claude_code_agent_sdk::options::{
    prepare_connect_options, validate_oneshot_options, ClaudeAgentOptions, PermissionMode,
};

#[test]
fn test_validate_oneshot_options_accepts_default() {
    let opts = ClaudeAgentOptions::default();
    assert!(validate_oneshot_options(&opts).is_ok());
}

#[test]
fn test_validate_oneshot_options_accepts_normal_options() {
    let opts = ClaudeAgentOptions {
        model: Some("sonnet-4-20250514".to_string()),
        cwd: Some("/tmp".to_string()),
        ..ClaudeAgentOptions::default()
    };
    assert!(validate_oneshot_options(&opts).is_ok());
}

#[test]
fn test_validate_oneshot_options_rejects_can_use_tool() {
    let opts = ClaudeAgentOptions { has_can_use_tool: true, ..ClaudeAgentOptions::default() };
    let result = validate_oneshot_options(&opts);
    assert!(result.is_err());
    let err = result.unwrap_err();
    assert!(matches!(err, ClaudeError::InvalidConfig(_)));
    assert!(err.message().contains("can_use_tool"));
}

#[test]
fn test_validate_oneshot_options_rejects_hooks() {
    let opts = ClaudeAgentOptions { has_hooks: true, ..ClaudeAgentOptions::default() };
    let result = validate_oneshot_options(&opts);
    assert!(result.is_err());
    let err = result.unwrap_err();
    assert!(matches!(err, ClaudeError::InvalidConfig(_)));
    assert!(err.message().contains("hooks"));
}

#[test]
fn test_validate_oneshot_options_rejects_both() {
    let opts = ClaudeAgentOptions {
        has_can_use_tool: true,
        has_hooks: true,
        ..ClaudeAgentOptions::default()
    };
    let result = validate_oneshot_options(&opts);
    assert!(result.is_err());
    assert!(result.unwrap_err().message().contains("can_use_tool"));
}

#[test]
fn test_connect_rejects_can_use_tool_with_custom_permission_tool() {
    let opts = ClaudeAgentOptions {
        has_can_use_tool: true,
        permission_prompt_tool_name: Some("custom_tool".to_string()),
        ..ClaudeAgentOptions::default()
    };
    let err = prepare_connect_options(&opts).unwrap_err();
    assert!(matches!(err, ClaudeError::InvalidConfig(_)));
    assert!(err.message().contains("permission_prompt_tool_name"));
}

#[test]
fn test_connect_accepts_can_use_tool_with_stdio() {
    let opts = ClaudeAgentOptions {
        has_can_use_tool: true,
        permission_prompt_tool_name: Some("stdio".to_string()),
        ..ClaudeAgentOptions::default()
    };
    let prepared = prepare_connect_options(&opts).unwrap();
    assert_eq!(prepared.permission_prompt_tool_name, Some("stdio".to_string()));
}

#[test]
fn test_connect_accepts_can_use_tool_without_permission_tool() {
    let opts = ClaudeAgentOptions { has_can_use_tool: true, ..ClaudeAgentOptions::default() };
    let prepared = prepare_connect_options(&opts).unwrap();
    assert_eq!(prepared.permission_prompt_tool_name, Some("stdio".to_string()));
}

#[test]
fn connect_leaves_options_without_callback_alone() {
    let opts = ClaudeAgentOptions {
        permission_prompt_tool_name: Some("custom_tool".to_string()),
        model: Some("m".to_string()),
        ..ClaudeAgentOptions::default()
    };
    let prepared = prepare_connect_options(&opts).unwrap();
    assert_eq!(prepared.permission_prompt_tool_name, Some("custom_tool".to_string()));
    assert_eq!(prepared.model, Some("m".to_string()));
}

#[test]
fn permission_mode_names() {
    assert_eq!(PermissionMode::Default.protocol_name(), "default");
    assert_eq!(PermissionMode::AcceptEdits.protocol_name(), "acceptEdits");
    assert_eq!(PermissionMode::Plan.protocol_name(), "plan");
    assert_eq!(PermissionMode::BypassPermissions.protocol_name(), "bypassPermissions");
}
