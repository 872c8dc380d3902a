use claude_code_agent_sdk::hooks::{
    AsyncHookJsonOutput, HookContext, HookEvent, HookTable, NotificationHookSpecificOutput,
    PostToolUseFailureHookSpecificOutput, SessionStartHookSpecificOutput,
    SubagentStartHookSpecificOutput, UserPromptSubmitHookSpecificOutput,
};

#[test]
fn hook_event_names() {
    assert_eq!(HookEvent::PreToolUse.name(), "PreToolUse");
    assert_eq!(HookEvent::PostToolUse.name(), "PostToolUse");
    assert_eq!(HookEvent::UserPromptSubmit.name(), "UserPromptSubmit");
    assert_eq!(HookEvent::Stop.name(), "Stop");
    assert_eq!(HookEvent::SubagentStop.name(), "SubagentStop");
    assert_eq!(HookEvent::PreCompact.name(), "PreCompact");
    assert_eq!(HookEvent::PostToolUseFailure.name(), "PostToolUseFailure");
    assert_eq!(HookEvent::Notification.name(), "Notification");
    assert_eq!(HookEvent::SubagentStart.name(), "SubagentStart");
    assert_eq!(HookEvent::PermissionRequest.name(), "PermissionRequest");
}

#[test]
fn async_hook_output_default() {
    let output = AsyncHookJsonOutput::default();
    assert!(output.async_);
    assert_eq!(output.async_timeout, None);
}

#[test]
fn specific_output_defaults() {
    assert_eq!(UserPromptSubmitHookSpecificOutput::default().additional_context, None);
    assert_eq!(PostToolUseFailureHookSpecificOutput::default().additional_context, None);
    assert_eq!(NotificationHookSpecificOutput::default().additional_context, None);
    assert_eq!(SubagentStartHookSpecificOutput::default().additional_context, None);
    assert_eq!(SessionStartHookSpecificOutput::default().additional_context, None);
    assert_eq!(HookContext::default().signal, None);
}

#[test]
fn hook_table_new_is_empty() {
    let table: HookTable<&str> = HookTable::new();
    assert!(table.into_entries().is_empty());
}

#[test]
fn hook_table_groups_by_event_in_order() {
    let mut table = HookTable::new();
    table.add(HookEvent::PreToolUse, "any");
    table.add(HookEvent::PostToolUse, "post");
    table.add(HookEvent::PreToolUse, "Bash");
    let entries = table.into_entries();
    assert_eq!(entries.len(), 2);
    assert_eq!(entries[0].0, HookEvent::PreToolUse);
    assert_eq!(entries[0].1, vec!["any", "Bash"]);
    assert_eq!(entries[1].0, HookEvent::PostToolUse);
    assert_eq!(entries[1].1, vec!["post"]);
}

#[test]
fn hook_table_multiple_event_types() {
    let mut table = HookTable::new();
    table.add(HookEvent::PreToolUse, 1);
    table.add(HookEvent::PostToolUse, 2);
    table.add(HookEvent::UserPromptSubmit, 3);
    table.add(HookEvent::Stop, 4);
    let entries = table.into_entries();
    assert_eq!(entries.len(), 4);
    let events: Vec<HookEvent> = entries.iter().map(|e| e.0).collect();
    assert!(events.contains(&HookEvent::PreToolUse));
    assert!(events.contains(&HookEvent::PostToolUse));
    assert!(events.contains(&HookEvent::UserPromptSubmit));
    assert!(events.contains(&HookEvent::Stop));
}
