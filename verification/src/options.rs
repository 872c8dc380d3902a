//! Options of a session and the checks made on them before a session starts.

use crate::errors::ClaudeError;
use crate::text::str_eq;
use vstd::prelude::*;

verus! {

/// Permission mode of a session.
#[derive(Debug, Clone, Copy, PartialEq, Eq)]
pub enum PermissionMode {
    /// Ask before tool use.
    Default,
    /// Accept file edits without asking.
    AcceptEdits,
    /// Plan only.
    Plan,
    /// Bypass all permission checks.
    BypassPermissions,
}

impl PermissionMode {
    /// The name of the mode in the control protocol.
    pub open spec fn spec_protocol_name(self) -> Seq<char> {
        match self {
            PermissionMode::Default => "default"@,
            PermissionMode::AcceptEdits => "acceptEdits"@,
            PermissionMode::Plan => "plan"@,
            PermissionMode::BypassPermissions => "bypassPermissions"@,
        }
    }

    /// The name of the mode in the control protocol.
    pub fn protocol_name(&self) -> (r: &'static str)
        ensures
            r@ == self.spec_protocol_name(),
    {
        match self {
            PermissionMode::Default => "default",
            PermissionMode::AcceptEdits => "acceptEdits",
            PermissionMode::Plan => "plan",
            PermissionMode::BypassPermissions => "bypassPermissions",
        }
    }
}

/// The options of a session that the SDK's checks read.
///
/// Callbacks are code, not data: the options record whether a permission
/// callback and hooks are configured.
#[derive(Debug)]
pub struct ClaudeAgentOptions {
    /// Model to use.
    pub model: Option<String>,
    /// Working directory.
    pub cwd: Option<String>,
    /// Name of the tool the CLI asks for permission prompts.
    pub permission_prompt_tool_name: Option<String>,
    /// Whether a `can_use_tool` permission callback is configured.
    pub has_can_use_tool: bool,
    /// Whether hooks are configured.
    pub has_hooks: bool,
}

fn clone_opt(o: &Option<String>) -> (r: Option<String>)
    ensures
        r == *o,
{
    match o {
        Some(s) => Some(s.clone()),
        None => None,
    }
}

impl ClaudeAgentOptions {
    /// A field-by-field copy.
    pub fn copy(&self) -> (r: Self)
        ensures
            r == *self,
    {
        ClaudeAgentOptions {
            model: clone_opt(&self.model),
            cwd: clone_opt(&self.cwd),
            permission_prompt_tool_name: clone_opt(&self.permission_prompt_tool_name),
            has_can_use_tool: self.has_can_use_tool,
            has_hooks: self.has_hooks,
        }
    }
}

impl Default for ClaudeAgentOptions {
    fn default() -> (r: Self)
        ensures
            r.model is None,
            r.cwd is None,
            r.permission_prompt_tool_name is None,
            !r.has_can_use_tool,
            !r.has_hooks,
    {
        ClaudeAgentOptions {
            model: None,
            cwd: None,
            permission_prompt_tool_name: None,
            has_can_use_tool: false,
            has_hooks: false,
        }
    }
}

/// The error for a permission callback in a one-shot query.
pub open spec fn oneshot_can_use_tool_message() -> Seq<char> {
    "can_use_tool callback is not supported in one-shot queries. Use ClaudeClient for bidirectional communication with permission callbacks."@
}

/// The error for hooks in a one-shot query.
pub open spec fn oneshot_hooks_message() -> Seq<char> {
    "hooks are not supported in one-shot queries. Use ClaudeClient for bidirectional communication with hook support."@
}

/// The error for a permission callback with a custom permission prompt tool.
pub open spec fn connect_prompt_tool_message() -> Seq<char> {
    "can_use_tool callback requires permission_prompt_tool_name to be 'stdio' or unset. Custom permission_prompt_tool_name is incompatible with can_use_tool callback."@
}

/// Validates the options of a one-shot query: one-shot queries support neither
/// permission callbacks nor hooks. The permission callback is checked first.
pub fn validate_oneshot_options(options: &ClaudeAgentOptions) -> (r: Result<(), ClaudeError>)
    ensures
        options.has_can_use_tool ==> (r matches Err(ClaudeError::InvalidConfig(m)) && m@
            == oneshot_can_use_tool_message()),
        !options.has_can_use_tool && options.has_hooks ==> (r matches Err(
            ClaudeError::InvalidConfig(m),
        ) && m@ == oneshot_hooks_message()),
        !options.has_can_use_tool && !options.has_hooks ==> r is Ok,
{
    if options.has_can_use_tool {
        return Err(
            ClaudeError::InvalidConfig(
                String::from_str(
                    "can_use_tool callback is not supported in one-shot queries. Use ClaudeClient for bidirectional communication with permission callbacks.",
                ),
            ),
        );
    }
    if options.has_hooks {
        return Err(
            ClaudeError::InvalidConfig(
                String::from_str(
                    "hooks are not supported in one-shot queries. Use ClaudeClient for bidirectional communication with hook support.",
                ),
            ),
        );
    }
    Ok(())
}

/// Prepares the options a client connects with.
///
/// With a permission callback, the CLI must send permission prompts over the
/// control protocol: an unset `permission_prompt_tool_name` becomes `"stdio"`,
/// and any other value is refused.
pub fn prepare_connect_options(options: &ClaudeAgentOptions) -> (r: Result<
    ClaudeAgentOptions,
    ClaudeError,
>)
    ensures
        !options.has_can_use_tool ==> r == Ok::<ClaudeAgentOptions, ClaudeError>(*options),
        options.has_can_use_tool && options.permission_prompt_tool_name is None ==> (r matches Ok(
            o,
        ) && o.permission_prompt_tool_name matches Some(n) && n@ == "stdio"@ && o.model
            == options.model && o.cwd == options.cwd && o.has_can_use_tool && o.has_hooks
            == options.has_hooks),
        options.has_can_use_tool ==> (options.permission_prompt_tool_name matches Some(n) ==> (if n@
            == "stdio"@ {
            r == Ok::<ClaudeAgentOptions, ClaudeError>(*options)
        } else {
            r matches Err(ClaudeError::InvalidConfig(m)) && m@ == connect_prompt_tool_message()
        })),
{
    let mut o = options.copy();
    if o.has_can_use_tool && o.permission_prompt_tool_name.is_none() {
        o.permission_prompt_tool_name = Some(String::from_str("stdio"));
    }
    if o.has_can_use_tool {
        match &o.permission_prompt_tool_name {
            Some(n) => {
                if !str_eq(n.as_str(), "stdio") {
                    return Err(
                        ClaudeError::InvalidConfig(
                            String::from_str(
                                "can_use_tool callback requires permission_prompt_tool_name to be 'stdio' or unset. Custom permission_prompt_tool_name is incompatible with can_use_tool callback.",
                            ),
                        ),
                    );
                }
            },
            None => {},
        }
    }
    Ok(o)
}

} // verus!
