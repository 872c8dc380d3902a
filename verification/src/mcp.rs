//! MCP (Model Context Protocol) types, tool-name prefixes and request dispatch
//! for in-process MCP servers.

use crate::errors::{ClaudeError, McpError};
use crate::text::{starts_with, str_eq};
use std::collections::HashMap;
use vstd::prelude::*;

verus! {

/// ACP tool name prefix for MCP server tools: tools of the SDK MCP server that
/// replaces the CLI's built-in tools are registered as `mcp__acp__{tool}`.
pub const ACP_TOOL_PREFIX: &'static str = "mcp__acp__";

/// The ACP-prefixed name of a tool.
pub open spec fn spec_acp_tool_name(tool_name: Seq<char>) -> Seq<char> {
    ACP_TOOL_PREFIX@ + tool_name
}

/// Whether a tool name carries the ACP prefix.
pub open spec fn spec_is_acp_tool(tool_name: Seq<char>) -> bool {
    ACP_TOOL_PREFIX@.is_prefix_of(tool_name)
}

/// A tool name without its ACP prefix, or unchanged if it has none.
pub open spec fn spec_strip_acp_prefix(tool_name: Seq<char>) -> Seq<char> {
    if spec_is_acp_tool(tool_name) {
        tool_name.skip(ACP_TOOL_PREFIX@.len() as int)
    } else {
        tool_name
    }
}

/// Gets the full MCP tool name with the ACP prefix.
pub fn acp_tool_name(tool_name: &str) -> (r: String)
    ensures
        r@ == spec_acp_tool_name(tool_name@),
{
    let mut r = String::from_str(ACP_TOOL_PREFIX);
    r.append(tool_name);
    r
}

/// Checks whether a tool name has the ACP prefix.
pub fn is_acp_tool(tool_name: &str) -> (r: bool)
    ensures
        r == spec_is_acp_tool(tool_name@),
{
    starts_with(tool_name, ACP_TOOL_PREFIX)
}

/// Strips the ACP prefix from a tool name, returning the name unchanged when
/// the prefix is absent.
pub fn strip_acp_prefix(tool_name: &str) -> (r: &str)
    ensures
        r@ == spec_strip_acp_prefix(tool_name@),
{
    if is_acp_tool(tool_name) {
        let p = ACP_TOOL_PREFIX.unicode_len();
        let n = tool_name.unicode_len();
        tool_name.substring_char(p, n)
    } else {
        tool_name
    }
}

/// Prefixing a tool name marks it as an ACP tool, and stripping the prefix
/// gives the original name back.
pub proof fn lemma_acp_prefix_roundtrip(tool_name: Seq<char>)
    ensures
        spec_is_acp_tool(spec_acp_tool_name(tool_name)),
        spec_strip_acp_prefix(spec_acp_tool_name(tool_name)) == tool_name,
{
    let full = spec_acp_tool_name(tool_name);
    assert(full.take(ACP_TOOL_PREFIX@.len() as int) =~= ACP_TOOL_PREFIX@);
    assert(full.skip(ACP_TOOL_PREFIX@.len() as int) =~= tool_name);
}

/// A name without the ACP prefix is left unchanged by stripping, and stripping
/// a prefixed name then prefixing it again gives the name back.
pub proof fn lemma_strip_acp_prefix_inverse(tool_name: Seq<char>)
    ensures
        !spec_is_acp_tool(tool_name) ==> spec_strip_acp_prefix(tool_name) == tool_name,
        spec_is_acp_tool(tool_name) ==> spec_acp_tool_name(spec_strip_acp_prefix(tool_name))
            == tool_name,
{
    if spec_is_acp_tool(tool_name) {
        let p = ACP_TOOL_PREFIX@.len() as int;
        assert(tool_name.take(p) =~= ACP_TOOL_PREFIX@);
        assert(ACP_TOOL_PREFIX@ + tool_name.skip(p) =~= tool_name);
    }
}

/// Stdio MCP server configuration.
#[derive(Debug, Clone)]
pub struct McpStdioServerConfig {
    /// Command to execute.
    pub command: String,
    /// Command arguments.
    pub args: Option<Vec<String>>,
    /// Environment variables.
    pub env: Option<HashMap<String, String>>,
}

/// SSE MCP server configuration.
#[derive(Debug, Clone)]
pub struct McpSseServerConfig {
    /// Server URL.
    pub url: String,
    /// HTTP headers.
    pub headers: Option<HashMap<String, String>>,
}

/// HTTP MCP server configuration.
#[derive(Debug, Clone)]
pub struct McpHttpServerConfig {
    /// Server URL.
    pub url: String,
    /// HTTP headers.
    pub headers: Option<HashMap<String, String>>,
}

/// Hints about tool behaviour that help clients decide how to handle a tool.
#[derive(Debug, Clone, PartialEq, Eq)]
pub struct ToolAnnotations {
    /// Whether the tool only reads data and modifies nothing.
    pub read_only_hint: Option<bool>,
    /// Whether the tool may perform destructive operations.
    pub destructive_hint: Option<bool>,
    /// Whether repeated calls with the same input have the same effect.
    pub idempotent_hint: Option<bool>,
    /// Whether the tool interacts with the world beyond the local environment.
    pub open_world_hint: Option<bool>,
}

impl Default for ToolAnnotations {
    fn default() -> (r: Self)
        ensures
            r.read_only_hint is None,
            r.destructive_hint is None,
            r.idempotent_hint is None,
            r.open_world_hint is None,
    {
        ToolAnnotations {
            read_only_hint: None,
            destructive_hint: None,
            idempotent_hint: None,
            open_world_hint: None,
        }
    }
}

/// Content of a tool result.
#[derive(Debug, Clone)]
pub enum ToolResultContent {
    /// Text content.
    Text {
        /// The text.
        text: String,
    },
    /// Image content.
    Image {
        /// Base64-encoded image data.
        data: String,
        /// MIME type.
        mime_type: String,
    },
}

/// Result of a tool invocation.
#[derive(Debug, Clone)]
pub struct ToolResult {
    /// Result content.
    pub content: Vec<ToolResultContent>,
    /// Whether the result is an error.
    pub is_error: bool,
}

/// What an in-process MCP server does with a request.
#[derive(Debug, Clone)]
pub enum McpAction {
    /// Answer with the server's protocol version, capabilities and identity.
    Initialize,
    /// Acknowledge the `notifications/initialized` notification with an empty result.
    Initialized,
    /// Answer with the list of the server's tools.
    ListTools,
    /// Invoke the named tool's handler with the request's arguments.
    CallTool {
        /// The tool to invoke; it is one of the server's tools.
        tool_name: String,
    },
}

/// Whether `name` is one of `tools`.
pub open spec fn has_tool(tools: Seq<String>, name: Seq<char>) -> bool {
    exists|i: int| 0 <= i < tools.len() && (#[trigger] tools[i])@ == name
}

/// The answer to an MCP request, case by case (see `dispatch_mcp_request`).
pub open spec fn mcp_dispatch_ok(
    method: Option<&str>,
    tool_name: Option<&str>,
    tools: Seq<String>,
    r: Result<McpAction, ClaudeError>,
) -> bool {
    &&& (method is None ==> (r matches Err(ClaudeError::Transport(e)) && e@ == "Missing method"@))
    &&& (method matches Some(m) ==> {
            if m@ == "initialize"@ {
                r matches Ok(McpAction::Initialize)
            } else if m@ == "notifications/initialized"@ {
                r matches Ok(McpAction::Initialized)
            } else if m@ == "tools/list"@ {
                r matches Ok(McpAction::ListTools)
            } else if m@ == "tools/call"@ {
                match tool_name {
                    None => r matches Err(ClaudeError::Transport(e)) && e@ == "Missing tool name"@,
                    Some(t) => if has_tool(tools, t@) {
                        r matches Ok(McpAction::CallTool { tool_name }) && tool_name@ == t@
                    } else {
                        r matches Err(ClaudeError::Transport(e)) && e@ == "Tool not found: "@ + t@
                    },
                }
            } else {
                r matches Err(ClaudeError::Mcp(e)) && e.code == crate::errors::METHOD_NOT_FOUND
                    && e.message@ == "Method not found: "@ + m@
            }
        })
}

/// Decides how an in-process MCP server handles a request.
///
/// `method` is the request's `method`, `tool_name` the `params.name` of a
/// `tools/call` request, and `tools` the names of the server's tools. A
/// missing method or tool name, or an unknown tool, is a transport error; an
/// unknown method is the JSON-RPC "method not found" error.
pub fn dispatch_mcp_request(method: Option<&str>, tool_name: Option<&str>, tools: &Vec<String>) -> (r:
    Result<McpAction, ClaudeError>)
    ensures
        mcp_dispatch_ok(method, tool_name, tools@, r),
        method is None ==> (r matches Err(ClaudeError::Transport(e)) && e@ == "Missing method"@),
        method matches Some(m) ==> {
            if m@ == "initialize"@ {
                r matches Ok(McpAction::Initialize)
            } else if m@ == "notifications/initialized"@ {
                r matches Ok(McpAction::Initialized)
            } else if m@ == "tools/list"@ {
                r matches Ok(McpAction::ListTools)
            } else if m@ == "tools/call"@ {
                match tool_name {
                    None => r matches Err(ClaudeError::Transport(e)) && e@ == "Missing tool name"@,
                    Some(t) => if has_tool(tools@, t@) {
                        r matches Ok(McpAction::CallTool { tool_name }) && tool_name@ == t@
                    } else {
                        r matches Err(ClaudeError::Transport(e)) && e@ == "Tool not found: "@ + t@
                    },
                }
            } else {
                r matches Err(ClaudeError::Mcp(e)) && e.code == crate::errors::METHOD_NOT_FOUND
                    && e.message@ == "Method not found: "@ + m@
            }
        },
{
    let m = match method {
        None => {
            return Err(ClaudeError::Transport(String::from_str("Missing method")));
        },
        Some(m) => m,
    };
    if str_eq(m, "initialize") {
        Ok(McpAction::Initialize)
    } else if str_eq(m, "notifications/initialized") {
        Ok(McpAction::Initialized)
    } else if str_eq(m, "tools/list") {
        Ok(McpAction::ListTools)
    } else if str_eq(m, "tools/call") {
        let t = match tool_name {
            None => {
                return Err(ClaudeError::Transport(String::from_str("Missing tool name")));
            },
            Some(t) => t,
        };
        let mut i: usize = 0;
        #[verifier::loop_isolation(false)]
        while i < tools.len()
            invariant
                i <= tools@.len(),
                forall|j: int| 0 <= j < i ==> (#[trigger] tools@[j])@ != t@,
            decreases tools@.len() - i,
        {
            if str_eq(tools[i].as_str(), t) {
                return Ok(McpAction::CallTool { tool_name: tools[i].clone() });
            }
            i = i + 1;
        }
        let mut e = String::from_str("Tool not found: ");
        e.append(t);
        Err(ClaudeError::Transport(e))
    } else {
        Err(ClaudeError::Mcp(McpError::method_not_found(m)))
    }
}

/// A `tools/call` request for a tool the server has, at whatever position,
/// calls that tool; only a name that none of the server's tools has is
/// refused as not found.
pub proof fn lemma_tools_call_finds_every_tool(
    method: Option<&str>,
    tool_name: Option<&str>,
    tools: Seq<String>,
    r: Result<McpAction, ClaudeError>,
)
    requires
        mcp_dispatch_ok(method, tool_name, tools, r),
        method matches Some(m) && m@ == "tools/call"@,
        tool_name is Some,
    ensures
        forall|k: int|
            0 <= k < tools.len() && (#[trigger] tools[k])@ == tool_name->0@ ==> (r matches Ok(
                McpAction::CallTool { tool_name: t },
            ) && t@ == tool_name->0@),
        (forall|k: int| 0 <= k < tools.len() ==> (#[trigger] tools[k])@ != tool_name->0@) ==> (r matches Err(
            ClaudeError::Transport(e),
        ) && e@ == "Tool not found: "@ + tool_name->0@),
{
    reveal_strlit("tools/call");
    reveal_strlit("initialize");
    reveal_strlit("notifications/initialized");
    reveal_strlit("tools/list");
    assert("tools/call"@[0] != "initialize"@[0]);
    assert("tools/call"@[0] != "notifications/initialized"@[0]);
    assert("tools/call"@[6] != "tools/list"@[6]);
}

/// The transport of a configured MCP server.
#[derive(Debug, Clone, Copy, PartialEq, Eq)]
pub enum McpServerKind {
    /// A subprocess spoken to over stdio.
    Stdio,
    /// A server reached over server-sent events.
    Sse,
    /// A server reached over HTTP.
    Http,
    /// An in-process server of the SDK.
    Sdk,
}

/// The names of the in-process servers among configured `(name, kind)` entries, in order.
pub open spec fn sdk_names(entries: Seq<(String, McpServerKind)>) -> Seq<Seq<char>>
    decreases entries.len(),
{
    if entries.len() == 0 {
        Seq::empty()
    } else {
        let init = sdk_names(entries.drop_last());
        if entries.last().1 == McpServerKind::Sdk {
            init.push(entries.last().0@)
        } else {
            init
        }
    }
}

/// Picking the in-process servers keeps every entry of kind `Sdk` and no
/// other, in order: none from no entries; adding an entry adds its name at
/// the end exactly when it is of kind `Sdk`; a single `Sdk` entry gives its name.
pub proof fn lemma_sdk_names_laws(
    entries: Seq<(String, McpServerKind)>,
    name: String,
    kind: McpServerKind,
)
    ensures
        sdk_names(Seq::<(String, McpServerKind)>::empty()) == Seq::<Seq<char>>::empty(),
        kind == McpServerKind::Sdk ==> sdk_names(entries.push((name, kind))) == sdk_names(
            entries,
        ).push(name@),
        kind != McpServerKind::Sdk ==> sdk_names(entries.push((name, kind))) == sdk_names(
            entries,
        ),
        sdk_names(seq![(name, McpServerKind::Sdk)]) == seq![name@],
{
    assert(entries.push((name, kind)).drop_last() =~= entries);
    let one = seq![(name, McpServerKind::Sdk)];
    assert(one.drop_last() =~= Seq::<(String, McpServerKind)>::empty());
    assert(Seq::<Seq<char>>::empty().push(name@) =~= seq![name@]);
    assert(one.last().1 == McpServerKind::Sdk);
    assert(sdk_names(one) == sdk_names(one.drop_last()).push(one.last().0@));
}

/// Every picked name is that of an entry of kind `Sdk`: the one returned,
/// and no more names are picked than there are entries.
pub proof fn lemma_sdk_name_source(entries: Seq<(String, McpServerKind)>, j: int) -> (i: int)
    requires
        0 <= j < sdk_names(entries).len(),
    ensures
        0 <= i < entries.len(),
        entries[i].1 == McpServerKind::Sdk,
        entries[i].0@ == sdk_names(entries)[j],
        sdk_names(entries).len() <= entries.len(),
    decreases entries.len(),
{
    let init = entries.drop_last();
    if j < sdk_names(init).len() {
        let i = lemma_sdk_name_source(init, j);
        assert(entries[i] == init[i]);
        i
    } else {
        if entries.last().1 != McpServerKind::Sdk {
            assert(sdk_names(entries) == sdk_names(init));
            assert(false);
        }
        if sdk_names(init).len() > 0 {
            let _ = lemma_sdk_name_source(init, 0);
        }
        assert(sdk_names(entries) == sdk_names(init).push(entries.last().0@));
        (entries.len() - 1) as int
    }
}

/// Picks the in-process servers out of the configured MCP servers: their
/// names, in the order given; the other servers are left to the CLI.
pub fn sdk_server_names(entries: &Vec<(String, McpServerKind)>) -> (r: Vec<String>)
    ensures
        r@.map_values(|s: String| s@) == sdk_names(entries@),
{
    let mut r: Vec<String> = Vec::new();
    let mut i: usize = 0;
    while i < entries.len()
        invariant
            i <= entries@.len(),
            r@.map_values(|s: String| s@) == sdk_names(entries@.take(i as int)),
        decreases entries@.len() - i,
    {
        let ghost before = r@.map_values(|s: String| s@);
        assert(entries@.take(i + 1).drop_last() =~= entries@.take(i as int));
        match entries[i].1 {
            McpServerKind::Sdk => {
                r.push(entries[i].0.clone());
                assert(r@.map_values(|s: String| s@) =~= before.push(entries@[i as int].0@));
            },
            _ => {},
        }
        i = i + 1;
    }
    assert(entries@.take(entries@.len() as int) =~= entries@);
    r
}

} // verus!
