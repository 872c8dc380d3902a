//! Control protocol between the SDK and the CLI: dispatch of incoming control
//! requests, classification of incoming messages, and the permission
//! decisions the SDK sends back.

use crate::errors::ClaudeError;
use crate::routing::{counter_id, is_simple_uuid, new_uuid_simple, PendingRequests, QueryRouter, RoutePlan};
use crate::text::{decimal, push_decimal, str_eq};
use vstd::prelude::*;

verus! {

/// Default timeout for control requests, in seconds.
pub const DEFAULT_CONTROL_REQUEST_TIMEOUT_SECS: u64 = 60;

/// A permission denial sent back to the CLI.
#[derive(Debug, Clone)]
pub struct PermissionResultDeny {
    /// Why the tool was denied.
    pub message: String,
    /// Whether to interrupt the session.
    pub interrupt: bool,
}

/// What the SDK does with a control request from the CLI.
#[derive(Debug, Clone)]
pub enum ControlAction {
    /// Ask the registered permission callback about `tool_name`.
    AskPermission {
        /// The tool whose use is requested.
        tool_name: String,
        /// The tool-use ID, if the request carried one.
        tool_use_id: Option<String>,
    },
    /// No permission callback is registered: deny the tool.
    Deny {
        /// The tool whose use is requested.
        tool_name: String,
        /// The denial sent back.
        result: PermissionResultDeny,
    },
    /// Run the registered hook callback `callback_id`.
    RunHook {
        /// The callback to run; it is registered.
        callback_id: String,
        /// The tool-use ID, if the request carried one.
        tool_use_id: Option<String>,
    },
    /// Forward the request's MCP message to the in-process server `server_name`.
    ForwardMcp {
        /// The server to forward to; it is registered.
        server_name: String,
    },
}

/// The fields of a control request that decide how it is handled; each is
/// `None` when the request does not carry it as a string.
#[derive(Debug, Clone)]
pub struct ControlRequestFields {
    /// `request.subtype`.
    pub subtype: Option<String>,
    /// `request.tool_name`.
    pub tool_name: Option<String>,
    /// `request.tool_use_id`.
    pub tool_use_id: Option<String>,
    /// `request.callback_id`.
    pub callback_id: Option<String>,
    /// `request.server_name`.
    pub server_name: Option<String>,
    /// Whether the request has a `message`.
    pub has_message: bool,
}

/// Whether `name` is one of `names`.
pub open spec fn contains_name(names: Seq<String>, name: Seq<char>) -> bool {
    exists|i: int| 0 <= i < names.len() && (#[trigger] names[i])@ == name
}

/// The message of a control-protocol error.
pub open spec fn is_protocol_error(r: Result<ControlAction, ClaudeError>, msg: Seq<char>) -> bool {
    r matches Err(ClaudeError::ControlProtocol(e)) && e@ == msg
}

/// The decision for a control request, stated case by case.
pub open spec fn control_decision_ok(
    req: ControlRequestFields,
    has_permission_callback: bool,
    hook_callback_ids: Seq<String>,
    sdk_server_names: Seq<String>,
    r: Result<ControlAction, ClaudeError>,
) -> bool {
    match req.subtype {
        None => is_protocol_error(r, "Missing subtype"@),
        Some(st) => if st@ == "can_use_tool"@ {
            match req.tool_name {
                None => is_protocol_error(r, "Missing tool_name for can_use_tool"@),
                Some(t) => if has_permission_callback {
                    r matches Ok(ControlAction::AskPermission { tool_name, tool_use_id })
                        && tool_name@ == t@ && tool_use_id == req.tool_use_id
                } else {
                    r matches Ok(ControlAction::Deny { tool_name, result }) && tool_name@ == t@
                        && result.message@ == "No permission callback registered"@
                        && !result.interrupt
                },
            }
        } else if st@ == "hook_callback"@ {
            match req.callback_id {
                None => is_protocol_error(r, "Missing callback_id"@),
                Some(c) => if contains_name(hook_callback_ids, c@) {
                    r matches Ok(ControlAction::RunHook { callback_id, tool_use_id })
                        && callback_id@ == c@ && tool_use_id == req.tool_use_id
                } else {
                    is_protocol_error(r, "Hook callback not found: "@ + c@)
                },
            }
        } else if st@ == "mcp_message"@ {
            match req.server_name {
                None => is_protocol_error(r, "Missing server_name for mcp_message"@),
                Some(s) => if !req.has_message {
                    is_protocol_error(r, "Missing message for mcp_message"@)
                } else if contains_name(sdk_server_names, s@) {
                    r matches Ok(ControlAction::ForwardMcp { server_name }) && server_name@ == s@
                } else {
                    is_protocol_error(r, "SDK MCP server not found: "@ + s@)
                },
            }
        } else {
            is_protocol_error(r, "Unsupported control request subtype: "@ + st@)
        },
    }
}

/// A `hook_callback` request whose callback is registered, at whatever position,
/// runs that callback and hands it the request's tool-use ID, as a
/// `can_use_tool` request hands it to the permission callback.
pub proof fn lemma_hook_callback_runs_registered_hook(
    req: ControlRequestFields,
    has_permission_callback: bool,
    hook_callback_ids: Seq<String>,
    sdk_server_names: Seq<String>,
    r: Result<ControlAction, ClaudeError>,
    k: int,
)
    requires
        control_decision_ok(req, has_permission_callback, hook_callback_ids, sdk_server_names, r),
        req.subtype matches Some(st) && st@ == "hook_callback"@,
        req.callback_id matches Some(c) && 0 <= k < hook_callback_ids.len()
            && hook_callback_ids[k]@ == c@,
    ensures
        r matches Ok(ControlAction::RunHook { callback_id, tool_use_id }) && callback_id@
            == req.callback_id->0@ && tool_use_id == req.tool_use_id,
{
    reveal_strlit("hook_callback");
    reveal_strlit("can_use_tool");
    assert("hook_callback"@[0] != "can_use_tool"@[0]);
    let c = req.callback_id->0;
    assert(hook_callback_ids[k]@ == c@);
}

/// A `can_use_tool` request with a tool name asks the permission callback,
/// handing it the tool name and the request's tool-use ID, when one is
/// registered, and is denied without interrupting the session otherwise.
pub proof fn lemma_can_use_tool_decision(
    req: ControlRequestFields,
    has_permission_callback: bool,
    hook_callback_ids: Seq<String>,
    sdk_server_names: Seq<String>,
    r: Result<ControlAction, ClaudeError>,
)
    requires
        control_decision_ok(req, has_permission_callback, hook_callback_ids, sdk_server_names, r),
        req.subtype matches Some(st) && st@ == "can_use_tool"@,
        req.tool_name is Some,
    ensures
        has_permission_callback ==> (r matches Ok(ControlAction::AskPermission { tool_name, tool_use_id })
            && tool_name@ == req.tool_name->0@ && tool_use_id == req.tool_use_id),
        !has_permission_callback ==> (r matches Ok(ControlAction::Deny { tool_name, result })
            && tool_name@ == req.tool_name->0@ && !result.interrupt),
{
}

/// Whether `name` is one of `names`, found by a scan.
fn find_name(names: &Vec<String>, name: &str) -> (r: bool)
    ensures
        r == contains_name(names@, name@),
{
    let mut i: usize = 0;
    while i < names.len()
        invariant
            i <= names@.len(),
            forall|j: int| 0 <= j < i ==> (#[trigger] names@[j])@ != name@,
        decreases names@.len() - i,
    {
        if str_eq(names[i].as_str(), name) {
            return true;
        }
        i = i + 1;
    }
    false
}

fn protocol_error(msg: &str) -> (r: ClaudeError)
    ensures
        r matches ClaudeError::ControlProtocol(e) && e@ == msg@,
{
    ClaudeError::ControlProtocol(String::from_str(msg))
}

fn protocol_error_with(msg: &str, detail: &str) -> (r: ClaudeError)
    ensures
        r matches ClaudeError::ControlProtocol(e) && e@ == msg@ + detail@,
{
    let mut e = String::from_str(msg);
    e.append(detail);
    ClaudeError::ControlProtocol(e)
}

/// Decides how a control request from the CLI is handled.
///
/// A `can_use_tool` request asks the permission callback, or is denied when
/// none is registered; a `hook_callback` request runs a registered hook; an
/// `mcp_message` request is forwarded to a registered in-process MCP server.
/// Every other request, and every request missing a field it needs, is a
/// control-protocol error.
pub fn decide_control_request(
    req: &ControlRequestFields,
    has_permission_callback: bool,
    hook_callback_ids: &Vec<String>,
    sdk_server_names: &Vec<String>,
) -> (r: Result<ControlAction, ClaudeError>)
    ensures
        control_decision_ok(*req, has_permission_callback, hook_callback_ids@, sdk_server_names@, r),
{
    let st = match &req.subtype {
        None => {
            return Err(protocol_error("Missing subtype"));
        },
        Some(st) => st.as_str(),
    };
    if str_eq(st, "can_use_tool") {
        match &req.tool_name {
            None => Err(protocol_error("Missing tool_name for can_use_tool")),
            Some(t) => {
                if has_permission_callback {
                    Ok(ControlAction::AskPermission { tool_name: t.clone(), tool_use_id: req.tool_use_id.clone() })
                } else {
                    Ok(
                        ControlAction::Deny {
                            tool_name: t.clone(),
                            result: PermissionResultDeny {
                                message: String::from_str("No permission callback registered"),
                                interrupt: false,
                            },
                        },
                    )
                }
            },
        }
    } else if str_eq(st, "hook_callback") {
        match &req.callback_id {
            None => Err(protocol_error("Missing callback_id")),
            Some(c) => {
                if find_name(hook_callback_ids, c.as_str()) {
                    Ok(ControlAction::RunHook { callback_id: c.clone(), tool_use_id: req.tool_use_id.clone() })
                } else {
                    Err(protocol_error_with("Hook callback not found: ", c.as_str()))
                }
            },
        }
    } else if str_eq(st, "mcp_message") {
        match &req.server_name {
            None => Err(protocol_error("Missing server_name for mcp_message")),
            Some(s) => {
                if !req.has_message {
                    Err(protocol_error("Missing message for mcp_message"))
                } else if find_name(sdk_server_names, s.as_str()) {
                    Ok(ControlAction::ForwardMcp { server_name: s.clone() })
                } else {
                    Err(protocol_error_with("SDK MCP server not found: ", s.as_str()))
                }
            },
        }
    } else {
        Err(protocol_error_with("Unsupported control request subtype: ", st))
    }
}

/// The kinds of message the CLI sends.
#[derive(Debug, Clone, Copy, PartialEq, Eq)]
pub enum InboundKind {
    /// The answer to a control request sent by the SDK.
    ControlResponse,
    /// A control request sent by the CLI.
    ControlRequest,
    /// A conversation message (assistant, user, system, result, ...).
    Conversation,
}

/// Classifies a message from the CLI by its `type` field.
pub fn classify_message(msg_type: Option<&str>) -> (r: InboundKind)
    ensures
        r == (match msg_type {
            Some(t) => if t@ == "control_response"@ {
                InboundKind::ControlResponse
            } else if t@ == "control_request"@ {
                InboundKind::ControlRequest
            } else {
                InboundKind::Conversation
            },
            None => InboundKind::Conversation,
        }),
{
    match msg_type {
        Some(t) => {
            if str_eq(t, "control_response") {
                InboundKind::ControlResponse
            } else if str_eq(t, "control_request") {
                InboundKind::ControlRequest
            } else {
                InboundKind::Conversation
            }
        },
        None => InboundKind::Conversation,
    }
}

/// What the background reader does with one message from the CLI.
#[derive(Debug, Clone)]
pub enum ReaderAction {
    /// Hand the response's data to the request `request_id`, which was
    /// pending and has been taken off the pending list.
    DeliverResponse(String),
    /// A control response that matches no pending request: drop it.
    DropResponse,
    /// A control request from the CLI: handle it and answer it.
    HandleControlRequest,
    /// A conversation message: deliver it as planned.
    Route(RoutePlan),
}

/// The background reader's step on one message from the CLI, given its `type`
/// and, for a control response that parsed, the ID of the request it answers.
///
/// A control response goes only to its pending request, which it takes off the
/// pending list, leaving the other pending requests as they were; it never
/// reaches a query receiver or the session-wide channel. A control request is
/// handled. Any other message is routed, as a result message when its type is
/// `result`.
pub fn reader_step(
    msg_type: Option<&str>,
    response_request_id: Option<&str>,
    pending: &mut PendingRequests,
    router: &QueryRouter,
) -> (r: ReaderAction)
    requires
        old(pending).wf(),
        router.wf(),
    ensures
        final(pending).wf(),
        (match msg_type {
            Some(t) => t@ == "control_response"@,
            None => false,
        }) ==> match response_request_id {
            Some(id) => if old(pending).pending().contains(id@) {
                &&& r matches ReaderAction::DeliverResponse(x) && x@ == id@
                &&& !final(pending).pending().contains(id@)
                &&& forall|x: Seq<char>|
                    x != id@ ==> (#[trigger] final(pending).pending().contains(x) <==> old(
                        pending,
                    ).pending().contains(x))
            } else {
                r is DropResponse && final(pending).pending() == old(pending).pending()
            },
            None => r is DropResponse && final(pending).pending() == old(pending).pending(),
        },
        (match msg_type {
            Some(t) => t@ == "control_request"@,
            None => false,
        }) ==> r is HandleControlRequest && final(pending).pending() == old(pending).pending(),
        (match msg_type {
            Some(t) => t@ != "control_response"@ && t@ != "control_request"@,
            None => true,
        }) ==> (r matches ReaderAction::Route(plan) && router.route_ok(
            msg_type matches Some(t) && t@ == "result"@,
            plan,
        ) && final(pending).pending() == old(pending).pending()),
{
    proof {
        reveal_strlit("control_response");
        reveal_strlit("control_request");
        assert("control_request"@.len() != "control_response"@.len());
    }
    match classify_message(msg_type) {
        InboundKind::ControlResponse => match response_request_id {
            Some(id) => {
                if pending.take(id) {
                    ReaderAction::DeliverResponse(id.to_owned())
                } else {
                    ReaderAction::DropResponse
                }
            },
            None => ReaderAction::DropResponse,
        },
        InboundKind::ControlRequest => ReaderAction::HandleControlRequest,
        InboundKind::Conversation => {
            let is_result = match msg_type {
                Some(t) => str_eq(t, "result"),
                None => false,
            };
            ReaderAction::Route(router.route(is_result))
        },
    }
}

/// `n + k` on 64-bit counters, wrapping around as `AtomicU64::fetch_add` does.
pub open spec fn wrap_add(n: u64, k: int) -> u64 {
    ((n as int + k) % 0x1_0000_0000_0000_0000int) as u64
}

/// `hook_` followed by the decimal counter.
pub open spec fn hook_callback_id(n: u64) -> Seq<char> {
    "hook_"@ + decimal(n as nat)
}

/// The total of `counts[..i]`.
pub open spec fn prefix_sum(counts: Seq<usize>, i: int) -> int
    decreases i,
{
    if i <= 0 {
        0
    } else {
        prefix_sum(counts, i - 1) + counts[i - 1] as int
    }
}

/// The control request ID `req_{n}_{uuid}`.
pub fn request_id_for(n: u64, uuid: &str) -> (r: String)
    ensures
        r@ == counter_id("req_"@, n, uuid@),
{
    let mut r = String::from_str("req_");
    push_decimal(&mut r, n);
    r.append("_");
    r.append(uuid);
    r
}

/// Counters of the IDs the SDK attaches to control requests and hook callbacks.
pub struct ControlCounters {
    next_callback_id: u64,
    request_counter: u64,
}

impl ControlCounters {
    /// The number of the next hook callback ID.
    pub closed spec fn callback_counter(&self) -> u64 {
        self.next_callback_id
    }

    /// The number of the next control request ID.
    pub closed spec fn request_counter(&self) -> u64 {
        self.request_counter
    }

    /// Both counters start at zero.
    pub fn new() -> (r: Self)
        ensures
            r.callback_counter() == 0,
            r.request_counter() == 0,
    {
        ControlCounters { next_callback_id: 0, request_counter: 0 }
    }

    /// A fresh control request ID `req_{counter}_{uuid}`.
    pub fn next_request_id(&mut self) -> (r: String)
        ensures
            final(self).request_counter() == wrap_add(old(self).request_counter(), 1),
            final(self).callback_counter() == old(self).callback_counter(),
            exists|u: Seq<char>|
                is_simple_uuid(u) && r@ == counter_id("req_"@, old(self).request_counter(), u),
    {
        let n = self.request_counter;
        self.request_counter = n.wrapping_add(1);
        let u = new_uuid_simple();
        request_id_for(n, u.as_str())
    }

    /// A fresh hook callback ID `hook_{counter}`.
    pub fn next_hook_callback_id(&mut self) -> (r: String)
        ensures
            final(self).callback_counter() == wrap_add(old(self).callback_counter(), 1),
            final(self).request_counter() == old(self).request_counter(),
            r@ == hook_callback_id(old(self).callback_counter()),
    {
        let n = self.next_callback_id;
        self.next_callback_id = n.wrapping_add(1);
        let mut r = String::from_str("hook_");
        push_decimal(&mut r, n);
        r
    }

    /// Assigns callback IDs to the hooks of a list of matchers: matcher `i`
    /// has `counts[i]` callbacks, and they get consecutive IDs in order.
    pub fn assign_hook_callback_ids(&mut self, counts: &Vec<usize>) -> (r: Vec<Vec<String>>)
        ensures
            final(self).request_counter() == old(self).request_counter(),
            final(self).callback_counter() == wrap_add(
                old(self).callback_counter(),
                prefix_sum(counts@, counts@.len() as int),
            ),
            r@.len() == counts@.len(),
            forall|i: int|
                0 <= i < counts@.len() ==> (#[trigger] r@[i])@.len() == counts@[i],
            forall|i: int, j: int|
                0 <= i < counts@.len() && 0 <= j < counts@[i] ==> (#[trigger] r@[i]@[j])@
                    == hook_callback_id(
                    wrap_add(old(self).callback_counter(), prefix_sum(counts@, i) + j),
                ),
    {
        let ghost start = self.next_callback_id;
        let mut r: Vec<Vec<String>> = Vec::new();
        let mut i: usize = 0;
        while i < counts.len()
            invariant
                i <= counts@.len(),
                r@.len() == i,
                self.request_counter() == old(self).request_counter(),
                start == old(self).callback_counter(),
                self.callback_counter() == wrap_add(start, prefix_sum(counts@, i as int)),
                forall|a: int| 0 <= a < i ==> (#[trigger] r@[a])@.len() == counts@[a],
                forall|a: int, b: int|
                    0 <= a < i && 0 <= b < counts@[a] ==> (#[trigger] r@[a]@[b])@
                        == hook_callback_id(wrap_add(start, prefix_sum(counts@, a) + b)),
            decreases counts@.len() - i,
        {
            let mut ids: Vec<String> = Vec::new();
            let mut j: usize = 0;
            while j < counts[i]
                invariant
                    i < counts@.len(),
                    j <= counts@[i as int],
                    ids@.len() == j,
                    self.request_counter() == old(self).request_counter(),
                    self.callback_counter() == wrap_add(start, prefix_sum(counts@, i as int) + j),
                    forall|b: int|
                        0 <= b < j ==> (#[trigger] ids@[b])@ == hook_callback_id(
                            wrap_add(start, prefix_sum(counts@, i as int) + b),
                        ),
                decreases counts@[i as int] - j,
            {
                let id = self.next_hook_callback_id();
                proof {
                    lemma_wrap_add_step(start, prefix_sum(counts@, i as int) + j);
                }
                ids.push(id);
                j = j + 1;
            }
            r.push(ids);
            i = i + 1;
            assert(prefix_sum(counts@, i as int) == prefix_sum(counts@, i - 1) + counts@[i - 1]);
        }
        r
    }
}

proof fn lemma_wrap_add_step(n: u64, k: int)
    ensures
        wrap_add(wrap_add(n, k), 1) == wrap_add(n, k + 1),
{
    let m = 0x1_0000_0000_0000_0000int;
    assert(((n as int + k) % m + 1) % m == (n as int + k + 1) % m) by (nonlinear_arith)
        requires
            m > 1,
    {
        vstd::arithmetic::div_mod::lemma_add_mod_noop(n as int + k, 1, m);
        assert(1int % m == 1);
    }
}

/// Hook callback IDs made from distinct counters are distinct.
pub proof fn lemma_hook_callback_ids_distinct(a: u64, b: u64)
    requires
        a != b,
    ensures
        hook_callback_id(a) != hook_callback_id(b),
{
    if hook_callback_id(a) == hook_callback_id(b) {
        let p = "hook_"@.len() as int;
        assert(hook_callback_id(a).skip(p) =~= decimal(a as nat));
        assert(hook_callback_id(b).skip(p) =~= decimal(b as nat));
        crate::text::lemma_decimal_injective(a as nat, b as nat);
    }
}

/// How waiting for the response to a control request ended.
#[derive(Debug, Clone, Copy, PartialEq, Eq)]
pub enum WaitOutcome {
    /// The response arrived.
    Responded,
    /// The response channel closed before a response arrived.
    ChannelClosed,
    /// No response arrived within the timeout.
    TimedOut,
}

/// Concludes a control request after waiting for its response: a request that
/// got no response is taken off the pending list and reported as an error.
/// `timeout_text` renders the timeout for the message.
pub fn finish_control_request(
    pending: &mut PendingRequests,
    request_id: &str,
    outcome: WaitOutcome,
    timeout_text: &str,
) -> (r: Result<(), ClaudeError>)
    requires
        old(pending).wf(),
    ensures
        final(pending).wf(),
        outcome == WaitOutcome::Responded ==> r is Ok && final(pending).pending() == old(
            pending,
        ).pending(),
        outcome != WaitOutcome::Responded ==> !final(pending).pending().contains(request_id@)
            && forall|x: Seq<char>|
            x != request_id@ ==> (#[trigger] final(pending).pending().contains(x) <==> old(
                pending,
            ).pending().contains(x)),
        outcome == WaitOutcome::ChannelClosed ==> (r matches Err(ClaudeError::ControlProtocol(m))
            && m@ == "Control request response channel closed"@),
        outcome == WaitOutcome::TimedOut ==> (r matches Err(ClaudeError::Timeout(m)) && m@
            == "Control request timed out after "@ + timeout_text@),
{
    match outcome {
        WaitOutcome::Responded => Ok(()),
        WaitOutcome::ChannelClosed => {
            pending.take(request_id);
            Err(protocol_error("Control request response channel closed"))
        },
        WaitOutcome::TimedOut => {
            pending.take(request_id);
            let mut m = String::from_str("Control request timed out after ");
            m.append(timeout_text);
            Err(ClaudeError::Timeout(m))
        },
    }
}

} // verus!
