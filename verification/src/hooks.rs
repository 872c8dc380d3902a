//! Hook types and the per-event registry of hook matchers.

use vstd::prelude::*;

verus! {

/// Hook events that can be intercepted.
#[derive(Debug, Clone, Copy, PartialEq, Eq, Structural, Hash)]
pub enum HookEvent {
    /// Before tool use.
    PreToolUse,
    /// After tool use.
    PostToolUse,
    /// When a tool execution fails.
    PostToolUseFailure,
    /// When a user prompt is submitted.
    UserPromptSubmit,
    /// When execution stops.
    Stop,
    /// When a subagent stops.
    SubagentStop,
    /// Before the conversation is compacted.
    PreCompact,
    /// When a notification event occurs.
    Notification,
    /// When a subagent starts.
    SubagentStart,
    /// When a permission request event occurs.
    PermissionRequest,
}

impl HookEvent {
    /// The event's name in the CLI's protocol.
    pub open spec fn spec_name(self) -> Seq<char> {
        match self {
            HookEvent::PreToolUse => "PreToolUse"@,
            HookEvent::PostToolUse => "PostToolUse"@,
            HookEvent::PostToolUseFailure => "PostToolUseFailure"@,
            HookEvent::UserPromptSubmit => "UserPromptSubmit"@,
            HookEvent::Stop => "Stop"@,
            HookEvent::SubagentStop => "SubagentStop"@,
            HookEvent::PreCompact => "PreCompact"@,
            HookEvent::Notification => "Notification"@,
            HookEvent::SubagentStart => "SubagentStart"@,
            HookEvent::PermissionRequest => "PermissionRequest"@,
        }
    }

    /// The event's name in the CLI's protocol.
    pub fn name(&self) -> (r: &'static str)
        ensures
            r@ == self.spec_name(),
    {
        match self {
            HookEvent::PreToolUse => "PreToolUse",
            HookEvent::PostToolUse => "PostToolUse",
            HookEvent::PostToolUseFailure => "PostToolUseFailure",
            HookEvent::UserPromptSubmit => "UserPromptSubmit",
            HookEvent::Stop => "Stop",
            HookEvent::SubagentStop => "SubagentStop",
            HookEvent::PreCompact => "PreCompact",
            HookEvent::Notification => "Notification",
            HookEvent::SubagentStart => "SubagentStart",
            HookEvent::PermissionRequest => "PermissionRequest",
        }
    }
}

/// Distinct events have distinct protocol names.
pub proof fn lemma_hook_event_names_distinct(a: HookEvent, b: HookEvent)
    requires
        a != b,
    ensures
        a.spec_name() != b.spec_name(),
{
    reveal_strlit("PreToolUse");
    reveal_strlit("PostToolUse");
    reveal_strlit("PostToolUseFailure");
    reveal_strlit("UserPromptSubmit");
    reveal_strlit("Stop");
    reveal_strlit("SubagentStop");
    reveal_strlit("PreCompact");
    reveal_strlit("Notification");
    reveal_strlit("SubagentStart");
    reveal_strlit("PermissionRequest");
    if a.spec_name() == b.spec_name() {
        let n = a.spec_name();
        assert(n.len() == b.spec_name().len());
        assert(n[0] == b.spec_name()[0]);
        assert(n[n.len() - 1] == b.spec_name()[n.len() - 1]);
        if n.len() > 4 {
            assert(n[4] == b.spec_name()[4]);
        }
        if n.len() > 11 {
            assert(n[11] == b.spec_name()[11]);
        }
    }
}

/// User-prompt-submit hook input.
#[derive(Debug, Clone)]
pub struct UserPromptSubmitHookInput {
    /// Session ID.
    pub session_id: String,
    /// Transcript path.
    pub transcript_path: String,
    /// Current working directory.
    pub cwd: String,
    /// Permission mode.
    pub permission_mode: Option<String>,
    /// User prompt.
    pub prompt: String,
}

/// Stop hook input.
#[derive(Debug, Clone)]
pub struct StopHookInput {
    /// Session ID.
    pub session_id: String,
    /// Transcript path.
    pub transcript_path: String,
    /// Current working directory.
    pub cwd: String,
    /// Permission mode.
    pub permission_mode: Option<String>,
    /// Whether the stop hook is active.
    pub stop_hook_active: bool,
}

/// Subagent-stop hook input.
#[derive(Debug, Clone)]
pub struct SubagentStopHookInput {
    /// Session ID.
    pub session_id: String,
    /// Transcript path.
    pub transcript_path: String,
    /// Current working directory.
    pub cwd: String,
    /// Permission mode.
    pub permission_mode: Option<String>,
    /// Whether the stop hook is active.
    pub stop_hook_active: bool,
    /// Agent ID.
    pub agent_id: String,
    /// Agent transcript path.
    pub agent_transcript_path: String,
    /// Agent type.
    pub agent_type: String,
}

/// Pre-compact hook input.
#[derive(Debug, Clone)]
pub struct PreCompactHookInput {
    /// Session ID.
    pub session_id: String,
    /// Transcript path.
    pub transcript_path: String,
    /// Current working directory.
    pub cwd: String,
    /// Permission mode.
    pub permission_mode: Option<String>,
    /// Trigger type (manual or auto).
    pub trigger: String,
    /// Custom instructions for compaction.
    pub custom_instructions: Option<String>,
}

/// Notification hook input.
#[derive(Debug, Clone)]
pub struct NotificationHookInput {
    /// Session ID.
    pub session_id: String,
    /// Transcript path.
    pub transcript_path: String,
    /// Current working directory.
    pub cwd: String,
    /// Permission mode.
    pub permission_mode: Option<String>,
    /// Notification message.
    pub message: String,
    /// Notification title.
    pub title: Option<String>,
    /// Notification type.
    pub notification_type: String,
}

/// Subagent-start hook input.
#[derive(Debug, Clone)]
pub struct SubagentStartHookInput {
    /// Session ID.
    pub session_id: String,
    /// Transcript path.
    pub transcript_path: String,
    /// Current working directory.
    pub cwd: String,
    /// Permission mode.
    pub permission_mode: Option<String>,
    /// Agent ID.
    pub agent_id: String,
    /// Agent type.
    pub agent_type: String,
}

/// Context passed to hook callbacks.
#[derive(Debug, Clone)]
pub struct HookContext {
    /// Abort signal (reserved).
    pub signal: Option<()>,
}

impl Default for HookContext {
    fn default() -> (r: Self)
        ensures
            r.signal is None,
    {
        HookContext { signal: None }
    }
}

/// Output of an asynchronous hook: the hook returns at once and continues in
/// the background.
#[derive(Debug, Clone)]
pub struct AsyncHookJsonOutput {
    /// Always `true` for asynchronous hooks; sent as `async`.
    pub async_: bool,
    /// Timeout in milliseconds.
    pub async_timeout: Option<u64>,
}

impl Default for AsyncHookJsonOutput {
    fn default() -> (r: Self)
        ensures
            r.async_,
            r.async_timeout is None,
    {
        AsyncHookJsonOutput { async_: true, async_timeout: None }
    }
}

/// User-prompt-submit hook specific output.
#[derive(Debug, Clone)]
pub struct UserPromptSubmitHookSpecificOutput {
    /// Additional context to provide to the model.
    pub additional_context: Option<String>,
}

impl Default for UserPromptSubmitHookSpecificOutput {
    fn default() -> (r: Self)
        ensures
            r.additional_context is None,
    {
        UserPromptSubmitHookSpecificOutput { additional_context: None }
    }
}

/// Post-tool-use-failure hook specific output.
#[derive(Debug, Clone)]
pub struct PostToolUseFailureHookSpecificOutput {
    /// Additional context to provide to the model.
    pub additional_context: Option<String>,
}

impl Default for PostToolUseFailureHookSpecificOutput {
    fn default() -> (r: Self)
        ensures
            r.additional_context is None,
    {
        PostToolUseFailureHookSpecificOutput { additional_context: None }
    }
}

/// Notification hook specific output.
#[derive(Debug, Clone)]
pub struct NotificationHookSpecificOutput {
    /// Additional context to provide to the model.
    pub additional_context: Option<String>,
}

impl Default for NotificationHookSpecificOutput {
    fn default() -> (r: Self)
        ensures
            r.additional_context is None,
    {
        NotificationHookSpecificOutput { additional_context: None }
    }
}

/// Subagent-start hook specific output.
#[derive(Debug, Clone)]
pub struct SubagentStartHookSpecificOutput {
    /// Additional context to provide to the model.
    pub additional_context: Option<String>,
}

impl Default for SubagentStartHookSpecificOutput {
    fn default() -> (r: Self)
        ensures
            r.additional_context is None,
    {
        SubagentStartHookSpecificOutput { additional_context: None }
    }
}

/// Session-start hook specific output.
#[derive(Debug, Clone)]
pub struct SessionStartHookSpecificOutput {
    /// Additional context to provide to the model.
    pub additional_context: Option<String>,
}

impl Default for SessionStartHookSpecificOutput {
    fn default() -> (r: Self)
        ensures
            r.additional_context is None,
    {
        SessionStartHookSpecificOutput { additional_context: None }
    }
}

/// Hook matchers grouped by event, each event's matchers in registration order.
pub struct HookTable<M> {
    events: Vec<HookEvent>,
    lists: Vec<Vec<M>>,
}

impl<M> HookTable<M> {
    /// The events that have at least one matcher, in first-registration order.
    pub closed spec fn events(&self) -> Seq<HookEvent> {
        self.events@
    }

    /// The matchers registered for `e`, in registration order.
    pub closed spec fn matchers(&self, e: HookEvent) -> Seq<M> {
        if exists|i: int| 0 <= i < self.events@.len() && self.events@[i] == e {
            let i = choose|i: int| 0 <= i < self.events@.len() && self.events@[i] == e;
            self.lists@[i]@
        } else {
            Seq::empty()
        }
    }

    /// Each event appears once, with a non-empty list of matchers.
    pub closed spec fn wf(&self) -> bool {
        &&& self.events@.len() == self.lists@.len()
        &&& forall|i: int, j: int|
            0 <= i < self.events@.len() && 0 <= j < self.events@.len() && i != j
                ==> self.events@[i] != self.events@[j]
        &&& forall|i: int| 0 <= i < self.lists@.len() ==> (#[trigger] self.lists@[i])@.len() > 0
    }

    /// An empty table.
    pub fn new() -> (r: Self)
        ensures
            r.wf(),
            r.events() == Seq::<HookEvent>::empty(),
            forall|e: HookEvent| (#[trigger] r.matchers(e)) == Seq::<M>::empty(),
    {
        HookTable { events: Vec::new(), lists: Vec::new() }
    }

    /// Appends a matcher to the matchers of `event`.
    pub fn add(&mut self, event: HookEvent, matcher: M)
        requires
            old(self).wf(),
        ensures
            final(self).wf(),
            final(self).matchers(event) == old(self).matchers(event).push(matcher),
            forall|e: HookEvent|
                e != event ==> (#[trigger] final(self).matchers(e)) == old(self).matchers(e),
            old(self).events().contains(event) ==> final(self).events() == old(self).events(),
            !old(self).events().contains(event) ==> final(self).events() == old(
                self,
            ).events().push(event),
    {
        let mut i: usize = 0;
        let mut found = false;
        while i < self.events.len()
            invariant_except_break
                !found,
            invariant
                i <= self.events@.len(),
                forall|j: int| 0 <= j < i ==> self.events@[j] != event,
            ensures
                i <= self.events@.len(),
                forall|j: int| 0 <= j < i ==> self.events@[j] != event,
                found ==> i < self.events@.len() && self.events@[i as int] == event,
                !found ==> i == self.events@.len(),
            decreases self.events@.len() - i,
        {
            if self.events[i] == event {
                found = true;
                break;
            }
            i = i + 1;
        }
        if found {
            let ghost old_self = *self;
            let mut list: Vec<M> = Vec::new();
            std::mem::swap(&mut list, &mut self.lists[i]);
            list.push(matcher);
            self.lists.set(i, list);
            proof {
                assert(self.events@ == old_self.events@);
                assert forall|e: HookEvent| #[trigger] self.matchers(e) == (if e == event {
                    old_self.matchers(e).push(matcher)
                } else {
                    old_self.matchers(e)
                }) by {
                    if e == event {
                        assert(self.events@[i as int] == e);
                        let c = choose|c: int| 0 <= c < self.events@.len() && self.events@[c] == e;
                        assert(c == i);
                    } else if exists|k: int| 0 <= k < self.events@.len() && self.events@[k] == e {
                        let k = choose|k: int| 0 <= k < self.events@.len() && self.events@[k] == e;
                        assert(k != i);
                    }
                }
                assert(old_self.events@.contains(event));
            }
            return;
        }
        let ghost old_self = *self;
        let mut list: Vec<M> = Vec::new();
        list.push(matcher);
        let ghost new_list = list@;
        self.events.push(event);
        self.lists.push(list);
        proof {
            let n = old_self.events@.len() as int;
            assert(new_list =~= Seq::<M>::empty().push(matcher));
            assert(self.lists@[n]@ == new_list);
            assert forall|e: HookEvent| #[trigger] self.matchers(e) == (if e == event {
                old_self.matchers(e).push(matcher)
            } else {
                old_self.matchers(e)
            }) by {
                if e == event {
                    assert(self.events@[n] == e);
                    let c = choose|c: int| 0 <= c < self.events@.len() && self.events@[c] == e;
                    if c < n {
                        assert(old_self.events@[c] == event);
                    }
                    assert(c == n);
                    assert(!(exists|k: int| 0 <= k < old_self.events@.len() && old_self.events@[k] == e));
                } else if exists|k: int| 0 <= k < self.events@.len() && self.events@[k] == e {
                    let c = choose|c: int| 0 <= c < self.events@.len() && self.events@[c] == e;
                    assert(c < n);
                    assert(old_self.events@[c] == e);
                    let c2 = choose|c: int| 0 <= c < old_self.events@.len() && old_self.events@[c] == e;
                    assert(c == c2);
                    assert(self.lists@[c] == old_self.lists@[c]);
                } else {
                    if exists|k: int| 0 <= k < old_self.events@.len() && old_self.events@[k] == e {
                        let k = choose|k: int| 0 <= k < old_self.events@.len() && old_self.events@[k] == e;
                        assert(self.events@[k] == e);
                    }
                }
            }
            assert(!old_self.events@.contains(event));
        }
    }

    /// The table's events, each with its matchers.
    pub fn into_entries(self) -> (r: Vec<(HookEvent, Vec<M>)>)
        requires
            self.wf(),
        ensures
            r@.len() == self.events().len(),
            forall|i: int|
                0 <= i < r@.len() ==> (#[trigger] r@[i]).0 == self.events()[i] && r@[i].1@
                    == self.matchers(self.events()[i]),
    {
        let ghost orig = self;
        let HookTable { mut events, mut lists } = self;
        let mut r: Vec<(HookEvent, Vec<M>)> = Vec::new();
        let n = events.len();
        let mut k: usize = n;
        // Entries are produced from the back and reversed at the end.
        let mut rev: Vec<(HookEvent, Vec<M>)> = Vec::new();
        while k > 0
            invariant
                k <= n,
                n == orig.events@.len(),
                orig.wf(),
                events@ == orig.events@.take(k as int),
                lists@ == orig.lists@.take(k as int),
                rev@.len() == n - k,
                forall|j: int|
                    0 <= j < n - k ==> (#[trigger] rev@[j]).0 == orig.events@[n - 1 - j]
                        && rev@[j].1@ == orig.lists@[n - 1 - j]@,
            decreases k,
        {
            let e = events.pop().unwrap();
            let l = lists.pop().unwrap();
            k = k - 1;
            assert(orig.events@.take(k as int + 1).drop_last() =~= orig.events@.take(k as int));
            assert(orig.lists@.take(k as int + 1).drop_last() =~= orig.lists@.take(k as int));
            rev.push((e, l));
        }
        let mut j: usize = 0;
        while j < n
            invariant
                j <= n,
                n == orig.events@.len(),
                orig.wf(),
                rev@.len() == n - j,
                forall|a: int|
                    0 <= a < n - j ==> (#[trigger] rev@[a]).0 == orig.events@[n - 1 - a]
                        && rev@[a].1@ == orig.lists@[n - 1 - a]@,
                r@.len() == j,
                forall|a: int|
                    0 <= a < j ==> (#[trigger] r@[a]).0 == orig.events@[a] && r@[a].1@
                        == orig.lists@[a]@,
            decreases n - j,
        {
            let entry = rev.pop().unwrap();
            r.push(entry);
            j = j + 1;
        }
        proof {
            assert forall|i: int| 0 <= i < r@.len() implies (#[trigger] r@[i]).0 == orig.events()[i]
                && r@[i].1@ == orig.matchers(orig.events()[i]) by {
                let e = orig.events@[i];
                let c = choose|c: int| 0 <= c < orig.events@.len() && orig.events@[c] == e;
                assert(c == i);
            }
        }
        r
    }
}

} // verus!
