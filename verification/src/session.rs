//! Connection state of a client and the decisions that depend on it.

use crate::errors::ClaudeError;
use crate::routing::{is_simple_uuid, new_uuid_simple};
use crate::text::{decimal, push_decimal};
use dashmap::DashMap;
use vstd::prelude::*;

verus! {

/// The error for a request made before `connect`.
pub open spec fn not_connected_message() -> Seq<char> {
    "Client not connected. Call connect() first."@
}

/// The error for a request that needs a prompt before any was sent.
pub open spec fn no_active_query_message() -> Seq<char> {
    "No active query. Call query() first."@
}

/// Whether a client is connected, and the query its latest prompt went to.
pub struct ClientSession {
    connected: bool,
    current_query_id: Option<String>,
}

impl ClientSession {
    /// Whether the client is connected.
    pub closed spec fn connected(&self) -> bool {
        self.connected
    }

    /// The query of the latest prompt.
    pub closed spec fn current_query(&self) -> Option<Seq<char>> {
        match self.current_query_id {
            Some(q) => Some(q@),
            None => None,
        }
    }

    /// A client that is not connected yet.
    pub fn new() -> (r: Self)
        ensures
            !r.connected(),
            r.current_query() is None,
    {
        ClientSession { connected: false, current_query_id: None }
    }

    /// Whether `connect` has work to do: connecting twice does nothing.
    pub fn needs_connect(&self) -> (r: bool)
        ensures
            r == !self.connected(),
    {
        !self.connected
    }

    /// Records a successful connection whose initial query is `first_query_id`.
    pub fn mark_connected(&mut self, first_query_id: String)
        ensures
            final(self).connected(),
            final(self).current_query() == Some(first_query_id@),
    {
        self.connected = true;
        self.current_query_id = Some(first_query_id);
    }

    /// Records the query a new prompt was sent to.
    pub fn set_current_query(&mut self, query_id: String)
        ensures
            final(self).connected() == old(self).connected(),
            final(self).current_query() == Some(query_id@),
    {
        self.current_query_id = Some(query_id);
    }

    /// Fails unless the client is connected.
    pub fn require_connected(&self) -> (r: Result<(), ClaudeError>)
        ensures
            self.connected() ==> r is Ok,
            !self.connected() ==> (r matches Err(ClaudeError::InvalidConfig(m)) && m@
                == not_connected_message()),
    {
        if self.connected {
            Ok(())
        } else {
            Err(ClaudeError::InvalidConfig(String::from_str("Client not connected. Call connect() first.")))
        }
    }

    /// The query that requests about the current prompt go to.
    pub fn active_query(&self) -> (r: Result<String, ClaudeError>)
        ensures
            !self.connected() ==> (r matches Err(ClaudeError::InvalidConfig(m)) && m@
                == not_connected_message()),
            self.connected() && self.current_query() is None ==> (r matches Err(
                ClaudeError::InvalidConfig(m),
            ) && m@ == no_active_query_message()),
            self.connected() ==> (self.current_query() matches Some(q) ==> (r matches Ok(id) && id@
                == q)),
    {
        if !self.connected {
            return Err(ClaudeError::InvalidConfig(String::from_str("Client not connected. Call connect() first.")));
        }
        match &self.current_query_id {
            Some(q) => Ok(q.clone()),
            None => Err(ClaudeError::InvalidConfig(String::from_str("No active query. Call query() first."))),
        }
    }

    /// Records a disconnection; returns whether there was a connection to close.
    pub fn disconnect(&mut self) -> (r: bool)
        ensures
            r == old(self).connected(),
            !final(self).connected(),
            old(self).connected() ==> final(self).current_query() is None,
            !old(self).connected() ==> final(self).current_query() == old(self).current_query(),
    {
        if !self.connected {
            return false;
        }
        self.current_query_id = None;
        self.connected = false;
        true
    }

    /// Whether dropping the client now leaves resources open.
    pub fn dropped_while_connected(&self) -> (r: bool)
        ensures
            r == self.connected(),
    {
        self.connected
    }
}

/// What a response stream received next.
#[derive(Debug, Clone, Copy, PartialEq, Eq)]
pub enum Received {
    /// The query's channel closed.
    Closed,
    /// A message that could not be parsed.
    Unparsable,
    /// A parsed message; `is_result` tells whether it ends the turn.
    Message {
        /// Whether the message is a result message.
        is_result: bool,
    },
}

/// What a response stream does with what it received.
#[derive(Debug, Clone, Copy, PartialEq, Eq)]
pub enum StreamStep {
    /// Yield the item and keep reading.
    Yield,
    /// Yield the item and end the stream.
    YieldThenEnd,
    /// End the stream.
    End,
}

/// The step of a response stream, which ends after the first result message:
/// a closed channel ends it, a result message is yielded and ends it, and any
/// other message, or parse error, is yielded.
pub fn response_step(received: Received) -> (r: StreamStep)
    ensures
        r == (match received {
            Received::Closed => StreamStep::End,
            Received::Unparsable => StreamStep::Yield,
            Received::Message { is_result } => if is_result {
                StreamStep::YieldThenEnd
            } else {
                StreamStep::Yield
            },
        }),
{
    match received {
        Received::Closed => StreamStep::End,
        Received::Unparsable => StreamStep::Yield,
        Received::Message { is_result } => {
            if is_result {
                StreamStep::YieldThenEnd
            } else {
                StreamStep::Yield
            }
        },
    }
}

/// The step of a stream of all messages: only a closed channel ends it.
pub fn all_messages_step(received: Received) -> (r: StreamStep)
    ensures
        r == (match received {
            Received::Closed => StreamStep::End,
            _ => StreamStep::Yield,
        }),
{
    match received {
        Received::Closed => StreamStep::End,
        _ => StreamStep::Yield,
    }
}

/// How a session's prompt finds its query.
#[derive(Debug, Clone, PartialEq, Eq)]
pub enum SessionStep {
    /// Reuse the session's query, which is registered and active.
    Reuse(String),
    /// Drop the session's inactive query and its mapping, then create a new query.
    ReplaceInactive(String),
    /// Drop the session's mapping to a query that is gone, then create a new query.
    DropStaleMapping,
    /// The session has no query yet: create one.
    Create,
}

/// Decides how a session gets its query, from the query its mapping names (if
/// any), whether that query is registered, and whether it is active.
pub fn decide_session_query(mapped: Option<&str>, registered: bool, active: bool) -> (r: SessionStep)
    ensures
        mapped is None ==> r == SessionStep::Create,
        mapped matches Some(q) ==> (if !registered {
            r == SessionStep::DropStaleMapping
        } else if active {
            r matches SessionStep::Reuse(id) && id@ == q@
        } else {
            r matches SessionStep::ReplaceInactive(id) && id@ == q@
        }),
{
    match mapped {
        None => SessionStep::Create,
        Some(q) => {
            if !registered {
                SessionStep::DropStaleMapping
            } else if active {
                SessionStep::Reuse(q.to_owned())
            } else {
                SessionStep::ReplaceInactive(q.to_owned())
            }
        },
    }
}

/// `dashmap::DashMap`, a concurrent hash map, taken as opaque: its entries are
/// known only through `session_map`, which its wrappers speak of.
#[verifier::external_type_specification]
#[verifier::external_body]
#[verifier::reject_recursive_types(K)]
#[verifier::reject_recursive_types(V)]
#[verifier::reject_recursive_types(S)]
pub struct ExDashMap<K, V, S>(DashMap<K, V, S>);

/// A map from session IDs to query IDs.
pub type SessionMap = DashMap<String, String>;

/// The entries of a map from session IDs to query IDs, each taken by its characters.
pub uninterp spec fn session_map(m: SessionMap) -> Map<Seq<char>, Seq<char>>;

/// `DashMap::new`: an empty map.
#[verifier::external_body]
fn session_map_new() -> (r: SessionMap)
    ensures
        session_map(r).dom().is_empty(),
{
    DashMap::new()
}

/// `DashMap::get`, with the value cloned out of the guard it returns: the value
/// stored under `key`, or `None` when there is none.
#[verifier::external_body]
fn session_map_get(m: &SessionMap, key: &str) -> (r: Option<String>)
    ensures
        r is Some == session_map(*m).dom().contains(key@),
        r matches Some(v) ==> v@ == session_map(*m)[key@],
{
    match m.get(key) {
        Some(entry) => Some(entry.value().clone()),
        None => None,
    }
}

/// `DashMap::insert`: stores `value` under `key`, replacing and returning the
/// value stored there before, if any.
#[verifier::external_body]
fn session_map_insert(m: &mut SessionMap, key: String, value: String) -> (r: Option<
    String,
>)
    ensures
        session_map(*final(m)) == session_map(*old(m)).insert(key@, value@),
        session_map(*old(m)).dom().contains(key@) ==> (r matches Some(v) && v@ == session_map(
            *old(m),
        )[key@]),
        !session_map(*old(m)).dom().contains(key@) ==> r is None,
{
    m.insert(key, value)
}

/// `DashMap::remove`: takes the entry under `key` out of the map and returns it,
/// or `None` when there is none.
#[verifier::external_body]
fn session_map_remove(m: &mut SessionMap, key: &str) -> (r: Option<(String, String)>)
    ensures
        session_map(*final(m)) == session_map(*old(m)).remove(key@),
        session_map(*old(m)).dom().contains(key@) ==> (r matches Some((k, v)) && k@ == key@ && v@
            == session_map(*old(m))[key@]),
        !session_map(*old(m)).dom().contains(key@) ==> r is None,
{
    m.remove(key)
}

/// The query each session's prompts go to, so that a session keeps its
/// conversation context across prompts.
pub struct SessionQueries {
    map: SessionMap,
}

impl SessionQueries {
    /// The query ID of each session that has one.
    pub closed spec fn bindings(&self) -> Map<Seq<char>, Seq<char>> {
        session_map(self.map)
    }

    /// No session has a query.
    pub fn new() -> (r: Self)
        ensures
            r.bindings() == Map::<Seq<char>, Seq<char>>::empty(),
    {
        SessionQueries { map: session_map_new() }
    }

    /// The query of `session_id`, if it has one.
    pub fn query_of(&self, session_id: &str) -> (r: Option<String>)
        ensures
            self.bindings().dom().contains(session_id@) ==> (r matches Some(q) && q@
                == self.bindings()[session_id@]),
            !self.bindings().dom().contains(session_id@) ==> r is None,
    {
        session_map_get(&self.map, session_id)
    }

    /// Makes `query_id` the query of `session_id`.
    pub fn bind(&mut self, session_id: &str, query_id: String)
        ensures
            final(self).bindings() == old(self).bindings().insert(session_id@, query_id@),
    {
        let _ = session_map_insert(&mut self.map, session_id.to_owned(), query_id);
    }

    /// Decides how `session_id` gets its query, given whether the query it is
    /// bound to is `registered` and `active`, and drops a binding to a query
    /// that is gone or inactive. After `Create`, `DropStaleMapping` or
    /// `ReplaceInactive` the caller creates a query and binds it.
    pub fn resolve(&mut self, session_id: &str, registered: bool, active: bool) -> (r: SessionStep)
        ensures
            !old(self).bindings().dom().contains(session_id@) ==> r == SessionStep::Create
                && final(self).bindings() == old(self).bindings(),
            old(self).bindings().dom().contains(session_id@) ==> ({
                let q = old(self).bindings()[session_id@];
                let before = old(self).bindings();
                let after = final(self).bindings();
                if !registered {
                    r == SessionStep::DropStaleMapping && after == before.remove(session_id@)
                } else if active {
                    (r matches SessionStep::Reuse(id) && id@ == q) && after == before
                } else {
                    (r matches SessionStep::ReplaceInactive(id) && id@ == q) && after
                        == before.remove(session_id@)
                }
            }),
    {
        let mapped = session_map_get(&self.map, session_id);
        let step = match &mapped {
            Some(q) => decide_session_query(Some(q.as_str()), registered, active),
            None => decide_session_query(None, registered, active),
        };
        match &step {
            SessionStep::DropStaleMapping | SessionStep::ReplaceInactive(_) => {
                let _ = session_map_remove(&mut self.map, session_id);
            },
            _ => {},
        }
        step
    }
}

/// Binding a session to a query and then looking the session up gives that
/// query; the other sessions keep their queries.
pub proof fn lemma_bind_then_query_of(
    bindings: Map<Seq<char>, Seq<char>>,
    session_id: Seq<char>,
    query_id: Seq<char>,
    other: Seq<char>,
)
    requires
        other != session_id,
    ensures
        bindings.insert(session_id, query_id).dom().contains(session_id),
        bindings.insert(session_id, query_id)[session_id] == query_id,
        bindings.insert(session_id, query_id).dom().contains(other) == bindings.dom().contains(
            other,
        ),
        bindings.dom().contains(other) ==> bindings.insert(session_id, query_id)[other]
            == bindings[other],
{
}

/// The error for a query ID that is not registered.
pub fn query_not_found(query_id: &str) -> (r: ClaudeError)
    ensures
        r matches ClaudeError::InvalidConfig(m) && m@ == "Query not found: "@ + query_id@,
{
    let mut m = String::from_str("Query not found: ");
    m.append(query_id);
    ClaudeError::InvalidConfig(m)
}

/// `chrono::Utc::now().timestamp_micros()`: microseconds since the Unix epoch
/// of the current time. Which instant comes back is left open; the crate
/// derives it from a duration since the epoch, so it is not negative. The
/// crate panics when the system clock is set before the epoch, which no
/// argument can rule out.
#[verifier::external_body]
fn now_timestamp_micros() -> (r: i64)
    ensures
        r >= 0,
{
    chrono::Utc::now().timestamp_micros()
}

/// A fresh ID for a managed query: `query_{uuid}_{microseconds since the epoch}`.
pub fn new_managed_query_id() -> (r: String)
    ensures
        exists|u: Seq<char>, t: nat|
            is_simple_uuid(u) && r@ == "query_"@ + u + "_"@ + decimal(t),
{
    let u = new_uuid_simple();
    let t = now_timestamp_micros();
    managed_query_id(u.as_str(), t as u64)
}

/// The managed query ID `query_{uuid}_{micros}`.
pub fn managed_query_id(uuid: &str, micros: u64) -> (r: String)
    ensures
        r@ == "query_"@ + uuid@ + "_"@ + decimal(micros as nat),
{
    let mut r = String::from_str("query_");
    r.append(uuid);
    r.append("_");
    push_decimal(&mut r, micros);
    r
}

} // verus!
