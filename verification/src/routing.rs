//! Query-scoped routing of conversation messages.
//!
//! Each prompt registers a receiver under a fresh query ID and becomes the
//! current query. Result messages go to the current query, other conversation
//! messages to every registered query, and a message no query can take goes to
//! the session-wide channel.

use crate::text::{decimal, push_decimal, str_eq};
use vstd::prelude::*;

verus! {

/// A lowercase hexadecimal digit.
pub open spec fn is_lower_hex(c: char) -> bool {
    ('0' <= c && c <= '9') || ('a' <= c && c <= 'f')
}

/// The simple form of a UUID: 32 lowercase hexadecimal digits.
pub open spec fn is_simple_uuid(s: Seq<char>) -> bool {
    s.len() == 32 && forall|i: int| 0 <= i < s.len() ==> is_lower_hex(#[trigger] s[i])
}

/// `uuid::Uuid::new_v4().simple()`, rendered: a random version-4 UUID in its
/// simple form, 32 lowercase hexadecimal digits. Which UUID comes out is left
/// open: it is random. The crate panics when the operating system's random
/// source fails, which no argument can rule out.
#[verifier::external_body]
pub(crate) fn new_uuid_simple() -> (r: String)
    ensures
        is_simple_uuid(r@),
{
    uuid::Uuid::new_v4().simple().to_string()
}

/// `prefix_` followed by the decimal counter, `_` and a UUID.
pub open spec fn counter_id(prefix: Seq<char>, n: u64, uuid: Seq<char>) -> Seq<char> {
    prefix + decimal(n as nat) + "_"@ + uuid
}

/// The query ID `query_{n}_{uuid}`.
pub fn query_id_for(n: u64, uuid: &str) -> (r: String)
    ensures
        r@ == counter_id("query_"@, n, uuid@),
{
    let mut r = String::from_str("query_");
    push_decimal(&mut r, n);
    r.append("_");
    r.append(uuid);
    r
}

/// Where a conversation message goes.
#[derive(Debug, Clone)]
pub enum RoutePlan {
    /// No query can take it: send it to the session-wide channel.
    Global,
    /// A result message: send it to `current` if given and it accepts the
    /// message, else to `first`; if that fails too, to the session-wide channel.
    CurrentThenFirst {
        /// The current query, when it has a registered receiver.
        current: Option<String>,
        /// A registered query to fall back on.
        first: String,
    },
    /// Send it to every registered query; if none accepts it, to the
    /// session-wide channel.
    Broadcast(Vec<String>),
}

/// No element occurs twice.
pub open spec fn no_dup(s: Seq<Seq<char>>) -> bool {
    forall|i: int, j: int| 0 <= i < s.len() && 0 <= j < s.len() && i != j ==> s[i] != s[j]
}

/// The registered query receivers and the current query of a session.
pub struct QueryRouter {
    ids: Vec<String>,
    current: Option<String>,
    next_query_id: u64,
}

impl QueryRouter {
    /// The IDs of the registered receivers.
    pub closed spec fn receivers(&self) -> Seq<Seq<char>> {
        self.ids@.map_values(|s: String| s@)
    }

    /// The query that result messages are routed to.
    pub closed spec fn current(&self) -> Option<Seq<char>> {
        match self.current {
            Some(c) => Some(c@),
            None => None,
        }
    }

    /// The counter of the next generated query ID.
    pub closed spec fn next_counter(&self) -> u64 {
        self.next_query_id
    }

    /// Each query ID is registered at most once.
    pub open spec fn wf(&self) -> bool {
        no_dup(self.receivers())
    }

    /// A router with no receivers and no current query.
    pub fn new() -> (r: Self)
        ensures
            r.wf(),
            r.receivers() == Seq::<Seq<char>>::empty(),
            r.current() is None,
            r.next_counter() == 0,
    {
        let r = QueryRouter { ids: Vec::new(), current: None, next_query_id: 0 };
        assert(r.receivers() =~= Seq::<Seq<char>>::empty());
        r
    }

    /// Generates a query ID `query_{counter}_{uuid}` and advances the counter.
    pub fn generate_query_id(&mut self) -> (r: String)
        ensures
            final(self).receivers() == old(self).receivers(),
            final(self).current() == old(self).current(),
            final(self).next_counter() == old(self).next_counter().wrapping_add(1),
            exists|u: Seq<char>|
                is_simple_uuid(u) && r@ == counter_id("query_"@, old(self).next_counter(), u),
    {
        let n = self.next_query_id;
        self.next_query_id = n.wrapping_add(1);
        let u = new_uuid_simple();
        query_id_for(n, u.as_str())
    }

    /// Whether `id` has a registered receiver.
    fn position(&self, id: &str) -> (r: Option<usize>)
        ensures
            r matches Some(i) ==> i < self.receivers().len() && self.receivers()[i as int] == id@,
            r is None ==> !self.receivers().contains(id@),
    {
        let mut i: usize = 0;
        while i < self.ids.len()
            invariant
                i <= self.ids@.len(),
                forall|j: int| 0 <= j < i ==> (#[trigger] self.ids@[j])@ != id@,
            decreases self.ids@.len() - i,
        {
            if str_eq(self.ids[i].as_str(), id) {
                return Some(i);
            }
            i = i + 1;
        }
        proof {
            if self.receivers().contains(id@) {
                let k = choose|k: int| 0 <= k < self.receivers().len() && self.receivers()[k] == id@;
                assert(self.ids@[k]@ == id@);
            }
        }
        None
    }

    /// Registers a receiver for `query_id` and makes it the current query.
    pub fn register_query_receiver(&mut self, query_id: String)
        requires
            old(self).wf(),
        ensures
            final(self).wf(),
            final(self).current() == Some(query_id@),
            final(self).next_counter() == old(self).next_counter(),
            old(self).receivers().contains(query_id@) ==> final(self).receivers() == old(
                self,
            ).receivers(),
            !old(self).receivers().contains(query_id@) ==> final(self).receivers() == old(
                self,
            ).receivers().push(query_id@),
    {
        let ghost before = self.receivers();
        match self.position(query_id.as_str()) {
            Some(_) => {},
            None => {
                self.ids.push(query_id.clone());
                assert(self.receivers() =~= before.push(query_id@));
            },
        }
        self.current = Some(query_id);
    }

    /// Removes the receivers whose channels are closed, and clears the current
    /// query when its receiver was removed.
    pub fn remove_closed(&mut self, closed: &Vec<String>)
        requires
            old(self).wf(),
        ensures
            final(self).wf(),
            final(self).next_counter() == old(self).next_counter(),
            forall|id: Seq<char>|
                final(self).receivers().contains(id) <==> (old(self).receivers().contains(id)
                    && !closed@.map_values(|s: String| s@).contains(id)),
            final(self).current() == (match old(self).current() {
                Some(c) => if old(self).receivers().contains(c) && closed@.map_values(
                    |s: String| s@,
                ).contains(c) {
                    None
                } else {
                    Some(c)
                },
                None => None,
            }),
    {
        broadcast use vstd::seq_lib::group_seq_properties;

        let ghost old_recv = self.receivers();
        let ghost cl = closed@.map_values(|s: String| s@);
        let mut kept: Vec<String> = Vec::new();
        let mut removed_current = false;
        let mut i: usize = 0;
        while i < self.ids.len()
            invariant
                i <= self.ids@.len(),
                old_recv == self.receivers(),
                no_dup(old_recv),
                cl == closed@.map_values(|s: String| s@),
                forall|id: Seq<char>|
                    kept@.map_values(|s: String| s@).contains(id) <==> (old_recv.take(
                        i as int,
                    ).contains(id) && !cl.contains(id)),
                no_dup(kept@.map_values(|s: String| s@)),
                forall|j: int|
                    0 <= j < kept@.len() ==> old_recv.take(i as int).contains(
                        #[trigger] kept@[j]@,
                    ),
                removed_current == (self.current matches Some(c) && old_recv.take(
                    i as int,
                ).contains(c@) && cl.contains(c@)),
            decreases self.ids@.len() - i,
        {
            let id = &self.ids[i];
            let ghost kv = kept@.map_values(|s: String| s@);
            assert(old_recv.take(i + 1) =~= old_recv.take(i as int).push(id@));
            let is_closed = find_id(closed, id.as_str());
            if !is_closed {
                proof {
                    if kv.contains(id@) {
                        let j = choose|j: int| 0 <= j < kv.len() && kv[j] == id@;
                        assert(old_recv.take(i as int).contains(kept@[j]@));
                        let k = choose|k: int|
                            0 <= k < i && old_recv.take(i as int)[k] == kept@[j]@;
                        assert(old_recv[k] == old_recv[i as int]);
                    }
                }
                kept.push(id.clone());
                assert(kept@.map_values(|s: String| s@) =~= kv.push(id@));
            }
            proof {
                let t0 = old_recv.take(i as int);
                let t1 = old_recv.take(i + 1);
                let kv2 = kept@.map_values(|s: String| s@);
                assert forall|x: Seq<char>| #[trigger] t1.contains(x) <==> (t0.contains(x) || x == id@) by {
                    lemma_push_contains(t0, id@, x);
                }
                assert forall|x: Seq<char>| #[trigger] kv2.contains(x) <==> (t1.contains(x) && !cl.contains(x)) by {
                    if !is_closed {
                        lemma_push_contains(kv, id@, x);
                    }
                }
                assert forall|j: int| 0 <= j < kept@.len() implies t1.contains(#[trigger] kept@[j]@) by {
                    if j < kv.len() {
                        assert(t0.contains(kept@[j]@));
                        lemma_push_contains(t0, id@, kept@[j]@);
                    } else {
                        assert(t1[i as int] == id@);
                    }
                }
            }
            match &self.current {
                Some(c) => {
                    if is_closed && str_eq(c.as_str(), id.as_str()) {
                        removed_current = true;
                    }
                },
                None => {},
            }
            i = i + 1;
        }
        assert(old_recv.take(self.ids@.len() as int) =~= old_recv);
        self.ids = kept;
        if removed_current {
            self.current = None;
        }
    }

    /// Whether `r` is the delivery plan for a conversation message: with no
    /// receivers it goes to the session-wide channel; a result message goes to
    /// the current query when it is registered, else to the first registered
    /// one; any other message is broadcast to every registered query.
    pub open spec fn route_ok(&self, is_result: bool, r: RoutePlan) -> bool {
        &&& self.receivers().len() == 0 ==> r is Global
        &&& self.receivers().len() > 0 && is_result ==> (r matches RoutePlan::CurrentThenFirst {
            current,
            first,
        } && first@ == self.receivers()[0] && (match self.current() {
            Some(c) => if self.receivers().contains(c) {
                current matches Some(x) && x@ == c
            } else {
                current is None
            },
            None => current is None,
        }))
        &&& self.receivers().len() > 0 && !is_result ==> (r matches RoutePlan::Broadcast(all)
            && all@.map_values(|s: String| s@) == self.receivers())
    }

    /// Plans the delivery of a conversation message.
    pub fn route(&self, is_result: bool) -> (r: RoutePlan)
        requires
            self.wf(),
        ensures
            self.route_ok(is_result, r),
            self.receivers().len() == 0 ==> r is Global,
            self.receivers().len() > 0 && is_result ==> (r matches RoutePlan::CurrentThenFirst {
                current,
                first,
            } && first@ == self.receivers()[0] && (match self.current() {
                Some(c) => if self.receivers().contains(c) {
                    current matches Some(x) && x@ == c
                } else {
                    current is None
                },
                None => current is None,
            })),
            self.receivers().len() > 0 && !is_result ==> (r matches RoutePlan::Broadcast(all)
                && all@.map_values(|s: String| s@) == self.receivers()),
    {
        if self.ids.len() == 0 {
            return RoutePlan::Global;
        }
        if is_result {
            let current = match &self.current {
                Some(c) => match self.position(c.as_str()) {
                    Some(_) => Some(c.clone()),
                    None => None,
                },
                None => None,
            };
            RoutePlan::CurrentThenFirst { current, first: self.ids[0].clone() }
        } else {
            RoutePlan::Broadcast(self.ids.clone())
        }
    }
}

proof fn lemma_push_contains(s: Seq<Seq<char>>, a: Seq<char>, x: Seq<char>)
    ensures
        s.push(a).contains(x) <==> (s.contains(x) || x == a),
{
    if s.contains(x) {
        let k = choose|k: int| 0 <= k < s.len() && s[k] == x;
        assert(s.push(a)[k] == x);
    }
    if x == a {
        assert(s.push(a)[s.len() as int] == a);
    }
    if s.push(a).contains(x) {
        let k = choose|k: int| 0 <= k < s.push(a).len() && s.push(a)[k] == x;
        if k < s.len() {
            assert(s[k] == x);
        }
    }
}

/// Whether `id` is one of `ids`.
fn find_id(ids: &Vec<String>, id: &str) -> (r: bool)
    ensures
        r == ids@.map_values(|s: String| s@).contains(id@),
{
    let ghost v = ids@.map_values(|s: String| s@);
    let mut i: usize = 0;
    while i < ids.len()
        invariant
            i <= ids@.len(),
            v == ids@.map_values(|s: String| s@),
            forall|j: int| 0 <= j < i ==> (#[trigger] ids@[j])@ != id@,
        decreases ids@.len() - i,
    {
        if str_eq(ids[i].as_str(), id) {
            assert(v[i as int] == id@);
            return true;
        }
        i = i + 1;
    }
    proof {
        if v.contains(id@) {
            let k = choose|k: int| 0 <= k < v.len() && v[k] == id@;
            assert(ids@[k]@ == id@);
        }
    }
    false
}

/// IDs made from distinct counters are distinct, whatever UUIDs they carry:
/// the decimal counter runs up to the first `_` after the prefix.
pub proof fn lemma_counter_ids_distinct(
    prefix: Seq<char>,
    a: u64,
    b: u64,
    ua: Seq<char>,
    ub: Seq<char>,
)
    requires
        a != b,
        is_simple_uuid(ua),
        is_simple_uuid(ub),
    ensures
        counter_id(prefix, a, ua) != counter_id(prefix, b, ub),
{
    let da = decimal(a as nat);
    let db = decimal(b as nat);
    crate::text::lemma_decimal_digits(a as nat);
    crate::text::lemma_decimal_digits(b as nat);
    reveal_strlit("_");
    let sa = counter_id(prefix, a, ua);
    let sb = counter_id(prefix, b, ub);
    let p = prefix.len() as int;
    if sa == sb {
        assert(sa[p + da.len()] == '_');
        assert(sb[p + db.len()] == '_');
        if da.len() < db.len() {
            assert(sb[p + da.len()] == db[da.len() as int]);
            assert(crate::version::is_digit(db[da.len() as int]));
        } else if db.len() < da.len() {
            assert(sa[p + db.len()] == da[db.len() as int]);
            assert(crate::version::is_digit(da[db.len() as int]));
        } else {
            assert(sa.subrange(p, p + da.len()) =~= da);
            assert(sb.subrange(p, p + db.len()) =~= db);
            crate::text::lemma_decimal_injective(a as nat, b as nat);
        }
    }
}

/// The control requests sent by the SDK that still await their response.
pub struct PendingRequests {
    ids: Vec<String>,
}

impl PendingRequests {
    /// The IDs of the requests awaiting a response.
    pub closed spec fn pending(&self) -> Seq<Seq<char>> {
        self.ids@.map_values(|s: String| s@)
    }

    /// Each request ID is pending at most once.
    pub open spec fn wf(&self) -> bool {
        no_dup(self.pending())
    }

    /// No request is pending.
    pub fn new() -> (r: Self)
        ensures
            r.wf(),
            r.pending() == Seq::<Seq<char>>::empty(),
    {
        let r = PendingRequests { ids: Vec::new() };
        assert(r.pending() =~= Seq::<Seq<char>>::empty());
        r
    }

    fn index_of(&self, id: &str) -> (r: Option<usize>)
        ensures
            r matches Some(i) ==> i < self.pending().len() && self.pending()[i as int] == id@,
            r is None ==> !self.pending().contains(id@),
    {
        let mut i: usize = 0;
        while i < self.ids.len()
            invariant
                i <= self.ids@.len(),
                forall|j: int| 0 <= j < i ==> (#[trigger] self.ids@[j])@ != id@,
            decreases self.ids@.len() - i,
        {
            if str_eq(self.ids[i].as_str(), id) {
                return Some(i);
            }
            i = i + 1;
        }
        proof {
            if self.pending().contains(id@) {
                let k = choose|k: int| 0 <= k < self.pending().len() && self.pending()[k] == id@;
                assert(self.ids@[k]@ == id@);
            }
        }
        None
    }

    /// Records that a request with this ID was sent and awaits its response.
    pub fn insert(&mut self, id: String)
        requires
            old(self).wf(),
        ensures
            final(self).wf(),
            old(self).pending().contains(id@) ==> final(self).pending() == old(self).pending(),
            !old(self).pending().contains(id@) ==> final(self).pending() == old(
                self,
            ).pending().push(id@),
    {
        let ghost before = self.pending();
        match self.index_of(id.as_str()) {
            Some(_) => {},
            None => {
                self.ids.push(id);
                assert(self.pending() =~= before.push(id@));
            },
        }
    }

    /// Takes the request `id` off the pending list. Returns whether it was
    /// pending: a response is delivered only to a pending request, and at most once.
    pub fn take(&mut self, id: &str) -> (r: bool)
        requires
            old(self).wf(),
        ensures
            final(self).wf(),
            r == old(self).pending().contains(id@),
            !r ==> final(self).pending() == old(self).pending(),
            !final(self).pending().contains(id@),
            forall|x: Seq<char>|
                x != id@ ==> (#[trigger] final(self).pending().contains(x) <==> old(
                    self,
                ).pending().contains(x)),
    {
        broadcast use vstd::seq_lib::group_seq_properties;

        match self.index_of(id) {
            None => false,
            Some(i) => {
                let ghost before = self.pending();
                self.ids.remove(i);
                proof {
                    let after = self.pending();
                    assert(after =~= before.remove(i as int));
                    assert forall|x: Seq<char>| #[trigger] after.contains(x) <==> (before.contains(x) && x != id@) by {
                        if after.contains(x) {
                            let k = choose|k: int| 0 <= k < after.len() && after[k] == x;
                            if k < i {
                                assert(before[k] == x);
                                assert(k != i);
                            } else {
                                assert(before[k + 1] == x);
                                assert(k + 1 != i);
                            }
                        }
                        if before.contains(x) && x != id@ {
                            let k = choose|k: int| 0 <= k < before.len() && before[k] == x;
                            assert(k != i);
                            if k < i {
                                assert(after[k] == x);
                            } else {
                                assert(after[k - 1] == x);
                            }
                        }
                    }
                    assert forall|a: int, b: int| 0 <= a < after.len() && 0 <= b < after.len() && a != b implies after[a] != after[b] by {
                        let a2 = if a < i { a } else { a + 1 };
                        let b2 = if b < i { b } else { b + 1 };
                        assert(after[a] == before[a2]);
                        assert(after[b] == before[b2]);
                    }
                }
                true
            },
        }
    }
}

} // verus!
