//! The permission store: pending requests and session-scoped auto-approve
//! rules, plus the fixed response shapes the agent expects.
//!
//! The long-poll rendezvous itself (one single-use decision channel per
//! pending request, signalled by the responding endpoint) lives in the
//! shell; the store is the source of truth for what is pending.  The shell
//! keeps exactly one live channel per pending id: it makes one on
//! `register` and drops it on `respond` or `remove`.

use vstd::prelude::*;
use crate::protocol::{spec_behavior, PermissionDecisionKind};

verus! {

/// One pending permission request.  `tool_input` and
/// `permission_suggestions` carry raw JSON text, echoed back untouched.
#[derive(Clone, Debug)]
pub struct PermissionRequest {
    pub id: String,
    pub session_id: String,
    pub cwd: String,
    pub tool_name: String,
    pub tool_input: String,
    pub permission_suggestions: String,
    /// Microseconds since the Unix epoch.
    pub timestamp: u64,
    pub timeout_secs: u64,
}

/// The mathematical value of a [`PermissionRequest`].
#[verifier::ext_equal]
pub ghost struct PermissionRequestV {
    pub id: Seq<char>,
    pub session_id: Seq<char>,
    pub cwd: Seq<char>,
    pub tool_name: Seq<char>,
    pub tool_input: Seq<char>,
    pub permission_suggestions: Seq<char>,
    pub timestamp: u64,
    pub timeout_secs: u64,
}

impl View for PermissionRequest {
    type V = PermissionRequestV;

    open spec fn view(&self) -> PermissionRequestV {
        PermissionRequestV {
            id: self.id@,
            session_id: self.session_id@,
            cwd: self.cwd@,
            tool_name: self.tool_name@,
            tool_input: self.tool_input@,
            permission_suggestions: self.permission_suggestions@,
            timestamp: self.timestamp,
            timeout_secs: self.timeout_secs,
        }
    }
}

impl PermissionRequest {
    /// A field-by-field copy with the same value.
    pub fn duplicate(&self) -> (r: PermissionRequest)
        ensures
            r@ == self@,
    {
        PermissionRequest {
            id: self.id.clone(),
            session_id: self.session_id.clone(),
            cwd: self.cwd.clone(),
            tool_name: self.tool_name.clone(),
            tool_input: self.tool_input.clone(),
            permission_suggestions: self.permission_suggestions.clone(),
            timestamp: self.timestamp,
            timeout_secs: self.timeout_secs,
        }
    }
}

/// The views of a sequence of requests.
pub open spec fn spec_request_views(s: Seq<PermissionRequest>) -> Seq<PermissionRequestV> {
    s.map_values(|r: PermissionRequest| r@)
}

/// The first pending request with this id, if any.
pub open spec fn spec_pending_lookup(s: Seq<PermissionRequestV>, id: Seq<char>) -> Option<
    PermissionRequestV,
>
    decreases s.len(),
{
    if s.len() == 0 {
        None
    } else if s[0].id == id {
        Some(s[0])
    } else {
        spec_pending_lookup(s.drop_first(), id)
    }
}

pub open spec fn spec_pending_ids_unique(s: Seq<PermissionRequestV>) -> bool {
    forall|i: int, j: int| 0 <= i < j < s.len() ==> (#[trigger] s[i]).id != (#[trigger] s[j]).id
}

/// Whether a (session, tool) pair is auto-approved.
pub open spec fn spec_has_rule(
    s: Seq<(Seq<char>, Seq<char>)>,
    sid: Seq<char>,
    tool: Seq<char>,
) -> bool {
    exists|i: int| 0 <= i < s.len() && s[i] == (sid, tool)
}

/// Pending requests and session auto-approve rules.
pub struct PermissionStore {
    requests: Vec<PermissionRequest>,
    rules: Vec<(String, String)>,
}

/// The mathematical value of a [`PermissionStore`].
#[verifier::ext_equal]
pub ghost struct PermissionStoreV {
    pub requests: Seq<PermissionRequestV>,
    pub rules: Seq<(Seq<char>, Seq<char>)>,
}

impl View for PermissionStore {
    type V = PermissionStoreV;

    closed spec fn view(&self) -> PermissionStoreV {
        PermissionStoreV {
            requests: spec_request_views(self.requests@),
            rules: self.rules@.map_values(|p: (String, String)| (p.0@, p.1@)),
        }
    }
}

proof fn lemma_pending_lookup_push(
    s: Seq<PermissionRequestV>,
    x: PermissionRequestV,
    k: Seq<char>,
)
    ensures
        spec_pending_lookup(s.push(x), k) == match spec_pending_lookup(s, k) {
            Some(f) => Some(f),
            None => if x.id == k {
                Some(x)
            } else {
                None
            },
        },
    decreases s.len(),
{
    if s.len() == 0 {
        assert(s.push(x)[0] == x);
        assert(s.push(x).drop_first() =~= Seq::<PermissionRequestV>::empty());
    } else {
        assert(s.push(x)[0] == s[0]);
        assert(s.push(x).drop_first() =~= s.drop_first().push(x));
        lemma_pending_lookup_push(s.drop_first(), x, k);
    }
}

/// When nothing looks up, no entry carries the id.
proof fn lemma_pending_lookup_none_absent(s: Seq<PermissionRequestV>, k: Seq<char>)
    requires
        spec_pending_lookup(s, k) is None,
    ensures
        forall|j: int| 0 <= j < s.len() ==> (#[trigger] s[j]).id != k,
    decreases s.len(),
{
    if s.len() > 0 {
        lemma_pending_lookup_none_absent(s.drop_first(), k);
        assert forall|j: int| 0 <= j < s.len() implies (#[trigger] s[j]).id != k by {
            if j > 0 {
                assert(s.drop_first()[j - 1] == s[j]);
            }
        }
    }
}

proof fn lemma_pending_lookup_absent(s: Seq<PermissionRequestV>, k: Seq<char>)
    requires
        forall|j: int| 0 <= j < s.len() ==> (#[trigger] s[j]).id != k,
    ensures
        spec_pending_lookup(s, k) is None,
    decreases s.len(),
{
    if s.len() > 0 {
        lemma_pending_lookup_absent(s.drop_first(), k);
    }
}

proof fn lemma_pending_lookup_index(s: Seq<PermissionRequestV>, i: int, k: Seq<char>)
    requires
        0 <= i < s.len(),
        s[i].id == k,
        forall|j: int| 0 <= j < i ==> (#[trigger] s[j]).id != k,
    ensures
        spec_pending_lookup(s, k) == Some(s[i]),
    decreases i,
{
    if i > 0 {
        assert(s.drop_first()[i - 1] == s[i]);
        assert(forall|j: int| 0 <= j < i - 1 ==> (#[trigger] s.drop_first()[j]).id != k);
        lemma_pending_lookup_index(s.drop_first(), i - 1, k);
    }
}

proof fn lemma_pending_lookup_remove(s: Seq<PermissionRequestV>, i: int, k: Seq<char>)
    requires
        0 <= i < s.len(),
        forall|j: int| 0 <= j < i ==> (#[trigger] s[j]).id != s[i].id,
        spec_pending_ids_unique(s),
    ensures
        spec_pending_lookup(s.remove(i), k) == if k == s[i].id {
            None
        } else {
            spec_pending_lookup(s, k)
        },
    decreases s.len(),
{
    if i == 0 {
        assert(s.remove(0) =~= s.drop_first());
        if k == s[0].id {
            lemma_pending_lookup_absent(s.drop_first(), k);
        }
    } else {
        assert(s.remove(i)[0] == s[0]);
        assert(s.remove(i).drop_first() =~= s.drop_first().remove(i - 1));
        assert(forall|j: int|
            0 <= j < i - 1 ==> (#[trigger] s.drop_first()[j]).id != s.drop_first()[i - 1].id);
        assert(spec_pending_ids_unique(s.drop_first()));
        lemma_pending_lookup_remove(s.drop_first(), i - 1, k);
    }
}

impl PermissionStore {
    pub fn new() -> (r: PermissionStore)
        ensures
            r@.requests == Seq::<PermissionRequestV>::empty(),
            r@.rules == Seq::<(Seq<char>, Seq<char>)>::empty(),
            spec_pending_ids_unique(r@.requests),
    {
        let r = PermissionStore { requests: Vec::new(), rules: Vec::new() };
        proof {
            assert(r@.requests =~= Seq::<PermissionRequestV>::empty());
            assert(r@.rules =~= Seq::<(Seq<char>, Seq<char>)>::empty());
        }
        r
    }

    fn find_index(&self, id: &str) -> (r: Option<usize>)
        ensures
            match r {
                Some(i) => {
                    &&& i < self@.requests.len()
                    &&& self@.requests[i as int].id == id@
                    &&& forall|j: int|
                        0 <= j < i ==> (#[trigger] self@.requests[j]).id != id@
                },
                None => forall|j: int|
                    0 <= j < self@.requests.len() ==> (#[trigger] self@.requests[j]).id != id@,
            },
    {
        let kc = crate::chars::str_to_chars(id);
        let mut i: usize = 0;
        while i < self.requests.len()
            invariant
                i <= self.requests@.len(),
                kc@ == id@,
                forall|j: int| 0 <= j < i ==> (#[trigger] self@.requests[j]).id != id@,
            decreases self.requests@.len() - i,
        {
            let ec = crate::chars::str_to_chars(self.requests[i].id.as_str());
            if crate::chars::chars_eq(&ec, &kc) {
                return Some(i);
            }
            i += 1;
        }
        None
    }

    /// Registers a pending request.  Its id is fresh (a newly minted uuid),
    /// so nothing is displaced.  The shell pairs the id with a fresh
    /// single-use decision channel.
    pub fn register(&mut self, req: PermissionRequest)
        requires
            spec_pending_ids_unique(old(self)@.requests),
            spec_pending_lookup(old(self)@.requests, req@.id) is None,
        ensures
            spec_pending_ids_unique(final(self)@.requests),
            final(self)@.requests == old(self)@.requests.push(req@),
            spec_pending_lookup(final(self)@.requests, req@.id) == Some(req@),
            forall|k: Seq<char>|
                k != req@.id ==> #[trigger] spec_pending_lookup(final(self)@.requests, k)
                    == spec_pending_lookup(old(self)@.requests, k),
            final(self)@.rules == old(self)@.rules,
    {
        proof {
            assert forall|k: Seq<char>| true implies #[trigger] spec_pending_lookup(
                self@.requests.push(req@),
                k,
            ) == (if k == req@.id {
                Some(req@)
            } else {
                spec_pending_lookup(self@.requests, k)
            }) by {
                lemma_pending_lookup_push(self@.requests, req@, k);
            }
            lemma_pending_lookup_none_absent(self@.requests, req@.id);
            assert forall|a: int, b: int|
                0 <= a < b < self@.requests.push(req@).len() implies (
            #[trigger] self@.requests.push(req@)[a]).id != (#[trigger] self@.requests.push(
                req@,
            )[b]).id by {
                if b < self@.requests.len() {
                    assert(self@.requests[a].id != self@.requests[b].id);
                } else {
                    assert(self@.requests.push(req@)[b] == req@);
                    assert(self@.requests.push(req@)[a] == self@.requests[a]);
                }
            }
        }
        self.requests.push(req);
        proof {
            assert(self@.requests =~= old(self)@.requests.push(
                self.requests@[self.requests@.len() - 1]@,
            ));
            assert(self@.rules =~= old(self)@.rules);
        }
    }

    /// Takes a pending request out for a decision; hands back the removed
    /// request when the id was pending.  The shell then signals and drops
    /// the request's channel.
    pub fn respond(&mut self, id: &str) -> (r: Option<PermissionRequest>)
        requires
            spec_pending_ids_unique(old(self)@.requests),
        ensures
            spec_pending_ids_unique(final(self)@.requests),
            match r {
                Some(req) => Some(req@) == spec_pending_lookup(old(self)@.requests, id@),
                None => spec_pending_lookup(old(self)@.requests, id@) is None,
            },
            spec_pending_lookup(final(self)@.requests, id@) is None,
            forall|k: Seq<char>|
                k != id@ ==> #[trigger] spec_pending_lookup(final(self)@.requests, k)
                    == spec_pending_lookup(old(self)@.requests, k),
            final(self)@.rules == old(self)@.rules,
    {
        let found = self.find_index(id);
        match found {
            Some(i) => {
                proof {
                    lemma_pending_lookup_index(self@.requests, i as int, id@);
                    assert forall|k: Seq<char>| true implies #[trigger] spec_pending_lookup(
                        self@.requests.remove(i as int),
                        k,
                    ) == (if k == id@ {
                        None
                    } else {
                        spec_pending_lookup(self@.requests, k)
                    }) by {
                        lemma_pending_lookup_remove(self@.requests, i as int, k);
                    }
                    assert forall|a: int, b: int|
                        0 <= a < b < self@.requests.remove(i as int).len() implies (
                    #[trigger] self@.requests.remove(i as int)[a]).id != (
                    #[trigger] self@.requests.remove(i as int)[b]).id by {
                        let a0 = if a < i {
                            a
                        } else {
                            a + 1
                        };
                        let b0 = if b < i {
                            b
                        } else {
                            b + 1
                        };
                        assert(self@.requests.remove(i as int)[a] == self@.requests[a0]);
                        assert(self@.requests.remove(i as int)[b] == self@.requests[b0]);
                        assert(self@.requests[a0].id != self@.requests[b0].id);
                    }
                }
                let req = self.requests.remove(i);
                proof {
                    assert(self@.requests =~= old(self)@.requests.remove(found->0 as int));
                    assert(self@.rules =~= old(self)@.rules);
                }
                Some(req)
            },
            None => {
                proof {
                    lemma_pending_lookup_absent(self@.requests, id@);
                }
                None
            },
        }
    }

    /// Removes a pending request without a decision (timeout or channel
    /// drop).  The shell drops the request's channel.
    pub fn remove(&mut self, id: &str)
        requires
            spec_pending_ids_unique(old(self)@.requests),
        ensures
            spec_pending_ids_unique(final(self)@.requests),
            spec_pending_lookup(final(self)@.requests, id@) is None,
            forall|k: Seq<char>|
                k != id@ ==> #[trigger] spec_pending_lookup(final(self)@.requests, k)
                    == spec_pending_lookup(old(self)@.requests, k),
            final(self)@.rules == old(self)@.rules,
    {
        let _ = self.respond(id);
    }

    /// All pending requests, for the UI.
    pub fn get_pending(&self) -> (r: Vec<PermissionRequest>)
        ensures
            spec_request_views(r@) == self@.requests,
    {
        let mut out: Vec<PermissionRequest> = Vec::new();
        let mut i: usize = 0;
        proof {
            assert(spec_request_views(out@) =~= Seq::<PermissionRequestV>::empty());
            assert(spec_request_views(self.requests@.take(0)) =~= Seq::<
                PermissionRequestV,
            >::empty());
        }
        while i < self.requests.len()
            invariant
                i <= self.requests@.len(),
                spec_request_views(out@) == spec_request_views(self.requests@.take(i as int)),
            decreases self.requests@.len() - i,
        {
            let ghost old_views = spec_request_views(out@);
            out.push(self.requests[i].duplicate());
            proof {
                assert(spec_request_views(out@) =~= old_views.push(self.requests@[i as int]@));
                assert(spec_request_views(self.requests@.take((i + 1) as int))
                    =~= spec_request_views(self.requests@.take(i as int)).push(
                    self.requests@[i as int]@,
                ));
            }
            i += 1;
        }
        proof {
            assert(self.requests@.take(self.requests@.len() as int) =~= self.requests@);
        }
        out
    }

    /// Looks a pending request up without removing it.
    pub fn find(&self, id: &str) -> (r: Option<&PermissionRequest>)
        ensures
            match r {
                Some(req) => Some(req@) == spec_pending_lookup(self@.requests, id@),
                None => spec_pending_lookup(self@.requests, id@) is None,
            },
    {
        let found = self.find_index(id);
        match found {
            Some(i) => {
                proof {
                    lemma_pending_lookup_index(self@.requests, i as int, id@);
                }
                Some(&self.requests[i])
            },
            None => {
                proof {
                    lemma_pending_lookup_absent(self@.requests, id@);
                }
                None
            },
        }
    }

    /// Adds a session-scoped auto-approve rule; rules are a set, so an
    /// already-present pair changes nothing.
    pub fn add_session_rule(&mut self, session_id: &str, tool_name: &str)
        ensures
            spec_has_rule(final(self)@.rules, session_id@, tool_name@),
            final(self)@.rules == if spec_has_rule(old(self)@.rules, session_id@, tool_name@) {
                old(self)@.rules
            } else {
                old(self)@.rules.push((session_id@, tool_name@))
            },
            final(self)@.requests == old(self)@.requests,
    {
        if self.check_session_rule(session_id, tool_name) {
            return ;
        }
        self.rules.push((session_id.to_owned(), tool_name.to_owned()));
        proof {
            assert(self@.rules =~= old(self)@.rules.push((session_id@, tool_name@)));
            assert(self@.rules[self@.rules.len() - 1] == (session_id@, tool_name@));
            assert(spec_has_rule(self@.rules, session_id@, tool_name@));
            assert(self@.requests =~= old(self)@.requests);
        }
    }

    /// Whether a tool is auto-approved for this session.
    pub fn check_session_rule(&self, session_id: &str, tool_name: &str) -> (r: bool)
        ensures
            r == spec_has_rule(self@.rules, session_id@, tool_name@),
    {
        let sc = crate::chars::str_to_chars(session_id);
        let tc = crate::chars::str_to_chars(tool_name);
        let mut i: usize = 0;
        while i < self.rules.len()
            invariant
                i <= self.rules@.len(),
                sc@ == session_id@,
                tc@ == tool_name@,
                forall|j: int| 0 <= j < i ==> #[trigger] self@.rules[j] != (session_id@, tool_name@),
            decreases self.rules@.len() - i,
        {
            let rs = crate::chars::str_to_chars(self.rules[i].0.as_str());
            let rt = crate::chars::str_to_chars(self.rules[i].1.as_str());
            if crate::chars::chars_eq(&rs, &sc) && crate::chars::chars_eq(&rt, &tc) {
                proof {
                    assert(self@.rules[i as int] == (session_id@, tool_name@));
                }
                return true;
            }
            i += 1;
        }
        false
    }

    /// Drops every rule of one session (on session end); rules of other
    /// sessions are kept, in order.
    pub fn clear_session_rules(&mut self, session_id: &str)
        ensures
            final(self)@.rules == spec_rules_without(old(self)@.rules, session_id@),
            final(self)@.requests == old(self)@.requests,
    {
        let sc = crate::chars::str_to_chars(session_id);
        let mut out: Vec<(String, String)> = Vec::new();
        let mut i: usize = 0;
        proof {
            lemma_rules_without_empty(session_id@);
            assert(out@.map_values(|p: (String, String)| (p.0@, p.1@)) =~= Seq::<
                (Seq<char>, Seq<char>),
            >::empty());
            assert(self.rules@.take(0).map_values(|p: (String, String)| (p.0@, p.1@)) =~= Seq::<
                (Seq<char>, Seq<char>),
            >::empty());
        }
        while i < self.rules.len()
            invariant
                i <= self.rules@.len(),
                sc@ == session_id@,
                out@.map_values(|p: (String, String)| (p.0@, p.1@)) == spec_rules_without(
                    self.rules@.take(i as int).map_values(|p: (String, String)| (p.0@, p.1@)),
                    session_id@,
                ),
            decreases self.rules@.len() - i,
        {
            let ghost prefix = self.rules@.take(i as int).map_values(
                |p: (String, String)| (p.0@, p.1@),
            );
            let ghost x = (self.rules@[i as int].0@, self.rules@[i as int].1@);
            proof {
                assert(self.rules@.take((i + 1) as int).map_values(
                    |p: (String, String)| (p.0@, p.1@),
                ) =~= prefix.push(x));
                lemma_rules_without_push(prefix, session_id@, x);
            }
            let rs = crate::chars::str_to_chars(self.rules[i].0.as_str());
            if !crate::chars::chars_eq(&rs, &sc) {
                let a = self.rules[i].0.clone();
                let b = self.rules[i].1.clone();
                let ghost old_views = out@.map_values(|p: (String, String)| (p.0@, p.1@));
                out.push((a, b));
                proof {
                    assert(out@.map_values(|p: (String, String)| (p.0@, p.1@)) =~= old_views.push(
                        x,
                    ));
                }
            }
            i += 1;
        }
        proof {
            assert(self.rules@.take(self.rules@.len() as int) =~= self.rules@);
        }
        self.rules = out;
        proof {
            assert(self@.requests =~= old(self)@.requests);
        }
    }
}

/// The rules left when one session's rules are dropped.
pub open spec fn spec_rules_without(
    s: Seq<(Seq<char>, Seq<char>)>,
    sid: Seq<char>,
) -> Seq<(Seq<char>, Seq<char>)> {
    s.filter(|p: (Seq<char>, Seq<char>)| p.0 != sid)
}

proof fn lemma_rules_without_empty(sid: Seq<char>)
    ensures
        spec_rules_without(Seq::<(Seq<char>, Seq<char>)>::empty(), sid) == Seq::<
            (Seq<char>, Seq<char>),
        >::empty(),
{
    reveal_with_fuel(Seq::<(Seq<char>, Seq<char>)>::filter, 1);
    assert(spec_rules_without(Seq::<(Seq<char>, Seq<char>)>::empty(), sid) =~= Seq::<
        (Seq<char>, Seq<char>),
    >::empty());
}

proof fn lemma_rules_without_push(
    s: Seq<(Seq<char>, Seq<char>)>,
    sid: Seq<char>,
    x: (Seq<char>, Seq<char>),
)
    ensures
        spec_rules_without(s.push(x), sid) == if x.0 != sid {
            spec_rules_without(s, sid).push(x)
        } else {
            spec_rules_without(s, sid)
        },
{
    reveal_with_fuel(Seq::<(Seq<char>, Seq<char>)>::filter, 2);
    assert(s.push(x).drop_last() =~= s);
    assert(s.push(x).last() == x);
}

/// After a session's rules are cleared, nothing is auto-approved for it;
/// rules of other sessions are untouched.
pub proof fn lemma_rules_without_clears(
    s: Seq<(Seq<char>, Seq<char>)>,
    sid: Seq<char>,
    s2: Seq<char>,
    t: Seq<char>,
)
    ensures
        !spec_has_rule(spec_rules_without(s, sid), sid, t),
        s2 != sid ==> spec_has_rule(spec_rules_without(s, sid), s2, t) == spec_has_rule(
            s,
            s2,
            t,
        ),
    decreases s.len(),
{
    reveal_with_fuel(Seq::<(Seq<char>, Seq<char>)>::filter, 2);
    let pred = |p: (Seq<char>, Seq<char>)| p.0 != sid;
    broadcast use vstd::seq_lib::group_filter_ensures;

    if spec_has_rule(spec_rules_without(s, sid), sid, t) {
        let i = choose|i: int|
            0 <= i < s.filter(pred).len() && s.filter(pred)[i] == (sid, t);
        assert(pred(s.filter(pred)[i]));
    }
    if s.len() == 0 {
        assert(s.filter(pred) =~= Seq::<(Seq<char>, Seq<char>)>::empty());
        if spec_has_rule(s, s2, t) {
            let i = choose|i: int| 0 <= i < s.len() && s[i] == (s2, t);
        }
    } else if s2 != sid {
        lemma_rules_without_clears(s.drop_last(), sid, s2, t);
        assert(s.drop_last().push(s.last()) =~= s);
        lemma_rules_without_push(s.drop_last(), sid, s.last());
        let f = spec_rules_without(s, sid);
        let fd = spec_rules_without(s.drop_last(), sid);
        if spec_has_rule(s, s2, t) {
            let i = choose|i: int| 0 <= i < s.len() && s[i] == (s2, t);
            if i < s.len() - 1 {
                assert(s.drop_last()[i] == (s2, t));
                assert(spec_has_rule(s.drop_last(), s2, t));
                let j = choose|j: int| 0 <= j < fd.len() && fd[j] == (s2, t);
                assert(f[j] == (s2, t) || f == fd.push(s.last())) by {}
                if pred(s.last()) {
                    assert(f == fd.push(s.last()));
                    assert(f[j] == fd[j]);
                } else {
                    assert(f == fd);
                }
                assert(spec_has_rule(f, s2, t));
            } else {
                assert(s.last() == (s2, t));
                assert(pred(s.last()));
                assert(f == fd.push(s.last()));
                assert(f[f.len() - 1] == (s2, t));
                assert(spec_has_rule(f, s2, t));
            }
        }
        if spec_has_rule(f, s2, t) {
            let j = choose|j: int| 0 <= j < f.len() && f[j] == (s2, t);
            if pred(s.last()) && j == fd.len() {
                assert(f == fd.push(s.last()));
                assert(s.last() == (s2, t));
                assert(s[s.len() - 1] == (s2, t));
                assert(spec_has_rule(s, s2, t));
            } else {
                assert(fd[j] == (s2, t));
                assert(spec_has_rule(s.drop_last(), s2, t));
                let i = choose|i: int|
                    0 <= i < s.drop_last().len() && s.drop_last()[i] == (s2, t);
                assert(s[i] == (s2, t));
                assert(spec_has_rule(s, s2, t));
            }
        }
    }
}

/// The two fields of the agent's decision object.
pub struct PermissionOutcome {
    /// `"approve"` or `"deny"`.
    pub behavior: String,
    /// The JSON array echoed as `updatedPermissions`.
    pub updated_permissions: String,
}

/// The decision object for a delivered decision: allow and always-allow
/// approve; only always-allow echoes the original suggestions.
pub fn decision_response(d: PermissionDecisionKind, suggestions: &str) -> (r: PermissionOutcome)
    ensures
        r.behavior@ == spec_behavior(d),
        r.updated_permissions@ == if d == PermissionDecisionKind::AlwaysAllow {
            suggestions@
        } else {
            "[]"@
        },
{
    let behavior = d.to_behavior().to_owned();
    let updated_permissions = if matches!(d, PermissionDecisionKind::AlwaysAllow) {
        suggestions.to_owned()
    } else {
        "[]".to_owned()
    };
    PermissionOutcome { behavior, updated_permissions }
}

/// The decision object for a timeout or a dropped channel: deny, with no
/// permissions attached.
pub fn timeout_response() -> (r: PermissionOutcome)
    ensures
        r.behavior@ == spec_behavior(PermissionDecisionKind::Deny),
        r.updated_permissions@ == "[]"@,
{
    PermissionOutcome { behavior: "deny".to_owned(), updated_permissions: "[]".to_owned() }
}

} // verus!
