//! Short-window coalescing of repeated light hook events.
//!
//! A key is `<session_id>:<event name>`.  A hit within the window is
//! answered as a duplicate and changes nothing; a miss records the time.

use vstd::prelude::*;
use crate::protocol::{event_name, spec_event_name, HookEvent};

verus! {

/// The coalescing window, in microseconds.
pub const DEDUP_WINDOW_US: u64 = 500_000;

/// How long the sweep keeps an entry, in microseconds.
pub const DEDUP_MAX_AGE_US: u64 = 5_000_000;

/// The dedup key of a session and event.
pub open spec fn spec_dedup_key(sid: Seq<char>, e: HookEvent) -> Seq<char> {
    sid + seq![':'] + spec_event_name(e)
}

/// Builds the dedup key `<session_id>:<event name>`.
pub fn dedup_key(session_id: &str, e: HookEvent) -> (r: String)
    ensures
        r@ == spec_dedup_key(session_id@, e),
{
    let mut out: Vec<char> = Vec::new();
    crate::chars::push_lit(&mut out, session_id);
    out.push(':');
    crate::chars::push_lit(&mut out, event_name(e));
    proof {
        assert(out@ =~= spec_dedup_key(session_id@, e));
    }
    crate::chars::chars_to_string(&out)
}

/// The recorded time of a key, if any.
pub open spec fn spec_dedup_lookup(s: Seq<(Seq<char>, u64)>, k: Seq<char>) -> Option<u64>
    decreases s.len(),
{
    if s.len() == 0 {
        None
    } else if s[0].0 == k {
        Some(s[0].1)
    } else {
        spec_dedup_lookup(s.drop_first(), k)
    }
}

/// Whether a call with this key at `now` is a duplicate of a recorded one.
pub open spec fn spec_is_dup(s: Seq<(Seq<char>, u64)>, k: Seq<char>, now: u64) -> bool {
    match spec_dedup_lookup(s, k) {
        Some(last) => now - last < DEDUP_WINDOW_US,
        None => false,
    }
}

pub open spec fn spec_dedup_keys_unique(s: Seq<(Seq<char>, u64)>) -> bool {
    forall|i: int, j: int| 0 <= i < j < s.len() ==> (#[trigger] s[i]).0 != (#[trigger] s[j]).0
}

/// The dedup cache: key to the time it was last processed.
pub struct DedupCache {
    entries: Vec<(String, u64)>,
}

impl View for DedupCache {
    type V = Seq<(Seq<char>, u64)>;

    closed spec fn view(&self) -> Seq<(Seq<char>, u64)> {
        self.entries@.map_values(|p: (String, u64)| (p.0@, p.1))
    }
}

proof fn lemma_dedup_lookup_push(s: Seq<(Seq<char>, u64)>, x: (Seq<char>, u64), k: Seq<char>)
    ensures
        spec_dedup_lookup(s.push(x), k) == match spec_dedup_lookup(s, k) {
            Some(t) => Some(t),
            None => if x.0 == k {
                Some(x.1)
            } else {
                None
            },
        },
    decreases s.len(),
{
    if s.len() == 0 {
        assert(s.push(x)[0] == x);
        assert(s.push(x).drop_first() =~= Seq::<(Seq<char>, u64)>::empty());
    } else {
        assert(s.push(x)[0] == s[0]);
        assert(s.push(x).drop_first() =~= s.drop_first().push(x));
        lemma_dedup_lookup_push(s.drop_first(), x, k);
    }
}

proof fn lemma_dedup_lookup_update(s: Seq<(Seq<char>, u64)>, i: int, x: (Seq<char>, u64), k: Seq<char>)
    requires
        0 <= i < s.len(),
        s[i].0 == x.0,
        forall|j: int| 0 <= j < i ==> (#[trigger] s[j]).0 != x.0,
    ensures
        spec_dedup_lookup(s.update(i, x), k) == if k == x.0 {
            Some(x.1)
        } else {
            spec_dedup_lookup(s, k)
        },
    decreases s.len(),
{
    if i == 0 {
        assert(s.update(0, x)[0] == x);
        assert(s.update(0, x).drop_first() =~= s.drop_first());
    } else {
        assert(s.update(i, x)[0] == s[0]);
        assert(s.update(i, x).drop_first() =~= s.drop_first().update(i - 1, x));
        assert(forall|j: int| 0 <= j < i - 1 ==> (#[trigger] s.drop_first()[j]).0 != x.0);
        lemma_dedup_lookup_update(s.drop_first(), i - 1, x, k);
    }
}

proof fn lemma_dedup_lookup_absent(s: Seq<(Seq<char>, u64)>, k: Seq<char>)
    requires
        forall|j: int| 0 <= j < s.len() ==> (#[trigger] s[j]).0 != k,
    ensures
        spec_dedup_lookup(s, k) is None,
    decreases s.len(),
{
    if s.len() > 0 {
        lemma_dedup_lookup_absent(s.drop_first(), k);
    }
}

impl DedupCache {
    pub fn new() -> (r: DedupCache)
        ensures
            r@ == Seq::<(Seq<char>, u64)>::empty(),
            spec_dedup_keys_unique(r@),
    {
        let r = DedupCache { entries: Vec::new() };
        proof {
            assert(r@ =~= Seq::<(Seq<char>, u64)>::empty());
        }
        r
    }

    fn find_index(&self, key: &str) -> (r: Option<usize>)
        ensures
            match r {
                Some(i) => {
                    &&& i < self@.len()
                    &&& self@[i as int].0 == key@
                    &&& forall|j: int| 0 <= j < i ==> (#[trigger] self@[j]).0 != key@
                },
                None => forall|j: int| 0 <= j < self@.len() ==> (#[trigger] self@[j]).0 != key@,
            },
    {
        let kc = crate::chars::str_to_chars(key);
        let mut i: usize = 0;
        while i < self.entries.len()
            invariant
                i <= self.entries@.len(),
                kc@ == key@,
                forall|j: int| 0 <= j < i ==> (#[trigger] self@[j]).0 != key@,
            decreases self.entries@.len() - i,
        {
            let ec = crate::chars::str_to_chars(self.entries[i].0.as_str());
            if crate::chars::chars_eq(&ec, &kc) {
                return Some(i);
            }
            i += 1;
        }
        None
    }

    /// One call: answers whether it is a duplicate within the window; when
    /// it is, nothing changes; when it is not, the key is recorded at
    /// `now`.
    pub fn check_and_record(&mut self, key: &str, now: u64) -> (r: bool)
        requires
            spec_dedup_keys_unique(old(self)@),
        ensures
            spec_dedup_keys_unique(final(self)@),
            r == spec_is_dup(old(self)@, key@, now),
            r ==> final(self)@ == old(self)@,
            !r ==> spec_dedup_lookup(final(self)@, key@) == Some(now),
            !r ==> forall|k: Seq<char>|
                k != key@ ==> #[trigger] spec_dedup_lookup(final(self)@, k) == spec_dedup_lookup(
                    old(self)@,
                    k,
                ),
    {
        let found = self.find_index(key);
        match found {
            Some(i) => {
                proof {
                    lemma_dedup_lookup_index(self@, i as int, key@);
                }
                let last = self.entries[i].1;
                if now.saturating_sub(last) < DEDUP_WINDOW_US {
                    return true;
                }
                proof {
                    assert forall|k: Seq<char>| true implies #[trigger] spec_dedup_lookup(
                        self@.update(i as int, (key@, now)),
                        k,
                    ) == (if k == key@ {
                        Some(now)
                    } else {
                        spec_dedup_lookup(self@, k)
                    }) by {
                        lemma_dedup_lookup_update(self@, i as int, (key@, now), k);
                    }
                    assert forall|a: int, b: int|
                        0 <= a < b < self@.update(i as int, (key@, now)).len() implies (
                    #[trigger] self@.update(i as int, (key@, now))[a]).0 != (#[trigger] self@.update(
                        i as int,
                        (key@, now),
                    )[b]).0 by {
                        assert(self@[a].0 != self@[b].0);
                    }
                }
                self.entries.set(i, (key.to_owned(), now));
                proof {
                    assert(self@ =~= old(self)@.update(found->0 as int, (key@, now)));
                }
                false
            },
            None => {
                proof {
                    lemma_dedup_lookup_absent(self@, key@);
                    assert forall|k: Seq<char>| true implies #[trigger] spec_dedup_lookup(
                        self@.push((key@, now)),
                        k,
                    ) == (if k == key@ {
                        Some(now)
                    } else {
                        spec_dedup_lookup(self@, k)
                    }) by {
                        lemma_dedup_lookup_push(self@, (key@, now), k);
                        if k == key@ {
                            lemma_dedup_lookup_absent(self@, k);
                        }
                    }
                    assert forall|a: int, b: int|
                        0 <= a < b < self@.push((key@, now)).len() implies (#[trigger] self@.push(
                        (key@, now),
                    )[a]).0 != (#[trigger] self@.push((key@, now))[b]).0 by {
                        if b < self@.len() {
                            assert(self@[a].0 != self@[b].0);
                        } else {
                            assert(self@.push((key@, now))[b] == (key@, now));
                            assert(self@.push((key@, now))[a] == self@[a]);
                        }
                    }
                }
                self.entries.push((key.to_owned(), now));
                proof {
                    assert(self@ =~= old(self)@.push((key@, now)));
                }
                false
            },
        }
    }

    /// Drops entries recorded more than the sweep age before `now`.
    pub fn sweep(&mut self, now: u64)
        requires
            spec_dedup_keys_unique(old(self)@),
        ensures
            spec_dedup_keys_unique(final(self)@),
            final(self)@ == old(self)@.filter(
                |p: (Seq<char>, u64)| now - p.1 <= DEDUP_MAX_AGE_US,
            ),
    {
        let mut out: Vec<(String, u64)> = Vec::new();
        let mut i: usize = 0;
        proof {
            lemma_sweep_empty(now);
            assert(out@.map_values(|p: (String, u64)| (p.0@, p.1)) =~= Seq::<
                (Seq<char>, u64),
            >::empty());
            assert(self.entries@.take(0).map_values(|p: (String, u64)| (p.0@, p.1)) =~= Seq::<
                (Seq<char>, u64),
            >::empty());
        }
        while i < self.entries.len()
            invariant
                i <= self.entries@.len(),
                out@.map_values(|p: (String, u64)| (p.0@, p.1)) == self.entries@.take(
                    i as int,
                ).map_values(|p: (String, u64)| (p.0@, p.1)).filter(
                    |p: (Seq<char>, u64)| now - p.1 <= DEDUP_MAX_AGE_US,
                ),
            decreases self.entries@.len() - i,
        {
            let ghost prefix = self.entries@.take(i as int).map_values(
                |p: (String, u64)| (p.0@, p.1),
            );
            let ghost x = (self.entries@[i as int].0@, self.entries@[i as int].1);
            proof {
                assert(self.entries@.take((i + 1) as int).map_values(
                    |p: (String, u64)| (p.0@, p.1),
                ) =~= prefix.push(x));
                lemma_sweep_push(prefix, now, x);
            }
            if now.saturating_sub(self.entries[i].1) <= DEDUP_MAX_AGE_US {
                let ghost old_views = out@.map_values(|p: (String, u64)| (p.0@, p.1));
                let key = self.entries[i].0.clone();
                let ts = self.entries[i].1;
                out.push((key, ts));
                proof {
                    assert(out@.map_values(|p: (String, u64)| (p.0@, p.1)) =~= old_views.push(x));
                }
            }
            i += 1;
        }
        proof {
            assert(self.entries@.take(self.entries@.len() as int) =~= self.entries@);
            lemma_sweep_unique(self@, now);
        }
        self.entries = out;
    }
}

proof fn lemma_dedup_lookup_index(s: Seq<(Seq<char>, u64)>, i: int, k: Seq<char>)
    requires
        0 <= i < s.len(),
        s[i].0 == k,
        forall|j: int| 0 <= j < i ==> (#[trigger] s[j]).0 != k,
    ensures
        spec_dedup_lookup(s, k) == Some(s[i].1),
    decreases i,
{
    if i > 0 {
        assert(s.drop_first()[i - 1] == s[i]);
        assert(forall|j: int| 0 <= j < i - 1 ==> (#[trigger] s.drop_first()[j]).0 != k);
        lemma_dedup_lookup_index(s.drop_first(), i - 1, k);
    }
}

proof fn lemma_sweep_empty(now: u64)
    ensures
        Seq::<(Seq<char>, u64)>::empty().filter(
            |p: (Seq<char>, u64)| now - p.1 <= DEDUP_MAX_AGE_US,
        ) == Seq::<(Seq<char>, u64)>::empty(),
{
    reveal_with_fuel(Seq::<(Seq<char>, u64)>::filter, 1);
    assert(Seq::<(Seq<char>, u64)>::empty().filter(
        |p: (Seq<char>, u64)| now - p.1 <= DEDUP_MAX_AGE_US,
    ) =~= Seq::<(Seq<char>, u64)>::empty());
}

proof fn lemma_sweep_push(s: Seq<(Seq<char>, u64)>, now: u64, x: (Seq<char>, u64))
    ensures
        s.push(x).filter(|p: (Seq<char>, u64)| now - p.1 <= DEDUP_MAX_AGE_US) == if now - x.1
            <= DEDUP_MAX_AGE_US {
            s.filter(|p: (Seq<char>, u64)| now - p.1 <= DEDUP_MAX_AGE_US).push(x)
        } else {
            s.filter(|p: (Seq<char>, u64)| now - p.1 <= DEDUP_MAX_AGE_US)
        },
{
    reveal_with_fuel(Seq::<(Seq<char>, u64)>::filter, 2);
    assert(s.push(x).drop_last() =~= s);
    assert(s.push(x).last() == x);
}

proof fn lemma_sweep_unique(s: Seq<(Seq<char>, u64)>, now: u64)
    requires
        spec_dedup_keys_unique(s),
    ensures
        spec_dedup_keys_unique(
            s.filter(|p: (Seq<char>, u64)| now - p.1 <= DEDUP_MAX_AGE_US),
        ),
    decreases s.len(),
{
    reveal_with_fuel(Seq::<(Seq<char>, u64)>::filter, 2);
    let pred = |p: (Seq<char>, u64)| now - p.1 <= DEDUP_MAX_AGE_US;
    if s.len() > 0 {
        assert(spec_dedup_keys_unique(s.drop_last()));
        lemma_sweep_unique(s.drop_last(), now);
        if pred(s.last()) {
            let f = s.drop_last().filter(pred);
            assert forall|a: int, b: int|
                0 <= a < b < f.push(s.last()).len() implies (#[trigger] f.push(
                s.last(),
            )[a]).0 != (#[trigger] f.push(s.last())[b]).0 by {
                broadcast use vstd::seq_lib::group_filter_ensures;

                if b == f.len() {
                    assert(f.push(s.last())[b] == s.last());
                    assert(f[a] == f.push(s.last())[a]);
                    lemma_pair_filter_member(s.drop_last(), pred, a);
                    let i = choose|i: int|
                        0 <= i < s.drop_last().len() && s.drop_last()[i]
                            == #[trigger] s.drop_last().filter(pred)[a];
                    assert(s[i].0 != s[s.len() - 1].0);
                }
            }
        }
    } else {
        assert(s.filter(pred) =~= Seq::<(Seq<char>, u64)>::empty());
    }
}

/// Every position of a filtered sequence comes from a position of the
/// original.
proof fn lemma_pair_filter_member(
    s: Seq<(Seq<char>, u64)>,
    pred: spec_fn((Seq<char>, u64)) -> bool,
    a: int,
)
    requires
        0 <= a < s.filter(pred).len(),
    ensures
        exists|i: int| 0 <= i < s.len() && s[i] == #[trigger] s.filter(pred)[a],
    decreases s.len(),
{
    reveal_with_fuel(Seq::<(Seq<char>, u64)>::filter, 2);
    if s.len() > 0 {
        let fd = s.drop_last().filter(pred);
        if a < fd.len() {
            lemma_pair_filter_member(s.drop_last(), pred, a);
            let i = choose|i: int| 0 <= i < s.drop_last().len() && s.drop_last()[i] == fd[a];
            assert(s[i] == s.filter(pred)[a]);
        } else {
            assert(s.filter(pred)[a] == s.last());
            assert(s[s.len() - 1] == s.filter(pred)[a]);
        }
    }
}

/// Recording a key and asking again within the window is a duplicate: at
/// most one call per key goes through in any window.
pub proof fn lemma_dedup_window(s: Seq<(Seq<char>, u64)>, k: Seq<char>, t: u64, t2: u64)
    requires
        spec_dedup_lookup(s, k) == Some(t),
        t2 - t < DEDUP_WINDOW_US,
    ensures
        spec_is_dup(s, k, t2),
{
}

} // verus!
