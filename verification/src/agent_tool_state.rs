//! The results of nested runs of agents called as tools, kept by tool call id
//! within an optional scope until the caller consumes them.
use vstd::prelude::*;

use crate::text::{opt_view, str_eq};

verus! {

/// The scope and tool call id a result is kept under.
pub type ScopedKeyView = (Option<Seq<char>>, Seq<char>);

/// Results of nested runs by scope and tool call id.
pub struct AgentToolStateStore<R> {
    entries: Vec<(Option<String>, String, R)>,
}

/// The key of an entry.
pub open spec fn entry_key<R>(e: (Option<String>, String, R)) -> ScopedKeyView {
    (opt_view(e.0), e.1@)
}

/// Whether no two entries share a key.
pub open spec fn distinct_keys<R>(s: Seq<(Option<String>, String, R)>) -> bool {
    forall|a: int, b: int| 0 <= a < b < s.len() ==> entry_key(#[trigger] s[a]) != entry_key(#[trigger] s[b])
}

/// The position of the entry with key `k`.
pub open spec fn key_position<R>(s: Seq<(Option<String>, String, R)>, k: ScopedKeyView) -> Option<int> {
    if exists|i: int| 0 <= i < s.len() && entry_key(#[trigger] s[i]) == k {
        Some(choose|i: int| 0 <= i < s.len() && entry_key(#[trigger] s[i]) == k)
    } else {
        None
    }
}

/// Whether two optional scopes are the same.
fn same_scope(a: &Option<String>, b: &Option<String>) -> (res: bool)
    ensures
        res == (opt_view(*a) == opt_view(*b)),
{
    match (a, b) {
        (Some(x), Some(y)) => str_eq(x.as_str(), y.as_str()),
        (None, None) => true,
        _ => false,
    }
}

impl<R> AgentToolStateStore<R> {
    /// No two entries share a key.
    #[verifier::type_invariant]
    spec fn keys_distinct(self) -> bool {
        distinct_keys(self.entries@)
    }

    /// The results by key.
    pub closed spec fn view(&self) -> Map<ScopedKeyView, R> {
        Map::new(
            |k: ScopedKeyView| key_position(self.entries@, k).is_some(),
            |k: ScopedKeyView| self.entries@[key_position(self.entries@, k).unwrap()].2,
        )
    }

    /// A store with no result.
    pub fn new() -> (res: Self)
        ensures
            res.view() == Map::<ScopedKeyView, R>::empty(),
    {
        let res = AgentToolStateStore { entries: Vec::new() };
        assert(res.view() =~= Map::<ScopedKeyView, R>::empty());
        res
    }

    /// The position of the entry with the given key.
    fn find(&self, tool_call_id: &str, scope_id: &Option<String>) -> (res: Option<usize>)
        ensures
            match res {
                Some(i) => i < self.entries@.len() && entry_key(self.entries@[i as int]) == (
                    opt_view(*scope_id),
                    tool_call_id@,
                ),
                None => key_position(self.entries@, (opt_view(*scope_id), tool_call_id@)).is_none(),
            },
    {
        let ghost k = (opt_view(*scope_id), tool_call_id@);
        let mut i: usize = 0;
        while i < self.entries.len()
            invariant
                i <= self.entries@.len(),
                k == (opt_view(*scope_id), tool_call_id@),
                forall|j: int| 0 <= j < i ==> entry_key(#[trigger] self.entries@[j]) != k,
            decreases self.entries@.len() - i,
        {
            if same_scope(&self.entries[i].0, scope_id) && str_eq(self.entries[i].1.as_str(), tool_call_id) {
                return Some(i);
            }
            i = i + 1;
        }
        None
    }

    /// Keeps `run_result` under `(scope_id, tool_call_id)`, replacing what was there.
    pub fn record_agent_tool_run_result(&mut self, tool_call_id: String, run_result: R, scope_id: Option<String>)
        ensures
            final(self).view() == old(self).view().insert((opt_view(scope_id), tool_call_id@), run_result),
    {
        proof {
            use_type_invariant(&*self);
        }
        let ghost k = (opt_view(scope_id), tool_call_id@);
        let ghost s = self.entries@;
        let ghost before = self.view();
        match self.find(tool_call_id.as_str(), &scope_id) {
            Some(i) => {
                let mut entries: Vec<(Option<String>, String, R)> = Vec::new();
                std::mem::swap(&mut entries, &mut self.entries);
                entries.set(i, (scope_id, tool_call_id, run_result));
                let ghost t = entries@;
                assert forall|a: int, b: int| 0 <= a < b < t.len() implies entry_key(#[trigger] t[a]) != entry_key(
                    #[trigger] t[b],
                ) by {
                    if a != i && b != i {
                        assert(t[a] == s[a] && t[b] == s[b]);
                    } else if a == i {
                        assert(t[b] == s[b]);
                        assert(entry_key(s[a]) != entry_key(s[b]));
                    } else {
                        assert(t[a] == s[a]);
                        assert(entry_key(s[a]) != entry_key(s[b]));
                    }
                }
                self.entries = entries;
                assert forall|k2: ScopedKeyView| #[trigger] key_position(t, k2).is_some() == key_position(s, k2).is_some()
                    by {
                    if exists|j: int| 0 <= j < s.len() && entry_key(#[trigger] s[j]) == k2 {
                        let j = choose|j: int| 0 <= j < s.len() && entry_key(#[trigger] s[j]) == k2;
                        if j == i {
                            assert(entry_key(t[j]) == k2);
                        } else {
                            assert(t[j] == s[j]);
                        }
                    }
                    if exists|j: int| 0 <= j < t.len() && entry_key(#[trigger] t[j]) == k2 {
                        let j = choose|j: int| 0 <= j < t.len() && entry_key(#[trigger] t[j]) == k2;
                        if j == i {
                            assert(entry_key(s[j]) == k2);
                        } else {
                            assert(t[j] == s[j]);
                        }
                    }
                }
                assert forall|k2: ScopedKeyView| #[trigger] key_position(t, k2).is_some() implies t[key_position(
                    t,
                    k2,
                ).unwrap()].2 == (if k2 == k {
                    run_result
                } else {
                    s[key_position(s, k2).unwrap()].2
                }) by {
                    let pt = key_position(t, k2).unwrap();
                    let ps = key_position(s, k2).unwrap();
                    if pt != ps {
                        if pt == i {
                            assert(entry_key(s[pt]) == k2);
                        } else if ps == i {
                            assert(entry_key(t[ps]) == k2);
                        } else {
                            assert(t[pt] == s[pt]);
                            assert(t[ps] == s[ps]);
                        }
                    }
                    if pt != i {
                        assert(t[pt] == s[pt]);
                    }
                }
                assert(self.view() =~= before.insert(k, run_result));
            },
            None => {
                let mut entries: Vec<(Option<String>, String, R)> = Vec::new();
                std::mem::swap(&mut entries, &mut self.entries);
                entries.push((scope_id, tool_call_id, run_result));
                let ghost t = entries@;
                assert(entry_key(t[s.len() as int]) == k);
                assert forall|a: int, b: int| 0 <= a < b < t.len() implies entry_key(#[trigger] t[a]) != entry_key(
                    #[trigger] t[b],
                ) by {
                    assert(t[a] == s[a]);
                    if b < s.len() {
                        assert(t[b] == s[b]);
                    }
                }
                self.entries = entries;
                assert forall|k2: ScopedKeyView| #[trigger] key_position(t, k2).is_some() == (key_position(s, k2).is_some()
                    || k2 == k) by {
                    if exists|j: int| 0 <= j < s.len() && entry_key(#[trigger] s[j]) == k2 {
                        let j = choose|j: int| 0 <= j < s.len() && entry_key(#[trigger] s[j]) == k2;
                        assert(t[j] == s[j]);
                    }
                    if exists|j: int| 0 <= j < t.len() && entry_key(#[trigger] t[j]) == k2 {
                        let j = choose|j: int| 0 <= j < t.len() && entry_key(#[trigger] t[j]) == k2;
                        if j < s.len() {
                            assert(t[j] == s[j]);
                        }
                    }
                }
                assert forall|k2: ScopedKeyView| #[trigger] key_position(t, k2).is_some() implies t[key_position(
                    t,
                    k2,
                ).unwrap()].2 == (if k2 == k {
                    run_result
                } else {
                    s[key_position(s, k2).unwrap()].2
                }) by {
                    let pt = key_position(t, k2).unwrap();
                    if k2 == k {
                        if pt < s.len() {
                            assert(t[pt] == s[pt]);
                        }
                    } else {
                        let ps = key_position(s, k2).unwrap();
                        assert(t[ps] == s[ps]);
                        assert(pt != s.len());
                        assert(t[pt] == s[pt]);
                    }
                }
                assert(self.view() =~= before.insert(k, run_result));
            },
        }
    }

    /// The result kept under `(scope_id, tool_call_id)`, left in place.
    pub fn peek_agent_tool_run_result(&self, tool_call_id: &str, scope_id: &Option<String>) -> (res: Option<&R>)
        ensures
            match res {
                Some(r) => self.view().contains_key((opt_view(*scope_id), tool_call_id@)) && self.view()[(
                    opt_view(*scope_id),
                    tool_call_id@,
                )] == *r,
                None => !self.view().contains_key((opt_view(*scope_id), tool_call_id@)),
            },
    {
        proof {
            use_type_invariant(self);
        }
        match self.find(tool_call_id, scope_id) {
            Some(i) => {
                let ghost k = (opt_view(*scope_id), tool_call_id@);
                assert(key_position(self.entries@, k).is_some());
                assert(key_position(self.entries@, k).unwrap() == i as int);
                Some(&self.entries[i].2)
            },
            None => None,
        }
    }

    /// Takes the result kept under `(scope_id, tool_call_id)` out of the store.
    pub fn consume_agent_tool_run_result(&mut self, tool_call_id: &str, scope_id: &Option<String>) -> (res: Option<R>)
        ensures
            final(self).view() == old(self).view().remove((opt_view(*scope_id), tool_call_id@)),
            match res {
                Some(r) => old(self).view().contains_key((opt_view(*scope_id), tool_call_id@)) && old(self).view()[(
                    opt_view(*scope_id),
                    tool_call_id@,
                )] == r,
                None => !old(self).view().contains_key((opt_view(*scope_id), tool_call_id@)),
            },
    {
        proof {
            use_type_invariant(&*self);
        }
        let ghost k = (opt_view(*scope_id), tool_call_id@);
        let ghost s = self.entries@;
        let ghost before = self.view();
        match self.find(tool_call_id, scope_id) {
            Some(i) => {
                assert(key_position(s, k).is_some());
                assert(key_position(s, k).unwrap() == i as int);
                let mut entries: Vec<(Option<String>, String, R)> = Vec::new();
                std::mem::swap(&mut entries, &mut self.entries);
                let removed = entries.remove(i);
                let ghost t = entries@;
                assert(t == s.remove(i as int));
                assert forall|a: int, b: int| 0 <= a < b < t.len() implies entry_key(#[trigger] t[a]) != entry_key(
                    #[trigger] t[b],
                ) by {
                    let sa = if a < i {
                        a
                    } else {
                        a + 1
                    };
                    let sb = if b < i {
                        b
                    } else {
                        b + 1
                    };
                    assert(t[a] == s[sa]);
                    assert(t[b] == s[sb]);
                }
                self.entries = entries;
                assert forall|k2: ScopedKeyView| #[trigger] key_position(t, k2).is_some() == (key_position(s, k2).is_some()
                    && k2 != k) by {
                    if exists|j: int| 0 <= j < s.len() && entry_key(#[trigger] s[j]) == k2 {
                        let j = choose|j: int| 0 <= j < s.len() && entry_key(#[trigger] s[j]) == k2;
                        if j < i {
                            assert(t[j] == s[j]);
                        } else if j > i {
                            assert(t[j - 1] == s[j]);
                        }
                    }
                    if exists|j: int| 0 <= j < t.len() && entry_key(#[trigger] t[j]) == k2 {
                        let j = choose|j: int| 0 <= j < t.len() && entry_key(#[trigger] t[j]) == k2;
                        let sj = if j < i {
                            j
                        } else {
                            j + 1
                        };
                        assert(t[j] == s[sj]);
                    }
                }
                assert forall|k2: ScopedKeyView| #[trigger] key_position(t, k2).is_some() implies t[key_position(
                    t,
                    k2,
                ).unwrap()].2 == s[key_position(s, k2).unwrap()].2 by {
                    let pt = key_position(t, k2).unwrap();
                    let ps = key_position(s, k2).unwrap();
                    let spt = if pt < i {
                        pt
                    } else {
                        pt + 1
                    };
                    assert(t[pt] == s[spt]);
                }
                assert(self.view() =~= before.remove(k));
                Some(removed.2)
            },
            None => {
                assert(before.remove(k) =~= before);
                None
            },
        }
    }

    /// Drops the result kept under `(scope_id, tool_call_id)`, if any.
    pub fn drop_agent_tool_run_result(&mut self, tool_call_id: &str, scope_id: &Option<String>)
        ensures
            final(self).view() == old(self).view().remove((opt_view(*scope_id), tool_call_id@)),
    {
        let _ = self.consume_agent_tool_run_result(tool_call_id, scope_id);
    }
}

/// A result read back after it is kept is the one kept; once consumed, it is
/// gone.
pub proof fn law_kept_result_reads_back<R>(m: Map<ScopedKeyView, R>, k: ScopedKeyView, r: R)
    ensures
        m.insert(k, r).contains_key(k) && m.insert(k, r)[k] == r,
        !m.insert(k, r).remove(k).contains_key(k),
{
}

} // verus!
