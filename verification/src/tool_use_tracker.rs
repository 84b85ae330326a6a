//! Which tools each agent has used during a run.
use vstd::prelude::*;

use crate::ordered::{seq_lt, StrMap};
use crate::text::lines_view;

verus! {

/// The tools each agent (by name) has used.
pub struct AgentToolUseTracker {
    agent_to_tools: StrMap<StrMap<()>>,
}

/// The set of names a list holds.
pub open spec fn names_set(v: Seq<String>) -> Set<Seq<char>> {
    Set::new(|n: Seq<char>| lines_view(v).contains(n))
}

/// The tools by agent a snapshot lists; a later entry for an agent replaces an earlier one.
pub open spec fn snapshot_view(s: Seq<(String, Vec<String>)>) -> Map<Seq<char>, Set<Seq<char>>>
    decreases s.len(),
{
    if s.len() == 0 {
        Map::empty()
    } else {
        snapshot_view(s.drop_last()).insert(s.last().0@, names_set(s.last().1@))
    }
}

/// Adding a name to a list adds it to the names the list holds.
proof fn lemma_names_push(v: Seq<String>, x: String)
    ensures
        names_set(v.push(x)) == names_set(v).insert(x@),
{
    assert(lines_view(v.push(x)) =~= lines_view(v).push(x@));
    assert forall|n: Seq<char>| lines_view(v).push(x@).contains(n) <==> (lines_view(v).contains(n) || n == x@) by {
        let w = lines_view(v).push(x@);
        if w.contains(n) {
            let j = choose|j: int| 0 <= j < w.len() && w[j] == n;
            if j < lines_view(v).len() {
                assert(lines_view(v)[j] == w[j]);
            }
        }
        if lines_view(v).contains(n) {
            let j = choose|j: int| 0 <= j < lines_view(v).len() && lines_view(v)[j] == n;
            assert(w[j] == n);
        }
        if n == x@ {
            assert(w[lines_view(v).len() as int] == n);
        }
    }
    assert forall|n: Seq<char>| names_set(v.push(x)).contains(n) <==> names_set(v).insert(x@).contains(n) by {
        assert(names_set(v.push(x)).contains(n) == lines_view(v.push(x)).contains(n));
        assert(names_set(v).contains(n) == lines_view(v).contains(n));
    }
    assert(names_set(v.push(x)) =~= names_set(v).insert(x@));
}

impl AgentToolUseTracker {
    /// The tools each agent has used.
    pub closed spec fn view(&self) -> Map<Seq<char>, Set<Seq<char>>> {
        Map::new(
            |a: Seq<char>| self.agent_to_tools.view().contains_key(a),
            |a: Seq<char>| self.agent_to_tools.view()[a].view().dom(),
        )
    }

    /// A tracker with no agent.
    pub fn new() -> (res: Self)
        ensures
            res.view() == Map::<Seq<char>, Set<Seq<char>>>::empty(),
    {
        let res = AgentToolUseTracker { agent_to_tools: StrMap::new() };
        assert(res.view() =~= Map::<Seq<char>, Set<Seq<char>>>::empty());
        res
    }

    /// Records that `agent_name` used `tool_names`; the agent is tracked from
    /// then on, even with no tool.
    pub fn add_tool_use(&mut self, agent_name: &str, tool_names: Vec<String>)
        ensures
            final(self).view() == old(self).view().insert(
                agent_name@,
                (if old(self).view().contains_key(agent_name@) {
                    old(self).view()[agent_name@]
                } else {
                    Set::empty()
                }).union(names_set(tool_names@)),
            ),
    {
        let ghost before = self.view();
        let ghost start = if before.contains_key(agent_name@) {
            before[agent_name@]
        } else {
            Set::<Seq<char>>::empty()
        };
        let mut tools = match self.agent_to_tools.remove(agent_name) {
            Some(t) => t,
            None => StrMap::new(),
        };
        assert(tools.view().dom() =~= start);
        let mut i: usize = 0;
        while i < tool_names.len()
            invariant
                i <= tool_names@.len(),
                tools.view().dom() == start.union(names_set(tool_names@.subrange(0, i as int))),
            decreases tool_names@.len() - i,
        {
            tools.insert(tool_names[i].clone(), ());
            proof {
                let pre = tool_names@.subrange(0, i as int);
                let next = tool_names@.subrange(0, i + 1);
                assert(lines_view(next) =~= lines_view(pre).push(tool_names@[i as int]@));
                lemma_names_push(pre, tool_names@[i as int]);
                assert(next =~= pre.push(tool_names@[i as int]));
            }
            assert(tools.view().dom() =~= start.union(names_set(tool_names@.subrange(0, i + 1))));
            i = i + 1;
        }
        assert(tool_names@.subrange(0, tool_names@.len() as int) =~= tool_names@);
        let ghost added = tools.view().dom();
        self.agent_to_tools.insert(String::from_str(agent_name), tools);
        assert(self.view() =~= before.insert(agent_name@, added));
    }

    /// Whether `agent_name` has used some tool.
    pub fn has_used_tools(&self, agent_name: &str) -> (res: bool)
        ensures
            res == (self.view().contains_key(agent_name@) && exists|t: Seq<char>|
                #[trigger] self.view()[agent_name@].contains(t)),
    {
        match self.agent_to_tools.get(agent_name) {
            Some(tools) => {
                let empty = tools.is_empty();
                proof {
                    if empty {
                        assert(tools.view().dom() =~= Set::<Seq<char>>::empty()) by {
                            vstd::set_lib::lemma_set_empty_equivalency_len(tools.view().dom());
                        }
                    } else {
                        let t = tools.view().dom().choose();
                        vstd::set_lib::lemma_set_empty_equivalency_len(tools.view().dom());
                        assert(self.view()[agent_name@].contains(t));
                    }
                }
                !empty
            },
            None => false,
        }
    }

    /// The tools of each agent, agents and tools in increasing order.
    pub fn as_serializable(&self) -> (res: Vec<(String, Vec<String>)>)
        ensures
            forall|i: int|
                0 <= i < res@.len() ==> self.view().contains_key((#[trigger] res@[i]).0@) && names_set(res@[i].1@)
                    == self.view()[res@[i].0@] && (forall|a: int, b: int|
                    0 <= a < b < res@[i].1@.len() ==> seq_lt(res@[i].1@[a]@, res@[i].1@[b]@)),
            forall|a: Seq<char>| #[trigger] self.view().contains_key(a) ==> exists|i: int|
                0 <= i < res@.len() && (#[trigger] res@[i]).0@ == a,
            forall|a: int, b: int| 0 <= a < b < res@.len() ==> seq_lt((#[trigger] res@[a]).0@, (#[trigger] res@[b]).0@),
    {
        let agents = self.agent_to_tools.keys();
        let mut out: Vec<(String, Vec<String>)> = Vec::new();
        let mut i: usize = 0;
        while i < agents.len()
            invariant
                i <= agents@.len(),
                out@.len() == i,
                forall|k: Seq<char>| #[trigger] lines_view(agents@).contains(k) <==> self.agent_to_tools.view().contains_key(k),
                forall|a: int, b: int| 0 <= a < b < agents@.len() ==> seq_lt(#[trigger] agents@[a]@, #[trigger] agents@[b]@),
                forall|j: int| 0 <= j < i ==> (#[trigger] out@[j]).0@ == agents@[j]@,
                forall|j: int|
                    0 <= j < i ==> self.view().contains_key((#[trigger] out@[j]).0@) && names_set(out@[j].1@)
                        == self.view()[out@[j].0@] && (forall|a: int, b: int|
                        0 <= a < b < out@[j].1@.len() ==> seq_lt(out@[j].1@[a]@, out@[j].1@[b]@)),
            decreases agents@.len() - i,
        {
            assert(lines_view(agents@)[i as int] == agents@[i as int]@);
            let name = &agents[i];
            let tools = match self.agent_to_tools.get(name.as_str()) {
                Some(t) => t.keys(),
                None => Vec::new(),
            };
            proof {
                assert(lines_view(agents@).contains(agents@[i as int]@));
                assert(self.agent_to_tools.view().contains_key(agents@[i as int]@));
                assert(names_set(tools@) =~= self.view()[agents@[i as int]@]);
            }
            out.push((name.clone(), tools));
            i = i + 1;
        }
        proof {
            assert forall|a: Seq<char>| #[trigger] self.view().contains_key(a) implies exists|i: int|
                0 <= i < out@.len() && (#[trigger] out@[i]).0@ == a by {
                assert(lines_view(agents@).contains(a));
                let j = choose|j: int| 0 <= j < lines_view(agents@).len() && lines_view(agents@)[j] == a;
                assert(out@[j].0@ == a);
            }
        }
        out
    }

    /// A tracker holding the tools of each agent of a snapshot.
    pub fn from_serializable(snapshot: Vec<(String, Vec<String>)>) -> (res: Self)
        ensures
            res.view() == snapshot_view(snapshot@),
    {
        let mut res = AgentToolUseTracker::new();
        let mut i: usize = 0;
        assert(snapshot_view(snapshot@.subrange(0, 0)) =~= Map::<Seq<char>, Set<Seq<char>>>::empty());
        while i < snapshot.len()
            invariant
                i <= snapshot@.len(),
                res.view() == snapshot_view(snapshot@.subrange(0, i as int)),
            decreases snapshot@.len() - i,
        {
            let mut tools: StrMap<()> = StrMap::new();
            let names = &snapshot[i].1;
            let mut k: usize = 0;
            while k < names.len()
                invariant
                    k <= names@.len(),
                    tools.view().dom() == names_set(names@.subrange(0, k as int)),
                decreases names@.len() - k,
            {
                tools.insert(names[k].clone(), ());
                proof {
                    let pre = names@.subrange(0, k as int);
                    let next = names@.subrange(0, k + 1);
                    assert(lines_view(next) =~= lines_view(pre).push(names@[k as int]@));
                    lemma_names_push(pre, names@[k as int]);
                    assert(next =~= pre.push(names@[k as int]));
                }
                assert(tools.view().dom() =~= names_set(names@.subrange(0, k + 1)));
                k = k + 1;
            }
            assert(names@.subrange(0, names@.len() as int) =~= names@);
            let ghost before = res.view();
            let ghost added = tools.view().dom();
            res.agent_to_tools.insert(snapshot[i].0.clone(), tools);
            proof {
                let next = snapshot@.subrange(0, i + 1);
                assert(next.drop_last() =~= snapshot@.subrange(0, i as int));
                assert(next.last() == snapshot@[i as int]);
            }
            assert(res.view() =~= before.insert(snapshot@[i as int].0@, added));
            i = i + 1;
        }
        assert(snapshot@.subrange(0, snapshot@.len() as int) =~= snapshot@);
        res
    }
}

/// In a snapshot whose agent names are distinct, each listed agent has the
/// tools of its entry and no other agent is listed.
proof fn lemma_snapshot_view_distinct(s: Seq<(String, Vec<String>)>)
    requires
        forall|a: int, b: int| 0 <= a < b < s.len() ==> (#[trigger] s[a]).0@ != (#[trigger] s[b]).0@,
    ensures
        forall|k: Seq<char>| #[trigger] snapshot_view(s).contains_key(k) <==> exists|i: int|
            0 <= i < s.len() && (#[trigger] s[i]).0@ == k,
        forall|i: int| 0 <= i < s.len() ==> snapshot_view(s)[(#[trigger] s[i]).0@] == names_set(s[i].1@),
    decreases s.len(),
{
    if s.len() > 0 {
        let p = s.drop_last();
        assert forall|a: int, b: int| 0 <= a < b < p.len() implies (#[trigger] p[a]).0@ != (#[trigger] p[b]).0@ by {
            assert(p[a] == s[a]);
            assert(p[b] == s[b]);
        }
        lemma_snapshot_view_distinct(p);
        assert forall|k: Seq<char>| #[trigger] snapshot_view(s).contains_key(k) <==> exists|i: int|
            0 <= i < s.len() && (#[trigger] s[i]).0@ == k by {
            if exists|i: int| 0 <= i < p.len() && (#[trigger] p[i]).0@ == k {
                let i = choose|i: int| 0 <= i < p.len() && (#[trigger] p[i]).0@ == k;
                assert(s[i] == p[i]);
            }
            if exists|i: int| 0 <= i < s.len() && (#[trigger] s[i]).0@ == k {
                let i = choose|i: int| 0 <= i < s.len() && (#[trigger] s[i]).0@ == k;
                if i < p.len() {
                    assert(p[i] == s[i]);
                }
            }
            if k == s.last().0@ {
                assert(s[s.len() - 1].0@ == k);
            }
            assert(snapshot_view(s) == snapshot_view(p).insert(s.last().0@, names_set(s.last().1@)));
        }
        assert forall|i: int| 0 <= i < s.len() implies snapshot_view(s)[(#[trigger] s[i]).0@] == names_set(s[i].1@) by {
            if i < p.len() {
                assert(p[i] == s[i]);
                assert(s[i].0@ != s.last().0@);
            }
        }
    }
}

/// Reading back the tools by agent written out by `as_serializable` gives the
/// same tools by agent.
pub proof fn law_tool_use_round_trip(m: Map<Seq<char>, Set<Seq<char>>>, s: Seq<(String, Vec<String>)>)
    requires
        forall|i: int|
            0 <= i < s.len() ==> m.contains_key((#[trigger] s[i]).0@) && names_set(s[i].1@) == m[s[i].0@],
        forall|a: Seq<char>| #[trigger] m.contains_key(a) ==> exists|i: int| 0 <= i < s.len() && (#[trigger] s[i]).0@ == a,
        forall|a: int, b: int| 0 <= a < b < s.len() ==> seq_lt((#[trigger] s[a]).0@, (#[trigger] s[b]).0@),
    ensures
        snapshot_view(s) == m,
{
    assert forall|a: int, b: int| 0 <= a < b < s.len() implies (#[trigger] s[a]).0@ != (#[trigger] s[b]).0@ by {
        crate::ordered::lemma_seq_lt_irreflexive(s[a].0@);
    }
    lemma_snapshot_view_distinct(s);
    assert forall|k: Seq<char>| #[trigger] snapshot_view(s).contains_key(k) implies snapshot_view(s)[k] == m[k] by {
        let i = choose|i: int| 0 <= i < s.len() && (#[trigger] s[i]).0@ == k;
    }
    assert(snapshot_view(s) =~= m);
}

} // verus!
