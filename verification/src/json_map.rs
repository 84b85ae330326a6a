//! String-keyed maps of JSON values, kept in key order.
use vstd::prelude::*;

use crate::json::{json_clone, json_view, Json, JsonValue};
use crate::ordered::{
    entry_get, find_key, insert_sorted, keys_sorted, lemma_entry_get_absent, lemma_entry_get_at,
    lemma_entry_get_push, lemma_sorted_insert, lemma_sorted_insert_reads_back, sorted_insert,
};
use crate::text::copy_string;

verus! {

/// The map a list of entries stands for: each key to the value of its first entry.
pub open spec fn entries_json_map(s: Seq<(String, JsonValue)>) -> Map<Seq<char>, Json> {
    Map::new(
        |k: Seq<char>| entry_get(s, k).is_some(),
        |k: Seq<char>| json_view(entry_get(s, k).unwrap()),
    )
}

/// A map from strings to JSON values that iterates in key order.
pub struct JsonMap {
    entries: Vec<(String, JsonValue)>,
}

impl JsonMap {
    /// Entries are kept with strictly increasing keys.
    #[verifier::type_invariant]
    spec fn keys_in_order(self) -> bool {
        keys_sorted(self.entries@)
    }

    /// The map this stands for.
    pub closed spec fn view(&self) -> Map<Seq<char>, Json> {
        entries_json_map(self.entries@)
    }

    /// The empty map.
    pub fn new() -> (res: JsonMap)
        ensures
            res.view() == Map::<Seq<char>, Json>::empty(),
    {
        let res = JsonMap { entries: Vec::new() };
        assert(res.view() =~= Map::<Seq<char>, Json>::empty());
        res
    }

    /// Sets the value of `key`.
    pub fn insert(&mut self, key: String, value: JsonValue)
        ensures
            final(self).view() == old(self).view().insert(key@, json_view(value)),
    {
        proof {
            use_type_invariant(&*self);
        }
        let ghost s = self.entries@;
        let mut entries: Vec<(String, JsonValue)> = Vec::new();
        std::mem::swap(&mut entries, &mut self.entries);
        proof {
            lemma_sorted_insert(s, key, value);
            lemma_sorted_insert_reads_back(s, key, value);
        }
        let ghost k = key@;
        let ghost jv = json_view(value);
        insert_sorted(&mut entries, key, value);
        self.entries = entries;
        assert(self.view() =~= entries_json_map(s).insert(k, jv));
    }

    /// The value of `key`, if it has one.
    pub fn get(&self, key: &str) -> (res: Option<&JsonValue>)
        ensures
            match res {
                Some(v) => self.view().contains_key(key@) && self.view()[key@] == json_view(*v),
                None => !self.view().contains_key(key@),
            },
    {
        match find_key(&self.entries, key) {
            Some(i) => Some(&self.entries[i].1),
            None => None,
        }
    }

    /// Whether the map is empty.
    pub fn is_empty(&self) -> (res: bool)
        ensures
            res == (self.view() == Map::<Seq<char>, Json>::empty()),
    {
        if self.entries.len() == 0 {
            assert(self.view() =~= Map::<Seq<char>, Json>::empty());
            true
        } else {
            assert(self.view().contains_key(self.entries@[0].0@));
            false
        }
    }

    /// The number of keys.
    pub fn len(&self) -> (res: usize)
        ensures
            res == self.view().dom().len(),
    {
        proof {
            use_type_invariant(self);
            lemma_map_len(self.entries@);
        }
        self.entries.len()
    }

    /// The key and value at position `i` in key order.
    pub fn entry(&self, i: usize) -> (res: (&String, &JsonValue))
        requires
            i < self.view().dom().len(),
        ensures
            self.view().contains_key(res.0@),
            self.view()[res.0@] == json_view(*res.1),
    {
        proof {
            use_type_invariant(self);
            lemma_map_len(self.entries@);
            lemma_entry_get_at(self.entries@, i as int);
        }
        (&self.entries[i].0, &self.entries[i].1)
    }

    /// Copies the map.
    pub fn copy(&self) -> (res: JsonMap)
        ensures
            res.view() == self.view(),
    {
        let mut res = JsonMap::new();
        res.extend(self);
        assert(res.view() =~= self.view());
        res
    }

    /// Sets every key of `other` to its value there, as `BTreeMap::extend` does.
    pub fn extend(&mut self, other: &JsonMap)
        ensures
            final(self).view() == old(self).view().union_prefer_right(other.view()),
    {
        proof {
            use_type_invariant(other);
        }
        let ghost s = other.entries@;
        let ghost start = self.view();
        assert(entries_json_map(s.subrange(0, 0)) =~= Map::<Seq<char>, Json>::empty());
        assert(start.union_prefer_right(Map::<Seq<char>, Json>::empty()) =~= start);
        let mut i: usize = 0;
        while i < other.entries.len()
            invariant
                i <= s.len(),
                s == other.entries@,
                keys_sorted(s),
                self.view() == start.union_prefer_right(entries_json_map(s.subrange(0, i as int))),
            decreases s.len() - i,
        {
            let key = copy_string(&other.entries[i].0);
            let value = json_clone(&other.entries[i].1);
            proof {
                let p = s.subrange(0, i as int);
                assert(s.subrange(0, i + 1) =~= p.push(s[i as int]));
                lemma_entry_get_absent(s, i as int);
                assert forall|k: Seq<char>| #[trigger] entry_get(p.push(s[i as int]), k) == match entry_get(
                    p,
                    k,
                ) {
                    Some(v) => Some(v),
                    None => if s[i as int].0@ == k {
                        Some(s[i as int].1)
                    } else {
                        None
                    },
                } by {
                    lemma_entry_get_push(p, s[i as int], k);
                }
                assert(entries_json_map(s.subrange(0, i + 1)) =~= entries_json_map(p).insert(
                    s[i as int].0@,
                    json_view(s[i as int].1),
                ));
            }
            self.insert(key, value);
            proof {
                let p = s.subrange(0, i as int);
                assert(self.view() =~= start.union_prefer_right(entries_json_map(s.subrange(0, i + 1))));
            }
            i = i + 1;
        }
        assert(s.subrange(0, s.len() as int) =~= s);
    }
}


/// A list with sorted keys has one key per entry.
proof fn lemma_map_len(s: Seq<(String, JsonValue)>)
    requires
        keys_sorted(s),
    ensures
        entries_json_map(s).dom().len() == s.len(),
        entries_json_map(s).dom().finite(),
{
    crate::ordered::lemma_entries_map_len(s);
    assert(entries_json_map(s).dom() =~= crate::ordered::entries_map(s).dom());
}

} // verus!
