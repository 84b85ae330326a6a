//! String-keyed lists kept in key order, the way an ordered map iterates.
use vstd::prelude::*;

use crate::text::{chars_of, str_eq};

verus! {

/// Whether `a` sorts strictly before `b` (character by character, a proper prefix first).
pub open spec fn seq_lt(a: Seq<char>, b: Seq<char>) -> bool
    decreases a.len(),
{
    if a.len() == 0 {
        b.len() > 0
    } else if b.len() == 0 {
        false
    } else if a[0] < b[0] {
        true
    } else if a[0] == b[0] {
        seq_lt(a.subrange(1, a.len() as int), b.subrange(1, b.len() as int))
    } else {
        false
    }
}

/// Whether the first `i` characters of `a` and `b` agree.
spec fn agree_upto(a: Seq<char>, b: Seq<char>, i: int) -> bool {
    forall|k: int| 0 <= k < i ==> #[trigger] a[k] == b[k]
}

/// `seq_lt` is decided by the first position where the strings differ.
proof fn lemma_seq_lt_skip(a: Seq<char>, b: Seq<char>, i: int)
    requires
        0 <= i <= a.len(),
        i <= b.len(),
        agree_upto(a, b, i),
    ensures
        seq_lt(a, b) == seq_lt(a.subrange(i, a.len() as int), b.subrange(i, b.len() as int)),
    decreases i,
{
    if i > 0 {
        let a1 = a.subrange(1, a.len() as int);
        let b1 = b.subrange(1, b.len() as int);
        assert(a[0] == b[0]);
        assert forall|k: int| 0 <= k < i - 1 implies #[trigger] a1[k] == b1[k] by {
            assert(a1[k] == a[k + 1]);
            assert(b1[k] == b[k + 1]);
        }
        lemma_seq_lt_skip(a1, b1, i - 1);
        assert(a1.subrange(i - 1, a1.len() as int) =~= a.subrange(i, a.len() as int));
        assert(b1.subrange(i - 1, b1.len() as int) =~= b.subrange(i, b.len() as int));
    } else {
        assert(a.subrange(0, a.len() as int) =~= a);
        assert(b.subrange(0, b.len() as int) =~= b);
    }
}

/// Compares two strings in key order.
pub fn str_lt(a: &str, b: &str) -> (res: bool)
    ensures
        res == seq_lt(a@, b@),
{
    let x = chars_of(a);
    let y = chars_of(b);
    let mut i: usize = 0;
    while i < x.len() && i < y.len() && x[i] == y[i]
        invariant
            i <= x@.len(),
            i <= y@.len(),
            x@ == a@,
            y@ == b@,
            agree_upto(x@, y@, i as int),
        decreases x@.len() - i,
    {
        i = i + 1;
    }
    proof {
        lemma_seq_lt_skip(x@, y@, i as int);
    }
    if i == x.len() {
        i < y.len()
    } else if i == y.len() {
        false
    } else {
        x[i] < y[i]
    }
}

/// `s` with `(k, v)` in key order: replacing the value of an equal key, or placed
/// before the first larger key.
pub open spec fn sorted_insert<V>(s: Seq<(String, V)>, k: String, v: V) -> Seq<(String, V)>
    decreases s.len(),
{
    if s.len() == 0 {
        seq![(k, v)]
    } else if s[0].0@ == k@ {
        seq![(k, v)] + s.subrange(1, s.len() as int)
    } else if seq_lt(k@, s[0].0@) {
        seq![(k, v)] + s
    } else {
        seq![s[0]] + sorted_insert(s.subrange(1, s.len() as int), k, v)
    }
}

/// Inserts `(k, v)` in key order, replacing the value of an equal key.
pub fn insert_sorted<V>(entries: &mut Vec<(String, V)>, k: String, v: V)
    ensures
        final(entries)@ == sorted_insert(old(entries)@, k, v),
{
    let ghost s = entries@;
    assert(s.subrange(0, s.len() as int) =~= s);
    assert(s.subrange(0, 0) + s =~= s);
    let mut i: usize = 0;
    while i < entries.len() && str_lt(entries[i].0.as_str(), k.as_str())
        invariant
            i <= s.len(),
            entries@ == s,
            sorted_insert(s, k, v) == s.subrange(0, i as int) + sorted_insert(
                s.subrange(i as int, s.len() as int),
                k,
                v,
            ),
            forall|j: int| 0 <= j < i ==> seq_lt(#[trigger] s[j].0@, k@),
        decreases s.len() - i,
    {
        proof {
            let t = s.subrange(i as int, s.len() as int);
            assert(t[0] == s[i as int]);
            assert(s[i as int].0@ != k@) by {
                lemma_seq_lt_irreflexive(k@);
            }
            assert(!seq_lt(k@, s[i as int].0@)) by {
                lemma_seq_lt_asymmetric(s[i as int].0@, k@);
            }
            assert(t.subrange(1, t.len() as int) =~= s.subrange(i + 1, s.len() as int));
            assert(s.subrange(0, i + 1) =~= s.subrange(0, i as int) + seq![s[i as int]]);
        }
        i = i + 1;
    }
    if i == entries.len() {
        entries.push((k, v));
        assert(entries@ =~= s.subrange(0, i as int) + seq![(k, v)]);
    } else if str_eq(entries[i].0.as_str(), k.as_str()) {
        let ghost t = s.subrange(i as int, s.len() as int);
        assert(t[0] == s[i as int]);
        entries.remove(i);
        entries.insert(i, (k, v));
        assert(entries@ =~= s.subrange(0, i as int) + (seq![(k, v)] + t.subrange(
            1,
            t.len() as int,
        )));
    } else {
        let ghost t = s.subrange(i as int, s.len() as int);
        assert(t[0] == s[i as int]);
        proof {
            lemma_seq_lt_total(k@, s[i as int].0@);
        }
        entries.insert(i, (k, v));
        assert(entries@ =~= s.subrange(0, i as int) + (seq![(k, v)] + t));
    }
}

/// No string sorts before itself.
pub proof fn lemma_seq_lt_irreflexive(a: Seq<char>)
    ensures
        !seq_lt(a, a),
    decreases a.len(),
{
    if a.len() > 0 {
        lemma_seq_lt_irreflexive(a.subrange(1, a.len() as int));
    }
}

/// Two strings do not sort before each other.
pub proof fn lemma_seq_lt_asymmetric(a: Seq<char>, b: Seq<char>)
    ensures
        !(seq_lt(a, b) && seq_lt(b, a)),
    decreases a.len(),
{
    if a.len() > 0 && b.len() > 0 && a[0] == b[0] {
        lemma_seq_lt_asymmetric(a.subrange(1, a.len() as int), b.subrange(1, b.len() as int));
    }
}

/// Of two different strings, one sorts before the other.
pub proof fn lemma_seq_lt_total(a: Seq<char>, b: Seq<char>)
    ensures
        a == b || seq_lt(a, b) || seq_lt(b, a),
    decreases a.len(),
{
    if a.len() > 0 && b.len() > 0 && a[0] == b[0] {
        let a1 = a.subrange(1, a.len() as int);
        let b1 = b.subrange(1, b.len() as int);
        lemma_seq_lt_total(a1, b1);
        if a1 == b1 {
            assert(a =~= seq![a[0]] + a1);
            assert(b =~= seq![b[0]] + b1);
        }
    } else if a.len() == 0 && b.len() == 0 {
        assert(a =~= b);
    }
}

/// Key order is transitive.
pub proof fn lemma_seq_lt_transitive(a: Seq<char>, b: Seq<char>, c: Seq<char>)
    requires
        seq_lt(a, b),
        seq_lt(b, c),
    ensures
        seq_lt(a, c),
    decreases a.len(),
{
    if a.len() > 0 && b.len() > 0 && c.len() > 0 && a[0] == b[0] && b[0] == c[0] {
        lemma_seq_lt_transitive(
            a.subrange(1, a.len() as int),
            b.subrange(1, b.len() as int),
            c.subrange(1, c.len() as int),
        );
    }
}

/// Whether the keys of `s` are strictly increasing.
pub open spec fn keys_sorted<V>(s: Seq<(String, V)>) -> bool {
    forall|i: int, j: int| 0 <= i < j < s.len() ==> seq_lt(#[trigger] s[i].0@, #[trigger] s[j].0@)
}

/// The value of the first entry whose key is `k`.
pub open spec fn entry_get<V>(s: Seq<(String, V)>, k: Seq<char>) -> Option<V>
    decreases s.len(),
{
    if s.len() == 0 {
        None
    } else if s[0].0@ == k {
        Some(s[0].1)
    } else {
        entry_get(s.subrange(1, s.len() as int), k)
    }
}

/// Inserting in key order keeps the keys in order, gives the key its new value
/// and leaves every other key as it was.
pub proof fn lemma_sorted_insert<V>(s: Seq<(String, V)>, k: String, v: V)
    requires
        keys_sorted(s),
    ensures
        keys_sorted(sorted_insert(s, k, v)),
        entry_get(sorted_insert(s, k, v), k@) == Some(v),
        forall|k2: Seq<char>| k2 != k@ ==> entry_get(sorted_insert(s, k, v), k2) == entry_get(s, k2),
        forall|i: int|
            0 <= i < sorted_insert(s, k, v).len() ==> (#[trigger] sorted_insert(s, k, v)[i]).0@
                == k@ || exists|j: int| 0 <= j < s.len() && s[j].0@ == sorted_insert(s, k, v)[i].0@,
    decreases s.len(),
{
    let r = sorted_insert(s, k, v);
    if s.len() == 0 {
        assert forall|k2: Seq<char>| k2 != k@ implies entry_get(r, k2) == entry_get(s, k2) by {
            assert(r[0] == (k, v));
            assert(entry_get(r.subrange(1, r.len() as int), k2).is_none());
        }
    } else {
        let t = s.subrange(1, s.len() as int);
        assert(keys_sorted(t)) by {
            assert forall|i: int, j: int| 0 <= i < j < t.len() implies seq_lt(
                #[trigger] t[i].0@,
                #[trigger] t[j].0@,
            ) by {
                assert(t[i] == s[i + 1]);
                assert(t[j] == s[j + 1]);
            }
        }
        if s[0].0@ == k@ {
            assert(r =~= seq![(k, v)] + t);
            assert forall|i: int, j: int| 0 <= i < j < r.len() implies seq_lt(
                #[trigger] r[i].0@,
                #[trigger] r[j].0@,
            ) by {
                assert(r[j] == s[j]);
                if i > 0 {
                    assert(r[i] == s[i]);
                }
            }
            assert(entry_get(r, k@) == Some(v));
            assert forall|k2: Seq<char>| k2 != k@ implies entry_get(r, k2) == entry_get(s, k2) by {
                assert(r.subrange(1, r.len() as int) =~= t);
            }
            assert forall|i: int| 0 <= i < r.len() implies (#[trigger] r[i]).0@ == k@ || exists|
                j: int,
            | 0 <= j < s.len() && s[j].0@ == r[i].0@ by {
                if i > 0 {
                    assert(r[i] == s[i]);
                }
            }
        } else if seq_lt(k@, s[0].0@) {
            assert(r =~= seq![(k, v)] + s);
            assert forall|i: int, j: int| 0 <= i < j < r.len() implies seq_lt(
                #[trigger] r[i].0@,
                #[trigger] r[j].0@,
            ) by {
                assert(r[j] == s[j - 1]);
                if i > 0 {
                    assert(r[i] == s[i - 1]);
                } else if j > 1 {
                    lemma_seq_lt_transitive(k@, s[0].0@, s[j - 1].0@);
                }
            }
            assert(r.subrange(1, r.len() as int) =~= s);
            assert forall|i: int| 0 <= i < r.len() implies (#[trigger] r[i]).0@ == k@ || exists|
                j: int,
            | 0 <= j < s.len() && s[j].0@ == r[i].0@ by {
                if i > 0 {
                    assert(r[i] == s[i - 1]);
                }
            }
        } else {
            lemma_sorted_insert(t, k, v);
            let rt = sorted_insert(t, k, v);
            assert(r =~= seq![s[0]] + rt);
            lemma_seq_lt_total(k@, s[0].0@);
            assert forall|i: int, j: int| 0 <= i < j < r.len() implies seq_lt(
                #[trigger] r[i].0@,
                #[trigger] r[j].0@,
            ) by {
                if i == 0 {
                    assert(r[j] == rt[j - 1]);
                    if rt[j - 1].0@ == k@ {
                    } else {
                        let m = choose|m: int| 0 <= m < t.len() && t[m].0@ == rt[j - 1].0@;
                        assert(t[m] == s[m + 1]);
                    }
                } else {
                    assert(r[i] == rt[i - 1]);
                    assert(r[j] == rt[j - 1]);
                }
            }
            assert(r.subrange(1, r.len() as int) =~= rt);
            assert forall|k2: Seq<char>| k2 != k@ implies entry_get(r, k2) == entry_get(s, k2) by {
                assert(r[0] == s[0]);
                assert(entry_get(rt, k2) == entry_get(t, k2));
                assert(r.subrange(1, r.len() as int) =~= rt);
                if s[0].0@ != k2 {
                    assert(entry_get(r, k2) == entry_get(r.subrange(1, r.len() as int), k2));
                    assert(entry_get(s, k2) == entry_get(t, k2));
                }
            }
            assert forall|i: int| 0 <= i < r.len() implies (#[trigger] r[i]).0@ == k@ || exists|
                j: int,
            | 0 <= j < s.len() && s[j].0@ == r[i].0@ by {
                if i > 0 {
                    assert(r[i] == rt[i - 1]);
                    if rt[i - 1].0@ != k@ {
                        let m = choose|m: int| 0 <= m < t.len() && t[m].0@ == rt[i - 1].0@;
                        assert(t[m] == s[m + 1]);
                    }
                }
            }
        }
    }
}

/// Whatever order the keys are in, the inserted key reads back its value and
/// every other key reads back what it read before.
pub proof fn lemma_sorted_insert_reads_back<V>(s: Seq<(String, V)>, k: String, v: V)
    ensures
        entry_get(sorted_insert(s, k, v), k@) == Some(v),
        forall|k2: Seq<char>| k2 != k@ ==> entry_get(sorted_insert(s, k, v), k2) == entry_get(s, k2),
    decreases s.len(),
{
    let r = sorted_insert(s, k, v);
    if s.len() == 0 {
        assert(r[0] == (k, v));
        assert forall|k2: Seq<char>| k2 != k@ implies entry_get(r, k2) == entry_get(s, k2) by {
            assert(entry_get(r.subrange(1, r.len() as int), k2).is_none());
        }
    } else {
        let t = s.subrange(1, s.len() as int);
        if s[0].0@ == k@ {
            assert(r[0] == (k, v));
            assert(r.subrange(1, r.len() as int) =~= t);
            assert forall|k2: Seq<char>| k2 != k@ implies entry_get(r, k2) == entry_get(s, k2) by {
                assert(entry_get(r, k2) == entry_get(t, k2));
            }
        } else if seq_lt(k@, s[0].0@) {
            assert(r[0] == (k, v));
            assert(r.subrange(1, r.len() as int) =~= s);
            assert forall|k2: Seq<char>| k2 != k@ implies entry_get(r, k2) == entry_get(s, k2) by {
                assert(entry_get(r, k2) == entry_get(r.subrange(1, r.len() as int), k2));
            }
        } else {
            lemma_sorted_insert_reads_back(t, k, v);
            let rt = sorted_insert(t, k, v);
            assert(r[0] == s[0]);
            assert(r.subrange(1, r.len() as int) =~= rt);
            assert forall|k2: Seq<char>| k2 != k@ implies entry_get(r, k2) == entry_get(s, k2) by {
                if s[0].0@ != k2 {
                    assert(entry_get(r, k2) == entry_get(rt, k2));
                    assert(entry_get(s, k2) == entry_get(t, k2));
                }
            }
        }
    }
}

/// Finds the entry whose key is `k`.
pub fn find_key<V>(entries: &Vec<(String, V)>, k: &str) -> (res: Option<usize>)
    ensures
        match res {
            Some(i) => i < entries@.len() && entries@[i as int].0@ == k@ && entry_get(entries@, k@)
                == Some(entries@[i as int].1),
            None => entry_get(entries@, k@).is_none(),
        },
{
    let ghost s = entries@;
    assert(s.subrange(0, s.len() as int) =~= s);
    let mut i: usize = 0;
    while i < entries.len()
        invariant
            i <= s.len(),
            entries@ == s,
            entry_get(s, k@) == entry_get(s.subrange(i as int, s.len() as int), k@),
        decreases s.len() - i,
    {
        let ghost t = s.subrange(i as int, s.len() as int);
        assert(t[0] == s[i as int]);
        if str_eq(entries[i].0.as_str(), k) {
            return Some(i);
        }
        assert(t.subrange(1, t.len() as int) =~= s.subrange(i + 1, s.len() as int));
        i = i + 1;
    }
    None
}

/// Appending an entry leaves the keys already present as they were and adds
/// the new key when it was absent.
pub proof fn lemma_entry_get_push<V>(s: Seq<(String, V)>, x: (String, V), k: Seq<char>)
    ensures
        entry_get(s.push(x), k) == match entry_get(s, k) {
            Some(v) => Some(v),
            None => if x.0@ == k {
                Some(x.1)
            } else {
                None
            },
        },
    decreases s.len(),
{
    let t = s.push(x);
    if s.len() == 0 {
        assert(t[0] == x);
        let e = t.subrange(1, t.len() as int);
        assert(e =~= Seq::<(String, V)>::empty());
        assert(entry_get(e, k).is_none());
        assert(entry_get(s, k).is_none());
    } else {
        assert(t[0] == s[0]);
        assert(t.subrange(1, t.len() as int) =~= s.subrange(1, s.len() as int).push(x));
        lemma_entry_get_push(s.subrange(1, s.len() as int), x, k);
    }
}

/// No entry before position `i` has the key of entry `i`.
pub proof fn lemma_entry_get_absent<V>(s: Seq<(String, V)>, i: int)
    requires
        keys_sorted(s),
        0 <= i < s.len(),
    ensures
        entry_get(s.subrange(0, i), s[i].0@).is_none(),
    decreases i,
{
    if i > 0 {
        let p = s.subrange(0, i);
        assert(p =~= s.subrange(0, i - 1).push(s[i - 1]));
        lemma_entry_get_absent_upto(s, i, i - 1);
        lemma_entry_get_push(s.subrange(0, i - 1), s[i - 1], s[i].0@);
        crate::ordered::lemma_seq_lt_irreflexive(s[i].0@);
    } else {
        assert(s.subrange(0, 0).len() == 0);
    }
}

/// No entry before position `j` has the key of entry `i`, for `j < i`.
pub proof fn lemma_entry_get_absent_upto<V>(s: Seq<(String, V)>, i: int, j: int)
    requires
        keys_sorted(s),
        0 <= j < i < s.len(),
    ensures
        entry_get(s.subrange(0, j), s[i].0@).is_none(),
    decreases j,
{
    if j > 0 {
        lemma_entry_get_absent_upto(s, i, j - 1);
        assert(s.subrange(0, j) =~= s.subrange(0, j - 1).push(s[j - 1]));
        lemma_entry_get_push(s.subrange(0, j - 1), s[j - 1], s[i].0@);
        crate::ordered::lemma_seq_lt_irreflexive(s[i].0@);
    } else {
        assert(s.subrange(0, 0).len() == 0);
    }
}

/// The value at position `i` of a list with sorted keys is the value of its key.
pub proof fn lemma_entry_get_at<V>(s: Seq<(String, V)>, i: int)
    requires
        keys_sorted(s),
        0 <= i < s.len(),
    ensures
        entry_get(s, s[i].0@) == Some(s[i].1),
    decreases i,
{
    if i > 0 {
        let t = s.subrange(1, s.len() as int);
        assert(keys_sorted(t)) by {
            assert forall|a: int, b: int| 0 <= a < b < t.len() implies crate::ordered::seq_lt(
                #[trigger] t[a].0@,
                #[trigger] t[b].0@,
            ) by {
                assert(t[a] == s[a + 1]);
                assert(t[b] == s[b + 1]);
            }
        }
        assert(t[i - 1] == s[i]);
        lemma_entry_get_at(t, i - 1);
        assert(crate::ordered::seq_lt(s[0].0@, s[i].0@));
        crate::ordered::lemma_seq_lt_irreflexive(s[i].0@);
    }
}

/// A key that no entry has reads as absent.
pub proof fn lemma_entry_get_none<V>(s: Seq<(String, V)>, k: Seq<char>)
    requires
        forall|j: int| 0 <= j < s.len() ==> (#[trigger] s[j]).0@ != k,
    ensures
        entry_get(s, k).is_none(),
    decreases s.len(),
{
    if s.len() > 0 {
        let t = s.subrange(1, s.len() as int);
        assert forall|j: int| 0 <= j < t.len() implies (#[trigger] t[j]).0@ != k by {
            assert(t[j] == s[j + 1]);
        }
        lemma_entry_get_none(t, k);
    }
}

/// The map a list of entries stands for: each key to the value of its first entry.
pub open spec fn entries_map<V>(s: Seq<(String, V)>) -> Map<Seq<char>, V> {
    Map::new(|k: Seq<char>| entry_get(s, k).is_some(), |k: Seq<char>| entry_get(s, k).unwrap())
}

/// Removing an entry from a list with sorted keys keeps the keys sorted and
/// removes its key from the map.
pub proof fn lemma_remove_entry<V>(s: Seq<(String, V)>, i: int)
    requires
        keys_sorted(s),
        0 <= i < s.len(),
    ensures
        keys_sorted(s.remove(i)),
        entries_map(s.remove(i)) == entries_map(s).remove(s[i].0@),
{
    let r = s.remove(i);
    let k = s[i].0@;
    assert forall|a: int, b: int| 0 <= a < b < r.len() implies seq_lt(#[trigger] r[a].0@, #[trigger] r[b].0@) by {
        let sa = if a < i {
            a
        } else {
            a + 1
        };
        let sb = if b < i {
            b
        } else {
            b + 1
        };
        assert(r[a] == s[sa]);
        assert(r[b] == s[sb]);
    }
    assert forall|k2: Seq<char>| #[trigger] entry_get(r, k2) == (if k2 == k {
        None
    } else {
        entry_get(s, k2)
    }) by {
        if exists|j: int| 0 <= j < r.len() && (#[trigger] r[j]).0@ == k2 {
            let j = choose|j: int| 0 <= j < r.len() && (#[trigger] r[j]).0@ == k2;
            let sj = if j < i {
                j
            } else {
                j + 1
            };
            assert(r[j] == s[sj]);
            lemma_entry_get_at(r, j);
            lemma_entry_get_at(s, sj);
            if k2 == k {
                if sj < i {
                    assert(seq_lt(s[sj].0@, s[i].0@));
                } else {
                    assert(seq_lt(s[i].0@, s[sj].0@));
                }
                lemma_seq_lt_irreflexive(k);
            }
        } else {
            lemma_entry_get_none(r, k2);
            if k2 != k {
                assert forall|j: int| 0 <= j < s.len() implies (#[trigger] s[j]).0@ != k2 by {
                    if j < i {
                        assert(r[j] == s[j]);
                    } else if j > i {
                        assert(r[j - 1] == s[j]);
                    }
                }
                lemma_entry_get_none(s, k2);
            }
        }
    }
    assert(entries_map(r) =~= entries_map(s).remove(k));
}

/// A list with sorted keys has one key per entry.
pub proof fn lemma_entries_map_len<V>(s: Seq<(String, V)>)
    requires
        keys_sorted(s),
    ensures
        entries_map(s).dom().len() == s.len(),
        entries_map(s).dom().finite(),
    decreases s.len(),
{
    if s.len() == 0 {
        assert(entries_map(s).dom() =~= Set::<Seq<char>>::empty());
    } else {
        let p = s.drop_last();
        let x = s.last();
        assert(keys_sorted(p)) by {
            assert forall|a: int, b: int| 0 <= a < b < p.len() implies seq_lt(
                #[trigger] p[a].0@,
                #[trigger] p[b].0@,
            ) by {
                assert(p[a] == s[a]);
                assert(p[b] == s[b]);
            }
        }
        lemma_entries_map_len(p);
        assert(s =~= p.push(x));
        assert(p =~= s.subrange(0, s.len() - 1));
        lemma_entry_get_absent(s, s.len() - 1);
        assert forall|k: Seq<char>| #[trigger] entries_map(s).dom().contains(k) <==> entries_map(
            p,
        ).dom().insert(x.0@).contains(k) by {
            lemma_entry_get_push(p, x, k);
        }
        assert(entries_map(s).dom() =~= entries_map(p).dom().insert(x.0@));
        assert(!entries_map(p).dom().contains(x.0@));
    }
}

/// A map from strings that iterates in key order.
pub struct StrMap<V> {
    entries: Vec<(String, V)>,
}

impl<V> StrMap<V> {
    /// Entries are kept with strictly increasing keys.
    #[verifier::type_invariant]
    spec fn keys_in_order(self) -> bool {
        keys_sorted(self.entries@)
    }

    /// The map this stands for.
    pub closed spec fn view(&self) -> Map<Seq<char>, V> {
        entries_map(self.entries@)
    }

    /// The empty map.
    pub fn new() -> (res: Self)
        ensures
            res.view() == Map::<Seq<char>, V>::empty(),
    {
        let res = StrMap { entries: Vec::new() };
        assert(res.view() =~= Map::<Seq<char>, V>::empty());
        res
    }

    /// Sets the value of `key`.
    pub fn insert(&mut self, key: String, value: V)
        ensures
            final(self).view() == old(self).view().insert(key@, value),
    {
        proof {
            use_type_invariant(&*self);
        }
        let ghost s = self.entries@;
        let ghost k = key@;
        let ghost v = value;
        proof {
            lemma_sorted_insert(s, key, value);
            lemma_sorted_insert_reads_back(s, key, value);
        }
        let mut entries: Vec<(String, V)> = Vec::new();
        std::mem::swap(&mut entries, &mut self.entries);
        insert_sorted(&mut entries, key, value);
        self.entries = entries;
        assert(self.view() =~= entries_map(s).insert(k, v));
    }

    /// The value of `key`, if it has one.
    pub fn get(&self, key: &str) -> (res: Option<&V>)
        ensures
            match res {
                Some(v) => self.view().contains_key(key@) && self.view()[key@] == *v,
                None => !self.view().contains_key(key@),
            },
    {
        match find_key(&self.entries, key) {
            Some(i) => Some(&self.entries[i].1),
            None => None,
        }
    }

    /// Whether `key` has a value.
    pub fn contains_key(&self, key: &str) -> (res: bool)
        ensures
            res == self.view().contains_key(key@),
    {
        find_key(&self.entries, key).is_some()
    }

    /// The number of keys.
    pub fn len(&self) -> (res: usize)
        ensures
            res == self.view().dom().len(),
            self.view().dom().finite(),
    {
        proof {
            use_type_invariant(self);
            lemma_entries_map_len(self.entries@);
        }
        self.entries.len()
    }

    /// Whether the map has no key.
    pub fn is_empty(&self) -> (res: bool)
        ensures
            res == (self.view().dom().len() == 0),
            self.view().dom().finite(),
    {
        self.len() == 0
    }

    /// The keys, in increasing order.
    pub fn keys(&self) -> (res: Vec<String>)
        ensures
            forall|k: Seq<char>| #[trigger] crate::text::lines_view(res@).contains(k) <==> self.view().contains_key(k),
            forall|a: int, b: int| 0 <= a < b < res@.len() ==> seq_lt(#[trigger] res@[a]@, #[trigger] res@[b]@),
            res@.len() == self.view().dom().len(),
    {
        proof {
            use_type_invariant(self);
            lemma_entries_map_len(self.entries@);
        }
        let ghost s = self.entries@;
        let mut out: Vec<String> = Vec::new();
        let mut i: usize = 0;
        while i < self.entries.len()
            invariant
                i <= s.len(),
                s == self.entries@,
                keys_sorted(s),
                out@.len() == i,
                forall|j: int| 0 <= j < i ==> (#[trigger] out@[j])@ == s[j].0@,
            decreases s.len() - i,
        {
            out.push(self.entries[i].0.clone());
            i = i + 1;
        }
        proof {
            let kv = crate::text::lines_view(out@);
            assert forall|k: Seq<char>| #[trigger] kv.contains(k) <==> entries_map(s).contains_key(k) by {
                if kv.contains(k) {
                    let j = choose|j: int| 0 <= j < kv.len() && kv[j] == k;
                    assert(out@[j]@ == s[j].0@);
                    lemma_entry_get_at(s, j);
                }
                if entries_map(s).contains_key(k) {
                    if forall|j: int| 0 <= j < s.len() ==> (#[trigger] s[j]).0@ != k {
                        lemma_entry_get_none(s, k);
                    }
                    let j = choose|j: int| 0 <= j < s.len() && (#[trigger] s[j]).0@ == k;
                    assert(kv[j] == k);
                }
            }
        }
        out
    }

    /// Removes `key` and gives back its value, if it had one.
    pub fn remove(&mut self, key: &str) -> (res: Option<V>)
        ensures
            final(self).view() == old(self).view().remove(key@),
            match res {
                Some(v) => old(self).view().contains_key(key@) && old(self).view()[key@] == v,
                None => !old(self).view().contains_key(key@),
            },
    {
        proof {
            use_type_invariant(&*self);
        }
        match find_key(&self.entries, key) {
            Some(i) => {
                let ghost s = self.entries@;
                proof {
                    lemma_remove_entry(s, i as int);
                }
                let mut entries: Vec<(String, V)> = Vec::new();
                std::mem::swap(&mut entries, &mut self.entries);
                let (_, v) = entries.remove(i);
                self.entries = entries;
                Some(v)
            },
            None => {
                assert(entries_map(self.entries@).remove(key@) =~= entries_map(self.entries@));
                None
            },
        }
    }
}

} // verus!
