//! The `sandbox-exec` profile that confines shell commands on macOS: the
//! order paths are sorted in (component by component, as `Path` orders them),
//! the extra read paths sorted with repeats dropped, and the profile's rules.
use vstd::prelude::*;

use crate::shell::{path_components, path_components_exec, replace_char, sandbox_profile_literal};
use crate::text::{chars_eq, concat3, copy_string, join_lines, join_strings, lines_view, opt_view};

verus! {

/// Lexicographic order of sequences under the strict order `lt` of their
/// elements; a proper prefix comes first.
pub open spec fn lex_less<A>(a: Seq<A>, b: Seq<A>, lt: spec_fn(A, A) -> bool) -> bool
    decreases a.len(),
{
    if a.len() == 0 {
        b.len() > 0
    } else if b.len() == 0 {
        false
    } else if a[0] != b[0] {
        lt(a[0], b[0])
    } else {
        lex_less(a.drop_first(), b.drop_first(), lt)
    }
}

/// Whether `lt` is a strict total order.
pub open spec fn strict_total<A>(lt: spec_fn(A, A) -> bool) -> bool {
    &&& forall|x: A| !#[trigger] lt(x, x)
    &&& forall|x: A, y: A| #![trigger lt(x, y)] x != y ==> lt(x, y) || lt(y, x)
    &&& forall|x: A, y: A, z: A| #[trigger] lt(x, y) && #[trigger] lt(y, z) ==> lt(x, z)
}

/// A sequence never comes before itself.
pub proof fn lemma_lex_irreflexive<A>(a: Seq<A>, lt: spec_fn(A, A) -> bool)
    ensures
        !lex_less(a, a, lt),
    decreases a.len(),
{
    if a.len() > 0 {
        lemma_lex_irreflexive(a.drop_first(), lt);
    }
}

/// Of two different sequences one comes first.
pub proof fn lemma_lex_total<A>(a: Seq<A>, b: Seq<A>, lt: spec_fn(A, A) -> bool)
    requires
        strict_total(lt),
        a != b,
    ensures
        lex_less(a, b, lt) || lex_less(b, a, lt),
    decreases a.len(),
{
    if a.len() > 0 && b.len() > 0 && a[0] == b[0] {
        if a.drop_first() == b.drop_first() {
            assert(a =~= seq![a[0]] + a.drop_first());
            assert(b =~= seq![b[0]] + b.drop_first());
        }
        lemma_lex_total(a.drop_first(), b.drop_first(), lt);
    } else if a.len() > 0 && b.len() > 0 {
        assert(lt(a[0], b[0]) || lt(b[0], a[0]));
    } else if a.len() == 0 && b.len() == 0 {
        assert(a =~= b);
    }
}

/// The order of sequences is transitive.
pub proof fn lemma_lex_transitive<A>(a: Seq<A>, b: Seq<A>, c: Seq<A>, lt: spec_fn(A, A) -> bool)
    requires
        strict_total(lt),
        lex_less(a, b, lt),
        lex_less(b, c, lt),
    ensures
        lex_less(a, c, lt),
    decreases a.len(),
{
    if a.len() > 0 {
        if a[0] == b[0] && b[0] == c[0] {
            lemma_lex_transitive(a.drop_first(), b.drop_first(), c.drop_first(), lt);
        } else if a[0] != b[0] && b[0] != c[0] {
            assert(lt(a[0], c[0]));
        }
    }
}

/// The order of sequences under a strict total order is one too.
pub proof fn lemma_lex_strict_total<A>(lt: spec_fn(A, A) -> bool)
    requires
        strict_total(lt),
    ensures
        strict_total(|a: Seq<A>, b: Seq<A>| lex_less(a, b, lt)),
{
    let l = |a: Seq<A>, b: Seq<A>| lex_less(a, b, lt);
    assert forall|x: Seq<A>| !#[trigger] l(x, x) by {
        lemma_lex_irreflexive(x, lt);
    }
    assert forall|x: Seq<A>, y: Seq<A>| #![trigger l(x, y)] x != y implies l(x, y) || l(y, x) by {
        lemma_lex_total(x, y, lt);
    }
    assert forall|x: Seq<A>, y: Seq<A>, z: Seq<A>| #[trigger] l(x, y) && #[trigger] l(y, z) implies l(x, z) by {
        lemma_lex_transitive(x, y, z, lt);
    }
}

/// The order of characters: by code point, as their UTF-8 bytes order them.
pub open spec fn char_order() -> spec_fn(char, char) -> bool {
    |x: char, y: char| x < y
}

/// Whether text `a` comes before text `b`.
pub open spec fn text_less(a: Seq<char>, b: Seq<char>) -> bool {
    lex_less(a, b, char_order())
}

/// The rank of a path component: the root, then a leading `.`, then `..`,
/// then named components.
pub open spec fn component_rank(c: Seq<char>) -> int {
    if c == "/"@ {
        0
    } else if c == "."@ {
        1
    } else if c == ".."@ {
        2
    } else {
        3
    }
}

/// Whether component `a` comes before component `b`: by rank, and named
/// components by their text.
pub open spec fn component_less(a: Seq<char>, b: Seq<char>) -> bool {
    component_rank(a) < component_rank(b) || (component_rank(a) == 3 && component_rank(b) == 3 && text_less(a, b))
}

/// The order of path components.
pub open spec fn component_order() -> spec_fn(Seq<char>, Seq<char>) -> bool {
    |a: Seq<char>, b: Seq<char>| component_less(a, b)
}

/// Whether path `p` comes before path `q`, component by component.
pub open spec fn path_less(p: Seq<char>, q: Seq<char>) -> bool {
    lex_less(path_components(p), path_components(q), component_order())
}

/// Whether two paths have the same components.
pub open spec fn same_path(p: Seq<char>, q: Seq<char>) -> bool {
    path_components(p) == path_components(q)
}

/// Characters are totally ordered by code point.
proof fn lemma_char_order()
    ensures
        strict_total(char_order()),
{
    let lt = char_order();
    assert forall|x: char, y: char| #![trigger lt(x, y)] x != y implies lt(x, y) || lt(y, x) by {}
}

/// Components are totally ordered.
proof fn lemma_component_order()
    ensures
        strict_total(component_order()),
{
    lemma_char_order();
    lemma_lex_strict_total(char_order());
    let tl = |a: Seq<char>, b: Seq<char>| lex_less(a, b, char_order());
    let lt = component_order();
    assert forall|x: Seq<char>| !#[trigger] lt(x, x) by {
        assert(!tl(x, x));
    }
    assert forall|x: Seq<char>, y: Seq<char>| #![trigger lt(x, y)] x != y implies lt(x, y) || lt(y, x) by {
        assert(tl(x, y) || tl(y, x));
    }
    assert forall|x: Seq<char>, y: Seq<char>, z: Seq<char>| #[trigger] lt(x, y) && #[trigger] lt(y, z) implies lt(
        x,
        z,
    ) by {
        if component_rank(x) == 3 && component_rank(y) == 3 && component_rank(z) == 3 {
            assert(tl(x, y) && tl(y, z));
        }
    }
}

/// Paths are totally ordered by their components: a path never comes before
/// itself, of two paths with different components one comes first, and the
/// order is transitive.
pub proof fn lemma_path_order(p: Seq<char>, q: Seq<char>, r: Seq<char>)
    ensures
        !path_less(p, p),
        !same_path(p, q) ==> path_less(p, q) || path_less(q, p),
        same_path(p, q) ==> !path_less(p, q) && !path_less(q, p),
        path_less(p, q) && path_less(q, r) ==> path_less(p, r),
        path_less(p, q) && same_path(q, r) ==> path_less(p, r),
        same_path(p, q) && path_less(q, r) ==> path_less(p, r),
{
    lemma_component_order();
    lemma_lex_irreflexive(path_components(p), component_order());
    lemma_lex_irreflexive(path_components(q), component_order());
    if !same_path(p, q) {
        lemma_lex_total(path_components(p), path_components(q), component_order());
    }
    if path_less(p, q) && path_less(q, r) {
        lemma_lex_transitive(path_components(p), path_components(q), path_components(r), component_order());
    }
}

/// Whether text `a` comes before text `b`.
fn text_less_exec(a: &Vec<char>, b: &Vec<char>) -> (res: bool)
    ensures
        res == text_less(a@, b@),
{
    let mut i: usize = 0;
    assert(a@.skip(0) =~= a@ && b@.skip(0) =~= b@);
    while i < a.len() && i < b.len() && a[i] == b[i]
        invariant
            i <= a@.len(),
            i <= b@.len(),
            text_less(a@, b@) == text_less(a@.skip(i as int), b@.skip(i as int)),
        decreases a@.len() - i,
    {
        assert(a@.skip(i as int).drop_first() =~= a@.skip(i + 1));
        assert(b@.skip(i as int).drop_first() =~= b@.skip(i + 1));
        i = i + 1;
    }
    if i == a.len() {
        i < b.len()
    } else if i == b.len() {
        false
    } else {
        assert(a@.skip(i as int)[0] == a@[i as int]);
        assert(b@.skip(i as int)[0] == b@[i as int]);
        a[i] < b[i]
    }
}

/// Whether component `a` comes before component `b`.
fn component_less_exec(a: &Vec<char>, b: &Vec<char>) -> (res: bool)
    ensures
        res == component_less(a@, b@),
{
    let ra = component_rank_exec(a);
    let rb = component_rank_exec(b);
    if ra != rb {
        ra < rb
    } else if ra == 3 {
        text_less_exec(a, b)
    } else {
        false
    }
}

/// The rank of a component.
fn component_rank_exec(c: &Vec<char>) -> (res: u8)
    ensures
        res as int == component_rank(c@),
{
    if c.len() == 1 && c[0] == '/' {
        assert(c@ =~= "/"@) by {
            reveal_strlit("/");
        }
        0
    } else if c.len() == 1 && c[0] == '.' {
        proof {
            reveal_strlit("/");
        }
        assert(c@ =~= "."@) by {
            reveal_strlit(".");
        }
        1
    } else if c.len() == 2 && c[0] == '.' && c[1] == '.' {
        proof {
            reveal_strlit("/");
            reveal_strlit(".");
        }
        assert(c@ =~= ".."@) by {
            reveal_strlit("..");
        }
        2
    } else {
        proof {
            reveal_strlit("/");
            reveal_strlit(".");
            reveal_strlit("..");
        }
        3
    }
}

/// The text of each component.
pub open spec fn comps_view(v: Seq<Vec<char>>) -> Seq<Seq<char>> {
    v.map_values(|c: Vec<char>| c@)
}

/// Whether the components `a` come before the components `b`.
fn components_less_exec(a: &Vec<Vec<char>>, b: &Vec<Vec<char>>) -> (res: bool)
    ensures
        res == lex_less(comps_view(a@), comps_view(b@), component_order()),
{
    let ghost av = comps_view(a@);
    let ghost bv = comps_view(b@);
    let mut i: usize = 0;
    assert(av.skip(0) =~= av && bv.skip(0) =~= bv);
    while i < a.len() && i < b.len() && chars_eq(&a[i], &b[i])
        invariant
            i <= a@.len(),
            i <= b@.len(),
            av == comps_view(a@),
            bv == comps_view(b@),
            lex_less(av, bv, component_order()) == lex_less(av.skip(i as int), bv.skip(i as int), component_order()),
        decreases a@.len() - i,
    {
        assert(av.skip(i as int).drop_first() =~= av.skip(i + 1));
        assert(bv.skip(i as int).drop_first() =~= bv.skip(i + 1));
        assert(av.skip(i as int)[0] == a@[i as int]@);
        assert(bv.skip(i as int)[0] == b@[i as int]@);
        i = i + 1;
    }
    if i == a.len() {
        i < b.len()
    } else if i == b.len() {
        false
    } else {
        assert(av.skip(i as int)[0] == a@[i as int]@);
        assert(bv.skip(i as int)[0] == b@[i as int]@);
        component_less_exec(&a[i], &b[i])
    }
}

/// Whether path `p` comes before path `q`, component by component.
pub fn path_less_exec(p: &str, q: &str) -> (res: bool)
    ensures
        res == path_less(p@, q@),
{
    let a = path_components_exec(p);
    let b = path_components_exec(q);
    components_less_exec(&a, &b)
}

/// Whether two paths have the same components.
pub fn same_path_exec(p: &str, q: &str) -> (res: bool)
    ensures
        res == same_path(p@, q@),
{
    proof {
        lemma_path_order(p@, q@, q@);
    }
    !path_less_exec(p, q) && !path_less_exec(q, p)
}

/// Whether `paths[k]` is the first of `paths` with its components.
pub open spec fn first_of_its_path(paths: Seq<Seq<char>>, k: int) -> bool {
    0 <= k < paths.len() && forall|m: int| 0 <= m < k ==> !same_path(#[trigger] paths[m], paths[k])
}

/// Whether `x` is one of the first `n` paths, the first with its components.
pub open spec fn represented(paths: Seq<Seq<char>>, n: int, x: Seq<char>) -> bool {
    exists|k: int| #![trigger paths[k]] 0 <= k < n && first_of_its_path(paths, k) && x == paths[k]
}

/// Whether one of `out` has the components of `paths[k]`.
pub open spec fn covered(paths: Seq<Seq<char>>, k: int, out: Seq<Seq<char>>) -> bool {
    exists|i: int| #![trigger out[i]] 0 <= i < out.len() && same_path(out[i], paths[k])
}

/// Whether `out` is the first `n` of `paths` sorted by components with
/// repeats dropped: in increasing order, each the first path with its
/// components, and the components of each of those paths among them.
pub open spec fn sorted_distinct_upto(paths: Seq<Seq<char>>, n: int, out: Seq<Seq<char>>) -> bool {
    &&& forall|i: int, j: int| 0 <= i < j < out.len() ==> path_less(#[trigger] out[i], #[trigger] out[j])
    &&& forall|i: int| #![trigger out[i]] 0 <= i < out.len() ==> represented(paths, n, out[i])
    &&& forall|k: int| #![trigger covered(paths, k, out)] 0 <= k < n ==> covered(paths, k, out)
}

/// Whether `out` is `paths` sorted by components with repeats dropped: in
/// increasing order, each the first of the paths with its components, and the
/// components of every path among them.
pub open spec fn sorted_distinct_paths(paths: Seq<Seq<char>>, out: Seq<Seq<char>>) -> bool {
    sorted_distinct_upto(paths, paths.len() as int, out)
}

/// The position `p` goes to among the increasing `out`: past every path that
/// comes before it.
fn insert_position(out: &Vec<String>, p: &str) -> (j: usize)
    ensures
        j <= out@.len(),
        forall|i: int| 0 <= i < j ==> path_less(#[trigger] out@[i]@, p@),
        j < out@.len() ==> !path_less(out@[j as int]@, p@),
{
    let mut j: usize = 0;
    while j < out.len() && path_less_exec(out[j].as_str(), p)
        invariant
            j <= out@.len(),
            forall|i: int| 0 <= i < j ==> path_less(#[trigger] out@[i]@, p@),
        decreases out@.len() - j,
    {
        j = j + 1;
    }
    j
}

/// A path whose components the sorted paths already have adds nothing.
proof fn lemma_skip_step(pv: Seq<Seq<char>>, k: int, ov: Seq<Seq<char>>, j: int)
    requires
        0 <= k < pv.len(),
        sorted_distinct_upto(pv, k, ov),
        0 <= j < ov.len(),
        same_path(ov[j], pv[k]),
    ensures
        sorted_distinct_upto(pv, k + 1, ov),
{
    assert forall|m: int| 0 <= m < k + 1 implies #[trigger] covered(pv, m, ov) by {
        if m == k {
            assert(same_path(ov[j], pv[m]));
        }
    }
    assert forall|i: int| 0 <= i < ov.len() implies represented(pv, k + 1, #[trigger] ov[i]) by {
        assert(represented(pv, k, ov[i]));
    }
}

/// A path with new components goes in at the position past every sorted path
/// that comes before it.
proof fn lemma_insert_step(pv: Seq<Seq<char>>, k: int, ov: Seq<Seq<char>>, j: int)
    requires
        0 <= k < pv.len(),
        sorted_distinct_upto(pv, k, ov),
        0 <= j <= ov.len(),
        forall|i: int| 0 <= i < j ==> path_less(#[trigger] ov[i], pv[k]),
        j < ov.len() ==> !path_less(ov[j], pv[k]) && !same_path(ov[j], pv[k]),
    ensures
        sorted_distinct_upto(pv, k + 1, ov.insert(j, pv[k])),
{
    let p = pv[k];
    if j < ov.len() {
        lemma_path_order(p, ov[j], p);
        assert(path_less(p, ov[j]));
    }
    assert forall|i: int| j <= i < ov.len() implies path_less(p, #[trigger] ov[i]) by {
        if i > j {
            lemma_path_order(p, ov[j], ov[i]);
        }
    }
    assert forall|i: int| 0 <= i < ov.len() implies !same_path(#[trigger] ov[i], p) by {
        if i < j {
            lemma_path_order(ov[i], p, p);
        } else {
            lemma_path_order(p, ov[i], p);
        }
    }
    assert(first_of_its_path(pv, k)) by {
        assert forall|m: int| 0 <= m < k implies !same_path(#[trigger] pv[m], pv[k]) by {
            assert(covered(pv, m, ov));
            let i = choose|i: int| #![trigger ov[i]] 0 <= i < ov.len() && same_path(ov[i], pv[m]);
            if same_path(pv[m], pv[k]) {
                assert(same_path(ov[i], p));
            }
        }
    }
    let nv = ov.insert(j, p);
    assert forall|a: int, b: int| 0 <= a < b < nv.len() implies path_less(#[trigger] nv[a], #[trigger] nv[b]) by {
        if b < j {
            assert(nv[a] == ov[a] && nv[b] == ov[b]);
        } else if a < j && b == j {
            assert(nv[a] == ov[a]);
        } else if a < j {
            assert(nv[a] == ov[a] && nv[b] == ov[b - 1]);
            lemma_path_order(nv[a], p, nv[b]);
        } else if a == j {
            assert(nv[b] == ov[b - 1]);
        } else {
            assert(nv[a] == ov[a - 1] && nv[b] == ov[b - 1]);
        }
    }
    assert forall|i: int| 0 <= i < nv.len() implies represented(pv, k + 1, #[trigger] nv[i]) by {
        if i < j {
            assert(nv[i] == ov[i]);
            assert(represented(pv, k, ov[i]));
        } else if i == j {
            assert(nv[i] == pv[k]);
        } else {
            assert(nv[i] == ov[i - 1]);
            assert(represented(pv, k, ov[i - 1]));
        }
    }
    assert forall|m: int| 0 <= m < k + 1 implies #[trigger] covered(pv, m, nv) by {
        if m == k {
            assert(nv[j] == pv[m]);
        } else {
            assert(covered(pv, m, ov));
            let i = choose|i: int| #![trigger ov[i]] 0 <= i < ov.len() && same_path(ov[i], pv[m]);
            if i < j {
                assert(nv[i] == ov[i]);
            } else {
                assert(nv[i + 1] == ov[i]);
            }
        }
    }
}

/// Sorts paths by their components, dropping every path whose components an
/// earlier path already has.
pub fn sort_dedup_paths(paths: &Vec<String>) -> (res: Vec<String>)
    ensures
        sorted_distinct_paths(lines_view(paths@), lines_view(res@)),
{
    let ghost pv = lines_view(paths@);
    let mut out: Vec<String> = Vec::new();
    let mut k: usize = 0;
    while k < paths.len()
        invariant
            k <= paths@.len(),
            pv == lines_view(paths@),
            sorted_distinct_upto(pv, k as int, lines_view(out@)),
        decreases paths@.len() - k,
    {
        let ghost ov = lines_view(out@);
        assert(pv[k as int] == paths@[k as int]@);
        let j = insert_position(&out, paths[k].as_str());
        assert forall|i: int| 0 <= i < j implies path_less(#[trigger] ov[i], pv[k as int]) by {
            assert(ov[i] == out@[i]@);
        }
        if j < out.len() && same_path_exec(out[j].as_str(), paths[k].as_str()) {
            assert(ov[j as int] == out@[j as int]@);
            proof {
                lemma_skip_step(pv, k as int, ov, j as int);
            }
        } else {
            proof {
                if j < ov.len() {
                    assert(ov[j as int] == out@[j as int]@);
                }
                lemma_insert_step(pv, k as int, ov, j as int);
            }
            let q = copy_string(&paths[k]);
            out.insert(j, q);
            assert(lines_view(out@) =~= ov.insert(j as int, pv[k as int]));
        }
        k = k + 1;
    }
    out
}

/// Whether paths are in increasing order.
pub open spec fn increasing(a: Seq<Seq<char>>) -> bool {
    forall|i: int, j: int| 0 <= i < j < a.len() ==> path_less(#[trigger] a[i], #[trigger] a[j])
}

/// Whether `x` is one of `b`.
#[verifier::opaque]
pub open spec fn one_of(b: Seq<Seq<char>>, x: Seq<char>) -> bool {
    exists|j: int| 0 <= j < b.len() && b[j] == x
}

/// Every one of `a` is one of `b`.
pub open spec fn within(a: Seq<Seq<char>>, b: Seq<Seq<char>>) -> bool {
    forall|i: int| 0 <= i < a.len() ==> one_of(b, #[trigger] a[i])
}

/// The position in `b` of one of its paths.
proof fn lemma_position(b: Seq<Seq<char>>, x: Seq<char>) -> (j: int)
    requires
        one_of(b, x),
    ensures
        0 <= j < b.len(),
        b[j] == x,
{
    reveal(one_of);
    choose|j: int| 0 <= j < b.len() && b[j] == x
}

/// Two increasing lists agree on their first `n` paths when each holds the
/// other's paths.
proof fn lemma_increasing_prefix(a: Seq<Seq<char>>, b: Seq<Seq<char>>, n: int)
    requires
        increasing(a),
        increasing(b),
        within(a, b),
        within(b, a),
        0 <= n <= a.len(),
        n <= b.len(),
    ensures
        forall|m: int| 0 <= m < n ==> a[m] == b[m],
    decreases n,
{
    if n > 0 {
        lemma_increasing_prefix(a, b, n - 1);
        let i = n - 1;
        assert(one_of(b, a[i]));
        assert(one_of(a, b[i]));
        let j = lemma_position(b, a[i]);
        let m = lemma_position(a, b[i]);
        if j < i {
            assert(b[j] == a[j]);
            lemma_path_order(a[j], a[i], a[i]);
        }
        if m < i {
            assert(a[m] == b[m]);
            lemma_path_order(b[m], b[i], b[i]);
        }
        if j > i && m > i {
            assert(path_less(b[i], b[j]));
            assert(path_less(a[i], a[m]));
            lemma_path_order(a[i], a[m], a[i]);
        }
    }
}

/// Two increasing lists that hold each other's paths are the same list.
proof fn lemma_increasing_unique(a: Seq<Seq<char>>, b: Seq<Seq<char>>)
    requires
        increasing(a),
        increasing(b),
        within(a, b),
        within(b, a),
    ensures
        a == b,
{
    if a.len() > b.len() {
        lemma_increasing_prefix(a, b, b.len() as int);
        let i = b.len() as int;
        assert(one_of(b, a[i]));
        let j = lemma_position(b, a[i]);
        assert(a[j] == b[j]);
        lemma_path_order(a[j], a[i], a[i]);
    } else if b.len() > a.len() {
        lemma_increasing_prefix(b, a, a.len() as int);
        let i = a.len() as int;
        assert(one_of(a, b[i]));
        let j = lemma_position(a, b[i]);
        assert(b[j] == a[j]);
        lemma_path_order(b[j], b[i], b[i]);
    } else {
        lemma_increasing_prefix(a, b, a.len() as int);
        assert(a =~= b);
    }
}

/// The paths an order of paths keeps are those of the first of each kind.
proof fn lemma_sorted_within(paths: Seq<Seq<char>>, a: Seq<Seq<char>>, b: Seq<Seq<char>>)
    requires
        sorted_distinct_paths(paths, a),
        sorted_distinct_paths(paths, b),
    ensures
        within(a, b),
{
    let n = paths.len() as int;
    assert forall|i: int| 0 <= i < a.len() implies one_of(b, #[trigger] a[i]) by {
        assert(represented(paths, n, a[i]));
        let k = choose|k: int| #![trigger paths[k]] 0 <= k < n && first_of_its_path(paths, k) && a[i] == paths[k];
        assert(covered(paths, k, b));
        let j = choose|j: int| #![trigger b[j]] 0 <= j < b.len() && same_path(b[j], paths[k]);
        assert(represented(paths, n, b[j]));
        let k2 = choose|k2: int| #![trigger paths[k2]] 0 <= k2 < n && first_of_its_path(paths, k2) && b[j] == paths[k2];
        if k2 < k {
            assert(!same_path(paths[k2], paths[k]));
        } else if k < k2 {
            assert(!same_path(paths[k], paths[k2]));
        }
        assert(b[j] == a[i]);
        reveal(one_of);
    }
}

/// Sorting paths by components with repeats dropped has one outcome: two
/// lists that are both the paths sorted that way are the same list.
pub proof fn law_sorted_paths_unique(paths: Seq<Seq<char>>, a: Seq<Seq<char>>, b: Seq<Seq<char>>)
    requires
        sorted_distinct_paths(paths, a),
        sorted_distinct_paths(paths, b),
    ensures
        a == b,
{
    lemma_sorted_within(paths, a, b);
    lemma_sorted_within(paths, b, a);
    lemma_increasing_unique(a, b);
}

/// A path written as a profile string literal: quoted, with `\` and `"`
/// escaped.
pub open spec fn profile_literal(p: Seq<char>) -> Seq<char> {
    "\""@ + replace_char(replace_char(p, '\\', "\\\\"@), '"', "\\\""@) + "\""@
}

/// The rules of each path in turn: for each rule head, the head, the path as
/// a literal, and the closing brackets.
pub open spec fn path_rules(paths: Seq<Seq<char>>, heads: Seq<Seq<char>>) -> Seq<Seq<char>>
    decreases paths.len(),
{
    if paths.len() == 0 {
        Seq::empty()
    } else {
        path_rules(paths.drop_last(), heads) + heads.map_values(
            |h: Seq<char>| h + profile_literal(paths.last()) + "))"@,
        )
    }
}

/// The system paths commands may neither read nor write.
pub open spec fn denied_paths() -> Seq<Seq<char>> {
    seq![
        "/Users"@,
        "/Volumes"@,
        "/Applications"@,
        "/Library"@,
        "/opt"@,
        "/etc"@,
        "/private/etc"@,
        "/tmp"@,
        "/private/tmp"@,
        "/private"@,
        "/var"@,
        "/usr"@,
    ]
}

/// The heads of the rules that deny reading and writing below a path.
pub open spec fn deny_heads() -> Seq<Seq<char>> {
    seq!["(deny file-read-data (subpath "@, "(deny file-write* (subpath "@]
}

/// The heads of the rules that allow reading and writing below a path.
pub open spec fn workspace_heads() -> Seq<Seq<char>> {
    seq!["(allow file-read-data file-read-metadata (subpath "@, "(allow file-write* (subpath "@]
}

/// The head of the rule that allows reading below a path.
pub open spec fn read_heads() -> Seq<Seq<char>> {
    seq!["(allow file-read-data file-read-metadata (subpath "@]
}

/// The rules that let a shell start: reading the system's binaries and
/// libraries, and writing to `/dev/null`.
pub open spec fn system_rules() -> Seq<Seq<char>> {
    seq![
        "(allow file-read-data file-read-metadata (subpath \"/usr/bin\"))"@,
        "(allow file-read-data file-read-metadata (subpath \"/usr/lib\"))"@,
        "(allow file-read-data file-read-metadata (subpath \"/bin\"))"@,
        "(allow file-read-data file-read-metadata (subpath \"/System\"))"@,
        "(allow file-read-data file-read-metadata (literal \"/private/var/select/sh\"))"@,
        "(allow file-write* (literal \"/dev/null\"))"@,
    ]
}

/// The workspace paths commands may read and write: the workspace root, and
/// its canonical form when that is another path.
pub open spec fn workspace_paths(root: Seq<char>, canonical: Option<Seq<char>>) -> Seq<Seq<char>> {
    match canonical {
        Some(c) => if same_path(c, root) {
            seq![root]
        } else {
            seq![root, c]
        },
        None => seq![root],
    }
}

/// The rules of a profile: everything allowed by default, the system paths
/// denied, the workspace paths allowed, the extra read paths readable, and
/// what a shell needs to start.
pub open spec fn profile_rules(workspace: Seq<Seq<char>>, extra_read_paths: Seq<Seq<char>>) -> Seq<Seq<char>> {
    seq!["(version 1)"@, "(allow default)"@] + path_rules(denied_paths(), deny_heads()) + path_rules(
        workspace,
        workspace_heads(),
    ) + path_rules(extra_read_paths, read_heads()) + system_rules()
}

/// The text of each rule head.
pub open spec fn heads_view(v: Seq<&str>) -> Seq<Seq<char>> {
    v.map_values(|h: &str| h@)
}

/// Appends the rules of each path in turn.
fn push_path_rules(rules: &mut Vec<String>, paths: &Vec<String>, heads: &Vec<&str>)
    ensures
        lines_view(final(rules)@) == lines_view(old(rules)@) + path_rules(lines_view(paths@), heads_view(heads@)),
{
    let ghost start = lines_view(rules@);
    let ghost pv = lines_view(paths@);
    let ghost hv = heads_view(heads@);
    let mut k: usize = 0;
    while k < paths.len()
        invariant
            k <= paths@.len(),
            pv == lines_view(paths@),
            hv == heads_view(heads@),
            lines_view(rules@) == start + path_rules(pv.subrange(0, k as int), hv),
        decreases paths@.len() - k,
    {
        let literal = sandbox_profile_literal(paths[k].as_str());
        let ghost before = lines_view(rules@);
        let ghost lines = hv.map_values(|h: Seq<char>| h + profile_literal(pv[k as int]) + "))"@);
        let mut h: usize = 0;
        while h < heads.len()
            invariant
                h <= heads@.len(),
                k < paths@.len(),
                pv == lines_view(paths@),
                hv == heads_view(heads@),
                literal@ == profile_literal(pv[k as int]),
                lines == hv.map_values(|h: Seq<char>| h + profile_literal(pv[k as int]) + "))"@),
                lines_view(rules@) == before + lines.subrange(0, h as int),
            decreases heads@.len() - h,
        {
            let rule = concat3(heads[h], literal.as_str(), "))");
            let ghost prev = lines_view(rules@);
            rules.push(rule);
            assert(lines_view(rules@) =~= prev.push(rule@));
            assert(lines.subrange(0, h + 1) =~= lines.subrange(0, h as int).push(lines[h as int]));
            h = h + 1;
        }
        proof {
            let next = pv.subrange(0, k + 1);
            assert(next.drop_last() =~= pv.subrange(0, k as int));
            assert(next.last() == pv[k as int]);
            assert(lines.subrange(0, lines.len() as int) =~= lines);
        }
        k = k + 1;
    }
    assert(pv.subrange(0, pv.len() as int) =~= pv);
}

/// A list of strings made from string literals.
fn strings_of(items: &Vec<&str>) -> (res: Vec<String>)
    ensures
        lines_view(res@) == heads_view(items@),
{
    let mut out: Vec<String> = Vec::new();
    let mut i: usize = 0;
    while i < items.len()
        invariant
            i <= items@.len(),
            lines_view(out@) =~= heads_view(items@).subrange(0, i as int),
        decreases items@.len() - i,
    {
        let ghost before = lines_view(out@);
        out.push(String::from_str(items[i]));
        assert(lines_view(out@) =~= before.push(items@[i as int]@));
        i = i + 1;
    }
    out
}

/// The `sandbox-exec` profile that confines a shell command to its workspace:
/// from the workspace root, its canonical form when it has one, and the extra
/// paths commands may read (sorted by components, repeats dropped).
pub fn darwin_exec_profile(
    workspace_root: &str,
    canonical_workspace_root: &Option<String>,
    extra_read_paths: &Vec<String>,
) -> (res: String)
    ensures
        exists|sorted: Seq<Seq<char>>|
            sorted_distinct_paths(lines_view(extra_read_paths@), sorted) && res@ == join_lines(
                profile_rules(workspace_paths(workspace_root@, opt_view(*canonical_workspace_root)), sorted),
            ),
{
    let extra = sort_dedup_paths(extra_read_paths);
    let mut rules: Vec<String> = Vec::new();
    rules.push(String::from_str("(version 1)"));
    rules.push(String::from_str("(allow default)"));
    let denied_list = vec![
            "/Users",
            "/Volumes",
            "/Applications",
            "/Library",
            "/opt",
            "/etc",
            "/private/etc",
            "/tmp",
            "/private/tmp",
            "/private",
            "/var",
            "/usr",
        ];
    assert(heads_view(denied_list@) =~= denied_paths());
    let denied = strings_of(&denied_list);
    let ghost r0 = lines_view(rules@);
    assert(r0 =~= seq!["(version 1)"@, "(allow default)"@]);
    let deny = vec!["(deny file-read-data (subpath ", "(deny file-write* (subpath "];
    assert(heads_view(deny@) =~= deny_heads());
    push_path_rules(&mut rules, &denied, &deny);
    let ghost r1 = lines_view(rules@);
    let mut workspace: Vec<String> = Vec::new();
    workspace.push(String::from_str(workspace_root));
    match canonical_workspace_root {
        Some(c) => if !same_path_exec(c.as_str(), workspace_root) {
            workspace.push(copy_string(c));
        },
        None => {},
    }
    assert(lines_view(workspace@) =~= workspace_paths(workspace_root@, opt_view(*canonical_workspace_root)));
    let allow = vec!["(allow file-read-data file-read-metadata (subpath ", "(allow file-write* (subpath "];
    assert(heads_view(allow@) =~= workspace_heads());
    push_path_rules(&mut rules, &workspace, &allow);
    let ghost r2 = lines_view(rules@);
    let read = vec!["(allow file-read-data file-read-metadata (subpath "];
    assert(heads_view(read@) =~= read_heads());
    push_path_rules(&mut rules, &extra, &read);
    let ghost r3 = lines_view(rules@);
    let system_list = vec![
            "(allow file-read-data file-read-metadata (subpath \"/usr/bin\"))",
            "(allow file-read-data file-read-metadata (subpath \"/usr/lib\"))",
            "(allow file-read-data file-read-metadata (subpath \"/bin\"))",
            "(allow file-read-data file-read-metadata (subpath \"/System\"))",
            "(allow file-read-data file-read-metadata (literal \"/private/var/select/sh\"))",
            "(allow file-write* (literal \"/dev/null\"))",
        ];
    assert(heads_view(system_list@) =~= system_rules());
    let system = strings_of(&system_list);
    let ghost before_system = lines_view(rules@);
    let mut i: usize = 0;
    while i < system.len()
        invariant
            i <= system@.len(),
            lines_view(rules@) =~= before_system + lines_view(system@).subrange(0, i as int),
        decreases system@.len() - i,
    {
        let ghost prev = lines_view(rules@);
        rules.push(copy_string(&system[i]));
        assert(lines_view(rules@) =~= prev.push(system@[i as int]@));
        i = i + 1;
    }
    assert(lines_view(system@).subrange(0, lines_view(system@).len() as int) =~= lines_view(system@));
    assert(r1 == r0 + path_rules(denied_paths(), deny_heads()));
    assert(lines_view(rules@) =~= profile_rules(
        workspace_paths(workspace_root@, opt_view(*canonical_workspace_root)),
        lines_view(extra@),
    ));
    join_strings(&rules, "\n")
}

} // verus!
