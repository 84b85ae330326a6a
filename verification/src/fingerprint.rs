//! The fingerprint of a sandbox workspace: the SHA-256 digest of its entries
//! (relative path, kind, and contents or link target), directory by directory
//! in name order.  The caller reads the workspace into a tree of nodes; the
//! order, the bytes digested and the digest are decided here.
use vstd::prelude::*;
use vstd::utf8::encode_utf8;

use sha2::Digest;

use crate::ordered::{
    lemma_seq_lt_asymmetric, lemma_seq_lt_total, lemma_seq_lt_transitive, seq_lt, str_lt,
};
use crate::text::{concat2, concat3};

verus! {

/// An entry of a workspace directory as read from disk.
pub enum FingerprintNode {
    Dir { name: String, children: Vec<FingerprintNode> },
    File { name: String, content: Vec<u8> },
    Symlink { name: String, target: String },
    Other { name: String },
}

/// What a workspace entry stands for.
pub enum NodeView {
    Dir(Seq<char>, Seq<NodeView>),
    File(Seq<char>, Seq<u8>),
    Symlink(Seq<char>, Seq<char>),
    Other(Seq<char>),
}

/// What an entry stands for.
pub open spec fn node_view(n: FingerprintNode) -> NodeView
    decreases n,
{
    match n {
        FingerprintNode::Dir { name, children } => NodeView::Dir(name@, nodes_view(children@)),
        FingerprintNode::File { name, content } => NodeView::File(name@, content@),
        FingerprintNode::Symlink { name, target } => NodeView::Symlink(name@, target@),
        FingerprintNode::Other { name } => NodeView::Other(name@),
    }
}

/// What a list of entries stands for.
pub open spec fn nodes_view(s: Seq<FingerprintNode>) -> Seq<NodeView>
    decreases s,
{
    if s.len() == 0 {
        Seq::empty()
    } else {
        nodes_view(s.subrange(0, s.len() - 1)).push(node_view(s[s.len() - 1]))
    }
}

/// The list view has one entry per entry, in order.
pub proof fn lemma_nodes_view(s: Seq<FingerprintNode>)
    ensures
        nodes_view(s).len() == s.len(),
        forall|i: int| 0 <= i < s.len() ==> #[trigger] nodes_view(s)[i] == node_view(s[i]),
    decreases s.len(),
{
    if s.len() > 0 {
        let p = s.subrange(0, s.len() - 1);
        lemma_nodes_view(p);
        assert forall|i: int| 0 <= i < s.len() implies #[trigger] nodes_view(s)[i] == node_view(s[i]) by {
            if i < s.len() - 1 {
                assert(p[i] == s[i]);
            }
        }
    }
}

/// The name of an entry.
pub open spec fn node_name(n: NodeView) -> Seq<char> {
    match n {
        NodeView::Dir(name, _) => name,
        NodeView::File(name, _) => name,
        NodeView::Symlink(name, _) => name,
        NodeView::Other(name) => name,
    }
}

/// `sorted` with `x` inserted after every entry whose name is not after its own.
pub open spec fn insert_by_name(sorted: Seq<NodeView>, x: NodeView) -> Seq<NodeView>
    decreases sorted.len(),
{
    if sorted.len() == 0 {
        seq![x]
    } else if seq_lt(node_name(x), node_name(sorted.last())) {
        insert_by_name(sorted.drop_last(), x).push(sorted.last())
    } else {
        sorted.push(x)
    }
}

/// The entries in name order; entries of the same name keep their order.
pub open spec fn sort_by_name(s: Seq<NodeView>) -> Seq<NodeView>
    decreases s.len(),
{
    if s.len() == 0 {
        Seq::empty()
    } else {
        insert_by_name(sort_by_name(s.drop_last()), s.last())
    }
}

/// An entry with the contents of every directory in name order, all the way down.
pub open spec fn sort_tree(n: NodeView) -> NodeView
    decreases n,
{
    match n {
        NodeView::Dir(name, children) => NodeView::Dir(name, sort_by_name(sort_each(children))),
        _ => n,
    }
}

/// Each entry of a list with its directories sorted all the way down.
pub open spec fn sort_each(s: Seq<NodeView>) -> Seq<NodeView>
    decreases s,
{
    if s.len() == 0 {
        Seq::empty()
    } else {
        sort_each(s.subrange(0, s.len() - 1)).push(sort_tree(s[s.len() - 1]))
    }
}

/// Inserting at position `j` is what `insert_by_name` does when `x` sorts
/// before every entry from `j` on and not before the one just before `j`.
proof fn lemma_insert_by_name_at(s: Seq<NodeView>, x: NodeView, j: int)
    requires
        0 <= j <= s.len(),
        forall|k: int| j <= k < s.len() ==> seq_lt(node_name(x), node_name(#[trigger] s[k])),
        j > 0 ==> !seq_lt(node_name(x), node_name(s[j - 1])),
    ensures
        insert_by_name(s, x) == s.subrange(0, j).push(x) + s.subrange(j, s.len() as int),
    decreases s.len(),
{
    if s.len() == 0 {
        assert(s.subrange(0, j).push(x) + s.subrange(j, s.len() as int) =~= seq![x]);
    } else if j == s.len() {
        assert(s.subrange(0, j) =~= s);
        assert(s.subrange(0, j).push(x) + s.subrange(j, s.len() as int) =~= s.push(x));
    } else {
        let p = s.drop_last();
        assert(seq_lt(node_name(x), node_name(s[s.len() - 1])));
        assert forall|k: int| j <= k < p.len() implies seq_lt(node_name(x), node_name(#[trigger] p[k])) by {
            assert(p[k] == s[k]);
        }
        if j > 0 {
            assert(p[j - 1] == s[j - 1]);
        }
        lemma_insert_by_name_at(p, x, j);
        assert(p.subrange(0, j) =~= s.subrange(0, j));
        assert((p.subrange(0, j).push(x) + p.subrange(j, p.len() as int)).push(s.last()) =~= s.subrange(
            0,
            j,
        ).push(x) + s.subrange(j, s.len() as int));
    }
}

/// The name of an entry.
fn name_of(n: &FingerprintNode) -> (res: &str)
    ensures
        res@ == node_name(node_view(*n)),
{
    match n {
        FingerprintNode::Dir { name, .. } => name.as_str(),
        FingerprintNode::File { name, .. } => name.as_str(),
        FingerprintNode::Symlink { name, .. } => name.as_str(),
        FingerprintNode::Other { name } => name.as_str(),
    }
}

/// Inserts `x` into a list in name order, after the entries of its name.
fn insert_node_by_name(sorted: &mut Vec<FingerprintNode>, x: FingerprintNode)
    ensures
        nodes_view(final(sorted)@) == insert_by_name(nodes_view(old(sorted)@), node_view(x)),
{
    let ghost s = nodes_view(sorted@);
    proof {
        lemma_nodes_view(sorted@);
    }
    let mut j: usize = sorted.len();
    while j > 0 && str_lt(name_of(&x), name_of(&sorted[j - 1]))
        invariant
            j <= sorted@.len(),
            s == nodes_view(sorted@),
            s.len() == sorted@.len(),
            forall|k: int| 0 <= k < sorted@.len() ==> #[trigger] s[k] == node_view(sorted@[k]),
            forall|k: int| j <= k < s.len() ==> seq_lt(node_name(node_view(x)), node_name(#[trigger] s[k])),
        decreases j,
    {
        j = j - 1;
    }
    proof {
        if j > 0 {
            assert(s[j - 1] == node_view(sorted@[j - 1]));
        }
        lemma_insert_by_name_at(s, node_view(x), j as int);
    }
    let ghost before = sorted@;
    sorted.insert(j, x);
    proof {
        lemma_nodes_view(sorted@);
        assert forall|k: int| 0 <= k < sorted@.len() implies #[trigger] nodes_view(sorted@)[k] == (
            s.subrange(0, j as int).push(node_view(x)) + s.subrange(j as int, s.len() as int))[k] by {
            if k < j {
                assert(sorted@[k] == before[k]);
            } else if k > j {
                assert(sorted@[k] == before[k - 1]);
            }
        }
        assert(nodes_view(sorted@) =~= s.subrange(0, j as int).push(node_view(x)) + s.subrange(
            j as int,
            s.len() as int,
        ));
    }
}

/// The copy of an entry with every directory's contents in name order.
pub fn sorted_copy(n: &FingerprintNode) -> (res: FingerprintNode)
    ensures
        node_view(res) == sort_tree(node_view(*n)),
    decreases n, 1nat,
{
    match n {
        FingerprintNode::Dir { name, children } => {
            proof {
                assert(decreases_to!(*n => *children));
            }
            FingerprintNode::Dir { name: name.clone(), children: sort_nodes(children) }
        },
        FingerprintNode::File { name, content } => FingerprintNode::File {
            name: name.clone(),
            content: vstd::slice::slice_to_vec(content.as_slice()),
        },
        FingerprintNode::Symlink { name, target } => FingerprintNode::Symlink {
            name: name.clone(),
            target: target.clone(),
        },
        FingerprintNode::Other { name } => FingerprintNode::Other { name: name.clone() },
    }
}

/// Copies of entries in name order, each with its directories sorted all the
/// way down.
pub fn sort_nodes(entries: &Vec<FingerprintNode>) -> (res: Vec<FingerprintNode>)
    ensures
        nodes_view(res@) == sort_by_name(sort_each(nodes_view(entries@))),
    decreases entries, 0nat,
{
    let ghost cs = nodes_view(entries@);
    proof {
        lemma_nodes_view(entries@);
    }
    let mut out: Vec<FingerprintNode> = Vec::new();
    let mut i: usize = 0;
    while i < entries.len()
        invariant
            i <= entries@.len(),
            cs == nodes_view(entries@),
            cs.len() == entries@.len(),
            forall|k: int| 0 <= k < entries@.len() ==> #[trigger] cs[k] == node_view(entries@[k]),
            nodes_view(out@) == sort_by_name(sort_each(cs.subrange(0, i as int))),
        decreases entries@.len() - i,
    {
        proof {
            assert(decreases_to!(*entries => entries@));
            assert(decreases_to!(entries@ => entries@[i as int]));
        }
        let c = sorted_copy(&entries[i]);
        insert_node_by_name(&mut out, c);
        proof {
            let t = cs.subrange(0, i + 1);
            assert(t.subrange(0, t.len() - 1) =~= cs.subrange(0, i as int));
            assert(t[t.len() - 1] == cs[i as int]);
            let u = sort_each(cs.subrange(0, i as int));
            assert(sort_each(t) == u.push(sort_tree(cs[i as int])));
            assert(u.push(sort_tree(cs[i as int])).drop_last() =~= u);
        }
        i = i + 1;
    }
    assert(cs.subrange(0, cs.len() as int) =~= cs);
    out
}

/// The bytes `dir`, which follow a directory's path.
pub open spec fn dir_tag() -> Seq<u8> {
    seq![100u8, 105u8, 114u8]
}

/// The bytes `file`, which follow a file's path and precede its contents.
pub open spec fn file_tag() -> Seq<u8> {
    seq![102u8, 105u8, 108u8, 101u8]
}

/// The bytes `symlink`, which follow a link's path and precede its target.
pub open spec fn symlink_tag() -> Seq<u8> {
    seq![115u8, 121u8, 109u8, 108u8, 105u8, 110u8, 107u8]
}

/// The path of an entry named `name` in the directory at `prefix` (the
/// workspace root when `prefix` is empty).
pub open spec fn child_path(prefix: Seq<char>, name: Seq<char>) -> Seq<char> {
    if prefix.len() == 0 {
        name
    } else {
        prefix + "/"@ + name
    }
}

/// The bytes an entry of the directory at `prefix` contributes to the digest:
/// its path as UTF-8, then `dir` and its contents, `file` and its bytes,
/// `symlink` and its target, or nothing more for other kinds.
pub open spec fn node_stream(prefix: Seq<char>, n: NodeView) -> Seq<u8>
    decreases n,
{
    let p = child_path(prefix, node_name(n));
    encode_utf8(p) + match n {
        NodeView::Dir(_, children) => dir_tag() + nodes_stream(p, children),
        NodeView::File(_, content) => file_tag() + content,
        NodeView::Symlink(_, target) => symlink_tag() + encode_utf8(target),
        NodeView::Other(_) => Seq::empty(),
    }
}

/// The bytes the entries of the directory at `prefix` contribute, in order.
pub open spec fn nodes_stream(prefix: Seq<char>, s: Seq<NodeView>) -> Seq<u8>
    decreases s,
{
    if s.len() == 0 {
        Seq::empty()
    } else {
        nodes_stream(prefix, s.subrange(0, s.len() - 1)) + node_stream(prefix, s[s.len() - 1])
    }
}

/// Appends bytes.
fn push_bytes(out: &mut Vec<u8>, bytes: &[u8])
    ensures
        final(out)@ == old(out)@ + bytes@,
{
    let ghost start = out@;
    let mut i: usize = 0;
    while i < bytes.len()
        invariant
            i <= bytes@.len(),
            out@ == start + bytes@.subrange(0, i as int),
        decreases bytes@.len() - i,
    {
        out.push(bytes[i]);
        assert(bytes@.subrange(0, i + 1) =~= bytes@.subrange(0, i as int).push(bytes@[i as int]));
        i = i + 1;
    }
    assert(bytes@.subrange(0, bytes@.len() as int) =~= bytes@);
}

/// Appends the bytes an entry of the directory at `prefix` contributes.
#[verifier::loop_isolation(false)]
fn write_node(prefix: &str, n: &FingerprintNode, out: &mut Vec<u8>)
    ensures
        final(out)@ == old(out)@ + node_stream(prefix@, node_view(*n)),
    decreases n,
{
    let ghost start = out@;
    let name = name_of(n);
    let path = if prefix.unicode_len() == 0 {
        concat2("", name)
    } else {
        concat3(prefix, "/", name)
    };
    proof {
        reveal_strlit("");
        reveal_strlit("/");
        assert(path@ =~= child_path(prefix@, node_name(node_view(*n))));
    }
    push_bytes(out, path.as_str().as_bytes());
    let ghost after_path = out@;
    match n {
        FingerprintNode::Dir { children, .. } => {
            push_bytes(out, &[100u8, 105u8, 114u8]);
            let ghost cs = nodes_view(children@);
            proof {
                lemma_nodes_view(children@);
            }
            let ghost before_children = out@;
            let mut i: usize = 0;
            while i < children.len()
                invariant
                    i <= children@.len(),
                    cs == nodes_view(children@),
                    cs.len() == children@.len(),
                    forall|k: int| 0 <= k < children@.len() ==> #[trigger] cs[k] == node_view(children@[k]),
                    out@ == before_children + nodes_stream(path@, cs.subrange(0, i as int)),
                decreases children@.len() - i,
            {
                proof {
                    assert(decreases_to!(*n => *children));
                    assert(decreases_to!(*children => children@));
                    assert(decreases_to!(children@ => children@[i as int]));
                }
                write_node(path.as_str(), &children[i], out);
                proof {
                    let t = cs.subrange(0, i + 1);
                    assert(t.subrange(0, t.len() - 1) =~= cs.subrange(0, i as int));
                    assert(t[t.len() - 1] == cs[i as int]);
                }
                i = i + 1;
            }
            assert(cs.subrange(0, cs.len() as int) =~= cs);
        },
        FingerprintNode::File { content, .. } => {
            push_bytes(out, &[102u8, 105u8, 108u8, 101u8]);
            push_bytes(out, content.as_slice());
        },
        FingerprintNode::Symlink { target, .. } => {
            push_bytes(out, &[115u8, 121u8, 109u8, 108u8, 105u8, 110u8, 107u8]);
            push_bytes(out, target.as_str().as_bytes());
        },
        FingerprintNode::Other { .. } => {},
    }
    assert(out@ =~= start + node_stream(prefix@, node_view(*n)));
}

/// The lowercase hexadecimal text of the SHA-256 digest of `bytes`.
pub uninterp spec fn sha256_hex(bytes: Seq<u8>) -> Seq<char>;

/// Whether `c` is a lowercase hexadecimal digit.
pub open spec fn is_lower_hex_digit(c: char) -> bool {
    ('0' <= c && c <= '9') || ('a' <= c && c <= 'f')
}

/// Digests `bytes` with `sha2::Sha256::digest` and writes the 32-byte digest
/// with `{:x}`: the text is the name `sha256_hex` applied to the bytes, two
/// lowercase hexadecimal digits per byte.
#[verifier::external_body]
fn sha256_hex_digest(bytes: &[u8]) -> (res: String)
    ensures
        res@ == sha256_hex(bytes@),
        res@.len() == 64,
        forall|i: int| 0 <= i < 64 ==> is_lower_hex_digit(#[trigger] res@[i]),
{
    format!("{:x}", sha2::Sha256::digest(bytes))
}

/// The bytes a workspace with the given top-level entries is digested as:
/// every directory in name order, each entry as `node_stream` gives it.
pub open spec fn workspace_stream(entries: Seq<NodeView>) -> Seq<u8> {
    nodes_stream(Seq::empty(), sort_by_name(sort_each(entries)))
}

/// The fingerprint of a workspace whose top-level entries are `entries`: the
/// SHA-256 digest of its entries, every directory in name order, as
/// lowercase hexadecimal text.
pub fn fingerprint_workspace(entries: &Vec<FingerprintNode>) -> (res: String)
    ensures
        res@ == sha256_hex(workspace_stream(nodes_view(entries@))),
        res@.len() == 64,
{
    let children = sort_nodes(entries);
    let mut bytes: Vec<u8> = Vec::new();
    {
        {
            let ghost cs = nodes_view(children@);
            proof {
                lemma_nodes_view(children@);
            }
            let mut i: usize = 0;
            while i < children.len()
                invariant
                    i <= children@.len(),
                    cs == nodes_view(children@),
                    cs.len() == children@.len(),
                    forall|k: int| 0 <= k < children@.len() ==> #[trigger] cs[k] == node_view(children@[k]),
                    bytes@ == nodes_stream(Seq::empty(), cs.subrange(0, i as int)),
                decreases children@.len() - i,
            {
                let ghost before = bytes@;
                write_node("", &children[i], &mut bytes);
                proof {
                    reveal_strlit("");
                    assert(""@ =~= Seq::<char>::empty());
                    assert(bytes@ == before + node_stream(Seq::empty(), cs[i as int]));
                    let t = cs.subrange(0, i + 1);
                    assert(t.subrange(0, t.len() - 1) =~= cs.subrange(0, i as int));
                    assert(t[t.len() - 1] == cs[i as int]);
                }
                i = i + 1;
            }
            assert(cs.subrange(0, cs.len() as int) =~= cs);
        }
    }
    sha256_hex_digest(bytes.as_slice())
}

/// Whether no entry of a list has a name before that of an earlier entry.
pub open spec fn names_in_order(s: Seq<NodeView>) -> bool {
    forall|i: int, j: int|
        0 <= i < j < s.len() ==> !seq_lt(node_name(#[trigger] s[j]), node_name(#[trigger] s[i]))
}

/// Inserting by name into a list in name order keeps it in name order and
/// adds just the new entry.
proof fn lemma_insert_by_name_in_order(s: Seq<NodeView>, x: NodeView)
    requires
        names_in_order(s),
    ensures
        names_in_order(insert_by_name(s, x)),
        insert_by_name(s, x).to_multiset() =~= s.to_multiset().insert(x),
    decreases s.len(),
{
    broadcast use vstd::seq_lib::group_to_multiset_ensures;

    if s.len() == 0 {
        assert(seq![x] =~= Seq::<NodeView>::empty().push(x));
    } else {
        let last = s.last();
        let p = s.drop_last();
        assert(s =~= p.push(last));
        assert(names_in_order(p)) by {
            assert forall|i: int, j: int| 0 <= i < j < p.len() implies !seq_lt(
                node_name(#[trigger] p[j]),
                node_name(#[trigger] p[i]),
            ) by {
                assert(p[i] == s[i] && p[j] == s[j]);
            }
        }
        if seq_lt(node_name(x), node_name(last)) {
            lemma_insert_by_name_in_order(p, x);
            let q = insert_by_name(p, x);
            let r = q.push(last);
            assert(r == insert_by_name(s, x));
            assert forall|i: int| 0 <= i < q.len() implies !seq_lt(node_name(last), node_name(#[trigger] q[i])) by {
                assert(q.contains(q[i]));
                assert(q.to_multiset().count(q[i]) > 0);
                if q[i] == x {
                    lemma_seq_lt_asymmetric(node_name(x), node_name(last));
                } else {
                    assert(p.to_multiset().count(q[i]) > 0);
                    assert(p.contains(q[i]));
                    let k = choose|k: int| 0 <= k < p.len() && p[k] == q[i];
                    assert(s[k] == p[k]);
                    assert(s[s.len() - 1] == last);
                }
            }
            assert forall|i: int, j: int| 0 <= i < j < r.len() implies !seq_lt(
                node_name(#[trigger] r[j]),
                node_name(#[trigger] r[i]),
            ) by {
                assert(r[i] == q[i]);
                if j < q.len() {
                    assert(r[j] == q[j]);
                }
            }
        } else {
            let r = s.push(x);
            assert forall|i: int| 0 <= i < s.len() implies !seq_lt(node_name(x), node_name(#[trigger] s[i])) by {
                if i < s.len() - 1 {
                    assert(s[s.len() - 1] == last);
                    lemma_seq_lt_total(node_name(s[i]), node_name(last));
                    if seq_lt(node_name(x), node_name(s[i])) && node_name(s[i]) != node_name(last) {
                        lemma_seq_lt_transitive(node_name(x), node_name(s[i]), node_name(last));
                    }
                }
            }
            assert forall|i: int, j: int| 0 <= i < j < r.len() implies !seq_lt(
                node_name(#[trigger] r[j]),
                node_name(#[trigger] r[i]),
            ) by {
                assert(r[i] == s[i]);
                if j < s.len() {
                    assert(r[j] == s[j]);
                }
            }
        }
    }
}

/// The entries of a directory are digested in name order: sorting puts them
/// in name order and keeps every entry, each as often as it was there.
pub proof fn law_entries_sorted_by_name(s: Seq<NodeView>)
    ensures
        names_in_order(sort_by_name(s)),
        sort_by_name(s).to_multiset() =~= s.to_multiset(),
    decreases s.len(),
{
    broadcast use vstd::seq_lib::group_to_multiset_ensures;

    if s.len() > 0 {
        law_entries_sorted_by_name(s.drop_last());
        lemma_insert_by_name_in_order(sort_by_name(s.drop_last()), s.last());
        assert(s =~= s.drop_last().push(s.last()));
    }
}

} // verus!
