//! The local sandbox: its capabilities, the manifest that lays out its
//! workspace, and the instructions an agent gets about it.
use vstd::prelude::*;

use crate::ordered::{insert_sorted, sorted_insert};
use vstd::string::StringSliceAdditionalSpecFns;
use crate::text::{concat2, concat3, copy_string, join_lines, join_strings, join_with, lines_view, push_char};

verus! {

/// Limits on how much sandbox work runs at once.
#[derive(Clone, Copy, Debug, PartialEq, Eq, Structural)]
pub struct SandboxConcurrencyLimits {
    pub manifest_entries: Option<usize>,
    pub local_dir_files: Option<usize>,
}

/// What an agent may do in its sandbox.
#[derive(Clone, Copy, Debug, PartialEq, Eq, Structural)]
pub enum SandboxCapability {
    Filesystem,
    Shell,
    ApplyPatch,
}

/// The name of a capability.
pub open spec fn capability_name(c: SandboxCapability) -> Seq<char> {
    match c {
        SandboxCapability::Filesystem => "filesystem"@,
        SandboxCapability::Shell => "shell"@,
        SandboxCapability::ApplyPatch => "apply_patch"@,
    }
}

/// The capabilities in order of first occurrence, each once.
pub open spec fn dedupe_spec(s: Seq<SandboxCapability>) -> Seq<SandboxCapability>
    decreases s.len(),
{
    if s.len() == 0 {
        s
    } else {
        let d = dedupe_spec(s.drop_last());
        if d.contains(s.last()) {
            d
        } else {
            d.push(s.last())
        }
    }
}

impl SandboxCapability {
    /// The name of this capability.
    pub fn as_str(&self) -> (res: &'static str)
        ensures
            res@ == capability_name(*self),
    {
        match self {
            SandboxCapability::Filesystem => "filesystem",
            SandboxCapability::Shell => "shell",
            SandboxCapability::ApplyPatch => "apply_patch",
        }
    }

    /// Every capability: filesystem, shell, apply_patch.
    pub fn defaults() -> (res: Vec<Self>)
        ensures
            res@ == seq![
                SandboxCapability::Filesystem,
                SandboxCapability::Shell,
                SandboxCapability::ApplyPatch,
            ],
    {
        let mut v: Vec<SandboxCapability> = Vec::new();
        v.push(SandboxCapability::Filesystem);
        v.push(SandboxCapability::Shell);
        v.push(SandboxCapability::ApplyPatch);
        assert(v@ =~= seq![
            SandboxCapability::Filesystem,
            SandboxCapability::Shell,
            SandboxCapability::ApplyPatch,
        ]);
        v
    }

    /// The capabilities in order of first occurrence, each once.
    pub fn dedupe(capabilities: Vec<Self>) -> (res: Vec<Self>)
        ensures
            res@ == dedupe_spec(capabilities@),
    {
        let mut normalized: Vec<SandboxCapability> = Vec::new();
        let mut i: usize = 0;
        while i < capabilities.len()
            invariant
                i <= capabilities@.len(),
                normalized@ == dedupe_spec(capabilities@.subrange(0, i as int)),
            decreases capabilities@.len() - i,
        {
            proof {
                let p = capabilities@.subrange(0, i + 1);
                assert(p.drop_last() =~= capabilities@.subrange(0, i as int));
            }
            let c = capabilities[i];
            let mut found = false;
            let mut j: usize = 0;
            while j < normalized.len()
                invariant
                    j <= normalized@.len(),
                    found == exists|k: int| 0 <= k < j && normalized@[k] == c,
                decreases normalized@.len() - j,
            {
                if normalized[j] == c {
                    found = true;
                }
                j = j + 1;
            }
            if !found {
                normalized.push(c);
            }
            i = i + 1;
        }
        assert(capabilities@.subrange(0, capabilities@.len() as int) =~= capabilities@);
        normalized
    }
}

/// A file written into the workspace.
pub struct File {
    pub content: Vec<u8>,
}

/// A directory of named entries, in name order.
pub struct Dir {
    pub entries: Vec<(String, ManifestEntry)>,
}

/// A host directory copied into the workspace.
pub struct LocalDir {
    pub src: String,
}

/// One entry of a workspace layout.
pub enum ManifestEntry {
    File(File),
    Dir(Dir),
    LocalDir(LocalDir),
}

/// The layout of a sandbox workspace: its logical root and named entries, in name order.
pub struct Manifest {
    pub root: String,
    pub entries: Vec<(String, ManifestEntry)>,
}

/// What a manifest entry stands for.
pub enum EntryView {
    File(Seq<u8>),
    Dir(Seq<(Seq<char>, EntryView)>),
    LocalDir(Seq<char>),
}

/// The entry a manifest entry stands for.
pub open spec fn entry_view(e: ManifestEntry) -> EntryView
    decreases e,
{
    match e {
        ManifestEntry::File(f) => EntryView::File(f.content@),
        ManifestEntry::Dir(d) => EntryView::Dir(entries_view(d.entries@)),
        ManifestEntry::LocalDir(l) => EntryView::LocalDir(l.src@),
    }
}

/// The named entries a list of named manifest entries stands for.
pub open spec fn entries_view(s: Seq<(String, ManifestEntry)>) -> Seq<(Seq<char>, EntryView)>
    decreases s,
{
    if s.len() == 0 {
        Seq::empty()
    } else {
        entries_view(s.subrange(0, s.len() - 1)).push(
            (s[s.len() - 1].0@, entry_view(s[s.len() - 1].1)),
        )
    }
}

/// The entry list has one named entry per element, in order.
pub proof fn lemma_entries_view(s: Seq<(String, ManifestEntry)>)
    ensures
        entries_view(s).len() == s.len(),
        forall|i: int|
            0 <= i < s.len() ==> #[trigger] entries_view(s)[i] == (s[i].0@, entry_view(s[i].1)),
    decreases s.len(),
{
    if s.len() > 0 {
        let p = s.subrange(0, s.len() - 1);
        lemma_entries_view(p);
        assert forall|i: int| 0 <= i < s.len() implies #[trigger] entries_view(s)[i] == (
            s[i].0@,
            entry_view(s[i].1),
        ) by {
            if i < s.len() - 1 {
                assert(p[i] == s[i]);
            }
        }
    }
}

/// What a manifest stands for.
pub struct ManifestView {
    pub root: Seq<char>,
    pub entries: Seq<(Seq<char>, EntryView)>,
}

impl View for Manifest {
    type V = ManifestView;

    open spec fn view(&self) -> ManifestView {
        ManifestView { root: self.root@, entries: entries_view(self.entries@) }
    }
}

impl Manifest {
    /// An empty layout rooted at `/workspace`.
    pub fn new() -> (res: Self)
        ensures
            res@.root == "/workspace"@,
            res@.entries.len() == 0,
    {
        Manifest { root: String::from_str("/workspace"), entries: Vec::new() }
    }

    /// This layout with `entry` at `path`, replacing what was there.
    pub fn with_entry(self, path: String, entry: ManifestEntry) -> (res: Self)
        ensures
            res.root == self.root,
            res.entries@ == sorted_insert(self.entries@, path, entry),
    {
        let mut m = self;
        insert_sorted(&mut m.entries, path, entry);
        m
    }

    /// A description of the layout, one line per entry.
    pub fn describe(&self) -> (res: String)
        requires
            children_height(self@.entries) < usize::MAX,
        ensures
            res@ == join_lines(manifest_lines(self@)),
    {
        let mut lines: Vec<String> = Vec::new();
        lines.push(concat2(self.root.as_str(), " (workspace root)"));
        proof {
            lemma_entries_view(self.entries@);
        }
        let ghost ev = entries_view(self.entries@);
        let mut i: usize = 0;
        while i < self.entries.len()
            invariant
                i <= self.entries@.len(),
                children_height(ev) < usize::MAX,
                ev == entries_view(self.entries@),
                ev.len() == self.entries@.len(),
                forall|k: int|
                    0 <= k < self.entries@.len() ==> #[trigger] ev[k] == (
                        self.entries@[k].0@,
                        entry_view(self.entries@[k].1),
                    ),
                lines_view(lines@) == seq![self.root@ + " (workspace root)"@] + top_lines(
                    ev.subrange(0, i as int),
                ),
            decreases self.entries@.len() - i,
        {
            proof {
                let p = ev.subrange(0, i + 1);
                assert(p.drop_last() =~= ev.subrange(0, i as int));
                assert(p.last() == ev[i as int]);
                lemma_children_height(ev);
                assert(entry_height(ev[i as int].1) <= children_height(ev));
            }
            describe_entry(self.entries[i].0.as_str(), &self.entries[i].1, 0, &mut lines);
            i = i + 1;
        }
        assert(ev.subrange(0, ev.len() as int) =~= ev);
        join_strings(&lines, "\n")
    }
}

impl Dir {
    /// An empty directory.
    pub fn new() -> (res: Self)
        ensures
            res.entries@.len() == 0,
    {
        Dir { entries: Vec::new() }
    }

    /// This directory with `entry` at `path`, replacing what was there.
    pub fn with_entry(self, path: String, entry: ManifestEntry) -> (res: Self)
        ensures
            res.entries@ == sorted_insert(self.entries@, path, entry),
    {
        let mut d = self;
        insert_sorted(&mut d.entries, path, entry);
        d
    }
}

impl File {
    /// A file holding the UTF-8 encoding of `text`.
    pub fn from_text(text: &str) -> (res: Self)
        ensures
            res.content@ == text.spec_bytes(),
    {
        let bytes = text.as_bytes();
        File { content: vstd::slice::slice_to_vec(bytes) }
    }
}

impl LocalDir {
    /// A host directory to copy from.
    pub fn new(src: &str) -> (res: Self)
        ensures
            res.src@ == src@,
    {
        LocalDir { src: String::from_str(src) }
    }
}

/// How deeply directories nest inside an entry.
pub open spec fn entry_height(e: EntryView) -> nat
    decreases e,
{
    match e {
        EntryView::Dir(cs) => 1 + children_height(cs),
        _ => 0,
    }
}

/// How deeply directories nest inside a list of entries.
pub open spec fn children_height(cs: Seq<(Seq<char>, EntryView)>) -> nat
    decreases cs,
{
    if cs.len() == 0 {
        0
    } else {
        let a = children_height(cs.subrange(0, cs.len() - 1));
        let b = entry_height(cs[cs.len() - 1].1);
        if a >= b {
            a
        } else {
            b
        }
    }
}

/// No entry of a list nests deeper than the list.
pub proof fn lemma_children_height(cs: Seq<(Seq<char>, EntryView)>)
    ensures
        forall|i: int| 0 <= i < cs.len() ==> entry_height(#[trigger] cs[i].1) <= children_height(cs),
    decreases cs.len(),
{
    if cs.len() > 0 {
        let p = cs.subrange(0, cs.len() - 1);
        lemma_children_height(p);
        assert forall|i: int| 0 <= i < cs.len() implies entry_height(#[trigger] cs[i].1)
            <= children_height(cs) by {
            if i < cs.len() - 1 {
                assert(p[i] == cs[i]);
            }
        }
    }
}

/// `depth` levels of two-space indentation.
pub open spec fn indent(depth: nat) -> Seq<char>
    decreases depth,
{
    if depth == 0 {
        Seq::empty()
    } else {
        indent((depth - 1) as nat) + "  "@
    }
}

/// The description lines of one entry and, for a directory, of its children.
pub open spec fn entry_lines(path: Seq<char>, e: EntryView, depth: nat) -> Seq<Seq<char>>
    decreases e,
{
    match e {
        EntryView::File(_) => seq![indent(depth) + "- "@ + path],
        EntryView::LocalDir(_) => seq![indent(depth) + "- "@ + path + "/ (copied from host)"@],
        EntryView::Dir(children) => seq![indent(depth) + "- "@ + path + "/"@] + child_lines(
            path,
            children,
            depth + 1,
        ),
    }
}

/// The description lines of the children of the directory at `parent`.
pub open spec fn child_lines(parent: Seq<char>, cs: Seq<(Seq<char>, EntryView)>, depth: nat) -> Seq<
    Seq<char>,
>
    decreases cs,
{
    if cs.len() == 0 {
        Seq::empty()
    } else {
        child_lines(parent, cs.subrange(0, cs.len() - 1), depth) + entry_lines(
            parent + "/"@ + cs[cs.len() - 1].0,
            cs[cs.len() - 1].1,
            depth,
        )
    }
}

/// The description lines of the top-level entries.
pub open spec fn top_lines(cs: Seq<(Seq<char>, EntryView)>) -> Seq<Seq<char>>
    decreases cs.len(),
{
    if cs.len() == 0 {
        Seq::empty()
    } else {
        top_lines(cs.drop_last()) + entry_lines(cs.last().0, cs.last().1, 0)
    }
}

/// The description lines of a manifest: the root, then each entry.
pub open spec fn manifest_lines(m: ManifestView) -> Seq<Seq<char>> {
    seq![m.root + " (workspace root)"@] + top_lines(m.entries)
}

/// Two spaces per level.
fn make_indent(depth: usize) -> (res: String)
    ensures
        res@ == indent(depth as nat),
{
    let mut s = String::new();
    let mut i: usize = 0;
    while i < depth
        invariant
            i <= depth,
            s@ == indent(i as nat),
        decreases depth - i,
    {
        s.append("  ");
        i = i + 1;
    }
    s
}

/// Appends the description lines of one entry and, for a directory, of its children.
#[verifier::loop_isolation(false)]
fn describe_entry(path: &str, entry: &ManifestEntry, depth: usize, lines: &mut Vec<String>)
    requires
        depth + entry_height(entry_view(*entry)) < usize::MAX,
    ensures
        lines_view(final(lines)@) == lines_view(old(lines)@) + entry_lines(
            path@,
            entry_view(*entry),
            depth as nat,
        ),
    decreases entry,
{
    let ind = make_indent(depth);
    let ghost before = lines_view(lines@);
    match entry {
        ManifestEntry::File(_) => {
            let line = concat3(ind.as_str(), "- ", path);
            lines.push(line);
            assert(lines_view(lines@) =~= before + seq![line@]);
        },
        ManifestEntry::LocalDir(_) => {
            let a = concat3(ind.as_str(), "- ", path);
            let line = concat2(a.as_str(), "/ (copied from host)");
            lines.push(line);
            assert(lines_view(lines@) =~= before + seq![line@]);
        },
        ManifestEntry::Dir(dir) => {
            let a = concat3(ind.as_str(), "- ", path);
            let line = concat2(a.as_str(), "/");
            lines.push(line);
            assert(lines_view(lines@) =~= before + seq![line@]);
            proof {
                lemma_entries_view(dir.entries@);
                lemma_children_height(entries_view(dir.entries@));
            }
            let ghost cv = entries_view(dir.entries@);
            let mut i: usize = 0;
            while i < dir.entries.len()
                invariant
                    i <= dir.entries@.len(),
                    cv.len() == dir.entries@.len(),
                    lines_view(lines@) == before + seq![line@] + child_lines(
                        path@,
                        cv.subrange(0, i as int),
                        (depth + 1) as nat,
                    ),
                decreases dir.entries@.len() - i,
            {
                proof {
                    let p = cv.subrange(0, i + 1);
                    assert(p.subrange(0, p.len() - 1) =~= cv.subrange(0, i as int));
                    assert(p[p.len() - 1] == cv[i as int]);
                    assert(decreases_to!(*entry => *dir));
                    assert(decreases_to!(*dir => dir.entries));
                    assert(decreases_to!(dir.entries => dir.entries@));
                    assert(decreases_to!(dir.entries@ => dir.entries@[i as int]));
                    assert(decreases_to!(dir.entries@[i as int] => dir.entries@[i as int].1));
                    assert(cv[i as int].1 == entry_view(dir.entries@[i as int].1));
                    assert(entry_height(cv[i as int].1) <= children_height(cv));
                }
                let child_path = concat3(path, "/", dir.entries[i].0.as_str());
                describe_entry(child_path.as_str(), &dir.entries[i].1, depth + 1, lines);
                proof {
                    let a = before + seq![line@];
                    assert(a + child_lines(path@, cv.subrange(0, i + 1), (depth + 1) as nat) =~= a
                        + child_lines(path@, cv.subrange(0, i as int), (depth + 1) as nat)
                        + entry_lines(
                        child_path@,
                        cv[i as int].1,
                        (depth + 1) as nat,
                    ));
                }
                i = i + 1;
            }
            assert(cv.subrange(0, cv.len() as int) =~= cv);
            assert(entry_view(*entry) == EntryView::Dir(cv));
            assert(before + seq![line@] + child_lines(path@, cv, (depth + 1) as nat) =~= before
                + (seq![line@] + child_lines(path@, cv, (depth + 1) as nat)));
        },
    }
}

/// The instructions an agent gets about its sandbox: the base and user
/// instructions when given, its capabilities, and the workspace layout.
pub open spec fn instructions_spec(
    base: Option<Seq<char>>,
    user: Option<Seq<char>>,
    capabilities: Seq<SandboxCapability>,
    manifest: ManifestView,
) -> Seq<char> {
    let p0: Seq<Seq<char>> = match base {
        Some(b) => seq![b],
        None => Seq::empty(),
    };
    let p1 = match user {
        Some(u) => p0.push(u),
        None => p0,
    };
    let caps = join_with(capabilities.map_values(|c: SandboxCapability| capability_name(c)), ", "@);
    let p2 = p1.push("Capabilities: "@ + caps);
    let p3 = p2.push("Workspace layout:\n"@ + join_lines(manifest_lines(manifest)));
    join_with(p3, "\n\n"@)
}

/// Builds the instructions an agent gets about its sandbox.
pub fn build_instructions_from_parts(
    base_instructions: Option<&str>,
    user_instructions: Option<&str>,
    capabilities: &[SandboxCapability],
    manifest: &Manifest,
) -> (res: String)
    requires
        children_height(manifest@.entries) < usize::MAX,
    ensures
        res@ == instructions_spec(
            match base_instructions {
                Some(b) => Some(b@),
                None => None,
            },
            match user_instructions {
                Some(u) => Some(u@),
                None => None,
            },
            capabilities@,
            manifest@,
        ),
{
    let mut parts: Vec<String> = Vec::new();
    match base_instructions {
        Some(b) => {
            parts.push(String::from_str(b));
        },
        None => {},
    }
    match user_instructions {
        Some(u) => {
            let ghost before = parts@;
            let s = String::from_str(u);
            parts.push(s);
        },
        None => {},
    }
    let mut names: Vec<String> = Vec::new();
    let mut i: usize = 0;
    while i < capabilities.len()
        invariant
            i <= capabilities@.len(),
            lines_view(names@) =~= capabilities@.subrange(0, i as int).map_values(
                |c: SandboxCapability| capability_name(c),
            ),
        decreases capabilities@.len() - i,
    {
        let ghost before = names@;
        let n = String::from_str(capabilities[i].as_str());
        names.push(n);
        assert(lines_view(names@) =~= lines_view(before).push(n@));
        i = i + 1;
    }
    assert(capabilities@.subrange(0, capabilities@.len() as int) =~= capabilities@);
    let caps = join_strings(&names, ", ");
    parts.push(concat2("Capabilities: ", caps.as_str()));
    let layout = manifest.describe();
    parts.push(concat2("Workspace layout:\n", layout.as_str()));
    let ghost expected_parts = {
        let p0: Seq<Seq<char>> = match base_instructions {
            Some(b) => seq![b@],
            None => Seq::empty(),
        };
        let p1 = match user_instructions {
            Some(u) => p0.push(u@),
            None => p0,
        };
        p1.push("Capabilities: "@ + caps@).push("Workspace layout:\n"@ + layout@)
    };
    assert(lines_view(parts@) =~= expected_parts);
    join_strings(&parts, "\n\n")
}

} // verus!

verus! {

/// Whether two byte vectors are equal.
fn bytes_eq(a: &Vec<u8>, b: &Vec<u8>) -> (res: bool)
    ensures
        res == (a@ == b@),
{
    if a.len() != b.len() {
        return false;
    }
    let mut i: usize = 0;
    while i < a.len()
        invariant
            i <= a@.len(),
            a@.len() == b@.len(),
            forall|k: int| 0 <= k < i ==> a@[k] == b@[k],
        decreases a@.len() - i,
    {
        if a[i] != b[i] {
            return false;
        }
        i = i + 1;
    }
    assert(a@ =~= b@);
    true
}

/// Copies a byte vector.
fn bytes_clone(a: &Vec<u8>) -> (res: Vec<u8>)
    ensures
        res@ == a@,
{
    vstd::slice::slice_to_vec(a.as_slice())
}

/// Whether two manifest entries are the same entry.
#[verifier::loop_isolation(false)]
pub fn entry_eq(a: &ManifestEntry, b: &ManifestEntry) -> (res: bool)
    ensures
        res == (entry_view(*a) == entry_view(*b)),
    decreases a,
{
    match a {
        ManifestEntry::File(x) => match b {
            ManifestEntry::File(y) => bytes_eq(&x.content, &y.content),
            _ => false,
        },
        ManifestEntry::LocalDir(x) => match b {
            ManifestEntry::LocalDir(y) => crate::text::str_eq(x.src.as_str(), y.src.as_str()),
            _ => false,
        },
        ManifestEntry::Dir(x) => {
            let y = match b {
                ManifestEntry::Dir(y) => y,
                _ => {
                    return false;
                },
            };
            proof {
                lemma_entries_view(x.entries@);
                lemma_entries_view(y.entries@);
            }
            if x.entries.len() != y.entries.len() {
                return false;
            }
            let mut i: usize = 0;
            while i < x.entries.len()
                invariant
                    i <= x.entries@.len(),
                    x.entries@.len() == y.entries@.len(),
                    forall|k: int|
                        0 <= k < i ==> #[trigger] entries_view(x.entries@)[k] == entries_view(
                            y.entries@,
                        )[k],
                decreases x.entries@.len() - i,
            {
                proof {
                    assert(decreases_to!(*a => *x));
                    assert(decreases_to!(*x => x.entries));
                    assert(decreases_to!(x.entries => x.entries@));
                    assert(decreases_to!(x.entries@ => x.entries@[i as int]));
                    assert(decreases_to!(x.entries@[i as int] => x.entries@[i as int].1));
                }
                if !crate::text::str_eq(x.entries[i].0.as_str(), y.entries[i].0.as_str()) {
                    assert(entries_view(x.entries@)[i as int] != entries_view(y.entries@)[i as int]);
                    return false;
                }
                if !entry_eq(&x.entries[i].1, &y.entries[i].1) {
                    assert(entries_view(x.entries@)[i as int] != entries_view(y.entries@)[i as int]);
                    return false;
                }
                i = i + 1;
            }
            assert(entries_view(x.entries@) =~= entries_view(y.entries@));
            true
        },
    }
}

/// Copies a manifest entry.
#[verifier::loop_isolation(false)]
pub fn entry_clone(a: &ManifestEntry) -> (res: ManifestEntry)
    ensures
        entry_view(res) == entry_view(*a),
    decreases a,
{
    match a {
        ManifestEntry::File(x) => ManifestEntry::File(File { content: bytes_clone(&x.content) }),
        ManifestEntry::LocalDir(x) => ManifestEntry::LocalDir(LocalDir { src: copy_string(&x.src) }),
        ManifestEntry::Dir(x) => {
            proof {
                lemma_entries_view(x.entries@);
            }
            let mut out: Vec<(String, ManifestEntry)> = Vec::new();
            let mut i: usize = 0;
            while i < x.entries.len()
                invariant
                    i <= x.entries@.len(),
                    out@.len() == i,
                    forall|k: int|
                        0 <= k < i ==> (#[trigger] out@[k]).0@ == x.entries@[k].0@ && entry_view(
                            out@[k].1,
                        ) == entry_view(x.entries@[k].1),
                decreases x.entries@.len() - i,
            {
                proof {
                    assert(decreases_to!(*a => *x));
                    assert(decreases_to!(*x => x.entries));
                    assert(decreases_to!(x.entries => x.entries@));
                    assert(decreases_to!(x.entries@ => x.entries@[i as int]));
                    assert(decreases_to!(x.entries@[i as int] => x.entries@[i as int].1));
                }
                let e = (copy_string(&x.entries[i].0), entry_clone(&x.entries[i].1));
                out.push(e);
                i = i + 1;
            }
            proof {
                lemma_entries_view(out@);
                assert(entries_view(out@) =~= entries_view(x.entries@));
            }
            ManifestEntry::Dir(Dir { entries: out })
        },
    }
}

/// The names of the entries of `cur` that `proc` no longer has, in order.
pub open spec fn removed_names(
    cur: Seq<(Seq<char>, EntryView)>,
    proc: Seq<(Seq<char>, EntryView)>,
) -> Seq<Seq<char>>
    decreases cur.len(),
{
    if cur.len() == 0 {
        Seq::empty()
    } else {
        let prev = removed_names(cur.drop_last(), proc);
        if view_get(proc, cur.last().0).is_some() {
            prev
        } else {
            prev.push(cur.last().0)
        }
    }
}

/// The entry named `k`, if any.
pub open spec fn view_get(s: Seq<(Seq<char>, EntryView)>, k: Seq<char>) -> Option<EntryView>
    decreases s.len(),
{
    if s.len() == 0 {
        None
    } else if s[0].0 == k {
        Some(s[0].1)
    } else {
        view_get(s.subrange(1, s.len() as int), k)
    }
}

/// Whether two entries are of the same kind.
pub open spec fn same_kind(a: EntryView, b: EntryView) -> bool {
    (a is File && b is File) || (a is Dir && b is Dir) || (a is LocalDir && b is LocalDir)
}

/// The change a running session must apply for one entry: nothing when it is
/// unchanged, the changed children of a directory, or the new entry; an entry
/// cannot change kind.
pub open spec fn diff_entry_spec(rel: Seq<char>, cur: EntryView, proc: EntryView) -> Result<
    Option<EntryView>,
    Seq<char>,
>
    decreases proc, 0nat,
{
    if cur == proc {
        Ok(None)
    } else if !same_kind(cur, proc) {
        Err(
            "Running injected sandbox sessions do not support replacing manifest entry types at "@
                + rel + "; use a fresh session or a session_state resume flow."@,
        )
    } else {
        match (cur, proc) {
            (EntryView::Dir(cs), EntryView::Dir(ps)) => match diff_children_spec(cs, ps) {
                Err(m) => Err(m),
                Ok(changed) => if changed.len() == 0 {
                    Ok(None)
                } else {
                    Ok(Some(EntryView::Dir(changed)))
                },
            },
            _ => Ok(Some(proc)),
        }
    }
}

/// The changes for the entries of `proc`, in order: new entries as they are,
/// changed ones as `diff_entry_spec` gives them.
pub open spec fn diff_apply_spec(
    cur: Seq<(Seq<char>, EntryView)>,
    proc: Seq<(Seq<char>, EntryView)>,
) -> Result<Seq<(Seq<char>, EntryView)>, Seq<char>>
    decreases proc, 1nat,
{
    if proc.len() == 0 {
        Ok(Seq::empty())
    } else {
        match diff_apply_spec(cur, proc.subrange(0, proc.len() - 1)) {
            Err(m) => Err(m),
            Ok(prev) => {
                let name = proc[proc.len() - 1].0;
                let p = proc[proc.len() - 1].1;
                match view_get(cur, name) {
                    None => Ok(prev.push((name, p))),
                    Some(c) => match diff_entry_spec(name, c, p) {
                        Err(m) => Err(m),
                        Ok(None) => Ok(prev),
                        Ok(Some(d)) => Ok(prev.push((name, d))),
                    },
                }
            },
        }
    }
}

/// The changes a running session must apply to go from `cur` to `proc`;
/// removing entries is refused.
pub open spec fn diff_children_spec(
    cur: Seq<(Seq<char>, EntryView)>,
    proc: Seq<(Seq<char>, EntryView)>,
) -> Result<Seq<(Seq<char>, EntryView)>, Seq<char>>
    decreases proc, 2nat,
{
    let removed = removed_names(cur, proc);
    if removed.len() > 0 {
        Err(
            "Running injected sandbox sessions do not support removing manifest entries: "@
                + join_with(removed, ", "@) + "."@,
        )
    } else {
        diff_apply_spec(cur, proc)
    }
}

} // verus!

verus! {

/// Finds the entry named `k`.
fn find_entry(entries: &Vec<(String, ManifestEntry)>, k: &str) -> (res: Option<usize>)
    ensures
        match res {
            Some(i) => i < entries@.len() && view_get(entries_view(entries@), k@) == Some(
                entry_view(entries@[i as int].1),
            ),
            None => view_get(entries_view(entries@), k@).is_none(),
        },
{
    proof {
        lemma_entries_view(entries@);
    }
    let ghost ev = entries_view(entries@);
    assert(ev.subrange(0, ev.len() as int) =~= ev);
    let mut i: usize = 0;
    while i < entries.len()
        invariant
            i <= entries@.len(),
            ev == entries_view(entries@),
            ev.len() == entries@.len(),
            forall|m: int|
                0 <= m < entries@.len() ==> #[trigger] ev[m] == (
                    entries@[m].0@,
                    entry_view(entries@[m].1),
                ),
            view_get(ev, k@) == view_get(ev.subrange(i as int, ev.len() as int), k@),
        decreases entries@.len() - i,
    {
        let ghost t = ev.subrange(i as int, ev.len() as int);
        assert(t[0] == ev[i as int]);
        if crate::text::str_eq(entries[i].0.as_str(), k) {
            return Some(i);
        }
        assert(t.subrange(1, t.len() as int) =~= ev.subrange(i + 1, ev.len() as int));
        i = i + 1;
    }
    None
}

/// Once the fold over a prefix fails, it fails the same way on longer prefixes.
proof fn lemma_diff_apply_err(cur: Seq<(Seq<char>, EntryView)>, proc: Seq<(Seq<char>, EntryView)>, i: int)
    requires
        0 <= i <= proc.len(),
        diff_apply_spec(cur, proc.subrange(0, i)) is Err,
    ensures
        diff_apply_spec(cur, proc) == diff_apply_spec(cur, proc.subrange(0, i)),
    decreases proc.len() - i,
{
    if i < proc.len() {
        let p = proc.subrange(0, i + 1);
        assert(p.subrange(0, p.len() - 1) =~= proc.subrange(0, i));
        lemma_diff_apply_err(cur, proc, i + 1);
    } else {
        assert(proc.subrange(0, i) =~= proc);
    }
}

/// The changes a running session must apply to go from the current entries to
/// the processed ones; removing entries is refused.
#[verifier::loop_isolation(false)]
pub fn diff_live_session_entries(
    current_entries: &Vec<(String, ManifestEntry)>,
    processed_entries: &Vec<(String, ManifestEntry)>,
) -> (res: crate::errors::Result<Vec<(String, ManifestEntry)>>)
    ensures
        match res {
            Ok(v) => diff_children_spec(
                entries_view(current_entries@),
                entries_view(processed_entries@),
            ) == Ok::<Seq<(Seq<char>, EntryView)>, Seq<char>>(entries_view(v@)),
            Err(e) => exists|m: Seq<char>|
                diff_children_spec(
                    entries_view(current_entries@),
                    entries_view(processed_entries@),
                ) == Err::<Seq<(Seq<char>, EntryView)>, Seq<char>>(m) && e.is_message(m),
        },
    decreases processed_entries, 2nat,
{
    proof {
        lemma_entries_view(current_entries@);
        lemma_entries_view(processed_entries@);
    }
    let ghost cv = entries_view(current_entries@);
    let ghost pv = entries_view(processed_entries@);
    let mut removed: Vec<String> = Vec::new();
    let mut i: usize = 0;
    while i < current_entries.len()
        invariant
            i <= current_entries@.len(),
            lines_view(removed@) == removed_names(cv.subrange(0, i as int), pv),
        decreases current_entries@.len() - i,
    {
        proof {
            let p = cv.subrange(0, i + 1);
            assert(p.drop_last() =~= cv.subrange(0, i as int));
            assert(p.last() == cv[i as int]);
        }
        if find_entry(processed_entries, current_entries[i].0.as_str()).is_none() {
            let ghost before = removed@;
            let n = copy_string(&current_entries[i].0);
            removed.push(n);
            assert(lines_view(removed@) =~= lines_view(before).push(n@));
        }
        i = i + 1;
    }
    assert(cv.subrange(0, cv.len() as int) =~= cv);
    if removed.len() > 0 {
        let joined = join_strings(&removed, ", ");
        let msg = concat3(
            "Running injected sandbox sessions do not support removing manifest entries: ",
            joined.as_str(),
            ".",
        );
        let ghost m = msg@;
        let e = crate::errors::AgentsError::message(msg);
        assert(e.is_message(m));
        assert(diff_children_spec(cv, pv) == Err::<Seq<(Seq<char>, EntryView)>, Seq<char>>(m));
        return Err(e);
    }
    let mut out: Vec<(String, ManifestEntry)> = Vec::new();
    let mut j: usize = 0;
    assert(pv.subrange(0, 0) =~= Seq::<(Seq<char>, EntryView)>::empty());
    while j < processed_entries.len()
        invariant
            j <= processed_entries@.len(),
            diff_apply_spec(cv, pv.subrange(0, j as int)) == Ok::<
                Seq<(Seq<char>, EntryView)>,
                Seq<char>,
            >(entries_view(out@)),
        decreases processed_entries@.len() - j,
    {
        proof {
            let p = pv.subrange(0, j + 1);
            assert(p.subrange(0, p.len() - 1) =~= pv.subrange(0, j as int));
            assert(p[p.len() - 1] == pv[j as int]);
            assert(decreases_to!(*processed_entries => processed_entries@));
            assert(decreases_to!(processed_entries@ => processed_entries@[j as int]));
            assert(decreases_to!(processed_entries@[j as int] => processed_entries@[j as int].1));
        }
        let name = &processed_entries[j].0;
        let ghost before = out@;
        match find_entry(current_entries, name.as_str()) {
            None => {
                let e = (copy_string(name), entry_clone(&processed_entries[j].1));
                out.push(e);
                proof {
                    lemma_entries_view(before);
                    lemma_entries_view(out@);
                    assert(entries_view(out@) =~= entries_view(before).push(
                        (name@, entry_view(processed_entries@[j as int].1)),
                    ));
                }
            },
            Some(k) => {
                match diff_live_session_entry(name.as_str(), &current_entries[k].1, &processed_entries[j].1) {
                    Err(e) => {
                        proof {
                            lemma_diff_apply_err(cv, pv, j + 1);
                        }
                        return Err(e);
                    },
                    Ok(None) => {},
                    Ok(Some(d)) => {
                        let ghost dv = entry_view(d);
                        out.push((copy_string(name), d));
                        proof {
                            lemma_entries_view(before);
                            lemma_entries_view(out@);
                            assert(entries_view(out@) =~= entries_view(before).push((name@, dv)));
                        }
                    },
                }
            },
        }
        j = j + 1;
    }
    assert(pv.subrange(0, pv.len() as int) =~= pv);
    Ok(out)
}

/// Whether two entries are of the same kind.
fn same_kind_exec(a: &ManifestEntry, b: &ManifestEntry) -> (res: bool)
    ensures
        res == same_kind(entry_view(*a), entry_view(*b)),
{
    match (a, b) {
        (ManifestEntry::File(_), ManifestEntry::File(_)) => true,
        (ManifestEntry::Dir(_), ManifestEntry::Dir(_)) => true,
        (ManifestEntry::LocalDir(_), ManifestEntry::LocalDir(_)) => true,
        _ => false,
    }
}

/// The change a running session must apply for one entry: nothing when it is
/// unchanged, the changed children of a directory, or the new entry; an entry
/// cannot change kind.
pub fn diff_live_session_entry(
    rel_path: &str,
    current_entry: &ManifestEntry,
    processed_entry: &ManifestEntry,
) -> (res: crate::errors::Result<Option<ManifestEntry>>)
    ensures
        match res {
            Ok(Some(d)) => diff_entry_spec(
                rel_path@,
                entry_view(*current_entry),
                entry_view(*processed_entry),
            ) == Ok::<Option<EntryView>, Seq<char>>(Some(entry_view(d))),
            Ok(None) => diff_entry_spec(
                rel_path@,
                entry_view(*current_entry),
                entry_view(*processed_entry),
            ) == Ok::<Option<EntryView>, Seq<char>>(None),
            Err(e) => exists|m: Seq<char>|
                diff_entry_spec(
                    rel_path@,
                    entry_view(*current_entry),
                    entry_view(*processed_entry),
                ) == Err::<Option<EntryView>, Seq<char>>(m) && e.is_message(m),
        },
    decreases processed_entry, 0nat,
{
    if entry_eq(current_entry, processed_entry) {
        return Ok(None);
    }
    if !same_kind_exec(current_entry, processed_entry) {
        let msg = concat3(
            "Running injected sandbox sessions do not support replacing manifest entry types at ",
            rel_path,
            "; use a fresh session or a session_state resume flow.",
        );
        let ghost m = msg@;
        let e = crate::errors::AgentsError::message(msg);
        assert(e.is_message(m));
        return Err(e);
    }
    match (current_entry, processed_entry) {
        (ManifestEntry::Dir(cd), ManifestEntry::Dir(pd)) => {
            proof {
                assert(decreases_to!(*processed_entry => *pd));
                assert(decreases_to!(*pd => pd.entries));
            }
            let changed = diff_live_session_entries(&cd.entries, &pd.entries)?;
            if changed.len() == 0 {
                proof {
                    lemma_entries_view(changed@);
                }
                return Ok(None);
            }
            proof {
                lemma_entries_view(changed@);
            }
            Ok(Some(ManifestEntry::Dir(Dir { entries: changed })))
        },
        _ => Ok(Some(entry_clone(processed_entry))),
    }
}

/// Refuses a live manifest update that moves the logical root.
pub fn validate_running_live_session_manifest_update(
    current_manifest: &Manifest,
    processed_manifest: &Manifest,
) -> (res: crate::errors::Result<()>)
    ensures
        res.is_ok() == (processed_manifest@.root == current_manifest@.root),
        res matches Err(e) ==> e.is_message(
            "Running injected sandbox sessions do not support capability changes to `manifest.root`; use a fresh session or a session_state resume flow."@,
        ),
{
    if !crate::text::str_eq(processed_manifest.root.as_str(), current_manifest.root.as_str()) {
        return Err(
            crate::errors::AgentsError::message(
                String::from_str(
                    "Running injected sandbox sessions do not support capability changes to `manifest.root`; use a fresh session or a session_state resume flow.",
                ),
            ),
        );
    }
    Ok(())
}

} // verus!

verus! {

impl Manifest {
    /// Copies this layout.
    pub fn copy(&self) -> (res: Manifest)
        ensures
            res@ == self@,
    {
        proof {
            lemma_entries_view(self.entries@);
        }
        let mut out: Vec<(String, ManifestEntry)> = Vec::new();
        let mut i: usize = 0;
        while i < self.entries.len()
            invariant
                i <= self.entries@.len(),
                out@.len() == i,
                forall|k: int|
                    0 <= k < i ==> (#[trigger] out@[k]).0@ == self.entries@[k].0@ && entry_view(
                        out@[k].1,
                    ) == entry_view(self.entries@[k].1),
            decreases self.entries@.len() - i,
        {
            let e = (copy_string(&self.entries[i].0), entry_clone(&self.entries[i].1));
            out.push(e);
            i = i + 1;
        }
        proof {
            lemma_entries_view(out@);
            assert(entries_view(out@) =~= entries_view(self.entries@));
        }
        Manifest { root: copy_string(&self.root), entries: out }
    }

    /// Whether two layouts are the same.
    pub fn same_as(&self, other: &Manifest) -> (res: bool)
        ensures
            res == (self@ == other@),
    {
        if !crate::text::str_eq(self.root.as_str(), other.root.as_str()) {
            return false;
        }
        let a = ManifestEntry::Dir(Dir { entries: self.copy().entries });
        let b = ManifestEntry::Dir(Dir { entries: other.copy().entries });
        entry_eq(&a, &b)
    }
}

/// The result of a shell command run in the sandbox.
pub struct LocalShellOutput {
    pub command: String,
    pub stdout: String,
    pub stderr: String,
    pub exit_code: i32,
}

impl LocalShellOutput {
    /// Whether the command exited with status 0.
    pub fn success(&self) -> (res: bool)
        ensures
            res == (self.exit_code == 0),
    {
        self.exit_code == 0
    }
}

/// What a sandbox session persists across runs besides its layout.
pub struct LocalSandboxPersistedState {
    pub snapshot_root: Option<String>,
    pub snapshot_fingerprint: Option<String>,
    pub snapshot_fingerprint_version: Option<String>,
    pub memory_notes: Vec<(String, String)>,
}

/// The serializable state of a sandbox session.
pub struct LocalSandboxSessionState {
    pub manifest: Manifest,
    pub workspace_root: String,
    pub workspace_root_owned: bool,
    pub workspace_root_ready: bool,
    pub snapshot_root: Option<String>,
    pub snapshot_fingerprint: Option<String>,
    pub snapshot_fingerprint_version: Option<String>,
    pub memory_notes: Vec<(String, String)>,
}

/// The sandbox part of a run state.
pub struct SandboxRunState {
    pub base_instructions: Option<String>,
    pub user_instructions: Option<String>,
    pub capabilities: Vec<SandboxCapability>,
    pub session_state: LocalSandboxSessionState,
}

/// The version tag of workspace fingerprints.
pub const WORKSPACE_FINGERPRINT_VERSION: &'static str = "workspace_sha256_v1";

/// The keys and values of a list of notes.
pub open spec fn notes_view(s: Seq<(String, String)>) -> Seq<(Seq<char>, Seq<char>)> {
    s.map_values(|p: (String, String)| (p.0@, p.1@))
}

/// Copies a list of notes.
fn copy_notes(v: &Vec<(String, String)>) -> (res: Vec<(String, String)>)
    ensures
        notes_view(res@) == notes_view(v@),
{
    let mut out: Vec<(String, String)> = Vec::new();
    let mut i: usize = 0;
    while i < v.len()
        invariant
            i <= v@.len(),
            notes_view(out@) =~= notes_view(v@).subrange(0, i as int),
        decreases v@.len() - i,
    {
        let ghost before = out@;
        let p = (copy_string(&v[i].0), copy_string(&v[i].1));
        out.push(p);
        assert(notes_view(out@) =~= notes_view(before).push((v@[i as int].0@, v@[i as int].1@)));
        i = i + 1;
    }
    assert(notes_view(v@).subrange(0, v@.len() as int) =~= notes_view(v@));
    out
}

/// An edit that replaces a file of the workspace with new contents.
pub struct ApplyPatchOperation {
    pub path: String,
    pub replacement: String,
}

/// What an applied edit reports: whether it changed the workspace, and the
/// path it was asked for.
pub struct ApplyPatchResult {
    pub updated: bool,
    pub path: String,
}

/// The write an edit comes down to: the host file, its new contents, and the
/// report once the write is done.
pub struct PatchWrite {
    pub host_path: String,
    pub contents: String,
    pub result: ApplyPatchResult,
}

/// A sandbox session: its workspace on the host, its layout, what it persists,
/// and whether the runner owns (and so removes) the workspace.
pub struct LocalSandboxSession {
    workspace_root: String,
    manifest: Manifest,
    persisted: LocalSandboxPersistedState,
    runner_owned: bool,
}

impl LocalSandboxSession {
    /// A session over a materialized workspace, with nothing persisted yet.
    pub fn new(workspace_root: String, manifest: Manifest, runner_owned: bool) -> (res: Self)
        ensures
            res.workspace_root_view() == workspace_root@,
            res.manifest_view() == manifest@,
            res.runner_owned_view() == runner_owned,
            res.notes_view().len() == 0,
            res.snapshot_fingerprint_view().is_none(),
    {
        LocalSandboxSession {
            workspace_root,
            manifest,
            persisted: LocalSandboxPersistedState {
                snapshot_root: None,
                snapshot_fingerprint: None,
                snapshot_fingerprint_version: None,
                memory_notes: Vec::new(),
            },
            runner_owned,
        }
    }

    /// A session rebuilt from its persisted state.
    pub fn resume(state: LocalSandboxSessionState) -> (res: Self)
        ensures
            res.workspace_root_view() == state.workspace_root@,
            res.manifest_view() == state.manifest@,
            res.runner_owned_view() == state.workspace_root_owned,
            res.notes_view() == notes_view(state.memory_notes@),
            res.snapshot_fingerprint_view() == opt_string_view(state.snapshot_fingerprint),
            res.snapshot_root_view() == opt_string_view(state.snapshot_root),
    {
        LocalSandboxSession {
            workspace_root: state.workspace_root,
            manifest: state.manifest,
            persisted: LocalSandboxPersistedState {
                snapshot_root: state.snapshot_root,
                snapshot_fingerprint: state.snapshot_fingerprint,
                snapshot_fingerprint_version: state.snapshot_fingerprint_version,
                memory_notes: state.memory_notes,
            },
            runner_owned: state.workspace_root_owned,
        }
    }

    /// The host directory of the workspace.
    pub closed spec fn workspace_root_view(&self) -> Seq<char> {
        self.workspace_root@
    }

    /// The layout of the workspace.
    pub closed spec fn manifest_view(&self) -> ManifestView {
        self.manifest@
    }

    /// Whether the runner owns the workspace.
    pub closed spec fn runner_owned_view(&self) -> bool {
        self.runner_owned
    }

    /// The memory notes, in key order.
    pub closed spec fn notes_entries(&self) -> Seq<(String, String)> {
        self.persisted.memory_notes@
    }

    /// The keys and values of the memory notes, in key order.
    pub open spec fn notes_view(&self) -> Seq<(Seq<char>, Seq<char>)> {
        notes_view(self.notes_entries())
    }

    /// The fingerprint of the last snapshot.
    pub closed spec fn snapshot_fingerprint_view(&self) -> Option<Seq<char>> {
        opt_string_view(self.persisted.snapshot_fingerprint)
    }

    /// Where the last snapshot is kept.
    pub closed spec fn snapshot_root_view(&self) -> Option<Seq<char>> {
        opt_string_view(self.persisted.snapshot_root)
    }

    /// The host directory of the workspace.
    pub fn workspace_root(&self) -> (res: String)
        ensures
            res@ == self.workspace_root_view(),
    {
        copy_string(&self.workspace_root)
    }

    /// The root the agent sees.
    pub fn logical_root(&self) -> (res: String)
        ensures
            res@ == self.manifest_view().root,
    {
        copy_string(&self.manifest.root)
    }

    /// The layout of the workspace.
    pub fn manifest(&self) -> (res: Manifest)
        ensures
            res@ == self.manifest_view(),
    {
        self.manifest.copy()
    }

    /// Whether the runner owns the workspace.
    pub fn runner_owned(&self) -> (res: bool)
        ensures
            res == self.runner_owned_view(),
    {
        self.runner_owned
    }

    /// The state to persist; `workspace_root_ready` says whether the workspace
    /// directory exists.
    pub fn session_state(&self, workspace_root_ready: bool) -> (res: LocalSandboxSessionState)
        ensures
            res.manifest@ == self.manifest_view(),
            res.workspace_root@ == self.workspace_root_view(),
            res.workspace_root_owned == self.runner_owned_view(),
            res.workspace_root_ready == workspace_root_ready,
            notes_view(res.memory_notes@) == self.notes_view(),
            opt_string_view(res.snapshot_fingerprint) == self.snapshot_fingerprint_view(),
            opt_string_view(res.snapshot_root) == self.snapshot_root_view(),
    {
        LocalSandboxSessionState {
            manifest: self.manifest.copy(),
            workspace_root: copy_string(&self.workspace_root),
            workspace_root_owned: self.runner_owned,
            workspace_root_ready,
            snapshot_root: crate::text::copy_opt_string(&self.persisted.snapshot_root),
            snapshot_fingerprint: crate::text::copy_opt_string(&self.persisted.snapshot_fingerprint),
            snapshot_fingerprint_version: crate::text::copy_opt_string(
                &self.persisted.snapshot_fingerprint_version,
            ),
            memory_notes: copy_notes(&self.persisted.memory_notes),
        }
    }

    /// The host path a request inside the sandbox names.
    pub fn resolve_path(&self, requested: &str) -> (res: crate::errors::Result<String>)
        ensures
            match res {
                Ok(p) => crate::shell::resolved_path(
                    self.workspace_root_view(),
                    self.manifest_view().root,
                    requested@,
                ) == Some(p@),
                Err(e) => crate::shell::resolved_path(
                    self.workspace_root_view(),
                    self.manifest_view().root,
                    requested@,
                ).is_none() && e.is_message("path must stay within the sandbox workspace"@),
            },
    {
        crate::shell::resolve_workspace_path(
            self.workspace_root.as_str(),
            self.manifest.root.as_str(),
            requested,
        )
    }

    /// The host path a request inside the sandbox names, with what the host
    /// says of that path (`host`): refused as `resolve_path` refuses it, and
    /// also where the workspace cannot be resolved, where a symbolic link on
    /// the path or the path itself resolves outside the workspace, or where
    /// the host could not say.
    pub fn resolve_path_on_host(&self, requested: &str, host: &HostPathFacts) -> (res: crate::errors::Result<String>)
        ensures
            match crate::shell::resolved_path(self.workspace_root_view(), self.manifest_view().root, requested@) {
                None => res matches Err(e) && e.is_message("path must stay within the sandbox workspace"@),
                Some(p) => match host_path_error(*host) {
                    None => res matches Ok(q) && q@ == p,
                    Some(m) => res matches Err(e) && e.is_message(m),
                },
            },
    {
        let path = self.resolve_path(requested)?;
        check_workspace_links(host)?;
        Ok(path)
    }

    /// The write that applies `operation`: its path is resolved inside the
    /// workspace (refused as `resolve_path` refuses it), the file gets the
    /// replacement as its contents, and the edit reports itself as applied to
    /// the path it was asked for.
    pub fn apply_patch(&self, operation: ApplyPatchOperation) -> (res: crate::errors::Result<PatchWrite>)
        ensures
            match res {
                Ok(w) => {
                    &&& crate::shell::resolved_path(
                        self.workspace_root_view(),
                        self.manifest_view().root,
                        operation.path@,
                    ) == Some(w.host_path@)
                    &&& w.contents@ == operation.replacement@
                    &&& w.result.updated
                    &&& w.result.path@ == operation.path@
                },
                Err(e) => crate::shell::resolved_path(
                    self.workspace_root_view(),
                    self.manifest_view().root,
                    operation.path@,
                ).is_none() && e.is_message("path must stay within the sandbox workspace"@),
            },
    {
        let host_path = self.resolve_path(operation.path.as_str())?;
        Ok(PatchWrite {
            host_path,
            contents: operation.replacement,
            result: ApplyPatchResult { updated: true, path: operation.path },
        })
    }

    /// Records a memory note, replacing an earlier one with the same key.
    pub fn write_memory_note(&mut self, key: String, value: String) -> (res: crate::errors::Result<()>)
        ensures
            res.is_ok(),
            final(self).notes_entries() == sorted_insert(old(self).notes_entries(), key, value),
            final(self).manifest_view() == old(self).manifest_view(),
            final(self).workspace_root_view() == old(self).workspace_root_view(),
            final(self).runner_owned_view() == old(self).runner_owned_view(),
    {
        insert_sorted(&mut self.persisted.memory_notes, key, value);
        Ok(())
    }

    /// The memory note stored under `key`.
    pub fn read_memory_note(&self, key: &str) -> (res: crate::errors::Result<Option<String>>)
        ensures
            match res {
                Ok(Some(v)) => crate::ordered::entry_get(self.notes_entries(), key@) matches Some(w)
                    && w@ == v@,
                Ok(None) => crate::ordered::entry_get(self.notes_entries(), key@).is_none(),
                Err(_) => false,
            },
    {
        match crate::ordered::find_key(&self.persisted.memory_notes, key) {
            Some(i) => Ok(Some(copy_string(&self.persisted.memory_notes[i].1))),
            None => Ok(None),
        }
    }

    /// Records a fresh snapshot of the workspace.
    pub fn record_snapshot(&mut self, fingerprint: String, snapshot_root: String)
        ensures
            final(self).snapshot_fingerprint_view() == Some(fingerprint@),
            final(self).snapshot_root_view() == Some(snapshot_root@),
            final(self).notes_view() == old(self).notes_view(),
            final(self).manifest_view() == old(self).manifest_view(),
            final(self).workspace_root_view() == old(self).workspace_root_view(),
            final(self).runner_owned_view() == old(self).runner_owned_view(),
    {
        self.persisted.snapshot_root = Some(snapshot_root);
        self.persisted.snapshot_fingerprint = Some(fingerprint);
        self.persisted.snapshot_fingerprint_version = Some(String::from_str(WORKSPACE_FINGERPRINT_VERSION));
    }

    /// The entries a live layout update must write into the workspace: none when
    /// the layout is unchanged; refused when it moves the root, removes entries or
    /// changes an entry's kind.
    pub fn plan_live_manifest_update(&self, processed_manifest: &Manifest) -> (res: crate::errors::Result<
        Option<Vec<(String, ManifestEntry)>>,
    >)
        ensures
            match res {
                Ok(None) => processed_manifest@ == self.manifest_view(),
                Ok(Some(v)) => processed_manifest@ != self.manifest_view()
                    && processed_manifest@.root == self.manifest_view().root && diff_children_spec(
                    self.manifest_view().entries,
                    processed_manifest@.entries,
                ) == Ok::<Seq<(Seq<char>, EntryView)>, Seq<char>>(entries_view(v@)),
                Err(_) => processed_manifest@ != self.manifest_view() && (processed_manifest@.root
                    != self.manifest_view().root || diff_children_spec(
                    self.manifest_view().entries,
                    processed_manifest@.entries,
                ) is Err),
            },
    {
        if processed_manifest.same_as(&self.manifest) {
            return Ok(None);
        }
        validate_running_live_session_manifest_update(&self.manifest, processed_manifest)?;
        let entries = diff_live_session_entries(&self.manifest.entries, &processed_manifest.entries)?;
        Ok(Some(entries))
    }

    /// Adopts a layout once its entries are in the workspace.
    pub fn set_manifest(&mut self, manifest: Manifest)
        ensures
            final(self).manifest_view() == manifest@,
            final(self).notes_view() == old(self).notes_view(),
            final(self).workspace_root_view() == old(self).workspace_root_view(),
            final(self).runner_owned_view() == old(self).runner_owned_view(),
    {
        self.manifest = manifest;
    }
}

/// Reading a memory note gives back what the last write under its key stored,
/// and a write leaves the notes under every other key as they were.
pub proof fn law_memory_note_read_after_write(
    notes: Seq<(String, String)>,
    key: String,
    value: String,
    other: Seq<char>,
)
    requires
        other != key@,
    ensures
        crate::ordered::entry_get(sorted_insert(notes, key, value), key@) == Some(value),
        crate::ordered::entry_get(sorted_insert(notes, key, value), other)
            == crate::ordered::entry_get(notes, other),
{
    crate::ordered::lemma_sorted_insert_reads_back(notes, key, value);
}

/// The characters of an optional string.
pub open spec fn opt_string_view(s: Option<String>) -> Option<Seq<char>> {
    match s {
        Some(v) => Some(v@),
        None => None,
    }
}

/// The sandbox attached to a prepared agent.
pub struct AgentSandboxRuntime {
    pub base_instructions: Option<String>,
    pub user_instructions: Option<String>,
    pub capabilities: Vec<SandboxCapability>,
    pub session: LocalSandboxSession,
}

impl AgentSandboxRuntime {
    /// The sandbox part of a run state, for sessions the runner owns;
    /// `workspace_root_ready` says whether the workspace directory exists.
    pub fn snapshot(&self, workspace_root_ready: bool) -> (res: Option<SandboxRunState>)
        ensures
            res.is_some() == self.session.runner_owned_view(),
            res matches Some(st) ==> opt_string_view(st.base_instructions) == opt_string_view(
                self.base_instructions,
            ) && opt_string_view(st.user_instructions) == opt_string_view(self.user_instructions)
                && st.capabilities@ == self.capabilities@ && st.session_state.manifest@
                == self.session.manifest_view() && st.session_state.workspace_root@
                == self.session.workspace_root_view() && st.session_state.workspace_root_owned
                && st.session_state.workspace_root_ready == workspace_root_ready && notes_view(
                st.session_state.memory_notes@,
            ) == self.session.notes_view(),
    {
        if !self.session.runner_owned() {
            return None;
        }
        let mut caps: Vec<SandboxCapability> = Vec::new();
        let mut i: usize = 0;
        while i < self.capabilities.len()
            invariant
                i <= self.capabilities@.len(),
                caps@ =~= self.capabilities@.subrange(0, i as int),
            decreases self.capabilities@.len() - i,
        {
            caps.push(self.capabilities[i]);
            i = i + 1;
        }
        assert(caps@ =~= self.capabilities@);
        Some(
            SandboxRunState {
                base_instructions: crate::text::copy_opt_string(&self.base_instructions),
                user_instructions: crate::text::copy_opt_string(&self.user_instructions),
                capabilities: caps,
                session_state: self.session.session_state(workspace_root_ready),
            },
        )
    }
}

/// Sandbox settings of a run.
pub struct SandboxRunConfig {
    pub manifest: Option<Manifest>,
    pub concurrency_limits: SandboxConcurrencyLimits,
    pub session_state: Option<LocalSandboxSessionState>,
    pub session: Option<LocalSandboxSession>,
}


/// What the host says of one path on the way from the workspace root to a
/// resolved path.
pub enum LinkProbe {
    /// Nothing is there; the paths after it are not looked at.
    Missing,
    /// A file or directory that is no symbolic link.
    Plain,
    /// A symbolic link, and the real path it resolves to, or the text of the
    /// error resolving it gave.
    Link { resolved: std::result::Result<String, String> },
    /// The host could not say; the text of its error.
    Failed { message: String },
}

/// What the host says of a resolved path: the real path of the workspace
/// root (or the text of the error resolving it gave), each path from the
/// root to the resolved path one component at a time, and, when the resolved
/// path exists, its real path (or the text of the error resolving it gave).
pub struct HostPathFacts {
    pub workspace_real: std::result::Result<String, String>,
    pub probes: Vec<LinkProbe>,
    pub candidate: Option<std::result::Result<String, String>>,
}

/// The refusal of a path that leaves the workspace.
pub open spec fn outside_workspace_text() -> Seq<char> {
    "path must stay within the sandbox workspace"@
}

/// Why the paths from `from` on refuse the walk, if they do: the walk stops
/// at the first missing path; a symbolic link must resolve inside the root_real
/// workspace root `root_real`; an error of the host refuses it with its text.
pub open spec fn link_walk_error(root_real: Seq<char>, probes: Seq<LinkProbe>, from: int) -> Option<Seq<char>>
    decreases probes.len() - from,
{
    if from < 0 || from >= probes.len() {
        None
    } else {
        match probes[from] {
            LinkProbe::Missing => None,
            LinkProbe::Plain => link_walk_error(root_real, probes, from + 1),
            LinkProbe::Link { resolved } => match resolved {
                Ok(r) => if crate::shell::path_starts_with(r@, root_real) {
                    link_walk_error(root_real, probes, from + 1)
                } else {
                    Some(outside_workspace_text())
                },
                Err(m) => Some(m@),
            },
            LinkProbe::Failed { message } => Some(message@),
        }
    }
}

/// Why the host's facts refuse a resolved path, if they do: the workspace
/// root must resolve; the links on the way must stay inside it; and an
/// existing path must resolve inside it.
pub open spec fn host_path_error(host: HostPathFacts) -> Option<Seq<char>> {
    match host.workspace_real {
        Err(m) => Some(m@),
        Ok(root_real) => match link_walk_error(root_real@, host.probes@, 0) {
            Some(m) => Some(m),
            None => match host.candidate {
                None => None,
                Some(Err(m)) => Some(m@),
                Some(Ok(c)) => if crate::shell::path_starts_with(c@, root_real@) {
                    None
                } else {
                    Some(outside_workspace_text())
                },
            },
        },
    }
}

/// Refuses a resolved path whose host facts say it leaves the workspace, or
/// where the host could not say, with the text `host_path_error` gives.
pub fn check_workspace_links(host: &HostPathFacts) -> (res: crate::errors::Result<()>)
    ensures
        match host_path_error(*host) {
            None => res is Ok,
            Some(m) => res matches Err(e) && e.is_message(m),
        },
{
    let root_real = match &host.workspace_real {
        Ok(r) => r,
        Err(m) => {
            return Err(crate::errors::AgentsError::message(copy_string(m)));
        },
    };
    let mut i: usize = 0;
    let mut stopped = false;
    while i < host.probes.len() && !stopped
        invariant
            i <= host.probes@.len(),
            host.workspace_real matches Ok(x) && x@ == root_real@,
            !stopped ==> link_walk_error(root_real@, host.probes@, 0) == link_walk_error(root_real@, host.probes@, i as int),
            stopped ==> link_walk_error(root_real@, host.probes@, 0).is_none(),
        decreases host.probes@.len() - i,
    {
        let ghost here = host.probes@[i as int];
        assert(link_walk_error(root_real@, host.probes@, i as int) == match here {
            LinkProbe::Missing => None,
            LinkProbe::Plain => link_walk_error(root_real@, host.probes@, i + 1),
            LinkProbe::Link { resolved } => match resolved {
                Ok(r) => if crate::shell::path_starts_with(r@, root_real@) {
                    link_walk_error(root_real@, host.probes@, i + 1)
                } else {
                    Some(outside_workspace_text())
                },
                Err(m) => Some(m@),
            },
            LinkProbe::Failed { message } => Some(message@),
        });
        match &host.probes[i] {
            LinkProbe::Missing => {
                stopped = true;
            },
            LinkProbe::Plain => {},
            LinkProbe::Link { resolved } => match resolved {
                Ok(r) => {
                    assert(here matches LinkProbe::Link { resolved: Ok(x) } && x@ == r@);
                    if !crate::shell::path_starts_with_exec(r.as_str(), root_real.as_str()) {
                        return Err(
                            crate::errors::AgentsError::message(
                                String::from_str("path must stay within the sandbox workspace"),
                            ),
                        );
                    }
                },
                Err(m) => {
                    assert(here matches LinkProbe::Link { resolved: Err(x) } && x@ == m@);
                    return Err(crate::errors::AgentsError::message(copy_string(m)));
                },
            },
            LinkProbe::Failed { message } => {
                return Err(crate::errors::AgentsError::message(copy_string(message)));
            },
        }
        i = i + 1;
    }
    match &host.candidate {
        None => Ok(()),
        Some(Err(m)) => Err(crate::errors::AgentsError::message(copy_string(m))),
        Some(Ok(c)) => if crate::shell::path_starts_with_exec(c.as_str(), root_real.as_str()) {
            Ok(())
        } else {
            Err(crate::errors::AgentsError::message(String::from_str("path must stay within the sandbox workspace")))
        },
    }
}

} // verus!
