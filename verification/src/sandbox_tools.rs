//! The function tools a sandbox agent gets for its capabilities, the text
//! their calls answer with, and where a run's sandbox session comes from.
use vstd::prelude::*;

use crate::lines::{decimal, push_decimal};
use crate::sandbox::{
    dedupe_spec,
    ApplyPatchResult, LocalSandboxSession, LocalSandboxSessionState, LocalShellOutput, Manifest, SandboxCapability,
    SandboxRunConfig,
};
use crate::ordered::{lemma_seq_lt_asymmetric, lemma_seq_lt_irreflexive, lemma_seq_lt_total, lemma_seq_lt_transitive, seq_lt, str_lt};
use crate::text::{concat2, join_strings, join_with, lines_view, push_char, str_eq};

verus! {

/// A function tool of a sandbox agent.
#[derive(Clone, Copy, Debug, PartialEq, Eq, Structural)]
pub enum SandboxTool {
    ListFiles,
    ReadFile,
    RunShell,
    ApplyPatch,
}

/// The tools a capability brings: listing and reading files for the
/// filesystem, running commands for the shell, and replacing files for edits.
pub open spec fn tools_of(c: SandboxCapability) -> Seq<SandboxTool> {
    match c {
        SandboxCapability::Filesystem => seq![SandboxTool::ListFiles, SandboxTool::ReadFile],
        SandboxCapability::Shell => seq![SandboxTool::RunShell],
        SandboxCapability::ApplyPatch => seq![SandboxTool::ApplyPatch],
    }
}

/// The tools of a list of capabilities, capability by capability.
pub open spec fn tools_for(caps: Seq<SandboxCapability>) -> Seq<SandboxTool>
    decreases caps.len(),
{
    if caps.len() == 0 {
        Seq::empty()
    } else {
        tools_for(caps.drop_last()) + tools_of(caps.last())
    }
}

/// The name a tool is offered under.
pub open spec fn tool_name(t: SandboxTool) -> Seq<char> {
    match t {
        SandboxTool::ListFiles => "sandbox_list_files"@,
        SandboxTool::ReadFile => "sandbox_read_file"@,
        SandboxTool::RunShell => "sandbox_run_shell"@,
        SandboxTool::ApplyPatch => "sandbox_apply_patch"@,
    }
}

/// The description a tool is offered with.
pub open spec fn tool_description(t: SandboxTool) -> Seq<char> {
    match t {
        SandboxTool::ListFiles => "List files inside the sandbox workspace"@,
        SandboxTool::ReadFile => "Read a UTF-8 text file from the sandbox workspace"@,
        SandboxTool::RunShell =>
            "Run a shell command inside the sandbox workspace and return its exit code, stdout, and stderr"@,
        SandboxTool::ApplyPatch => "Replace a sandbox workspace file with patched contents"@,
    }
}

/// The string arguments a tool's calls carry, in order.
pub open spec fn tool_arguments(t: SandboxTool) -> Seq<Seq<char>> {
    match t {
        SandboxTool::ListFiles => seq!["path"@],
        SandboxTool::ReadFile => seq!["path"@],
        SandboxTool::RunShell => seq!["command"@],
        SandboxTool::ApplyPatch => seq!["path"@, "replacement"@],
    }
}

impl SandboxTool {
    /// The name this tool is offered under.
    pub fn name(&self) -> (res: &'static str)
        ensures
            res@ == tool_name(*self),
    {
        match self {
            SandboxTool::ListFiles => "sandbox_list_files",
            SandboxTool::ReadFile => "sandbox_read_file",
            SandboxTool::RunShell => "sandbox_run_shell",
            SandboxTool::ApplyPatch => "sandbox_apply_patch",
        }
    }

    /// The description this tool is offered with.
    pub fn description(&self) -> (res: &'static str)
        ensures
            res@ == tool_description(*self),
    {
        match self {
            SandboxTool::ListFiles => "List files inside the sandbox workspace",
            SandboxTool::ReadFile => "Read a UTF-8 text file from the sandbox workspace",
            SandboxTool::RunShell =>
                "Run a shell command inside the sandbox workspace and return its exit code, stdout, and stderr",
            SandboxTool::ApplyPatch => "Replace a sandbox workspace file with patched contents",
        }
    }

    /// The string arguments this tool's calls carry, in order.
    pub fn argument_names(&self) -> (res: Vec<&'static str>)
        ensures
            res@.len() == tool_arguments(*self).len(),
            forall|i: int| 0 <= i < res@.len() ==> #[trigger] res@[i]@ == tool_arguments(*self)[i],
    {
        let mut v: Vec<&'static str> = Vec::new();
        match self {
            SandboxTool::RunShell => v.push("command"),
            SandboxTool::ApplyPatch => {
                v.push("path");
                v.push("replacement");
            },
            _ => v.push("path"),
        }
        v
    }
}

/// The function tools a sandbox agent gets for `capabilities`, in the order
/// of the capabilities.
pub fn default_function_tools(capabilities: &Vec<SandboxCapability>) -> (res: Vec<SandboxTool>)
    ensures
        res@ == tools_for(capabilities@),
{
    let mut tools: Vec<SandboxTool> = Vec::new();
    let mut i: usize = 0;
    while i < capabilities.len()
        invariant
            i <= capabilities@.len(),
            tools@ == tools_for(capabilities@.subrange(0, i as int)),
        decreases capabilities@.len() - i,
    {
        let ghost before = tools@;
        match capabilities[i] {
            SandboxCapability::Filesystem => {
                tools.push(SandboxTool::ListFiles);
                tools.push(SandboxTool::ReadFile);
            },
            SandboxCapability::Shell => tools.push(SandboxTool::RunShell),
            SandboxCapability::ApplyPatch => tools.push(SandboxTool::ApplyPatch),
        }
        proof {
            let next = capabilities@.subrange(0, i + 1);
            assert(next.drop_last() =~= capabilities@.subrange(0, i as int));
            assert(next.last() == capabilities@[i as int]);
            assert(tools@ =~= before + tools_of(capabilities@[i as int]));
        }
        i = i + 1;
    }
    assert(capabilities@.subrange(0, capabilities@.len() as int) =~= capabilities@);
    tools
}

/// The capabilities a sandbox agent is built with: those it was given, each
/// once in order of first mention; every capability when none were given.
pub fn resolve_capabilities(capabilities: Option<Vec<SandboxCapability>>) -> (res: Vec<SandboxCapability>)
    ensures
        match capabilities {
            Some(c) => res@ == dedupe_spec(c@),
            None => res@ == seq![
                SandboxCapability::Filesystem,
                SandboxCapability::Shell,
                SandboxCapability::ApplyPatch,
            ],
        },
{
    match capabilities {
        Some(c) => SandboxCapability::dedupe(c),
        None => SandboxCapability::defaults(),
    }
}

/// Whether `name` is the name of a sandbox tool.
pub open spec fn is_sandbox_tool_name_spec(name: Seq<char>) -> bool {
    exists|t: SandboxTool| name == #[trigger] tool_name(t)
}

/// Whether `name` is the name of a sandbox tool; such tools are replaced when
/// an agent's sandbox is restored.
pub fn is_sandbox_tool_name(name: &str) -> (res: bool)
    ensures
        res == is_sandbox_tool_name_spec(name@),
{
    let tools = [SandboxTool::ListFiles, SandboxTool::ReadFile, SandboxTool::RunShell, SandboxTool::ApplyPatch];
    let mut i: usize = 0;
    while i < 4
        invariant
            i <= 4,
            tools@ == seq![SandboxTool::ListFiles, SandboxTool::ReadFile, SandboxTool::RunShell, SandboxTool::ApplyPatch],
            forall|j: int| 0 <= j < i ==> name@ != tool_name(tools@[j]),
        decreases 4 - i,
    {
        if str_eq(name, tools[i].name()) {
            return true;
        }
        i = i + 1;
    }
    proof {
        if is_sandbox_tool_name_spec(name@) {
            let t = choose|t: SandboxTool| name@ == #[trigger] tool_name(t);
            match t {
                SandboxTool::ListFiles => assert(name@ != tool_name(tools@[0])),
                SandboxTool::ReadFile => assert(name@ != tool_name(tools@[1])),
                SandboxTool::RunShell => assert(name@ != tool_name(tools@[2])),
                SandboxTool::ApplyPatch => assert(name@ != tool_name(tools@[3])),
            }
        }
    }
    false
}

/// Whether names are in order: none sorts before an earlier one.
pub open spec fn names_in_order(s: Seq<Seq<char>>) -> bool {
    forall|i: int, j: int| 0 <= i < j < s.len() ==> !seq_lt(#[trigger] s[j], #[trigger] s[i])
}

/// The names of a directory in order.
pub fn sort_names(names: Vec<String>) -> (res: Vec<String>)
    ensures
        lines_view(res@).to_multiset() == lines_view(names@).to_multiset(),
        names_in_order(lines_view(res@)),
{
    broadcast use vstd::seq_lib::to_multiset_insert;
    let ghost nv = lines_view(names@);
    let mut out: Vec<String> = Vec::new();
    let mut k: usize = 0;
    assert(lines_view(out@).to_multiset() =~= nv.subrange(0, 0).to_multiset()) by {
        broadcast use vstd::seq_lib::to_multiset_len;
        assert(nv.subrange(0, 0) =~= Seq::<Seq<char>>::empty());
        assert(lines_view(out@) =~= Seq::<Seq<char>>::empty());
    }
    while k < names.len()
        invariant
            k <= names@.len(),
            nv == lines_view(names@),
            lines_view(out@).to_multiset() == nv.subrange(0, k as int).to_multiset(),
            names_in_order(lines_view(out@)),
        decreases names@.len() - k,
    {
        let ghost ov = lines_view(out@);
        let x = &names[k];
        assert(nv[k as int] == x@);
        let mut j: usize = 0;
        while j < out.len() && !str_lt(x.as_str(), out[j].as_str())
            invariant
                j <= out@.len(),
                ov == lines_view(out@),
                forall|i: int| 0 <= i < j ==> !seq_lt(x@, #[trigger] ov[i]),
            decreases out@.len() - j,
        {
            assert(ov[j as int] == out@[j as int]@);
            j = j + 1;
        }
        proof {
            if j < ov.len() {
                assert(ov[j as int] == out@[j as int]@);
                assert(seq_lt(x@, ov[j as int]));
            }
            assert forall|i: int| j <= i < ov.len() implies !seq_lt(#[trigger] ov[i], x@) by {
                if i > j {
                    assert(!seq_lt(ov[i], ov[j as int]));
                    lemma_seq_lt_total(ov[i], ov[j as int]);
                    if seq_lt(ov[j as int], ov[i]) {
                        lemma_seq_lt_transitive(x@, ov[j as int], ov[i]);
                    }
                }
                lemma_seq_lt_asymmetric(x@, ov[i]);
            }
        }
        let ghost before = lines_view(out@);
        out.insert(j, copy_name(x));
        proof {
            let nw = lines_view(out@);
            assert(nw =~= ov.insert(j as int, x@));
            assert forall|a: int, b: int| 0 <= a < b < nw.len() implies !seq_lt(#[trigger] nw[b], #[trigger] nw[a]) by {
                if b < j {
                    assert(nw[a] == ov[a] && nw[b] == ov[b]);
                } else if a < j && b == j {
                    assert(nw[a] == ov[a]);
                } else if a < j {
                    assert(nw[a] == ov[a] && nw[b] == ov[b - 1]);
                    assert(!seq_lt(ov[b - 1], ov[a]));
                } else if a == j {
                    assert(nw[b] == ov[b - 1]);
                } else {
                    assert(nw[a] == ov[a - 1] && nw[b] == ov[b - 1]);
                }
            }
            assert(nv.subrange(0, k + 1) =~= nv.subrange(0, k as int).push(x@));
            vstd::seq_lib::to_multiset_build(nv.subrange(0, k as int), x@);
            vstd::seq_lib::to_multiset_insert(ov, j as int, x@);
            assert(nw.to_multiset() == ov.to_multiset().insert(x@));
        }
        k = k + 1;
    }
    assert(nv.subrange(0, nv.len() as int) =~= nv);
    out
}

/// Copies a name.
fn copy_name(s: &String) -> (res: String)
    ensures
        res@ == s@,
{
    s.clone()
}

/// The answer of the listing tool: the names in a directory, in order, one
/// per line.
pub fn file_listing(names: Vec<String>) -> (res: String)
    ensures
        exists|sorted: Seq<Seq<char>>|
            sorted.to_multiset() == lines_view(names@).to_multiset() && names_in_order(sorted) && res@
                == join_with(sorted, "\n"@),
{
    let sorted = sort_names(names);
    join_strings(&sorted, "\n")
}

/// Two lists of names in order with the same names are the same list, so
/// the listing tool's answer is determined by the names alone.
pub proof fn law_names_order_unique(a: Seq<Seq<char>>, b: Seq<Seq<char>>)
    requires
        names_in_order(a),
        names_in_order(b),
        a.to_multiset() == b.to_multiset(),
    ensures
        a == b,
    decreases a.len(),
{
    broadcast use vstd::seq_lib::to_multiset_len, vstd::seq_lib::to_multiset_contains, vstd::seq_lib::to_multiset_remove;
    if a.len() == 0 {
        assert(b.to_multiset().len() == 0);
        assert(b =~= a);
    } else {
        assert(a.to_multiset().len() == a.len());
        assert(b.to_multiset().len() == b.len());
        assert(b.len() == a.len());
        assert(a.contains(a[0]));
        assert(b.contains(b[0]));
        assert(a.to_multiset().count(a[0]) > 0);
        assert(b.to_multiset().count(b[0]) > 0);
        assert(b.contains(a[0]));
        assert(a.contains(b[0]));
        let i = choose|i: int| 0 <= i < b.len() && b[i] == a[0];
        let j = choose|j: int| 0 <= j < a.len() && a[j] == b[0];
        if a[0] != b[0] {
            lemma_seq_lt_total(a[0], b[0]);
            if seq_lt(a[0], b[0]) {
                if i > 0 {
                    assert(!seq_lt(b[i], b[0]));
                }
                lemma_seq_lt_irreflexive(a[0]);
            } else {
                if j > 0 {
                    assert(!seq_lt(a[j], a[0]));
                }
                lemma_seq_lt_irreflexive(b[0]);
            }
        }
        assert(a[0] == b[0]);
        assert(a.remove(0) =~= a.drop_first());
        assert(b.remove(0) =~= b.drop_first());
        assert(names_in_order(a.drop_first()));
        assert(names_in_order(b.drop_first()));
        law_names_order_unique(a.drop_first(), b.drop_first());
        assert(a =~= seq![a[0]] + a.drop_first());
        assert(b =~= seq![b[0]] + b.drop_first());
    }
}

/// An integer in decimal, with a minus sign when it is negative.
pub open spec fn signed_decimal(n: int) -> Seq<char> {
    if n < 0 {
        seq!['-'] + decimal((-n) as nat)
    } else {
        decimal(n as nat)
    }
}

/// Appends `n` in decimal, with a minus sign when it is negative.
fn push_signed_decimal(s: &mut String, n: i32)
    ensures
        final(s)@ == old(s)@ + signed_decimal(n as int),
{
    if n < 0 {
        push_char(s, '-');
        let magnitude: i64 = -(n as i64);
        push_decimal(s, magnitude as usize);
        assert(final(s)@ =~= old(s)@ + signed_decimal(n as int));
    } else {
        push_decimal(s, n as usize);
    }
}

/// The answer of the shell tool: the exit code, then the standard output and
/// the standard error under their headings.
pub open spec fn shell_tool_text(exit_code: int, stdout: Seq<char>, stderr: Seq<char>) -> Seq<char> {
    "exit_code: "@ + signed_decimal(exit_code) + "\nstdout:\n"@ + stdout + "\nstderr:\n"@ + stderr
}

/// The answer the shell tool gives for a command's output.
pub fn shell_tool_output(output: &LocalShellOutput) -> (res: String)
    ensures
        res@ == shell_tool_text(output.exit_code as int, output.stdout@, output.stderr@),
{
    let mut s = String::from_str("exit_code: ");
    push_signed_decimal(&mut s, output.exit_code);
    s.append("\nstdout:\n");
    s.append(output.stdout.as_str());
    s.append("\nstderr:\n");
    s.append(output.stderr.as_str());
    s
}

/// The answer the edit tool gives once a file is replaced.
pub fn patch_tool_output(result: &ApplyPatchResult) -> (res: String)
    ensures
        res@ == "patched "@ + result.path@,
{
    concat2("patched ", result.path.as_str())
}

/// Where a run's sandbox session comes from.
pub enum SandboxSessionPlan {
    /// A live session handed in, whose layout is brought up to date with
    /// `manifest_update` when one is given.
    Live { session: LocalSandboxSession, manifest_update: Option<Manifest> },
    /// A session resumed from its saved state.
    Resume { state: LocalSandboxSessionState },
    /// A fresh workspace, laid out by `manifest`, that the runner owns.
    Fresh { manifest: Manifest },
}

/// The manifest a fresh workspace is laid out by: the run's, else the
/// agent's default one, else an empty layout rooted at `/workspace`.
pub open spec fn fresh_manifest_ok(config_manifest: Option<Manifest>, default_manifest: Option<Manifest>, manifest: Manifest) -> bool {
    if config_manifest.is_some() {
        manifest == config_manifest.unwrap()
    } else if default_manifest.is_some() {
        manifest == default_manifest.unwrap()
    } else {
        manifest@.root == "/workspace"@ && manifest@.entries.len() == 0
    }
}

/// Whether `plan` is where the session of a run with `config` comes from.
pub open spec fn planned_session(config: SandboxRunConfig, default_manifest: Option<Manifest>, plan: SandboxSessionPlan) -> bool {
    match config.session {
        Some(session) => plan == (SandboxSessionPlan::Live { session, manifest_update: config.manifest }),
        None => match config.session_state {
            Some(state) => plan == (SandboxSessionPlan::Resume { state }),
            None => match plan {
                SandboxSessionPlan::Fresh { manifest } => fresh_manifest_ok(config.manifest, default_manifest, manifest),
                _ => false,
            },
        },
    }
}

/// Where a run's sandbox session comes from: a live session of the run's
/// settings first, else their saved state, else a fresh workspace laid out by
/// their manifest, else by the agent's default manifest, else by an empty one.
pub fn plan_sandbox_session(config: SandboxRunConfig, default_manifest: Option<Manifest>) -> (res: SandboxSessionPlan)
    ensures
        planned_session(config, default_manifest, res),
{
    let SandboxRunConfig { manifest, concurrency_limits: _, session_state, session } = config;
    match session {
        Some(session) => SandboxSessionPlan::Live { session, manifest_update: manifest },
        None => match session_state {
            Some(state) => SandboxSessionPlan::Resume { state },
            None => {
                let manifest = match manifest {
                    Some(m) => m,
                    None => match default_manifest {
                        Some(m) => m,
                        None => Manifest::new(),
                    },
                };
                SandboxSessionPlan::Fresh { manifest }
            },
        },
    }
}

/// Every tool a sandbox agent gets for its capabilities carries a sandbox
/// tool name, so restoring an agent's sandbox replaces all of them.
pub proof fn law_default_tools_are_sandbox_tools(capabilities: Seq<SandboxCapability>, i: int)
    requires
        0 <= i < tools_for(capabilities).len(),
    ensures
        is_sandbox_tool_name_spec(tool_name(tools_for(capabilities)[i])),
{
    let t = tools_for(capabilities)[i];
    assert(tool_name(t) == tool_name(t));
}

} // verus!
