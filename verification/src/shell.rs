//! Shell words, quoting and workspace path confinement for sandbox commands.
use vstd::prelude::*;

use crate::errors::{AgentsError, Result};
use crate::text::{
    char_is_whitespace, chars_contains, chars_ends_with, chars_eq, chars_of, chars_starts_with,
    concat2, concat3, contains_seq, has_prefix, has_suffix, is_blank, is_white_space, push_char,
    string_from_chars, trim_view,
};

verus! {

/// Which quote a shell word is inside.
#[derive(Clone, Copy, PartialEq, Eq, Structural)]
pub enum Quote {
    Unquoted,
    Single,
    Double,
}

/// The state of splitting a command into words.
pub struct SplitState {
    pub tokens: Seq<Seq<char>>,
    pub current: Seq<char>,
    pub quote: Quote,
    pub escaped: bool,
}

/// Reads one more character of a command.
pub open spec fn split_step(st: SplitState, ch: char) -> SplitState {
    if st.escaped {
        SplitState { current: st.current.push(ch), escaped: false, ..st }
    } else {
        match st.quote {
            Quote::Single => if ch == '\'' {
                SplitState { quote: Quote::Unquoted, ..st }
            } else {
                SplitState { current: st.current.push(ch), ..st }
            },
            Quote::Double => if ch == '"' {
                SplitState { quote: Quote::Unquoted, ..st }
            } else if ch == '\\' {
                SplitState { escaped: true, ..st }
            } else {
                SplitState { current: st.current.push(ch), ..st }
            },
            Quote::Unquoted => if ch == '\'' {
                SplitState { quote: Quote::Single, ..st }
            } else if ch == '"' {
                SplitState { quote: Quote::Double, ..st }
            } else if ch == '\\' {
                SplitState { escaped: true, ..st }
            } else if is_white_space(ch) {
                if st.current.len() > 0 {
                    SplitState { tokens: st.tokens.push(st.current), current: Seq::empty(), ..st }
                } else {
                    st
                }
            } else {
                SplitState { current: st.current.push(ch), ..st }
            },
        }
    }
}

/// The state after reading all of `cs`.
pub open spec fn split_state(cs: Seq<char>) -> SplitState
    decreases cs.len(),
{
    if cs.len() == 0 {
        SplitState {
            tokens: Seq::empty(),
            current: Seq::empty(),
            quote: Quote::Unquoted,
            escaped: false,
        }
    } else {
        split_step(split_state(cs.drop_last()), cs.last())
    }
}

/// The words of a command, split on white space outside quotes, with quotes
/// removed and backslash escapes applied; `None` when a quote is left open.
pub open spec fn shell_words(cs: Seq<char>) -> Option<Seq<Seq<char>>> {
    let st = split_state(cs);
    if st.quote != Quote::Unquoted {
        None
    } else if st.current.len() > 0 {
        Some(st.tokens.push(st.current))
    } else {
        Some(st.tokens)
    }
}

/// The characters of each string.
pub open spec fn words_view(v: Seq<String>) -> Seq<Seq<char>> {
    v.map_values(|s: String| s@)
}

/// Splits a command into shell words.
pub fn shell_like_split(command: &str) -> (res: Result<Vec<String>>)
    ensures
        match res {
            Ok(words) => shell_words(command@) == Some(words_view(words@)),
            Err(e) => shell_words(command@).is_none() && e.is_message(
                "shell command contains an unterminated quote"@,
            ),
        },
{
    let cs = chars_of(command);
    let mut tokens: Vec<String> = Vec::new();
    let mut current: Vec<char> = Vec::new();
    let mut quote = Quote::Unquoted;
    let mut escaped = false;
    let mut i: usize = 0;
    assert(words_view(tokens@) =~= Seq::<Seq<char>>::empty());
    assert(cs@.subrange(0, 0) =~= Seq::<char>::empty());
    while i < cs.len()
        invariant
            i <= cs@.len(),
            cs@ == command@,
            split_state(cs@.subrange(0, i as int)) == (SplitState {
                tokens: words_view(tokens@),
                current: current@,
                quote,
                escaped,
            }),
        decreases cs@.len() - i,
    {
        proof {
            let p = cs@.subrange(0, i + 1);
            assert(p.drop_last() =~= cs@.subrange(0, i as int));
            assert(p.last() == cs@[i as int]);
        }
        let ch = cs[i];
        if escaped {
            current.push(ch);
            escaped = false;
        } else {
            match quote {
                Quote::Single => {
                    if ch == '\'' {
                        quote = Quote::Unquoted;
                    } else {
                        current.push(ch);
                    }
                },
                Quote::Double => {
                    if ch == '"' {
                        quote = Quote::Unquoted;
                    } else if ch == '\\' {
                        escaped = true;
                    } else {
                        current.push(ch);
                    }
                },
                Quote::Unquoted => {
                    if ch == '\'' {
                        quote = Quote::Single;
                    } else if ch == '"' {
                        quote = Quote::Double;
                    } else if ch == '\\' {
                        escaped = true;
                    } else if char_is_whitespace(ch) {
                        if current.len() > 0 {
                            let ghost before = tokens@;
                            let w = string_from_chars(current.as_slice());
                            tokens.push(w);
                            assert(words_view(tokens@) =~= words_view(before).push(current@));
                            current = Vec::new();
                        }
                    } else {
                        current.push(ch);
                    }
                },
            }
        }
        i = i + 1;
    }
    assert(cs@.subrange(0, cs@.len() as int) =~= cs@);
    if quote != Quote::Unquoted {
        return Err(AgentsError::message(String::from_str("shell command contains an unterminated quote")));
    }
    if current.len() > 0 {
        let ghost before = tokens@;
        let w = string_from_chars(current.as_slice());
        tokens.push(w);
        assert(words_view(tokens@) =~= words_view(before).push(current@));
    }
    Ok(tokens)
}

/// The segments of a path between `/` separators.
pub open spec fn path_segments(s: Seq<char>) -> Seq<Seq<char>>
    decreases s.len(),
{
    if s.len() == 0 {
        seq![Seq::empty()]
    } else {
        let prev = path_segments(s.drop_last());
        if s.last() == '/' {
            prev.push(Seq::empty())
        } else {
            prev.update(prev.len() - 1, prev.last().push(s.last()))
        }
    }
}

/// The segments that name something: not empty and not `.`.
pub open spec fn named_segments(segs: Seq<Seq<char>>) -> Seq<Seq<char>>
    decreases segs.len(),
{
    if segs.len() == 0 {
        segs
    } else {
        let prev = named_segments(segs.drop_last());
        let s = segs.last();
        if s.len() == 0 || s == "."@ {
            prev
        } else {
            prev.push(s)
        }
    }
}

/// The components of a Unix path, as `Path::components` gives them: `/` for the
/// root, `.` for a leading current directory, then each named segment (`..`
/// included) in order.
pub open spec fn path_components(s: Seq<char>) -> Seq<Seq<char>> {
    let segs = path_segments(s);
    let head: Seq<Seq<char>> = if s.len() > 0 && s[0] == '/' {
        seq!["/"@]
    } else if segs[0] == "."@ {
        seq!["."@]
    } else {
        Seq::empty()
    };
    head + named_segments(segs)
}

/// Whether path `p` starts with path `base`, component by component.
pub open spec fn path_starts_with(p: Seq<char>, base: Seq<char>) -> bool {
    let a = path_components(p);
    let b = path_components(base);
    b.len() <= a.len() && a.subrange(0, b.len() as int) == b
}

/// The segments of a path have at least one element.
proof fn lemma_path_segments_nonempty(s: Seq<char>)
    ensures
        path_segments(s).len() >= 1,
    decreases s.len(),
{
    if s.len() > 0 {
        lemma_path_segments_nonempty(s.drop_last());
    }
}

/// The string of each component.
pub(crate) fn path_components_exec(s: &str) -> (res: Vec<Vec<char>>)
    ensures
        res@.map_values(|v: Vec<char>| v@) == path_components(s@),
{
    let cs = chars_of(s);
    let mut segs: Vec<Vec<char>> = Vec::new();
    segs.push(Vec::new());
    let mut i: usize = 0;
    assert(segs@.map_values(|v: Vec<char>| v@) =~= path_segments(cs@.subrange(0, 0)));
    while i < cs.len()
        invariant
            i <= cs@.len(),
            cs@ == s@,
            segs@.len() >= 1,
            segs@.map_values(|v: Vec<char>| v@) =~= path_segments(cs@.subrange(0, i as int)),
        decreases cs@.len() - i,
    {
        proof {
            let p = cs@.subrange(0, i + 1);
            assert(p.drop_last() =~= cs@.subrange(0, i as int));
            assert(p.last() == cs@[i as int]);
        }
        let ghost before = segs@;
        if cs[i] == '/' {
            segs.push(Vec::new());
            assert(segs@.map_values(|v: Vec<char>| v@) =~= before.map_values(|v: Vec<char>| v@).push(
                Seq::empty(),
            ));
        } else {
            let last = segs.len() - 1;
            let mut seg = segs.remove(last);
            seg.push(cs[i]);
            segs.push(seg);
            assert(segs@.map_values(|v: Vec<char>| v@) =~= before.map_values(|v: Vec<char>| v@).update(
                last as int,
                before[last as int]@.push(cs@[i as int]),
            ));
        }
        i = i + 1;
    }
    assert(cs@.subrange(0, cs@.len() as int) =~= cs@);
    let ghost sv = segs@.map_values(|v: Vec<char>| v@);
    let dot = chars_of(".");
    let mut out: Vec<Vec<char>> = Vec::new();
    if cs.len() > 0 && cs[0] == '/' {
        out.push(chars_of("/"));
    } else if chars_eq(&segs[0], &dot) {
        out.push(chars_of("."));
    }
    let ghost head = out@.map_values(|v: Vec<char>| v@);
    let mut j: usize = 0;
    while j < segs.len()
        invariant
            j <= segs@.len(),
            sv == segs@.map_values(|v: Vec<char>| v@),
            dot@ == "."@,
            out@.map_values(|v: Vec<char>| v@) =~= head + named_segments(sv.subrange(0, j as int)),
        decreases segs@.len() - j,
    {
        proof {
            let p = sv.subrange(0, j + 1);
            assert(p.drop_last() =~= sv.subrange(0, j as int));
            assert(p.last() == segs@[j as int]@);
        }
        let ghost before = out@;
        if segs[j].len() > 0 && !chars_eq(&segs[j], &dot) {
            let mut copy: Vec<char> = Vec::new();
            let mut k: usize = 0;
            while k < segs[j].len()
                invariant
                    j < segs@.len(),
                    k <= segs@[j as int]@.len(),
                    copy@ =~= segs@[j as int]@.subrange(0, k as int),
                decreases segs@[j as int]@.len() - k,
            {
                copy.push(segs[j][k]);
                k = k + 1;
            }
            assert(copy@ =~= segs@[j as int]@);
            out.push(copy);
            assert(out@.map_values(|v: Vec<char>| v@) =~= before.map_values(|v: Vec<char>| v@).push(
                segs@[j as int]@,
            ));
        }
        j = j + 1;
    }
    assert(sv.subrange(0, sv.len() as int) =~= sv);
    out
}

/// Whether path `p` starts with path `base`, component by component.
pub fn path_starts_with_exec(p: &str, base: &str) -> (res: bool)
    ensures
        res == path_starts_with(p@, base@),
{
    let a = path_components_exec(p);
    let b = path_components_exec(base);
    let ghost av = a@.map_values(|v: Vec<char>| v@);
    let ghost bv = b@.map_values(|v: Vec<char>| v@);
    if b.len() > a.len() {
        return false;
    }
    let mut i: usize = 0;
    while i < b.len()
        invariant
            i <= b@.len(),
            b@.len() <= a@.len(),
            av == a@.map_values(|v: Vec<char>| v@),
            bv == b@.map_values(|v: Vec<char>| v@),
            av == path_components(p@),
            bv == path_components(base@),
            forall|k: int| 0 <= k < i ==> av[k] == bv[k],
        decreases b@.len() - i,
    {
        if !chars_eq(&a[i], &b[i]) {
            assert(av[i as int] == a@[i as int]@);
            assert(bv[i as int] == b@[i as int]@);
            assert(av.subrange(0, bv.len() as int)[i as int] != bv[i as int]);
            return false;
        }
        i = i + 1;
    }
    assert(av.subrange(0, bv.len() as int) =~= bv);
    true
}

/// Whether a shell word could climb out of the workspace through `..`.
pub open spec fn climbs_out(token: Seq<char>) -> bool {
    token == ".."@ || has_prefix(token, "../"@) || contains_seq(token, "/../"@) || has_suffix(
        token,
        "/.."@,
    )
}

/// Whether a shell word names an absolute path outside the logical root.
pub open spec fn absolute_outside(token: Seq<char>, logical_root: Seq<char>) -> bool {
    has_prefix(token, "/"@) && !path_starts_with(token, logical_root)
}

/// Whether every word of a command stays inside the workspace.
pub open spec fn command_confined(words: Seq<Seq<char>>, logical_root: Seq<char>) -> bool {
    forall|i: int|
        0 <= i < words.len() ==> !climbs_out(#[trigger] words[i]) && !absolute_outside(
            words[i],
            logical_root,
        )
}

/// Refuses a command with an open quote, or with a word that climbs out of the
/// workspace through `..` or names an absolute path outside the logical root.
pub fn validate_shell_command(logical_root: &str, command: &str) -> (res: Result<()>)
    ensures
        res.is_ok() == (match shell_words(command@) {
            Some(words) => command_confined(words, logical_root@),
            None => false,
        }),
        res matches Err(e) ==> (match shell_words(command@) {
            Some(_) => e.is_message("shell command must stay within the sandbox workspace"@),
            None => e.is_message("shell command contains an unterminated quote"@),
        }),
{
    let tokens = match shell_like_split(command) {
        Ok(t) => t,
        Err(e) => {
            return Err(e);
        },
    };
    let dotdot = chars_of("..");
    let up = chars_of("../");
    let mid = chars_of("/../");
    let tail = chars_of("/..");
    let slash = chars_of("/");
    let mut i: usize = 0;
    while i < tokens.len()
        invariant
            i <= tokens@.len(),
            shell_words(command@) == Some(words_view(tokens@)),
            dotdot@ == ".."@,
            up@ == "../"@,
            mid@ == "/../"@,
            tail@ == "/.."@,
            slash@ == "/"@,
            forall|k: int|
                0 <= k < i ==> !climbs_out(#[trigger] tokens@[k]@) && !absolute_outside(
                    tokens@[k]@,
                    logical_root@,
                ),
        decreases tokens@.len() - i,
    {
        let t = chars_of(tokens[i].as_str());
        if chars_eq(&t, &dotdot) || chars_starts_with(&t, &up) || chars_contains(&t, &mid)
            || chars_ends_with(&t, &tail) {
            assert(climbs_out(words_view(tokens@)[i as int]));
            return Err(AgentsError::message(String::from_str("shell command must stay within the sandbox workspace")));
        }
        if chars_starts_with(&t, &slash) && !path_starts_with_exec(tokens[i].as_str(), logical_root) {
            assert(absolute_outside(words_view(tokens@)[i as int], logical_root@));
            return Err(AgentsError::message(String::from_str("shell command must stay within the sandbox workspace")));
        }
        i = i + 1;
    }
    assert(command_confined(words_view(tokens@), logical_root@)) by {
        assert forall|k: int| 0 <= k < words_view(tokens@).len() implies !climbs_out(
            #[trigger] words_view(tokens@)[k],
        ) && !absolute_outside(words_view(tokens@)[k], logical_root@) by {
            assert(words_view(tokens@)[k] == tokens@[k]@);
        }
    }
    Ok(())
}

/// `s` with every `c` replaced by `r`.
pub open spec fn replace_char(s: Seq<char>, c: char, r: Seq<char>) -> Seq<char>
    decreases s.len(),
{
    if s.len() == 0 {
        s
    } else {
        replace_char(s.drop_last(), c, r) + if s.last() == c {
            r
        } else {
            seq![s.last()]
        }
    }
}

/// Replaces every `c` in `s` by `r`.
pub fn replace_all(s: &str, c: char, r: &str) -> (res: String)
    ensures
        res@ == replace_char(s@, c, r@),
{
    let cs = chars_of(s);
    let mut out = String::new();
    let mut i: usize = 0;
    while i < cs.len()
        invariant
            i <= cs@.len(),
            cs@ == s@,
            out@ == replace_char(cs@.subrange(0, i as int), c, r@),
        decreases cs@.len() - i,
    {
        proof {
            let p = cs@.subrange(0, i + 1);
            assert(p.drop_last() =~= cs@.subrange(0, i as int));
            assert(p.last() == cs@[i as int]);
        }
        if cs[i] == c {
            out.append(r);
        } else {
            let ghost before = out@;
            push_char(&mut out, cs[i]);
            assert(out@ =~= before + seq![cs@[i as int]]);
        }
        i = i + 1;
    }
    assert(cs@.subrange(0, cs@.len() as int) =~= cs@);
    out
}

/// Quotes a value for a POSIX shell: inside single quotes, each `'` written as `'"'"'`.
pub fn shell_single_quote(value: &str) -> (res: String)
    ensures
        res@ == "'"@ + replace_char(value@, '\'', "'\"'\"'"@) + "'"@,
{
    let inner = replace_all(value, '\'', "'\"'\"'");
    concat3("'", inner.as_str(), "'")
}

/// The command run in the workspace: change into it, then run `command`.
pub fn workspace_shell_command(workspace_root: &str, command: &str) -> (res: String)
    ensures
        res@ == "cd "@ + ("'"@ + replace_char(workspace_root@, '\'', "'\"'\"'"@) + "'"@)
            + " && "@ + command@,
{
    let q = shell_single_quote(workspace_root);
    let a = concat3("cd ", q.as_str(), " && ");
    concat2(a.as_str(), command)
}

/// A path written as a sandbox-profile string literal: quoted, with `\` and `"` escaped.
pub fn sandbox_profile_literal(path: &str) -> (res: String)
    ensures
        res@ == "\""@ + replace_char(replace_char(path@, '\\', "\\\\"@), '"', "\\\""@) + "\""@,
{
    let a = replace_all(path, '\\', "\\\\");
    let b = replace_all(a.as_str(), '"', "\\\"");
    concat3("\"", b.as_str(), "\"")
}

/// Whether a path starts at the root.
pub open spec fn is_absolute(s: Seq<char>) -> bool {
    s.len() > 0 && s[0] == '/'
}

/// The components a requested path leaves below the workspace: for an absolute
/// path, what follows the logical root; `None` when the request is blank, leaves
/// the logical root, or climbs out through `..`.
pub open spec fn workspace_relative(logical_root: Seq<char>, requested: Seq<char>) -> Option<
    Seq<Seq<char>>,
> {
    if trim_view(requested).len() == 0 {
        None
    } else {
        let comps = path_components(requested);
        let base = path_components(logical_root);
        let rel = if is_absolute(requested) {
            if path_starts_with(requested, logical_root) {
                Some(comps.subrange(base.len() as int, comps.len() as int))
            } else {
                None
            }
        } else {
            Some(comps)
        };
        match rel {
            None => None,
            Some(r) => if has_parent_component(r) {
                None
            } else {
                Some(named_parts(r))
            },
        }
    }
}

/// Whether a component list climbs up through `..`.
pub open spec fn has_parent_component(r: Seq<Seq<char>>) -> bool {
    exists|i: int| 0 <= i < r.len() && #[trigger] r[i] == ".."@
}

/// The components that name a directory entry (not the root or `.`).
pub open spec fn named_parts(r: Seq<Seq<char>>) -> Seq<Seq<char>>
    decreases r.len(),
{
    if r.len() == 0 {
        r
    } else {
        let prev = named_parts(r.drop_last());
        if r.last() == "."@ || r.last() == "/"@ {
            prev
        } else {
            prev.push(r.last())
        }
    }
}

/// `base` with `part` appended as a new component.
pub open spec fn join_path(base: Seq<char>, part: Seq<char>) -> Seq<char> {
    if base.len() == 0 {
        part
    } else if base.last() == '/' {
        base + part
    } else {
        base + "/"@ + part
    }
}

/// `base` with each part appended in turn.
pub open spec fn join_all(base: Seq<char>, parts: Seq<Seq<char>>) -> Seq<char>
    decreases parts.len(),
{
    if parts.len() == 0 {
        base
    } else {
        join_path(join_all(base, parts.drop_last()), parts.last())
    }
}

/// The host path a request inside the sandbox names.
pub open spec fn resolved_path(workspace_root: Seq<char>, logical_root: Seq<char>, requested: Seq<
    char,
>) -> Option<Seq<char>> {
    match workspace_relative(logical_root, requested) {
        Some(parts) => Some(join_all(workspace_root, parts)),
        None => None,
    }
}

/// Maps a path requested inside the sandbox to the host path under the workspace
/// root; refuses blank requests, absolute paths outside the logical root, and `..`.
pub fn resolve_workspace_path(workspace_root: &str, logical_root: &str, requested: &str) -> (res:
    Result<String>)
    ensures
        match res {
            Ok(p) => resolved_path(workspace_root@, logical_root@, requested@) == Some(p@),
            Err(e) => resolved_path(workspace_root@, logical_root@, requested@).is_none()
                && e.is_message("path must stay within the sandbox workspace"@),
        },
{
    if is_blank(requested) {
        return Err(AgentsError::message(String::from_str("path must stay within the sandbox workspace")));
    }
    let comps = path_components_exec(requested);
    let ghost cv = comps@.map_values(|v: Vec<char>| v@);
    let rc = chars_of(requested);
    let absolute = rc.len() > 0 && rc[0] == '/';
    let start: usize = if absolute {
        if !path_starts_with_exec(requested, logical_root) {
            return Err(AgentsError::message(String::from_str("path must stay within the sandbox workspace")));
        }
        let base = path_components_exec(logical_root);
        base.len()
    } else {
        0
    };
    let ghost rel = cv.subrange(start as int, cv.len() as int);
    proof {
        if !absolute {
            assert(rel =~= cv);
        }
    }
    let dotdot = chars_of("..");
    let dot = chars_of(".");
    let slash = chars_of("/");
    let mut candidate = String::from_str(workspace_root);
    let mut k: usize = start;
    while k < comps.len()
        invariant
            start <= k <= comps@.len(),
            cv == comps@.map_values(|v: Vec<char>| v@),
            rel == cv.subrange(start as int, cv.len() as int),
            dotdot@ == ".."@,
            dot@ == "."@,
            slash@ == "/"@,
            forall|m: int| start <= m < k ==> cv[m] != ".."@,
            trim_view(requested@).len() > 0,
            cv == path_components(requested@),
            is_absolute(requested@) ==> path_starts_with(requested@, logical_root@) && start
                == path_components(logical_root@).len(),
            !is_absolute(requested@) ==> start == 0,
            candidate@ == join_all(workspace_root@, named_parts(rel.subrange(0, k - start))),
        decreases comps@.len() - k,
    {
        proof {
            let p = rel.subrange(0, k - start + 1);
            assert(p.drop_last() =~= rel.subrange(0, k - start));
            assert(p.last() == cv[k as int]);
        }
        if chars_eq(&comps[k], &dotdot) {
            assert(cv[k as int] == comps@[k as int]@);
            assert(rel[k - start] == ".."@);
            proof {
                if is_absolute(requested@) {
                    let r = cv.subrange(path_components(logical_root@).len() as int, cv.len() as int);
                    assert(r =~= rel);
                    assert(r[k - start] == ".."@);
                    assert(exists|i: int| 0 <= i < r.len() && #[trigger] r[i] == ".."@);
                } else {
                    let r = cv;
                    assert(r[k as int] == ".."@);
                    assert(exists|i: int| 0 <= i < r.len() && #[trigger] r[i] == ".."@);
                }
                assert(workspace_relative(logical_root@, requested@).is_none());
            }
            return Err(AgentsError::message(String::from_str("path must stay within the sandbox workspace")));
        }
        proof {
            let p = rel.subrange(0, k - start + 1);
            if cv[k as int] != "."@ && cv[k as int] != "/"@ {
                assert(named_parts(p) == named_parts(p.drop_last()).push(cv[k as int]));
                assert(named_parts(p).drop_last() =~= named_parts(p.drop_last()));
            }
        }
        if !chars_eq(&comps[k], &dot) && !chars_eq(&comps[k], &slash) {
            let part = string_from_chars(comps[k].as_slice());
            let ghost before = candidate@;
            let cl = candidate.unicode_len();
            if cl == 0 {
                candidate = part;
            } else if candidate.as_str().get_char(cl - 1) == '/' {
                candidate.append(part.as_str());
            } else {
                candidate.append("/");
                candidate.append(part.as_str());
                assert(candidate@ =~= before + "/"@ + part@);
            }
        }
        k = k + 1;
    }
    assert(rel.subrange(0, (comps@.len() - start) as int) =~= rel);
    assert(!has_parent_component(rel)) by {
        assert forall|i: int| 0 <= i < rel.len() implies #[trigger] rel[i] != ".."@ by {
            assert(rel[i] == cv[start + i]);
        }
    }
    Ok(candidate)
}

} // verus!
