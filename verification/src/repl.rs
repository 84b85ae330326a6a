//! The decision of an interactive demo loop on each line the user typed:
//! leave, skip the line, or run the agent with the line added as a user
//! message.
use vstd::prelude::*;

use crate::items::{inputs_view, InputItem, InputView};
use crate::json::{lemma_members_view, Json, JsonMember, JsonValue};
use crate::text::{char_is_whitespace, chars_of, is_white_space, string_from_chars, trim_end_view};

verus! {

/// Whether `s` is a word given in lower case (`lower`) and in upper case
/// (`upper`), each letter in either case.
pub open spec fn is_word_any_case(s: Seq<char>, lower: Seq<char>, upper: Seq<char>) -> bool {
    &&& s.len() == lower.len()
    &&& forall|i: int| 0 <= i < s.len() ==> #[trigger] s[i] == lower[i] || s[i] == upper[i]
}

/// Whether a line asks to leave: `exit` or `quit`, in any letter case.
pub open spec fn is_exit_line(s: Seq<char>) -> bool {
    is_word_any_case(s, "exit"@, "EXIT"@) || is_word_any_case(s, "quit"@, "QUIT"@)
}

/// The user message a line becomes.
pub open spec fn user_message(text: Seq<char>) -> Json {
    Json::Object(seq![("content"@, Json::Str(text)), ("role"@, Json::Str("user"@))])
}

/// What the demo loop does with a line.
pub enum DemoStep {
    /// The user leaves.
    Exit,
    /// The line is blank; the conversation stays as it was.
    Skip { input_items: Vec<InputItem> },
    /// The agent runs on the conversation with the line added.
    Run { input_items: Vec<InputItem> },
}

/// The characters of `s` without trailing white space.
fn trim_end_chars(s: &str) -> (res: Vec<char>)
    ensures
        res@ == trim_end_view(s@),
{
    let v = chars_of(s);
    let mut j: usize = v.len();
    assert(v@.subrange(0, j as int) =~= v@);
    while j > 0 && char_is_whitespace(v[j - 1])
        invariant
            j <= v@.len(),
            v@ == s@,
            trim_end_view(v@) == trim_end_view(v@.subrange(0, j as int)),
        decreases j,
    {
        assert(v@.subrange(0, j as int).drop_last() =~= v@.subrange(0, j - 1));
        j = j - 1;
    }
    let mut out: Vec<char> = Vec::new();
    let mut k: usize = 0;
    while k < j
        invariant
            k <= j <= v@.len(),
            out@ =~= v@.subrange(0, k as int),
        decreases j - k,
    {
        out.push(v[k]);
        k = k + 1;
    }
    assert(out@ =~= v@.subrange(0, j as int));
    proof {
        if j > 0 {
            assert(!is_white_space(v@.subrange(0, j as int).last()));
        }
    }
    out
}

/// Whether `s` is the word given in lower and upper case, each letter in
/// either case.
fn word_any_case(s: &Vec<char>, lower: &str, upper: &str) -> (res: bool)
    requires
        lower@.len() == upper@.len(),
    ensures
        res == is_word_any_case(s@, lower@, upper@),
{
    let l = chars_of(lower);
    let u = chars_of(upper);
    if s.len() != l.len() {
        return false;
    }
    let mut i: usize = 0;
    while i < s.len()
        invariant
            i <= s@.len(),
            s@.len() == l@.len(),
            l@.len() == u@.len(),
            l@ == lower@,
            u@ == upper@,
            forall|k: int| 0 <= k < i ==> #[trigger] s@[k] == l@[k] || s@[k] == u@[k],
        decreases s@.len() - i,
    {
        if !(s[i] == l[i] || s[i] == u[i]) {
            return false;
        }
        i = i + 1;
    }
    true
}

/// What the demo loop does with the line `line` typed after the
/// conversation `input_items`: with trailing white space trimmed, `exit` or
/// `quit` in any letter case leaves; a blank line is skipped; any other line
/// is added to the conversation as a user message and the agent runs.
pub fn demo_loop_step(line: &str, input_items: Vec<InputItem>) -> (res: DemoStep)
    ensures
        ({
            let t = trim_end_view(line@);
            if is_exit_line(t) {
                res is Exit
            } else if t.len() == 0 {
                res matches DemoStep::Skip { input_items: kept } && kept == input_items
            } else {
                res matches DemoStep::Run { input_items: grown } && inputs_view(grown@) == inputs_view(
                    input_items@,
                ).push(InputView::Json(user_message(t)))
            }
        }),
{
    let t = trim_end_chars(line);
    proof {
        reveal_strlit("exit");
        reveal_strlit("EXIT");
        reveal_strlit("quit");
        reveal_strlit("QUIT");
    }
    if word_any_case(&t, "exit", "EXIT") || word_any_case(&t, "quit", "QUIT") {
        return DemoStep::Exit;
    }
    if t.len() == 0 {
        return DemoStep::Skip { input_items };
    }
    let mut members: Vec<JsonMember> = Vec::new();
    members.push(JsonMember { key: String::from_str("content"), value: JsonValue::String(string_from_chars(t.as_slice())) });
    members.push(JsonMember { key: String::from_str("role"), value: JsonValue::String(String::from_str("user")) });
    proof {
        lemma_members_view(members@);
        assert(crate::json::members_view(members@) =~= seq![("content"@, Json::Str(t@)), ("role"@, Json::Str("user"@))]);
    }
    let mut grown = input_items;
    let ghost before = grown@;
    grown.push(InputItem::Json { value: JsonValue::Object(members) });
    assert(inputs_view(grown@) =~= inputs_view(before).push(InputView::Json(user_message(t@))));
    DemoStep::Run { input_items: grown }
}

} // verus!
