//! Splitting text into pieces and lines, finding substrings, and reading and
//! writing decimal numbers, as `str` and `usize` do it.
use vstd::prelude::*;

use crate::text::{chars_occur_at, occurs_at, push_char, string_from_chars};

verus! {

/// The pieces of `s` between occurrences of `c` (one more than there are `c`s).
pub open spec fn split_on(s: Seq<char>, c: char) -> Seq<Seq<char>>
    decreases s.len(),
{
    if s.len() == 0 {
        seq![Seq::empty()]
    } else {
        let prev = split_on(s.drop_last(), c);
        if s.last() == c {
            prev.push(Seq::empty())
        } else {
            prev.update(prev.len() - 1, prev.last().push(s.last()))
        }
    }
}

/// Splitting never gives no piece.
pub proof fn lemma_split_on_nonempty(s: Seq<char>, c: char)
    ensures
        split_on(s, c).len() >= 1,
    decreases s.len(),
{
    if s.len() > 0 {
        lemma_split_on_nonempty(s.drop_last(), c);
    }
}

/// A line as `str::lines` gives it: a piece followed by a line feed loses one
/// trailing carriage return.
pub open spec fn strip_cr(line: Seq<char>) -> Seq<char> {
    if line.len() > 0 && line.last() == '\r' {
        line.drop_last()
    } else {
        line
    }
}

/// The lines of `s` as `str::lines` gives them: the pieces between line feeds,
/// each that was followed by a line feed without a trailing carriage return,
/// and no last line when `s` is empty or ends with a line feed.
pub open spec fn lines_of(s: Seq<char>) -> Seq<Seq<char>> {
    let pieces = split_on(s, '\n');
    let init = pieces.drop_last().map_values(|p: Seq<char>| strip_cr(p));
    if pieces.last().len() == 0 {
        init
    } else {
        init.push(pieces.last())
    }
}

/// Splits `s` at every `c`.
pub fn split_chars(s: &Vec<char>, c: char) -> (res: Vec<Vec<char>>)
    ensures
        res@.map_values(|p: Vec<char>| p@) == split_on(s@, c),
{
    let mut pieces: Vec<Vec<char>> = Vec::new();
    let mut cur: Vec<char> = Vec::new();
    let mut i: usize = 0;
    assert(s@.subrange(0, 0) =~= Seq::<char>::empty());
    while i < s.len()
        invariant
            i <= s@.len(),
            pieces@.map_values(|p: Vec<char>| p@).push(cur@) == split_on(s@.subrange(0, i as int), c),
        decreases s@.len() - i,
    {
        let ghost pre = s@.subrange(0, i as int);
        let ghost done = pieces@.map_values(|p: Vec<char>| p@);
        assert(s@.subrange(0, i + 1).drop_last() =~= pre);
        assert(s@.subrange(0, i + 1).last() == s@[i as int]);
        if s[i] == c {
            let finished = cur;
            cur = Vec::new();
            pieces.push(finished);
            assert(pieces@.map_values(|p: Vec<char>| p@) =~= done.push(finished@));
            assert(pieces@.map_values(|p: Vec<char>| p@).push(cur@) =~= done.push(finished@).push(
                Seq::<char>::empty(),
            ));
        } else {
            let ghost old_cur = cur@;
            cur.push(s[i]);
            assert(done.push(cur@) =~= done.push(old_cur).update(done.len() as int, old_cur.push(s@[i as int])));
        }
        i = i + 1;
    }
    assert(s@.subrange(0, s@.len() as int) =~= s@);
    let ghost done = pieces@.map_values(|p: Vec<char>| p@);
    let last = cur;
    pieces.push(last);
    assert(pieces@.map_values(|p: Vec<char>| p@) =~= done.push(last@));
    pieces
}

/// The lines of `s`, as `str::lines` gives them.
pub fn lines(s: &Vec<char>) -> (res: Vec<Vec<char>>)
    ensures
        res@.map_values(|p: Vec<char>| p@) == lines_of(s@),
{
    let pieces = split_chars(s, '\n');
    let ghost pv = pieces@.map_values(|p: Vec<char>| p@);
    proof {
        lemma_split_on_nonempty(s@, '\n');
    }
    let n = pieces.len();
    let mut out: Vec<Vec<char>> = Vec::new();
    let mut i: usize = 0;
    while i + 1 < n
        invariant
            n == pieces@.len(),
            n >= 1,
            pv == pieces@.map_values(|p: Vec<char>| p@),
            i + 1 <= n,
            out@.map_values(|p: Vec<char>| p@) == pv.drop_last().subrange(0, i as int).map_values(
                |p: Seq<char>| strip_cr(p),
            ),
        decreases n - i,
    {
        let ghost before = out@.map_values(|p: Vec<char>| p@);
        let piece = &pieces[i];
        let mut line: Vec<char> = Vec::new();
        let len = piece.len();
        let keep = if len > 0 && piece[len - 1] == '\r' {
            len - 1
        } else {
            len
        };
        let mut k: usize = 0;
        while k < keep
            invariant
                k <= keep,
                keep <= piece@.len(),
                line@ == piece@.subrange(0, k as int),
            decreases keep - k,
        {
            line.push(piece[k]);
            assert(line@ =~= piece@.subrange(0, k + 1));
            k = k + 1;
        }
        assert(pv[i as int] == piece@);
        assert(line@ =~= strip_cr(piece@));
        out.push(line);
        assert(out@.map_values(|p: Vec<char>| p@) =~= before.push(strip_cr(piece@)));
        assert(pv.drop_last().subrange(0, i + 1).map_values(|p: Seq<char>| strip_cr(p))
            =~= pv.drop_last().subrange(0, i as int).map_values(|p: Seq<char>| strip_cr(p)).push(
            strip_cr(pv[i as int]),
        ));
        i = i + 1;
    }
    assert(pv.drop_last().subrange(0, (n - 1) as int) =~= pv.drop_last());
    let last = &pieces[n - 1];
    assert(pv.last() == last@);
    if last.len() > 0 {
        let ghost before = out@.map_values(|p: Vec<char>| p@);
        let mut copy: Vec<char> = Vec::new();
        let mut k: usize = 0;
        while k < last.len()
            invariant
                k <= last@.len(),
                copy@ == last@.subrange(0, k as int),
            decreases last@.len() - k,
        {
            copy.push(last[k]);
            assert(copy@ =~= last@.subrange(0, k + 1));
            k = k + 1;
        }
        assert(copy@ =~= last@);
        out.push(copy);
        assert(out@.map_values(|p: Vec<char>| p@) =~= before.push(last@));
    }
    out
}

/// The first position at or after `i` where `p` occurs in `s`.
pub open spec fn find_from(s: Seq<char>, p: Seq<char>, i: int) -> Option<int>
    decreases s.len() + 1 - i,
{
    if i < 0 || i + p.len() > s.len() {
        None
    } else if occurs_at(s, p, i) {
        Some(i)
    } else {
        find_from(s, p, i + 1)
    }
}

/// The first position where `p` occurs in `s`, as `str::find` gives it.
pub open spec fn find_seq(s: Seq<char>, p: Seq<char>) -> Option<int> {
    find_from(s, p, 0)
}

/// A found position is where the pattern occurs.
pub proof fn lemma_find_from(s: Seq<char>, p: Seq<char>, i: int)
    ensures
        find_from(s, p, i) matches Some(j) ==> i <= j && occurs_at(s, p, j),
    decreases s.len() + 1 - i,
{
    if !(i < 0 || i + p.len() > s.len()) && !occurs_at(s, p, i) {
        lemma_find_from(s, p, i + 1);
    }
}

/// The first position where `p` occurs in `s`.
pub fn find_chars(s: &Vec<char>, p: &Vec<char>) -> (res: Option<usize>)
    ensures
        match res {
            Some(i) => find_seq(s@, p@) == Some(i as int),
            None => find_seq(s@, p@).is_none(),
        },
{
    if p.len() > s.len() {
        return None;
    }
    let limit = s.len() - p.len();
    let mut i: usize = 0;
    loop
        invariant
            limit + p@.len() == s@.len(),
            i <= limit,
            find_seq(s@, p@) == find_from(s@, p@, i as int),
        decreases limit - i,
    {
        if chars_occur_at(s, p, i) {
            return Some(i);
        }
        if i == limit {
            assert(find_from(s@, p@, i + 1).is_none());
            return None;
        }
        i = i + 1;
    }
}

/// The first position of `c` in `s` at or after `i`.
pub open spec fn char_from(s: Seq<char>, c: char, i: int) -> Option<int>
    decreases s.len() - i,
{
    if i < 0 || i >= s.len() {
        None
    } else if s[i] == c {
        Some(i)
    } else {
        char_from(s, c, i + 1)
    }
}

/// The text before and after the first `c` in `s`, as `str::split_once` gives it.
pub open spec fn split_once_spec(s: Seq<char>, c: char) -> Option<(Seq<char>, Seq<char>)> {
    match char_from(s, c, 0) {
        Some(i) => Some((s.subrange(0, i), s.subrange(i + 1, s.len() as int))),
        None => None,
    }
}

/// A found position holds the character.
pub proof fn lemma_char_from(s: Seq<char>, c: char, i: int)
    ensures
        char_from(s, c, i) matches Some(j) ==> 0 <= i <= j < s.len() && s[j] == c,
    decreases s.len() - i,
{
    if !(i < 0 || i >= s.len()) && s[i] != c {
        lemma_char_from(s, c, i + 1);
    }
}

/// Splits `s` at its first `c`.
pub fn split_once(s: &Vec<char>, c: char) -> (res: Option<(Vec<char>, Vec<char>)>)
    ensures
        match res {
            Some((a, b)) => split_once_spec(s@, c) == Some((a@, b@)),
            None => split_once_spec(s@, c).is_none(),
        },
{
    let mut i: usize = 0;
    while i < s.len()
        invariant
            i <= s@.len(),
            char_from(s@, c, 0) == char_from(s@, c, i as int),
        decreases s@.len() - i,
    {
        if s[i] == c {
            let a = slice_chars(s, 0, i);
            let b = slice_chars(s, i + 1, s.len());
            return Some((a, b));
        }
        i = i + 1;
    }
    None
}

/// The value of a string of decimal digits.
pub open spec fn digits_value(d: Seq<char>) -> nat
    decreases d.len(),
{
    if d.len() == 0 {
        0
    } else {
        digits_value(d.drop_last()) * 10 + ((d.last() as nat) - ('0' as nat)) as nat
    }
}

/// Whether every character of `d` is an ASCII digit.
pub open spec fn all_digits(d: Seq<char>) -> bool {
    forall|i: int| 0 <= i < d.len() ==> '0' <= #[trigger] d[i] <= '9'
}

/// Whether `s` reads as a `usize`, as `str::parse::<usize>` accepts it: an
/// optional `+`, then at least one ASCII digit, with a value that fits.
pub open spec fn parses_as_usize(s: Seq<char>) -> bool {
    let d = if s.len() > 0 && s[0] == '+' {
        s.subrange(1, s.len() as int)
    } else {
        s
    };
    d.len() > 0 && all_digits(d) && digits_value(d) <= usize::MAX
}

/// The value of the digits of `d` grows as digits are added.
proof fn lemma_digits_value_grows(d: Seq<char>, k: int)
    requires
        0 <= k <= d.len(),
        all_digits(d),
    ensures
        digits_value(d.subrange(0, k)) <= digits_value(d),
    decreases d.len() - k,
{
    if k < d.len() {
        lemma_digits_value_grows(d, k + 1);
        assert(d.subrange(0, k + 1).drop_last() =~= d.subrange(0, k));
        assert('0' <= d.subrange(0, k + 1).last() <= '9');
    } else {
        assert(d.subrange(0, k) =~= d);
    }
}

/// Whether `s` reads as a `usize`.
pub fn parses_usize(s: &Vec<char>) -> (res: bool)
    ensures
        res == parses_as_usize(s@),
{
    let start: usize = if s.len() > 0 && s[0] == '+' {
        1
    } else {
        0
    };
    let ghost d = s@.subrange(start as int, s@.len() as int);
    proof {
        if start == 0 {
            assert(d =~= s@);
        }
    }
    assert(parses_as_usize(s@) == (d.len() > 0 && all_digits(d) && digits_value(d) <= usize::MAX));
    if start >= s.len() {
        return false;
    }
    let mut value: usize = 0;
    let mut i: usize = start;
    while i < s.len()
        invariant
            start <= i <= s@.len(),
            d == s@.subrange(start as int, s@.len() as int),
            parses_as_usize(s@) == (d.len() > 0 && all_digits(d) && digits_value(d) <= usize::MAX),
            all_digits(s@.subrange(start as int, i as int)),
            value as nat == digits_value(s@.subrange(start as int, i as int)),
        decreases s@.len() - i,
    {
        let ghost pre = s@.subrange(start as int, i as int);
        let ghost next = s@.subrange(start as int, i + 1);
        assert(next.drop_last() =~= pre);
        assert(next.last() == s@[i as int]);
        let ch = s[i];
        if !('0' <= ch && ch <= '9') {
            assert(d[i - start] == ch);
            assert(!('0' <= d[i - start] <= '9'));
            return false;
        }
        let digit: u32 = (ch as u32) - ('0' as u32);
        proof {
            assert(all_digits(next)) by {
                assert forall|k: int| 0 <= k < next.len() implies '0' <= #[trigger] next[k] <= '9' by {
                    if k < pre.len() {
                        assert(next[k] == pre[k]);
                    }
                }
            }
            assert(digits_value(next) == digits_value(pre) * 10 + digit);
            assert(next =~= d.subrange(0, i + 1 - start));
        }
        let m = value.checked_mul(10);
        let sum = match m {
            Some(m) => m.checked_add(digit as usize),
            None => None,
        };
        match sum {
            Some(v) => {
                value = v;
            },
            None => {
                proof {
                    assert(digits_value(next) > usize::MAX);
                    if all_digits(d) {
                        lemma_digits_value_grows(d, i + 1 - start);
                    }
                }
                return false;
            },
        }
        assert(all_digits(next));
        i = i + 1;
    }
    true
}

/// The decimal digit `d`.
pub open spec fn digit_char(d: nat) -> char {
    ((('0' as nat) + d) as u32) as char
}

/// The decimal representation of `n`, without leading zeros.
pub open spec fn decimal(n: nat) -> Seq<char>
    decreases n,
{
    if n < 10 {
        seq![digit_char(n)]
    } else {
        decimal(n / 10).push(digit_char(n % 10))
    }
}

/// Appends the decimal representation of `n` to `s`.
pub fn push_decimal(s: &mut String, n: usize)
    ensures
        final(s)@ == old(s)@ + decimal(n as nat),
    decreases n,
{
    if n >= 10 {
        push_decimal(s, n / 10);
    }
    let d: u32 = (n % 10) as u32;
    let c = char_of_digit(d);
    push_char(s, c);
    proof {
        if n >= 10 {
            assert(decimal(n as nat) == decimal((n / 10) as nat).push(digit_char((n % 10) as nat)));
        }
    }
    assert(final(s)@ =~= old(s)@ + decimal(n as nat)) by {
        if n < 10 {
            assert(decimal(n as nat) =~= seq![digit_char(n as nat)]);
        }
    }
}

/// The character of the decimal digit `d`.
fn char_of_digit(d: u32) -> (c: char)
    requires
        d < 10,
    ensures
        c == digit_char(d as nat),
{
    if d == 0 {
        '0'
    } else if d == 1 {
        '1'
    } else if d == 2 {
        '2'
    } else if d == 3 {
        '3'
    } else if d == 4 {
        '4'
    } else if d == 5 {
        '5'
    } else if d == 6 {
        '6'
    } else if d == 7 {
        '7'
    } else if d == 8 {
        '8'
    } else {
        '9'
    }
}

/// A `String` holding the characters of `v`.
pub fn string_of(v: &Vec<char>) -> (res: String)
    ensures
        res@ == v@,
{
    string_from_chars(v.as_slice())
}

/// The characters of `s` from position `a` up to `b`.
pub fn slice_chars(s: &Vec<char>, a: usize, b: usize) -> (res: Vec<char>)
    requires
        a <= b <= s@.len(),
    ensures
        res@ == s@.subrange(a as int, b as int),
{
    let mut out: Vec<char> = Vec::new();
    let mut k: usize = a;
    while k < b
        invariant
            a <= k <= b,
            b <= s@.len(),
            out@ == s@.subrange(a as int, k as int),
        decreases b - k,
    {
        out.push(s[k]);
        assert(out@ =~= s@.subrange(a as int, k + 1));
        k = k + 1;
    }
    out
}

/// The first `c` at or after `i` is at `k` when `k` holds `c` and nothing
/// between does.
pub proof fn lemma_char_from_first(s: Seq<char>, c: char, i: int, k: int)
    requires
        0 <= i <= k < s.len(),
        s[k] == c,
        forall|j: int| i <= j < k ==> s[j] != c,
    ensures
        char_from(s, c, i) == Some(k),
    decreases k - i,
{
    if i < k {
        lemma_char_from_first(s, c, i + 1, k);
    }
}

/// The digit characters read back as their values.
proof fn lemma_digit_char(d: nat)
    requires
        d < 10,
    ensures
        '0' <= digit_char(d) <= '9',
        (digit_char(d) as nat) - ('0' as nat) == d,
{
}

/// A decimal representation is a non-empty string of digits that reads back as
/// its number.
pub proof fn lemma_decimal(n: nat)
    ensures
        decimal(n).len() > 0,
        all_digits(decimal(n)),
        digits_value(decimal(n)) == n,
    decreases n,
{
    if n < 10 {
        lemma_digit_char(n);
        let d = decimal(n);
        assert(d.drop_last() =~= Seq::<char>::empty());
        assert(d.last() == digit_char(n));
        assert(digits_value(d.drop_last()) == 0);
    } else {
        lemma_decimal(n / 10);
        lemma_digit_char(n % 10);
        let d = decimal(n);
        assert(d.drop_last() =~= decimal(n / 10));
        assert(d.last() == digit_char(n % 10));
        assert((n / 10) * 10 + n % 10 == n) by (nonlinear_arith);
        assert forall|i: int| 0 <= i < d.len() implies '0' <= #[trigger] d[i] <= '9' by {
            if i < d.len() - 1 {
                assert(d[i] == decimal(n / 10)[i]);
            }
        }
    }
}

/// `char_from` finds the first `c` at `i` or later.
proof fn lemma_char_from_scan(s: Seq<char>, c: char, i: int)
    requires
        0 <= i,
    ensures
        match char_from(s, c, i) {
            Some(j) => i <= j < s.len() && s[j] == c && forall|k: int| i <= k < j ==> s[k] != c,
            None => forall|k: int| i <= k < s.len() ==> s[k] != c,
        },
    decreases s.len() - i,
{
    if i < s.len() && s[i] != c {
        lemma_char_from_scan(s, c, i + 1);
    }
}

/// Splitting once cuts at the first `c`: text without `c`, then `c`, then
/// anything splits into that text and the rest, and text splits at all
/// exactly when it holds a `c`.
pub proof fn law_split_once_at_first(head: Seq<char>, rest: Seq<char>, c: char, s: Seq<char>)
    requires
        forall|k: int| 0 <= k < head.len() ==> head[k] != c,
    ensures
        split_once_spec(head + seq![c] + rest, c) == Some((head, rest)),
        split_once_spec(s, c).is_none() <==> forall|k: int| 0 <= k < s.len() ==> s[k] != c,
{
    let t = head + seq![c] + rest;
    lemma_char_from_scan(t, c, 0);
    assert(t[head.len() as int] == c);
    assert forall|k: int| 0 <= k < head.len() implies t[k] != c by {
        assert(t[k] == head[k]);
    }
    assert(t.subrange(0, head.len() as int) =~= head);
    assert(t.subrange(head.len() + 1int, t.len() as int) =~= rest);
    lemma_char_from_scan(s, c, 0);
}

} // verus!
