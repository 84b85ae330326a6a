//! Token usage of model calls, and how the usage of several calls adds up.
use vstd::prelude::*;

verus! {

/// The tokens a model call read and wrote.
#[derive(Clone, Copy, Debug, PartialEq, Eq, Structural)]
pub struct Usage {
    pub input_tokens: u64,
    pub output_tokens: u64,
}

impl Default for Usage {
    /// No tokens.
    fn default() -> (res: Self)
        ensures
            res == (Usage { input_tokens: 0, output_tokens: 0 }),
    {
        Usage { input_tokens: 0, output_tokens: 0 }
    }
}

/// The sum of two counts, held at the largest count when it would exceed it.
pub open spec fn count_sum(a: u64, b: u64) -> u64 {
    if a + b > u64::MAX {
        u64::MAX
    } else {
        (a + b) as u64
    }
}

/// The usage of two calls together: each count adds up.
pub open spec fn usage_sum(a: Usage, b: Usage) -> Usage {
    Usage {
        input_tokens: count_sum(a.input_tokens, b.input_tokens),
        output_tokens: count_sum(a.output_tokens, b.output_tokens),
    }
}

/// The usage of several calls together, in order, from no usage.
pub open spec fn total_usage(s: Seq<Usage>) -> Usage
    decreases s.len(),
{
    if s.len() == 0 {
        Usage { input_tokens: 0, output_tokens: 0 }
    } else {
        usage_sum(total_usage(s.drop_last()), s.last())
    }
}

/// The usage of two calls together.
pub fn merge_usage(a: Usage, b: Usage) -> (res: Usage)
    ensures
        res == usage_sum(a, b),
{
    Usage {
        input_tokens: a.input_tokens.saturating_add(b.input_tokens),
        output_tokens: a.output_tokens.saturating_add(b.output_tokens),
    }
}

/// The input tokens of several calls, counted without a bound.
pub open spec fn input_tokens_of(s: Seq<Usage>) -> int
    decreases s.len(),
{
    if s.len() == 0 {
        0
    } else {
        input_tokens_of(s.drop_last()) + s.last().input_tokens
    }
}

/// The output tokens of several calls, counted without a bound.
pub open spec fn output_tokens_of(s: Seq<Usage>) -> int
    decreases s.len(),
{
    if s.len() == 0 {
        0
    } else {
        output_tokens_of(s.drop_last()) + s.last().output_tokens
    }
}

/// The usage of several calls counts every token of every call, each count
/// held at the largest count once it would exceed it; so the order and the
/// grouping of the calls do not matter, and no usage changes nothing.
pub proof fn law_usage_counts_every_token(s: Seq<Usage>, a: Usage, b: Usage, c: Usage)
    ensures
        total_usage(s).input_tokens == if input_tokens_of(s) > u64::MAX {
            u64::MAX as int
        } else {
            input_tokens_of(s)
        },
        total_usage(s).output_tokens == if output_tokens_of(s) > u64::MAX {
            u64::MAX as int
        } else {
            output_tokens_of(s)
        },
        usage_sum(a, b) == usage_sum(b, a),
        usage_sum(usage_sum(a, b), c) == usage_sum(a, usage_sum(b, c)),
        usage_sum(a, Usage { input_tokens: 0, output_tokens: 0 }) == a,
    decreases s.len(),
{
    if s.len() > 0 {
        law_usage_counts_every_token(s.drop_last(), a, b, c);
    }
}

} // verus!
