//! Token budget of the greedy decode stopwatch.
use vstd::prelude::*;

verus! {

/// Tokens of context in one scored window.
pub const CONTEXT: usize = 512;

/// Tokens between the starts of consecutive windows.
pub const STRIDE: usize = 256;

/// Tokens of prompt before the decode stopwatch starts.
pub const DECODE_PROMPT: usize = 128;

/// Tokens generated while the decode stopwatch runs.
pub const DECODE_NEW: usize = 128;

/// The prompt for the decode stopwatch: the first `DECODE_PROMPT` tokens, or all of them.
pub fn prompt_tokens(tokens: &[u32]) -> (r: Vec<u32>)
    ensures
        r@ == tokens@.subrange(
            0,
            if tokens@.len() < DECODE_PROMPT {
                tokens@.len() as int
            } else {
                DECODE_PROMPT as int
            },
        ),
{
    let length = if tokens.len() < DECODE_PROMPT {
        tokens.len()
    } else {
        DECODE_PROMPT
    };
    let mut out: Vec<u32> = Vec::new();
    let mut i: usize = 0;
    while i < length
        invariant
            length <= tokens@.len(),
            i <= length,
            out@ == tokens@.subrange(0, i as int),
        decreases length - i,
    {
        out.push(tokens[i]);
        i = i + 1;
        proof {
            assert(out@ =~= tokens@.subrange(0, i as int));
        }
    }
    out
}

} // verus!
