//! The windows of the rolling perplexity evaluation.
//!
//! Windows of `CONTEXT` tokens start every `STRIDE` tokens until one reaches
//! the end of the corpus. In window `k`, position `i` predicts token
//! `start + i + 1`; the first window scores every position, later windows
//! only their last `STRIDE` positions.
use vstd::prelude::*;
use crate::decode::{CONTEXT, STRIDE};

verus! {

/// One scored window: tokens `start..end`, positions from `score_from` scored.
#[derive(Clone, Copy, Debug, PartialEq, Eq)]
pub struct Window {
    pub start: usize,
    pub end: usize,
    pub score_from: usize,
}

/// Number of windows over `n` tokens.
pub open spec fn spec_window_count(n: nat) -> nat {
    if n < 2 {
        0
    } else if n <= CONTEXT {
        1
    } else {
        (1 + (n - CONTEXT + STRIDE - 1) / (STRIDE as int)) as nat
    }
}

/// Window `k` over `n` tokens.
pub open spec fn spec_window(n: nat, k: nat) -> Window {
    let start = k * STRIDE;
    let end = if start + CONTEXT < n {
        start + CONTEXT
    } else {
        n as int
    };
    let len = end - start;
    Window {
        start: start as usize,
        end: end as usize,
        score_from: if k == 0 {
            0
        } else if len > STRIDE {
            (len - STRIDE) as usize
        } else {
            0
        },
    }
}

/// The token that position `i` of a window predicts.
pub open spec fn target(w: Window, i: int) -> int {
    w.start + i + 1
}

/// Number of windows over `n` tokens, as the progress report counts them.
pub fn window_count(n: usize) -> (r: usize)
    ensures
        r == spec_window_count(n as nat),
{
    if n < 2 {
        0
    } else if n <= CONTEXT {
        1
    } else {
        1 + (n - CONTEXT + STRIDE - 1) / STRIDE
    }
}

/// The windows that the rolling evaluation runs over `n` tokens, in order.
pub fn windows(n: usize) -> (r: Vec<Window>)
    ensures
        r@.len() == spec_window_count(n as nat),
        forall|k: int| 0 <= k < r@.len() ==> #[trigger] r@[k] == spec_window(n as nat, k as nat),
{
    let mut out: Vec<Window> = Vec::new();
    if n < 2 {
        return out;
    }
    let mut start: usize = 0;
    let mut k: usize = 0;
    let mut first = true;
    while start < n
        invariant_except_break
            n >= 2,
            start == k * STRIDE,
            first == (k == 0),
            out@.len() == k,
            forall|j: int| 0 <= j < k ==> #[trigger] out@[j] == spec_window(n as nat, j as nat),
            k == 0 || (k - 1) * STRIDE + CONTEXT < n,
        ensures
            out@.len() == spec_window_count(n as nat),
            forall|j: int| 0 <= j < out@.len() ==> #[trigger] out@[j] == spec_window(n as nat, j as nat),
        decreases n - start,
    {
        let end = if n - start > CONTEXT {
            start + CONTEXT
        } else {
            n
        };
        let len = end - start;
        let score_from = if first {
            0
        } else if len > STRIDE {
            len - STRIDE
        } else {
            0
        };
        out.push(Window { start, end, score_from });
        proof {
            assert(out@[k as int] == spec_window(n as nat, k as nat));
        }
        first = false;
        if end == n {
            proof {
                lemma_last_window(n as nat, k as nat);
            }
            break;
        }
        start = start + STRIDE;
        k = k + 1;
    }
    out
}

/// The window that reaches the end of `n` tokens is the last one counted.
proof fn lemma_last_window(n: nat, k: nat)
    requires
        n >= 2,
        k * STRIDE < n <= k * STRIDE + CONTEXT,
        k == 0 || (k - 1) * STRIDE + CONTEXT < n,
    ensures
        spec_window_count(n) == k + 1,
{
    if n > CONTEXT {
        let q = (n - CONTEXT + STRIDE - 1) / (STRIDE as int);
        assert(k >= 1);
        assert(q == k) by (nonlinear_arith)
            requires
                q == (n - CONTEXT + STRIDE - 1) / (STRIDE as int),
                k * STRIDE < n <= k * STRIDE + CONTEXT,
                (k - 1) * STRIDE + CONTEXT < n,
                k >= 1,
        ;
    } else {
        if k > 0 {
            assert((k - 1) * STRIDE + CONTEXT >= CONTEXT) by (nonlinear_arith)
                requires
                    k >= 1,
            ;
        }
    }
}

/// The windows over `n >= 2` tokens step by `STRIDE` through the corpus:
/// each holds at most `CONTEXT` tokens and at least two, every window but the
/// last stops short of the end, and the last one ends exactly at the end.
pub proof fn lemma_windows_reach_the_end(n: nat)
    requires
        2 <= n <= usize::MAX,
    ensures
        spec_window_count(n) >= 1,
        spec_window(n, (spec_window_count(n) - 1) as nat).end == n,
        forall|k: nat|
            k < spec_window_count(n) ==> {
                let w = #[trigger] spec_window(n, k);
                &&& w.start == k * STRIDE
                &&& w.start + 2 <= w.end <= n
                &&& w.end - w.start <= CONTEXT
                &&& k + 1 < spec_window_count(n) ==> w.end < n
            },
{
    if n <= CONTEXT {
        assert(spec_window_count(n) == 1);
        assert forall|k: nat| k < spec_window_count(n) implies {
            let w = #[trigger] spec_window(n, k);
            &&& w.start == k * STRIDE
            &&& w.start + 2 <= w.end <= n
            &&& w.end - w.start <= CONTEXT
            &&& k + 1 < spec_window_count(n) ==> w.end < n
        } by {
            assert(k == 0);
        }
    } else {
        let q = (n - CONTEXT + STRIDE - 1) / (STRIDE as int);
        assert((q - 1) * STRIDE < n - CONTEXT <= q * STRIDE && q >= 1) by (nonlinear_arith)
            requires
                q == (n - CONTEXT + STRIDE - 1) / (STRIDE as int),
                n > CONTEXT,
        ;
        assert(spec_window_count(n) == q + 1);
        assert forall|k: nat| k < spec_window_count(n) implies {
            let w = #[trigger] spec_window(n, k);
            &&& w.start == k * STRIDE
            &&& w.start + 2 <= w.end <= n
            &&& w.end - w.start <= CONTEXT
            &&& k + 1 < spec_window_count(n) ==> w.end < n
        } by {
            assert(k * STRIDE <= q * STRIDE) by (nonlinear_arith)
                requires
                    k <= q,
            ;
            if k < q {
                assert(k * STRIDE <= (q - 1) * STRIDE) by (nonlinear_arith)
                    requires
                        k <= q - 1,
                ;
            }
            assert(k * STRIDE < n);
        }
        let last = q as nat;
        assert(last * STRIDE + CONTEXT >= n);
        assert(spec_window(n, last).end == n);
    }
}

/// What each window over `n` tokens covers and scores: window `k` starts at
/// `k * STRIDE` and ends `CONTEXT` tokens later or at the end of the corpus;
/// the first window scores every position, every later one only its last
/// `STRIDE` positions.
pub proof fn lemma_windows_score_their_last_stride(n: nat)
    requires
        2 <= n <= usize::MAX,
    ensures
        forall|k: nat|
            k < spec_window_count(n) ==> {
                let w = #[trigger] spec_window(n, k);
                &&& w.start == k * STRIDE
                &&& w.end == if k * STRIDE + CONTEXT < n {
                    k * STRIDE + CONTEXT
                } else {
                    n as int
                }
                &&& (k == 0 ==> w.score_from == 0)
                &&& (k >= 1 ==> w.end - w.start > STRIDE && w.score_from + STRIDE == w.end - w.start)
            },
{
    lemma_windows_reach_the_end(n);
    if n <= CONTEXT {
        assert(spec_window_count(n) == 1);
    } else {
        let q = (n - CONTEXT + STRIDE - 1) / (STRIDE as int);
        assert((q - 1) * STRIDE < n - CONTEXT <= q * STRIDE && q >= 1) by (nonlinear_arith)
            requires
                q == (n - CONTEXT + STRIDE - 1) / (STRIDE as int),
                n > CONTEXT,
        ;
        assert(spec_window_count(n) == q + 1);
        assert forall|k: nat| k < spec_window_count(n) implies {
            let w = #[trigger] spec_window(n, k);
            &&& w.start == k * STRIDE
            &&& w.end == if k * STRIDE + CONTEXT < n {
                k * STRIDE + CONTEXT
            } else {
                n as int
            }
            &&& (k == 0 ==> w.score_from == 0)
            &&& (k >= 1 ==> w.end - w.start > STRIDE && w.score_from + STRIDE == w.end - w.start)
        } by {
            assert(k * STRIDE <= q * STRIDE) by (nonlinear_arith)
                requires
                    k <= q,
            ;
            assert(k * STRIDE < n);
            if k * STRIDE + CONTEXT >= n {
                assert(n - k * STRIDE > STRIDE);
            }
        }
    }
}

} // verus!
