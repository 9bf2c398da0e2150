//! The causal attention mask.
use vstd::prelude::*;

verus! {

/// The causal mask of `seq_len` positions, row by row: `1` where a position
/// would attend to a later one, `0` elsewhere.
pub fn causal_mask(seq_len: usize) -> (r: Vec<u8>)
    requires
        seq_len * seq_len <= usize::MAX,
    ensures
        r@.len() == seq_len * seq_len,
        forall|row: int, col: int|
            0 <= row < seq_len && 0 <= col < seq_len ==> #[trigger] r@[row * seq_len + col] == if col
                > row {
                1u8
            } else {
                0u8
            },
{
    let mut flags: Vec<u8> = Vec::new();
    let mut row: usize = 0;
    while row < seq_len
        invariant
            seq_len * seq_len <= usize::MAX,
            row <= seq_len,
            flags@.len() == row * seq_len,
            forall|r: int, c: int|
                0 <= r < row && 0 <= c < seq_len ==> #[trigger] flags@[r * seq_len + c] == if c > r {
                    1u8
                } else {
                    0u8
                },
        decreases seq_len - row,
    {
        let mut col: usize = 0;
        proof {
            assert((row + 1) * seq_len <= seq_len * seq_len) by (nonlinear_arith)
                requires
                    row + 1 <= seq_len,
            ;
            assert((row + 1) * seq_len == row * seq_len + seq_len) by (nonlinear_arith);
        }
        while col < seq_len
            invariant
                row < seq_len,
                (row + 1) * seq_len <= usize::MAX,
                (row + 1) * seq_len == row * seq_len + seq_len,
                col <= seq_len,
                flags@.len() == row * seq_len + col,
                forall|r: int, c: int|
                    0 <= r < row && 0 <= c < seq_len ==> #[trigger] flags@[r * seq_len + c] == if c
                        > r {
                        1u8
                    } else {
                        0u8
                    },
                forall|c: int| 0 <= c < col ==> #[trigger] flags@[row * seq_len + c] == if c > row {
                    1u8
                } else {
                    0u8
                },
            decreases seq_len - col,
        {
            let flag: u8 = if col > row {
                1
            } else {
                0
            };
            let ghost before = flags@;
            flags.push(flag);
            proof {
                assert forall|r: int, c: int|
                    0 <= r < row && 0 <= c < seq_len implies #[trigger] flags@[r * seq_len + c] == if c
                        > r {
                        1u8
                    } else {
                        0u8
                    } by {
                    assert(r * seq_len + c < row * seq_len) by (nonlinear_arith)
                        requires
                            0 <= r < row,
                            0 <= c < seq_len,
                    ;
                    assert(flags@[r * seq_len + c] == before[r * seq_len + c]);
                }
            }
            col = col + 1;
        }
        row = row + 1;
    }
    flags
}

} // verus!
