//! The `--max-tokens` command-line option.
use vstd::prelude::*;
use crate::scale::str_eq;

verus! {

/// An ASCII decimal digit.
pub open spec fn is_digit(c: char) -> bool {
    '0' <= c <= '9'
}

/// The number that a run of decimal digits spells.
pub open spec fn digits_value(s: Seq<char>) -> nat
    decreases s.len(),
{
    if s.len() == 0 {
        0
    } else {
        digits_value(s.drop_last()) * 10 + (s.last() as nat - '0' as nat) as nat
    }
}

/// The digits of a `usize` literal: what follows an optional leading `+`.
pub open spec fn unsigned_digits(s: Seq<char>) -> Seq<char> {
    if s.len() > 0 && s[0] == '+' {
        s.drop_first()
    } else {
        s
    }
}

/// The `usize` that a string spells: an optional `+`, then one or more
/// decimal digits, with a value that fits in `usize`.
pub open spec fn parsed_usize(s: Seq<char>) -> Option<usize> {
    let d = unsigned_digits(s);
    if d.len() > 0 && (forall|i: int| 0 <= i < d.len() ==> is_digit(#[trigger] d[i])) && digits_value(
        d,
    ) <= usize::MAX {
        Some(digits_value(d) as usize)
    } else {
        None
    }
}

/// A value grows when digits are appended to it.
proof fn lemma_digits_value_grows(s: Seq<char>, n: int)
    requires
        0 <= n <= s.len(),
        forall|i: int| 0 <= i < s.len() ==> is_digit(#[trigger] s[i]),
    ensures
        digits_value(s.subrange(0, n)) <= digits_value(s),
    decreases s.len() - n,
{
    if n < s.len() {
        lemma_digits_value_grows(s, n + 1);
        assert(s.subrange(0, n + 1).drop_last() =~= s.subrange(0, n));
    } else {
        assert(s.subrange(0, n) =~= s);
    }
}

/// Reads a `usize` the way the standard library reads one from a string.
pub fn parse_usize(s: &str) -> (r: Option<usize>)
    ensures
        r == parsed_usize(s@),
{
    let ghost d = unsigned_digits(s@);
    let mut value: usize = 0;
    let mut at_start = true;
    let mut plus = false;
    let mut any_digit = false;
    let mut overflow = false;
    let mut invalid = false;
    for c in it: s.chars()
        invariant
            it.seq() == s@,
            d == unsigned_digits(s@),
            at_start == (it.index() == 0),
            plus == (s@.len() > 0 && s@[0] == '+' && it.index() > 0),
            !invalid ==> ({
                let count = it.index() - if plus {
                    1int
                } else {
                    0
                };
                &&& 0 <= count <= d.len()
                &&& any_digit == (count > 0)
                &&& forall|i: int| 0 <= i < count ==> is_digit(#[trigger] d[i])
                &&& !overflow ==> value == digits_value(d.subrange(0, count))
                &&& overflow ==> digits_value(d.subrange(0, count)) > usize::MAX
            }),
            invalid ==> exists|i: int| 0 <= i < d.len() && !is_digit(#[trigger] d[i]),
    {
        let ghost count = it.index() - if plus {
            1int
        } else {
            0
        };
        if at_start && c == '+' {
            plus = true;
        } else if !invalid {
            proof {
                assert(d[count] == c);
            }
            if '0' <= c && c <= '9' {
                let digit = (c as u32 - '0' as u32) as usize;
                proof {
                    assert(d.subrange(0, count + 1).drop_last() =~= d.subrange(0, count));
                    assert(d.subrange(0, count + 1).last() == c);
                }
                if !overflow {
                    if value > (usize::MAX - digit) / 10 {
                        overflow = true;
                    } else {
                        value = value * 10 + digit;
                    }
                }
                any_digit = true;
            } else {
                invalid = true;
            }
        }
        at_start = false;
    }
    proof {
        if !invalid {
            let count = s@.len() - if plus {
                1int
            } else {
                0
            };
            assert(count == d.len());
            assert(d.subrange(0, count) =~= d);
        }
    }
    if invalid || !any_digit || overflow {
        None
    } else {
        Some(value)
    }
}

/// The value given to the first `--max-tokens` flag, if it reads as a `usize`.
pub open spec fn spec_max_tokens(args: Seq<Seq<char>>) -> Option<usize>
    decreases args.len(),
{
    if args.len() == 0 {
        None
    } else if args[0] == "--max-tokens"@ {
        if args.len() > 1 {
            parsed_usize(args[1])
        } else {
            None
        }
    } else {
        spec_max_tokens(args.drop_first())
    }
}

/// The token limit that the command line asks for with `--max-tokens N`;
/// `args` are the arguments after the program name.
pub fn max_tokens(args: &[String]) -> (r: Option<usize>)
    ensures
        r == spec_max_tokens(args@.map_values(|a: String| a@)),
{
    let ghost all = args@.map_values(|a: String| a@);
    let mut i: usize = 0;
    proof {
        assert(all.subrange(0, all.len() as int) =~= all);
    }
    while i < args.len()
        invariant
            i <= args@.len(),
            all == args@.map_values(|a: String| a@),
            spec_max_tokens(all) == spec_max_tokens(all.subrange(i as int, all.len() as int)),
        decreases args@.len() - i,
    {
        let ghost rest = all.subrange(i as int, all.len() as int);
        if str_eq(args[i].as_str(), "--max-tokens") {
            if i + 1 < args.len() {
                return parse_usize(args[i + 1].as_str());
            } else {
                return None;
            }
        }
        proof {
            assert(rest.drop_first() =~= all.subrange(i + 1, all.len() as int));
        }
        i = i + 1;
    }
    None
}

} // verus!
