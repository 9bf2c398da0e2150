//! Errors of the quantization schemes.
use vstd::prelude::*;
use vstd::string::StringExecFns;

verus! {

/// Why a scheme refused its input.
#[derive(Clone, Copy, Debug, PartialEq, Eq)]
pub enum Error {
    /// The bit width is outside `2..=16`.
    InvalidBits { bits: u32 },
    /// The block size is zero.
    InvalidBlock { block: usize },
    /// The tolerance is not a finite number greater than zero.
    InvalidTolerance,
    /// Two lengths that must agree do not.
    LengthMismatch { expected: usize, got: usize },
}

/// The error for a length `got` where `expected` was needed.
pub fn length_mismatch(expected: usize, got: usize) -> (r: Error)
    ensures
        r == (Error::LengthMismatch { expected, got }),
{
    Error::LengthMismatch { expected, got }
}

/// Succeeds exactly when the two lengths agree.
pub fn check_length(expected: usize, got: usize) -> (r: Result<(), Error>)
    ensures
        r is Ok <==> expected == got,
        r is Err ==> r == Err::<(), Error>(Error::LengthMismatch { expected, got }),
{
    if expected != got {
        Err(length_mismatch(expected, got))
    } else {
        Ok(())
    }
}


/// The character of a decimal digit.
pub open spec fn digit_char(d: nat) -> char {
    if d == 0 {
        '0'
    } else if d == 1 {
        '1'
    } else if d == 2 {
        '2'
    } else if d == 3 {
        '3'
    } else if d == 4 {
        '4'
    } else if d == 5 {
        '5'
    } else if d == 6 {
        '6'
    } else if d == 7 {
        '7'
    } else if d == 8 {
        '8'
    } else {
        '9'
    }
}

/// The decimal digits of `n`, most significant first, without leading zeros.
pub open spec fn decimal(n: nat) -> Seq<char>
    decreases n,
{
    if n < 10 {
        seq![digit_char(n)]
    } else {
        decimal(n / 10).push(digit_char(n % 10))
    }
}

/// The one-character string of a decimal digit.
fn digit_str(d: u64) -> (r: &'static str)
    requires
        d < 10,
    ensures
        r@ == seq![digit_char(d as nat)],
{
    proof {
        reveal_strlit("0");
        reveal_strlit("1");
        reveal_strlit("2");
        reveal_strlit("3");
        reveal_strlit("4");
        reveal_strlit("5");
        reveal_strlit("6");
        reveal_strlit("7");
        reveal_strlit("8");
        reveal_strlit("9");
    }
    if d == 0 {
        "0"
    } else if d == 1 {
        "1"
    } else if d == 2 {
        "2"
    } else if d == 3 {
        "3"
    } else if d == 4 {
        "4"
    } else if d == 5 {
        "5"
    } else if d == 6 {
        "6"
    } else if d == 7 {
        "7"
    } else if d == 8 {
        "8"
    } else {
        "9"
    }
}

/// Appends the decimal digits of `n`.
pub fn push_decimal(s: &mut String, n: u64)
    ensures
        final(s)@ == old(s)@ + decimal(n as nat),
    decreases n,
{
    if n >= 10 {
        push_decimal(s, n / 10);
    }
    s.append(digit_str(n % 10));
    proof {
        assert(final(s)@ =~= old(s)@ + decimal(n as nat));
    }
}

/// The message of an error.
pub open spec fn spec_message(e: Error) -> Seq<char> {
    match e {
        Error::InvalidBits { bits } => "bit width "@ + decimal(bits as nat)
            + " is outside the supported range 2..=16"@,
        Error::InvalidBlock { block } => "block size "@ + decimal(block as nat) + " must be at least 1"@,
        Error::InvalidTolerance => "tolerance must be a finite number greater than 0"@,
        Error::LengthMismatch { expected, got } => "length mismatch: expected "@ + decimal(
            expected as nat,
        ) + ", got "@ + decimal(got as nat),
    }
}

impl Error {
    /// The message that the error is raised with.
    pub fn message(&self) -> (r: String)
        ensures
            r@ == spec_message(*self),
    {
        match *self {
            Error::InvalidBits { bits } => {
                let mut s = String::from_str("bit width ");
                push_decimal(&mut s, bits as u64);
                s.append(" is outside the supported range 2..=16");
                s
            },
            Error::InvalidBlock { block } => {
                let mut s = String::from_str("block size ");
                push_decimal(&mut s, block as u64);
                s.append(" must be at least 1");
                s
            },
            Error::InvalidTolerance => String::from_str(
                "tolerance must be a finite number greater than 0",
            ),
            Error::LengthMismatch { expected, got } => {
                let mut s = String::from_str("length mismatch: expected ");
                push_decimal(&mut s, expected as u64);
                s.append(", got ");
                push_decimal(&mut s, got as u64);
                s
            },
        }
    }
}

} // verus!
