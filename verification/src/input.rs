//! Checks on array inputs and the conversion of integer codes.
use vstd::prelude::*;
use crate::scale::str_eq;

verus! {

/// Why an input array was refused.
#[derive(Clone, Copy, Debug, PartialEq, Eq)]
pub enum InputError {
    /// Values must be a 1-D float32 array or a sequence of floats.
    ValuesType,
    /// Values must be native-endian.
    ValuesEndian,
    /// A 2-D matmul input must be C-contiguous.
    MatmulMatrix,
    /// Codes must be a 1-D signed integer array or a sequence of ints.
    CodesType,
    /// A code does not fit in `i32`.
    CodeOverflow,
    /// An output array must be 1-D, native-endian float32.
    OutType,
    /// An output array must be writable and C-contiguous.
    OutContig,
}

impl InputError {
    /// The message that the error is raised with.
    pub fn message(self) -> (r: &'static str)
        ensures
            r@ == match self {
                InputError::ValuesType => "values must be a 1-D float32 array or a sequence of floats"@,
                InputError::ValuesEndian => "values must be native-endian"@,
                InputError::MatmulMatrix =>
                    "2-D values must be a C-contiguous native-endian float32 array of shape (batch, columns)"@,
                InputError::CodesType =>
                    "codes must be a 1-D signed integer array or a sequence of int; packed Quantized.codes is uint8 and must not be passed here — use unpacked_codes"@,
                InputError::CodeOverflow => "code is outside the i32 range"@,
                InputError::OutType => "out must be a 1-D writable C-contiguous native-endian float32 array"@,
                InputError::OutContig => "out must be writable and C-contiguous"@,
            },
    {
        match self {
            InputError::ValuesType => "values must be a 1-D float32 array or a sequence of floats",
            InputError::ValuesEndian => "values must be native-endian",
            InputError::MatmulMatrix =>
                "2-D values must be a C-contiguous native-endian float32 array of shape (batch, columns)",
            InputError::CodesType =>
                "codes must be a 1-D signed integer array or a sequence of int; packed Quantized.codes is uint8 and must not be passed here — use unpacked_codes",
            InputError::CodeOverflow => "code is outside the i32 range",
            InputError::OutType => "out must be a 1-D writable C-contiguous native-endian float32 array",
            InputError::OutContig => "out must be writable and C-contiguous",
        }
    }
}

/// Buffer types that are refused even though they hold numbers.
pub fn is_refused_buffer(class_name: &str) -> (r: bool)
    ensures
        r == (class_name@ == "memoryview"@ || class_name@ == "array"@),
{
    str_eq(class_name, "memoryview") || str_eq(class_name, "array")
}

/// Checks a numpy array of values: one dimension, not of objects, native-endian.
pub fn check_values_array(ndim: usize, dtype_kind: &str, native: bool) -> (r: Result<(), InputError>)
    ensures
        r == if ndim != 1 || dtype_kind@ == "O"@ {
            Err(InputError::ValuesType)
        } else if !native {
            Err(InputError::ValuesEndian)
        } else {
            Ok::<(), InputError>(())
        },
{
    if ndim != 1 {
        return Err(InputError::ValuesType);
    }
    if str_eq(dtype_kind, "O") {
        return Err(InputError::ValuesType);
    }
    if !native {
        return Err(InputError::ValuesEndian);
    }
    Ok(())
}

/// Checks a numpy array of codes: one dimension, signed integers, native-endian.
pub fn check_codes_array(ndim: usize, dtype_kind: &str, native: bool) -> (r: Result<(), InputError>)
    ensures
        r == if ndim != 1 || dtype_kind@ != "i"@ || !native {
            Err(InputError::CodesType)
        } else {
            Ok::<(), InputError>(())
        },
{
    if ndim != 1 {
        return Err(InputError::CodesType);
    }
    if !str_eq(dtype_kind, "i") {
        return Err(InputError::CodesType);
    }
    if !native {
        return Err(InputError::CodesType);
    }
    Ok(())
}

/// Checks a 2-D float32 matmul input: native-endian and C-contiguous.
pub fn check_matmul_matrix(native: bool, c_contiguous: bool) -> (r: Result<(), InputError>)
    ensures
        r == if !native {
            Err(InputError::ValuesEndian)
        } else if !c_contiguous {
            Err(InputError::MatmulMatrix)
        } else {
            Ok::<(), InputError>(())
        },
{
    if !native {
        return Err(InputError::ValuesEndian);
    }
    if !c_contiguous {
        return Err(InputError::MatmulMatrix);
    }
    Ok(())
}

/// Why an output array was refused.
#[derive(Clone, Copy, Debug, PartialEq, Eq)]
pub enum OutError {
    Input(InputError),
    /// The output holds `got` values where `expected` are written.
    Length { expected: usize, got: usize },
}

/// Checks an output array: one dimension, native-endian, C-contiguous and
/// writable, and exactly `expected` values long.
pub fn check_out_array(
    ndim: usize,
    native: bool,
    c_contiguous: bool,
    writeable: bool,
    len: usize,
    expected: usize,
) -> (r: Result<(), OutError>)
    ensures
        r == if ndim != 1 || !native {
            Err(OutError::Input(InputError::OutType))
        } else if !c_contiguous || !writeable {
            Err(OutError::Input(InputError::OutContig))
        } else if len != expected {
            Err(OutError::Length { expected, got: len })
        } else {
            Ok::<(), OutError>(())
        },
{
    if ndim != 1 || !native {
        return Err(OutError::Input(InputError::OutType));
    }
    if !c_contiguous || !writeable {
        return Err(OutError::Input(InputError::OutContig));
    }
    if len != expected {
        return Err(OutError::Length { expected, got: len });
    }
    Ok(())
}

/// Narrows 64-bit codes to `i32`; a code outside the `i32` range is refused.
pub fn codes_from_i64(values: &[i64]) -> (r: Result<Vec<i32>, InputError>)
    ensures
        r is Ok <==> forall|i: int| 0 <= i < values@.len() ==> i32::MIN <= #[trigger] values@[i] <= i32::MAX,
        r matches Ok(codes) ==> codes@.len() == values@.len() && forall|i: int|
            0 <= i < values@.len() ==> #[trigger] codes@[i] as int == values@[i] as int,
        r matches Err(e) ==> e == InputError::CodeOverflow,
{
    let mut out: Vec<i32> = Vec::new();
    let mut i: usize = 0;
    while i < values.len()
        invariant
            i <= values@.len(),
            out@.len() == i,
            forall|j: int| 0 <= j < i ==> i32::MIN <= #[trigger] values@[j] <= i32::MAX,
            forall|j: int| 0 <= j < i ==> #[trigger] out@[j] as int == values@[j] as int,
        decreases values@.len() - i,
    {
        let v = values[i];
        if v < i32::MIN as i64 || v > i32::MAX as i64 {
            return Err(InputError::CodeOverflow);
        }
        out.push(v as i32);
        i = i + 1;
    }
    Ok(out)
}

} // verus!
