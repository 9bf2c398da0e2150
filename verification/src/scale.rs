//! Scale storage width: `f32`, `f16`, or `bf16`.
use vstd::prelude::*;

verus! {

/// Whether two strings hold the same characters.
pub fn str_eq(a: &str, b: &str) -> (r: bool)
    ensures
        r == (a@ == b@),
{
    let x = a.to_owned();
    let y = b.to_owned();
    x == y
}

/// Runtime choice of how scales and zero points are stored.
#[derive(Clone, Copy, Debug, PartialEq, Eq, Hash)]
pub enum PyScale {
    F32,
    F16,
    Bf16,
}

/// The pickled name of each storage width.
pub open spec fn scale_name(scale: PyScale) -> Seq<char> {
    match scale {
        PyScale::F32 => "f32"@,
        PyScale::F16 => "f16"@,
        PyScale::Bf16 => "bf16"@,
    }
}

/// How each storage width prints.
pub open spec fn scale_display(scale: PyScale) -> Seq<char> {
    match scale {
        PyScale::F32 => "Scale.F32"@,
        PyScale::F16 => "Scale.F16"@,
        PyScale::Bf16 => "Scale.Bf16"@,
    }
}

/// Bytes that one stored scale takes.
pub open spec fn scale_width(scale: PyScale) -> nat {
    match scale {
        PyScale::F32 => 4,
        PyScale::F16 => 2,
        PyScale::Bf16 => 2,
    }
}

impl PyScale {
    /// The name under which the width is pickled.
    pub fn name(self) -> (r: &'static str)
        ensures
            r@ == scale_name(self),
    {
        match self {
            PyScale::F32 => "f32",
            PyScale::F16 => "f16",
            PyScale::Bf16 => "bf16",
        }
    }

    /// The width that `name` names, if any.
    pub fn from_name(name: &str) -> (r: Option<PyScale>)
        ensures
            r == if name@ == "f32"@ {
                Some(PyScale::F32)
            } else if name@ == "f16"@ {
                Some(PyScale::F16)
            } else if name@ == "bf16"@ {
                Some(PyScale::Bf16)
            } else {
                None::<PyScale>
            },
    {
        if str_eq(name, "f32") {
            Some(PyScale::F32)
        } else if str_eq(name, "f16") {
            Some(PyScale::F16)
        } else if str_eq(name, "bf16") {
            Some(PyScale::Bf16)
        } else {
            None
        }
    }

    /// How the width prints: `Scale.F32`, `Scale.F16` or `Scale.Bf16`.
    pub fn display_name(self) -> (r: &'static str)
        ensures
            r@ == scale_display(self),
    {
        match self {
            PyScale::F32 => "Scale.F32",
            PyScale::F16 => "Scale.F16",
            PyScale::Bf16 => "Scale.Bf16",
        }
    }

    /// Bytes that one stored scale takes.
    pub fn width(self) -> (r: usize)
        ensures
            r == scale_width(self),
    {
        match self {
            PyScale::F32 => 4,
            PyScale::F16 => 2,
            PyScale::Bf16 => 2,
        }
    }

    /// The pickle state of a width: its name.
    pub fn __getstate__(self) -> (r: &'static str)
        ensures
            r@ == scale_name(self),
    {
        self.name()
    }

    /// Rebuilds a width from its pickle state; an unknown name is malformed.
    pub fn _from_pickle(name: &str) -> (r: Option<PyScale>)
        ensures
            forall|s: PyScale| name@ == scale_name(s) ==> r == Some(s),
            r matches Some(s) ==> name@ == scale_name(s),
    {
        proof {
            lemma_scale_names_distinct();
        }
        Self::from_name(name)
    }
}

/// The three width names differ from one another.
pub proof fn lemma_scale_names_distinct()
    ensures
        "f32"@ != "f16"@,
        "f32"@ != "bf16"@,
        "f16"@ != "bf16"@,
{
    reveal_strlit("f32");
    reveal_strlit("f16");
    reveal_strlit("bf16");
    assert("f32"@[1] != "f16"@[1]);
    assert("f32"@.len() != "bf16"@.len());
    assert("f16"@.len() != "bf16"@.len());
}

/// A width read back from its name is the width that was named.
pub proof fn lemma_scale_name_roundtrip(scale: PyScale)
    ensures
        (if scale_name(scale) == "f32"@ {
            Some(PyScale::F32)
        } else if scale_name(scale) == "f16"@ {
            Some(PyScale::F16)
        } else if scale_name(scale) == "bf16"@ {
            Some(PyScale::Bf16)
        } else {
            None::<PyScale>
        }) == Some(scale),
{
    lemma_scale_names_distinct();
}

} // verus!
