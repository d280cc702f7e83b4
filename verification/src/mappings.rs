//! Mapping of Python type names onto the host language's own.

use vstd::prelude::*;
use crate::text::{chars_vec, eq_chars};

verus! {

#[derive(Debug, Clone, Copy, PartialEq, Eq)]
pub enum PyType {
    Int,
    Str,
    NoneType,
}

/// The supported Python type names; others are rejected by `requires`.
pub fn convert_py_to_rs_types(pytype: &str) -> (r: PyType)
    requires
        pytype@ == "int"@ || pytype@ == "str"@ || pytype@ == "None"@,
    ensures
        pytype@ == "int"@ ==> r == PyType::Int,
        pytype@ == "str"@ ==> r == PyType::Str,
        pytype@ == "None"@ ==> r == PyType::NoneType,
{
    proof {
        reveal_strlit("int");
        reveal_strlit("str");
        reveal_strlit("None");
        assert("int"@ != "str"@) by {
            assert("int"@[0] != "str"@[0]);
        }
        assert("int"@ != "None"@) by {
            assert("int"@.len() != "None"@.len());
        }
        assert("str"@ != "None"@) by {
            assert("str"@.len() != "None"@.len());
        }
    }
    let v = chars_vec(pytype);
    if eq_chars(&v, &chars_vec("int")) {
        PyType::Int
    } else if eq_chars(&v, &chars_vec("str")) {
        PyType::Str
    } else {
        PyType::NoneType
    }
}

} // verus!
