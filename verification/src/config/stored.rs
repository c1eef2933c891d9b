//! Values as read back from storage, and loading configuration entries
//! from them.
use vstd::prelude::*;
use vstd::string::StringSliceAdditionalSpecFns;

verus! {

/// A stored value. `Float` carries the bit pattern of an `f32`.
#[derive(Debug)]
pub enum Stored<'a> {
    Boolean(bool),
    String(&'a str),
    Unsigned(u32),
    Signed(i32),
    Float(u32),
    Struct(Vec<(&'a str, Stored<'a>)>),
}

/// Loads a boolean entry: the stored boolean, or `false` for any other
/// stored value.
pub fn load_bool(from: Stored) -> (r: bool)
    ensures
        r == match from {
            Stored::Boolean(b) => b,
            _ => false,
        },
{
    match from {
        Stored::Boolean(b) => b,
        _ => false,
    }
}

/// Loads a float entry (its bits): the stored float, or `0.0` for any other
/// stored value.
pub fn load_float(from: Stored) -> (r: u32)
    ensures
        r == match from {
            Stored::Float(f) => f,
            _ => 0u32,
        },
{
    match from {
        Stored::Float(f) => f,
        _ => 0,
    }
}

/// Loads a string entry: the stored string, or the empty string for any
/// other stored value. With a `capacity`, a stored string whose UTF-8
/// encoding is longer than it also gives the empty string.
pub fn load_string(from: Stored, capacity: Option<usize>) -> (r: String)
    ensures
        match from {
            Stored::String(s) => if capacity is Some && s.spec_bytes().len() > capacity->0 {
                r@.len() == 0
            } else {
                r@ == s@
            },
            _ => r@.len() == 0,
        },
{
    match from {
        Stored::String(s) => {
            if let Some(n) = capacity {
                if s.as_bytes().len() > n {
                    return String::new();
                }
            }
            s.to_owned()
        },
        _ => String::new(),
    }
}

} // verus!
