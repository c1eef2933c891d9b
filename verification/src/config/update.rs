//! Updates of configuration values by key.
use vstd::prelude::*;
use vstd::string::StringSliceAdditionalSpecFns;

verus! {

/// A new value for a configuration entry. `Float` carries the bit pattern
/// of an `f32`.
#[derive(Debug, Clone, Copy)]
pub enum Update<'a> {
    Boolean(bool),
    String(&'a str),
    Unsigned(u32),
    Signed(i32),
    Float(u32),
}

/// Reasons an update is refused.
#[derive(Debug, Clone, Copy, PartialEq, Eq, Structural)]
pub enum Error {
    KeyNotFound,
    InvalidType,
    InvalidValue,
    TooSmall { min: i64 },
    TooLarge { max: i64 },
}

/// Outcome of an update.
pub type Result = core::result::Result<(), Error>;

/// Checks an update of an unsigned value bounded by `min ..= max` that
/// should reach it with the empty key: gives the new value.
pub fn check_unsigned(key: &str, update: Update, min: u32, max: u32) -> (r: core::result::Result<u32, Error>)
    ensures
        r == if key@.len() != 0 {
            Err(Error::KeyNotFound)
        } else {
            match update {
                Update::Unsigned(v) => if v < min {
                    Err(Error::TooSmall { min: min as i64 })
                } else if v > max {
                    Err(Error::TooLarge { max: max as i64 })
                } else {
                    Ok(v)
                },
                _ => Err(Error::InvalidType),
            }
        },
{
    if !key.is_empty() {
        return Err(Error::KeyNotFound);
    }
    let v = match update {
        Update::Unsigned(v) => v,
        _ => return Err(Error::InvalidType),
    };
    if v < min {
        return Err(Error::TooSmall { min: min as i64 });
    }
    if v > max {
        return Err(Error::TooLarge { max: max as i64 });
    }
    Ok(v)
}

/// Checks an update of a signed value bounded by `min ..= max` that should
/// reach it with the empty key: gives the new value.
pub fn check_signed(key: &str, update: Update, min: i32, max: i32) -> (r: core::result::Result<i32, Error>)
    ensures
        r == if key@.len() != 0 {
            Err(Error::KeyNotFound)
        } else {
            match update {
                Update::Signed(v) => if v < min {
                    Err(Error::TooSmall { min: min as i64 })
                } else if v > max {
                    Err(Error::TooLarge { max: max as i64 })
                } else {
                    Ok(v)
                },
                _ => Err(Error::InvalidType),
            }
        },
{
    if !key.is_empty() {
        return Err(Error::KeyNotFound);
    }
    let v = match update {
        Update::Signed(v) => v,
        _ => return Err(Error::InvalidType),
    };
    if v < min {
        return Err(Error::TooSmall { min: min as i64 });
    }
    if v > max {
        return Err(Error::TooLarge { max: max as i64 });
    }
    Ok(v)
}

/// Updates a boolean entry.
pub fn update_bool(value: &mut bool, key: &str, update: Update) -> (r: Result)
    ensures
        key@.len() != 0 ==> r == Err::<(), Error>(Error::KeyNotFound) && *final(value) == *old(value),
        key@.len() == 0 ==> match update {
            Update::Boolean(b) => r is Ok && *final(value) == b,
            _ => r == Err::<(), Error>(Error::InvalidType) && *final(value) == *old(value),
        },
{
    if !key.is_empty() {
        return Err(Error::KeyNotFound);
    }
    match update {
        Update::Boolean(b) => {
            *value = b;
            Ok(())
        },
        _ => Err(Error::InvalidType),
    }
}

/// Updates a float entry, held as the bits of an `f32`.
pub fn update_float(value: &mut u32, key: &str, update: Update) -> (r: Result)
    ensures
        key@.len() != 0 ==> r == Err::<(), Error>(Error::KeyNotFound) && *final(value) == *old(value),
        key@.len() == 0 ==> match update {
            Update::Float(f) => r is Ok && *final(value) == f,
            _ => r == Err::<(), Error>(Error::InvalidType) && *final(value) == *old(value),
        },
{
    if !key.is_empty() {
        return Err(Error::KeyNotFound);
    }
    match update {
        Update::Float(f) => {
            *value = f;
            Ok(())
        },
        _ => Err(Error::InvalidType),
    }
}

/// Updates a string entry; with a `capacity`, strings whose UTF-8 encoding
/// is longer than it are refused.
pub fn update_string(value: &mut String, capacity: Option<usize>, key: &str, update: Update) -> (r: Result)
    ensures
        key@.len() != 0 ==> r == Err::<(), Error>(Error::KeyNotFound) && final(value)@ == old(value)@,
        key@.len() == 0 ==> match update {
            Update::String(s) => if capacity is Some && s.spec_bytes().len() > capacity->0 {
                r == Err::<(), Error>(Error::TooLarge { max: capacity->0 as i64 }) && final(value)@
                    == old(value)@
            } else {
                r is Ok && final(value)@ == s@
            },
            _ => r == Err::<(), Error>(Error::InvalidType) && final(value)@ == old(value)@,
        },
{
    if !key.is_empty() {
        return Err(Error::KeyNotFound);
    }
    let s = match update {
        Update::String(s) => s,
        _ => return Err(Error::InvalidType),
    };
    if let Some(n) = capacity {
        let len = s.as_bytes().len();
        if len > n {
            return Err(Error::TooLarge { max: n as i64 });
        }
    }
    assert(!(capacity is Some && s.spec_bytes().len() > capacity->0));
    let owned = s.to_owned();
    assert(owned@ == s@);
    *value = owned;
    Ok(())
}

} // verus!
