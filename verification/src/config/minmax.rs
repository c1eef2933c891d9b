//! Integers kept within a range. The bounds are held with the value.
use vstd::prelude::*;

use super::update::{check_signed, check_unsigned, Error, Result, Update};

verus! {

/// What checking an unsigned update gives (see `check_unsigned`).
pub open spec fn check_unsigned_spec(key_empty: bool, update: Update, min: u32, max: u32) -> core::result::Result<u32, Error> {
    if !key_empty {
        Err(Error::KeyNotFound)
    } else {
        match update {
            Update::Unsigned(v) => if v < min {
                Err(Error::TooSmall { min: min as i64 })
            } else if v > max {
                Err(Error::TooLarge { max: max as i64 })
            } else {
                Ok(v)
            },
            _ => Err(Error::InvalidType),
        }
    }
}

/// What checking a signed update gives (see `check_signed`).
pub open spec fn check_signed_spec(key_empty: bool, update: Update, min: i32, max: i32) -> core::result::Result<i32, Error> {
    if !key_empty {
        Err(Error::KeyNotFound)
    } else {
        match update {
            Update::Signed(v) => if v < min {
                Err(Error::TooSmall { min: min as i64 })
            } else if v > max {
                Err(Error::TooLarge { max: max as i64 })
            } else {
                Ok(v)
            },
            _ => Err(Error::InvalidType),
        }
    }
}

/// An accepted update leaves a bounded value within its bounds.
pub proof fn lemma_update_stays_in_range(key_empty: bool, update: Update, umin: u32, umax: u32, smin: i32, smax: i32)
    ensures
        check_unsigned_spec(key_empty, update, umin, umax) matches Ok(v) ==> umin <= v <= umax,
        check_signed_spec(key_empty, update, smin, smax) matches Ok(v) ==> smin <= v <= smax,
{
}

/// A `u8` value kept within `min ..= max`.
#[derive(Debug, Clone, Copy, PartialEq, Eq, Structural)]
pub struct U8 {
    inner: u8,
    min: u8,
    max: u8,
}

impl U8 {
    pub closed spec fn value(&self) -> u8 {
        self.inner
    }

    pub closed spec fn bounds(&self) -> (u8, u8) {
        (self.min, self.max)
    }

    /// A value within `min ..= max` loaded from `value`, brought into the
    /// range.
    pub fn load(value: u8, min: u8, max: u8) -> (r: Self)
        requires
            min <= max,
        ensures
            r.bounds() == (min, max),
            r.value() == if value < min { min } else if value > max { max } else { value },
    {
        let v = if value < min { min } else { value };
        U8 { inner: if v > max { max } else { v }, min, max }
    }

    /// The current value.
    pub fn get(&self) -> (r: u8)
        ensures
            r == self.value(),
    {
        self.inner
    }

    /// Applies an update that reached this value with `key`.
    pub fn update_mut(&mut self, key: &str, update: Update) -> (r: Result)
        requires
            old(self).bounds().0 <= old(self).bounds().1,
        ensures
            final(self).bounds() == old(self).bounds(),
            match check_unsigned_spec(key@.len() == 0, update, old(self).bounds().0 as u32, old(self).bounds().1 as u32) {
                Ok(v) => r is Ok && final(self).value() == v,
                Err(e) => r == Err::<(), Error>(e) && final(self).value() == old(self).value(),
            },
    {
        let v = check_unsigned(key, update, self.min as u32, self.max as u32)?;
        self.inner = v as u8;
        Ok(())
    }
}

/// A `u16` value kept within `min ..= max`.
#[derive(Debug, Clone, Copy, PartialEq, Eq, Structural)]
pub struct U16 {
    inner: u16,
    min: u16,
    max: u16,
}

impl U16 {
    pub closed spec fn value(&self) -> u16 {
        self.inner
    }

    pub closed spec fn bounds(&self) -> (u16, u16) {
        (self.min, self.max)
    }

    /// A value within `min ..= max` loaded from `value`, brought into the
    /// range.
    pub fn load(value: u16, min: u16, max: u16) -> (r: Self)
        requires
            min <= max,
        ensures
            r.bounds() == (min, max),
            r.value() == if value < min { min } else if value > max { max } else { value },
    {
        let v = if value < min { min } else { value };
        U16 { inner: if v > max { max } else { v }, min, max }
    }

    /// The current value.
    pub fn get(&self) -> (r: u16)
        ensures
            r == self.value(),
    {
        self.inner
    }

    /// Applies an update that reached this value with `key`.
    pub fn update_mut(&mut self, key: &str, update: Update) -> (r: Result)
        requires
            old(self).bounds().0 <= old(self).bounds().1,
        ensures
            final(self).bounds() == old(self).bounds(),
            match check_unsigned_spec(key@.len() == 0, update, old(self).bounds().0 as u32, old(self).bounds().1 as u32) {
                Ok(v) => r is Ok && final(self).value() == v,
                Err(e) => r == Err::<(), Error>(e) && final(self).value() == old(self).value(),
            },
    {
        let v = check_unsigned(key, update, self.min as u32, self.max as u32)?;
        self.inner = v as u16;
        Ok(())
    }
}

/// A `u32` value kept within `min ..= max`.
#[derive(Debug, Clone, Copy, PartialEq, Eq, Structural)]
pub struct U32 {
    inner: u32,
    min: u32,
    max: u32,
}

impl U32 {
    pub closed spec fn value(&self) -> u32 {
        self.inner
    }

    pub closed spec fn bounds(&self) -> (u32, u32) {
        (self.min, self.max)
    }

    /// A value within `min ..= max` loaded from `value`, brought into the
    /// range.
    pub fn load(value: u32, min: u32, max: u32) -> (r: Self)
        requires
            min <= max,
        ensures
            r.bounds() == (min, max),
            r.value() == if value < min { min } else if value > max { max } else { value },
    {
        let v = if value < min { min } else { value };
        U32 { inner: if v > max { max } else { v }, min, max }
    }

    /// The current value.
    pub fn get(&self) -> (r: u32)
        ensures
            r == self.value(),
    {
        self.inner
    }

    /// Applies an update that reached this value with `key`.
    pub fn update_mut(&mut self, key: &str, update: Update) -> (r: Result)
        requires
            old(self).bounds().0 <= old(self).bounds().1,
        ensures
            final(self).bounds() == old(self).bounds(),
            match check_unsigned_spec(key@.len() == 0, update, old(self).bounds().0 as u32, old(self).bounds().1 as u32) {
                Ok(v) => r is Ok && final(self).value() == v,
                Err(e) => r == Err::<(), Error>(e) && final(self).value() == old(self).value(),
            },
    {
        let v = check_unsigned(key, update, self.min as u32, self.max as u32)?;
        self.inner = v as u32;
        Ok(())
    }
}

/// A `i8` value kept within `min ..= max`.
#[derive(Debug, Clone, Copy, PartialEq, Eq, Structural)]
pub struct I8 {
    inner: i8,
    min: i8,
    max: i8,
}

impl I8 {
    pub closed spec fn value(&self) -> i8 {
        self.inner
    }

    pub closed spec fn bounds(&self) -> (i8, i8) {
        (self.min, self.max)
    }

    /// A value within `min ..= max` loaded from `value`, brought into the
    /// range.
    pub fn load(value: i8, min: i8, max: i8) -> (r: Self)
        requires
            min <= max,
        ensures
            r.bounds() == (min, max),
            r.value() == if value < min { min } else if value > max { max } else { value },
    {
        let v = if value < min { min } else { value };
        I8 { inner: if v > max { max } else { v }, min, max }
    }

    /// The current value.
    pub fn get(&self) -> (r: i8)
        ensures
            r == self.value(),
    {
        self.inner
    }

    /// Applies an update that reached this value with `key`.
    pub fn update_mut(&mut self, key: &str, update: Update) -> (r: Result)
        requires
            old(self).bounds().0 <= old(self).bounds().1,
        ensures
            final(self).bounds() == old(self).bounds(),
            match check_signed_spec(key@.len() == 0, update, old(self).bounds().0 as i32, old(self).bounds().1 as i32) {
                Ok(v) => r is Ok && final(self).value() == v,
                Err(e) => r == Err::<(), Error>(e) && final(self).value() == old(self).value(),
            },
    {
        let v = check_signed(key, update, self.min as i32, self.max as i32)?;
        self.inner = v as i8;
        Ok(())
    }
}

/// A `i16` value kept within `min ..= max`.
#[derive(Debug, Clone, Copy, PartialEq, Eq, Structural)]
pub struct I16 {
    inner: i16,
    min: i16,
    max: i16,
}

impl I16 {
    pub closed spec fn value(&self) -> i16 {
        self.inner
    }

    pub closed spec fn bounds(&self) -> (i16, i16) {
        (self.min, self.max)
    }

    /// A value within `min ..= max` loaded from `value`, brought into the
    /// range.
    pub fn load(value: i16, min: i16, max: i16) -> (r: Self)
        requires
            min <= max,
        ensures
            r.bounds() == (min, max),
            r.value() == if value < min { min } else if value > max { max } else { value },
    {
        let v = if value < min { min } else { value };
        I16 { inner: if v > max { max } else { v }, min, max }
    }

    /// The current value.
    pub fn get(&self) -> (r: i16)
        ensures
            r == self.value(),
    {
        self.inner
    }

    /// Applies an update that reached this value with `key`.
    pub fn update_mut(&mut self, key: &str, update: Update) -> (r: Result)
        requires
            old(self).bounds().0 <= old(self).bounds().1,
        ensures
            final(self).bounds() == old(self).bounds(),
            match check_signed_spec(key@.len() == 0, update, old(self).bounds().0 as i32, old(self).bounds().1 as i32) {
                Ok(v) => r is Ok && final(self).value() == v,
                Err(e) => r == Err::<(), Error>(e) && final(self).value() == old(self).value(),
            },
    {
        let v = check_signed(key, update, self.min as i32, self.max as i32)?;
        self.inner = v as i16;
        Ok(())
    }
}

/// A `i32` value kept within `min ..= max`.
#[derive(Debug, Clone, Copy, PartialEq, Eq, Structural)]
pub struct I32 {
    inner: i32,
    min: i32,
    max: i32,
}

impl I32 {
    pub closed spec fn value(&self) -> i32 {
        self.inner
    }

    pub closed spec fn bounds(&self) -> (i32, i32) {
        (self.min, self.max)
    }

    /// A value within `min ..= max` loaded from `value`, brought into the
    /// range.
    pub fn load(value: i32, min: i32, max: i32) -> (r: Self)
        requires
            min <= max,
        ensures
            r.bounds() == (min, max),
            r.value() == if value < min { min } else if value > max { max } else { value },
    {
        let v = if value < min { min } else { value };
        I32 { inner: if v > max { max } else { v }, min, max }
    }

    /// The current value.
    pub fn get(&self) -> (r: i32)
        ensures
            r == self.value(),
    {
        self.inner
    }

    /// Applies an update that reached this value with `key`.
    pub fn update_mut(&mut self, key: &str, update: Update) -> (r: Result)
        requires
            old(self).bounds().0 <= old(self).bounds().1,
        ensures
            final(self).bounds() == old(self).bounds(),
            match check_signed_spec(key@.len() == 0, update, old(self).bounds().0 as i32, old(self).bounds().1 as i32) {
                Ok(v) => r is Ok && final(self).value() == v,
                Err(e) => r == Err::<(), Error>(e) && final(self).value() == old(self).value(),
            },
    {
        let v = check_signed(key, update, self.min as i32, self.max as i32)?;
        self.inner = v as i32;
        Ok(())
    }
}

} // verus!
