//! A minimal JSON reader for the target description: unsigned bytes,
//! escape-free ASCII strings, arrays and objects.
use vstd::prelude::*;
use vstd::string::StringSliceAdditionalSpecFns;
use vstd::utf8::*;

use crate::text::{digit_run, is_digit, leading_decimal, lemma_digit_run, str_from_utf8};

verus! {

/// Computes `<u8 as atoi::FromRadix10Checked>::from_radix_10_checked(text)`:
/// the length of the run of decimal digits at the start of `text`, and its
/// value when that fits in a `u8`.
#[verifier::external_body]
fn u8_from_radix_10_checked(text: &[u8]) -> (r: (Option<u8>, usize))
    ensures
        r.1 == digit_run(text@),
        r.0 == if leading_decimal(text@) <= 255 {
            Some(leading_decimal(text@) as u8)
        } else {
            None::<u8>
        },
{
    <u8 as atoi::FromRadix10Checked>::from_radix_10_checked(text)
}

/// The whitespace bytes of `u8::is_ascii_whitespace`.
pub open spec fn is_ws(b: u8) -> bool {
    b == 0x20 || b == 0x09 || b == 0x0A || b == 0x0C || b == 0x0D
}

/// Offset of the first non-whitespace byte at or after `off`.
pub open spec fn skip_ws(data: Seq<u8>, off: int) -> int
    decreases data.len() - off,
{
    if 0 <= off < data.len() && is_ws(data[off]) {
        skip_ws(data, off + 1)
    } else {
        off
    }
}

/// Reading an unsigned byte at `off`: its value (if any) and the offset
/// after the digits.
pub open spec fn spec_u8(data: Seq<u8>, off: int) -> (Option<u8>, int) {
    let rest = data.subrange(off, data.len() as int);
    let len = digit_run(rest);
    if len > 0 && leading_decimal(rest) <= 255 {
        (Some(leading_decimal(rest) as u8), off + len)
    } else {
        (None, off + len)
    }
}

/// A byte allowed inside a string: printable ASCII other than the backslash
/// (the quote ends the string).
pub open spec fn str_byte(b: u8) -> bool {
    0x20 <= b < 0x7F && b != 0x5C
}

/// Offset of the end of a string's content that starts at `off`: the first
/// byte that is not allowed in a string.
pub open spec fn str_end(data: Seq<u8>, off: int) -> int
    decreases data.len() - off,
{
    if 0 <= off < data.len() && str_byte(data[off]) && data[off] != 0x22 {
        str_end(data, off + 1)
    } else {
        off
    }
}

/// Reading a string at `off`: its content (if any) and the offset after it.
/// A string is a quote, allowed bytes and a closing quote. Without an
/// opening quote the offset stays; otherwise it advances to where reading
/// stopped.
pub open spec fn spec_str(data: Seq<u8>, off: int) -> (Option<Seq<u8>>, int) {
    if !(0 <= off < data.len() && data[off] == 0x22) {
        (None, off)
    } else {
        let end = str_end(data, off + 1);
        if end < data.len() && data[end] == 0x22 {
            (Some(data.subrange(off + 1, end)), end + 1)
        } else {
            (None, end)
        }
    }
}

pub proof fn lemma_skip_ws_bounds(data: Seq<u8>, off: int)
    requires
        0 <= off <= data.len(),
    ensures
        off <= skip_ws(data, off) <= data.len(),
{
    lemma_skip_ws(data, off);
}

proof fn lemma_skip_ws(data: Seq<u8>, off: int)
    requires
        0 <= off,
    ensures
        off <= skip_ws(data, off),
        off <= data.len() ==> skip_ws(data, off) <= data.len(),
    decreases data.len() - off,
{
    if 0 <= off < data.len() && is_ws(data[off]) {
        lemma_skip_ws(data, off + 1);
    }
}

proof fn lemma_str_end(data: Seq<u8>, off: int)
    requires
        0 <= off <= data.len(),
    ensures
        off <= str_end(data, off) <= data.len(),
        forall|j: int| off <= j < str_end(data, off) ==> str_byte(#[trigger] data[j]) && data[j] != 0x22,
    decreases data.len() - off,
{
    if 0 <= off < data.len() && str_byte(data[off]) && data[off] != 0x22 {
        lemma_str_end(data, off + 1);
    }
}

/// Printable ASCII bytes are valid UTF-8.
proof fn lemma_ascii_valid_utf8(s: Seq<u8>)
    requires
        forall|j: int| 0 <= j < s.len() ==> #[trigger] s[j] < 0x80,
    ensures
        valid_utf8(s),
    decreases s.len(),
{
    if s.len() > 0 {
        reveal_with_fuel(valid_utf8, 2);
        assert(valid_first_scalar(s));
        assert(length_of_first_scalar(s) == 1);
        let rest = pop_first_scalar(s);
        assert forall|j: int| 0 <= j < rest.len() implies #[trigger] rest[j] < 0x80 by {
            assert(rest[j] == s[j + 1]);
        }
        lemma_ascii_valid_utf8(rest);
    }
}

/// Skips ASCII whitespace at `offset`.
pub fn skip_whitespace(data: &[u8], offset: &mut usize)
    requires
        *old(offset) <= data@.len(),
    ensures
        *final(offset) == skip_ws(data@, *old(offset) as int),
{
    while *offset < data.len() && (data[*offset] == 0x20 || data[*offset] == 0x09 || data[*offset] == 0x0A || data[*offset] == 0x0C || data[*offset] == 0x0D)
        invariant
            *offset <= data@.len(),
            skip_ws(data@, *old(offset) as int) == skip_ws(data@, *offset as int),
        decreases data@.len() - *offset,
    {
        *offset = *offset + 1;
    }
}

/// Reads an unsigned byte at `offset`, advancing past its digits.
pub fn parse_u8(data: &[u8], offset: &mut usize) -> (r: Option<u8>)
    requires
        *old(offset) <= data@.len(),
    ensures
        (r, *final(offset) as int) == spec_u8(data@, *old(offset) as int),
{
    let rest = &data[*offset..data.len()];
    let (pin, len) = u8_from_radix_10_checked(rest);
    proof {
        lemma_digit_run(rest@);
    }
    *offset = *offset + len;
    let pin = pin?;
    if len > 0 {
        Some(pin)
    } else {
        None
    }
}

/// Reads a string at `offset`, advancing past it.
pub fn parse_str<'a>(data: &'a [u8], offset: &mut usize) -> (r: Option<&'a str>)
    requires
        *old(offset) <= data@.len(),
    ensures
        ({
            let (s, end) = spec_str(data@, *old(offset) as int);
            &&& *final(offset) == end
            &&& match r {
                Some(x) => s == Some(x.spec_bytes()),
                None => s is None,
            }
        }),
{
    if *offset >= data.len() || data[*offset] != 0x22 {
        return None;
    }
    *offset = *offset + 1;
    let start = *offset;
    proof {
        lemma_str_end(data@, start as int);
    }
    loop
        invariant
            start <= *offset <= data@.len(),
            str_end(data@, start as int) == str_end(data@, *offset as int),
            start == *old(offset) + 1,
            data@[*old(offset) as int] == 0x22,
            forall|j: int| start <= j < *offset ==> str_byte(#[trigger] data@[j]),
        ensures
            start <= *offset < data@.len(),
            data@[*offset as int] == 0x22,
            str_end(data@, start as int) == *offset,
            start == *old(offset) + 1,
            data@[*old(offset) as int] == 0x22,
            forall|j: int| start <= j < *offset ==> str_byte(#[trigger] data@[j]),
        decreases data@.len() - *offset,
    {
        if *offset >= data.len() {
            return None;
        }
        let byte = data[*offset];
        if !(byte < 0x80) || byte < 0x20 || byte == 0x7F || byte == 0x5C {
            return None;
        } else if byte == 0x22 {
            break;
        }
        *offset = *offset + 1;
    }
    let s = &data[start..*offset];
    proof {
        assert forall|j: int| 0 <= j < s@.len() implies #[trigger] s@[j] < 0x80 by {
            assert(s@[j] == data@[start + j]);
            assert(str_byte(data@[start + j]));
        }
        lemma_ascii_valid_utf8(s@);
    }
    *offset = *offset + 1;
    str_from_utf8(s)
}

/// Reading an object key at `off`: whitespace, a string, whitespace, a
/// colon and whitespace. Gives the key (if any) and where reading stopped.
pub open spec fn spec_key(data: Seq<u8>, off: int) -> (Option<Seq<u8>>, int) {
    let a = skip_ws(data, off);
    let (k, b) = spec_str(data, a);
    match k {
        None => (None, b),
        Some(k) => {
            let c = skip_ws(data, b);
            if c < data.len() && data[c] == 0x3A {
                (Some(k), skip_ws(data, c + 1))
            } else {
                (None, c)
            }
        },
    }
}

/// What follows a value in an object or array at `off`, after whitespace:
/// `Some(true)` for a comma, `Some(false)` for the closing byte `close`,
/// `None` otherwise; and the offset past it (or of the unexpected byte).
pub open spec fn spec_separator(data: Seq<u8>, off: int, close: u8) -> (Option<bool>, int) {
    let g = skip_ws(data, off);
    if g < data.len() && data[g] == 0x2C {
        (Some(true), g + 1)
    } else if g < data.len() && data[g] == close {
        (Some(false), g + 1)
    } else {
        (None, g)
    }
}

pub proof fn lemma_key(data: Seq<u8>, off: int)
    requires
        0 <= off <= data.len(),
    ensures
        off <= spec_key(data, off).1 <= data.len(),
        spec_key(data, off).0 is Some ==> spec_key(data, off).1 > off,
{
    lemma_skip_ws(data, off);
    let a = skip_ws(data, off);
    if 0 <= a < data.len() && data[a] == 0x22 {
        lemma_str_end(data, a + 1);
        let (k, b) = spec_str(data, a);
        if k is Some {
            lemma_skip_ws(data, b);
            let c = skip_ws(data, b);
            if c < data.len() && data[c] == 0x3A {
                lemma_skip_ws(data, c + 1);
            }
        }
    }
}

pub proof fn lemma_separator(data: Seq<u8>, off: int, close: u8)
    requires
        0 <= off <= data.len(),
    ensures
        off <= spec_separator(data, off, close).1 <= data.len(),
        spec_separator(data, off, close).0 is Some ==> spec_separator(data, off, close).1 > off,
{
    lemma_skip_ws(data, off);
}

pub proof fn lemma_u8(data: Seq<u8>, off: int)
    requires
        0 <= off <= data.len(),
    ensures
        off <= spec_u8(data, off).1 <= data.len(),
        spec_u8(data, off).0 is Some ==> spec_u8(data, off).1 > off,
{
    lemma_digit_run(data.subrange(off, data.len() as int));
}

pub proof fn lemma_str(data: Seq<u8>, off: int)
    requires
        0 <= off <= data.len(),
    ensures
        off <= spec_str(data, off).1 <= data.len(),
        spec_str(data, off).0 is Some ==> spec_str(data, off).1 > off,
{
    if 0 <= off < data.len() && data[off] == 0x22 {
        lemma_str_end(data, off + 1);
    }
}

/// Reads an object key (see `spec_key`).
pub fn parse_key<'a>(data: &'a [u8], offset: &mut usize) -> (r: Option<&'a str>)
    requires
        *old(offset) <= data@.len(),
    ensures
        ({
            let (k, end) = spec_key(data@, *old(offset) as int);
            &&& *final(offset) == end
            &&& match r {
                Some(x) => k == Some(x.spec_bytes()),
                None => k is None,
            }
        }),
{
    skip_whitespace(data, offset);
    proof {
        lemma_skip_ws(data@, *old(offset) as int);
    }
    let key = parse_str(data, offset);
    let key = match key {
        Some(k) => k,
        None => return None,
    };
    proof {
        lemma_str(data@, skip_ws(data@, *old(offset) as int));
    }
    skip_whitespace(data, offset);
    if *offset >= data.len() || data[*offset] != 0x3A {
        return None;
    }
    proof {
        lemma_skip_ws(data@, spec_str(data@, skip_ws(data@, *old(offset) as int)).1);
    }
    *offset = *offset + 1;
    skip_whitespace(data, offset);
    Some(key)
}

/// Reads what follows a value (see `spec_separator`).
pub fn parse_separator(data: &[u8], offset: &mut usize, close: u8) -> (r: Option<bool>)
    requires
        *old(offset) <= data@.len(),
    ensures
        (r, *final(offset) as int) == spec_separator(data@, *old(offset) as int, close),
{
    skip_whitespace(data, offset);
    proof {
        lemma_skip_ws(data@, *old(offset) as int);
    }
    if *offset < data.len() && data[*offset] == 0x2C {
        *offset = *offset + 1;
        Some(true)
    } else if *offset < data.len() && data[*offset] == close {
        *offset = *offset + 1;
        Some(false)
    } else {
        None
    }
}

} // verus!
