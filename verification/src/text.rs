//! Byte string helpers: finding, splitting, comparing and copying bytes,
//! and reading leading decimal numbers.
use vstd::prelude::*;
use vstd::string::*;
use vstd::utf8::*;

verus! {

/// Index of the first byte equal to `b` in `s`, or `s.len()`.
pub open spec fn find_byte(s: Seq<u8>, b: u8) -> int
    decreases s.len(),
{
    if s.len() == 0 {
        0
    } else if s[0] == b {
        0
    } else {
        1 + find_byte(s.drop_first(), b)
    }
}

pub proof fn lemma_find_byte(s: Seq<u8>, b: u8)
    ensures
        0 <= find_byte(s, b) <= s.len(),
        find_byte(s, b) < s.len() ==> s[find_byte(s, b)] == b,
        forall|j: int| 0 <= j < find_byte(s, b) ==> s[j] != b,
    decreases s.len(),
{
    if s.len() > 0 && s[0] != b {
        lemma_find_byte(s.drop_first(), b);
        assert forall|j: int| 0 <= j < find_byte(s, b) implies s[j] != b by {
            if j > 0 {
                assert(s[j] == s.drop_first()[j - 1]);
            }
        }
    }
}

/// Both sides of an ASCII byte in valid UTF-8 are character boundaries.
pub proof fn lemma_ascii_boundaries(bytes: Seq<u8>, i: int)
    requires
        valid_utf8(bytes),
        0 <= i < bytes.len(),
        bytes[i] < 0x80,
    ensures
        is_char_boundary(bytes, i),
        is_char_boundary(bytes, i + 1),
{
    is_char_boundary_iff_not_is_continuation_byte(bytes, i);
    valid_utf8_split(bytes, i);
    let sub = bytes.subrange(i, bytes.len() as int);
    assert(sub[0] == bytes[i]);
    is_char_boundary_iff_not_is_continuation_byte(sub, 0);
    reveal_with_fuel(is_char_boundary, 2);
    if i + 1 < bytes.len() {
        assert(valid_first_scalar(sub));
        assert(length_of_first_scalar(sub) == 1);
        is_char_boundary_start_end_of_seq(pop_first_scalar(sub));
        assert(is_char_boundary(sub, 1));
        is_char_boundary_iff_not_is_continuation_byte(sub, 1);
        assert(sub[1] == bytes[i + 1]);
        is_char_boundary_iff_not_is_continuation_byte(bytes, i + 1);
    } else {
        is_char_boundary_start_end_of_seq(bytes);
    }
}

/// Splits `s` around its first byte equal to the ASCII byte `b`: the text
/// before it and the text after it, or `None` when there is no such byte.
pub fn split_once_ascii(s: &str, b: u8) -> (r: Option<(&str, &str)>)
    requires
        b < 0x80,
    ensures
        ({
            let bytes = s.spec_bytes();
            let i = find_byte(bytes, b);
            match r {
                None => i == bytes.len(),
                Some((head, tail)) => i < bytes.len() && head.spec_bytes() == bytes.subrange(0, i)
                    && tail.spec_bytes() == bytes.subrange(i + 1, bytes.len() as int),
            }
        }),
{
    let bytes = s.as_bytes();
    let ghost sb = s.spec_bytes();
    proof {
        lemma_find_byte(sb, b);
        encode_utf8_valid_utf8(s@);
    }
    let mut i: usize = 0;
    while i < bytes.len() && bytes[i] != b
        invariant
            bytes@ == sb,
            i <= sb.len(),
            find_byte(sb, b) >= i,
            forall|j: int| 0 <= j < i ==> sb[j] != b,
            find_byte(sb, b) < sb.len() ==> sb[find_byte(sb, b)] == b,
        decreases sb.len() - i,
    {
        i = i + 1;
    }
    if i == bytes.len() {
        return None;
    }
    assert(i == find_byte(sb, b));
    proof {
        lemma_ascii_boundaries(sb, i as int);
    }
    let (head, rest) = s.split_at(i);
    proof {
        valid_utf8_split(sb, i as int);
        let rb = rest.spec_bytes();
        assert(rb[0] == b);
        lemma_ascii_boundaries(rb, 0);
    }
    let (_, tail) = rest.split_at(1);
    Some((head, tail))
}

/// An ASCII decimal digit.
pub open spec fn is_digit(b: u8) -> bool {
    0x30 <= b <= 0x39
}

/// Number of ASCII decimal digits at the start of `s`.
pub open spec fn digit_run(s: Seq<u8>) -> nat
    decreases s.len(),
{
    if s.len() > 0 && is_digit(s[0]) {
        1 + digit_run(s.drop_first())
    } else {
        0
    }
}

/// Value of the decimal numeral `s` (whose bytes are digits).
pub open spec fn decimal_value(s: Seq<u8>) -> nat
    decreases s.len(),
{
    if s.len() == 0 {
        0
    } else {
        decimal_value(s.drop_last()) * 10 + (s.last() - 0x30) as nat
    }
}

/// Value of the decimal numeral at the start of `s`.
pub open spec fn leading_decimal(s: Seq<u8>) -> nat {
    decimal_value(s.subrange(0, digit_run(s) as int))
}

pub proof fn lemma_digit_run(s: Seq<u8>)
    ensures
        digit_run(s) <= s.len(),
        forall|j: int| 0 <= j < digit_run(s) ==> is_digit(#[trigger] s[j]),
        digit_run(s) < s.len() ==> !is_digit(s[digit_run(s) as int]),
    decreases s.len(),
{
    if s.len() > 0 && is_digit(s[0]) {
        lemma_digit_run(s.drop_first());
        assert forall|j: int| 0 <= j < digit_run(s) implies is_digit(#[trigger] s[j]) by {
            if j > 0 {
                assert(s[j] == s.drop_first()[j - 1]);
            }
        }
        if digit_run(s) < s.len() {
            assert(s[digit_run(s) as int] == s.drop_first()[digit_run(s) - 1]);
        }
    }
}

/// Appends the bytes of `s` to `out`.
pub fn push_bytes(out: &mut Vec<u8>, s: &[u8])
    ensures
        final(out)@ == old(out)@ + s@,
{
    let ghost start = out@;
    let mut i: usize = 0;
    while i < s.len()
        invariant
            i <= s@.len(),
            out@ == start + s@.subrange(0, i as int),
        decreases s@.len() - i,
    {
        out.push(s[i]);
        i = i + 1;
        assert(out@ =~= start + s@.subrange(0, i as int));
    }
    assert(s@.subrange(0, s@.len() as int) =~= s@);
}

/// The ASCII lower case of a byte.
pub open spec fn ascii_lower(b: u8) -> u8 {
    if 0x41 <= b <= 0x5A {
        (b + 0x20) as u8
    } else {
        b
    }
}

/// Equality of byte strings up to ASCII case.
pub open spec fn eq_ignore_case(a: Seq<u8>, b: Seq<u8>) -> bool {
    a.len() == b.len() && forall|i: int| 0 <= i < a.len() ==> ascii_lower(#[trigger] a[i]) == ascii_lower(b[i])
}

/// Whether `a` and `b` are equal up to ASCII case.
pub fn eq_ignore_ascii_case(a: &[u8], b: &[u8]) -> (r: bool)
    ensures
        r == eq_ignore_case(a@, b@),
{
    if a.len() != b.len() {
        return false;
    }
    let mut i: usize = 0;
    while i < a.len()
        invariant
            a@.len() == b@.len(),
            i <= a@.len(),
            forall|j: int| 0 <= j < i ==> ascii_lower(#[trigger] a@[j]) == ascii_lower(b@[j]),
        decreases a@.len() - i,
    {
        let x = a[i];
        let y = b[i];
        let lx = if 0x41 <= x && x <= 0x5A { x + 0x20 } else { x };
        let ly = if 0x41 <= y && y <= 0x5A { y + 0x20 } else { y };
        if lx != ly {
            assert(ascii_lower(a@[i as int]) != ascii_lower(b@[i as int]));
            return false;
        }
        i = i + 1;
    }
    true
}

/// Computes `core::str::from_utf8(s).ok()`: the bytes viewed as a string
/// when they are valid UTF-8, which the standard library documents as the
/// condition for success.
#[verifier::external_body]
pub(crate) fn str_from_utf8(s: &[u8]) -> (r: Option<&str>)
    ensures
        r is Some <==> valid_utf8(s@),
        r matches Some(x) ==> x.spec_bytes() == s@,
{
    core::str::from_utf8(s).ok()
}

/// Whether two byte strings are equal.
pub fn bytes_eq(a: &[u8], b: &[u8]) -> (r: bool)
    ensures
        r == (a@ == b@),
{
    if a.len() != b.len() {
        return false;
    }
    let mut i: usize = 0;
    while i < a.len()
        invariant
            a@.len() == b@.len(),
            i <= a@.len(),
            forall|j: int| 0 <= j < i ==> a@[j] == b@[j],
        decreases a@.len() - i,
    {
        if a[i] != b[i] {
            return false;
        }
        i = i + 1;
    }
    assert(a@ =~= b@);
    true
}

} // verus!
