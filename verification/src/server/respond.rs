//! The bytes of the HTTP responses the server writes.
use vstd::prelude::*;
use vstd::string::StringSliceAdditionalSpecFns;
use vstd::utf8::*;

use crate::network::api::{method_name, Method};
use crate::text::{bytes_eq, decimal_value, find_byte, is_digit, lemma_find_byte, push_bytes, split_once_ascii};

verus! {

/// The decimal digits of `n`, without leading zeros.
pub open spec fn decimal(n: nat) -> Seq<u8>
    decreases n,
{
    if n < 10 {
        seq![(0x30 + n) as u8]
    } else {
        decimal(n / 10).push((0x30 + n % 10) as u8)
    }
}

/// The decimal digits of `n` are digits, read back as `n`, and start with a
/// non-zero digit unless `n` is zero.
pub proof fn lemma_decimal_reads_back(n: nat)
    ensures
        decimal(n).len() > 0,
        forall|i: int| 0 <= i < decimal(n).len() ==> is_digit(#[trigger] decimal(n)[i]),
        decimal_value(decimal(n)) == n,
        n > 0 ==> decimal(n)[0] != 0x30,
    decreases n,
{
    if n >= 10 {
        lemma_decimal_reads_back(n / 10);
        let d = decimal(n);
        assert(d.drop_last() =~= decimal(n / 10));
        assert(d[0] == decimal(n / 10)[0]);
        assert(d.last() == (0x30 + n % 10) as u8);
        assert(d.last() - 0x30 == n % 10);
        assert(decimal_value(d) == decimal_value(decimal(n / 10)) * 10 + (d.last() - 0x30) as nat);
        assert(n == (n / 10) * 10 + n % 10);
    } else {
        let d = decimal(n);
        assert(d.drop_last() =~= Seq::<u8>::empty());
        assert(decimal_value(Seq::<u8>::empty()) == 0);
        assert(d.last() == (0x30 + n) as u8);
        assert(decimal_value(d) == decimal_value(d.drop_last()) * 10 + (d.last() - 0x30) as nat);
    }
}

/// Formats `n` with `itoa::Buffer::format`, which writes the decimal digits
/// of an integer without leading zeros.
#[verifier::external_body]
pub(crate) fn usize_decimal(n: usize) -> (r: Vec<u8>)
    ensures
        r@ == decimal(n as nat),
{
    let mut buffer = itoa::Buffer::new();
    buffer.format(n).as_bytes().to_vec()
}

/// A media type: `typ/subtype`, with optional parameters after a `;`.
#[derive(Debug, Clone, Copy)]
pub struct Mime<'a> {
    pub typ: &'a str,
    pub subtype: &'a str,
    pub parameters: &'a str,
}

/// The Unicode `White_Space` characters, which `str::trim` removes.
pub open spec fn is_white_space(c: char) -> bool {
    let u = c as u32;
    ||| 0x09 <= u <= 0x0D
    ||| u == 0x20
    ||| u == 0x85
    ||| u == 0xA0
    ||| u == 0x1680
    ||| 0x2000 <= u <= 0x200A
    ||| u == 0x2028
    ||| u == 0x2029
    ||| u == 0x202F
    ||| u == 0x205F
    ||| u == 0x3000
}

/// `s` without its leading white space.
pub open spec fn trim_start_chars(s: Seq<char>) -> Seq<char>
    decreases s.len(),
{
    if s.len() > 0 && is_white_space(s[0]) {
        trim_start_chars(s.drop_first())
    } else {
        s
    }
}

/// `s` without its trailing white space.
pub open spec fn trim_end_chars(s: Seq<char>) -> Seq<char>
    decreases s.len(),
{
    if s.len() > 0 && is_white_space(s.last()) {
        trim_end_chars(s.drop_last())
    } else {
        s
    }
}

/// `s` without leading and trailing white space.
pub open spec fn trim_chars(s: Seq<char>) -> Seq<char> {
    trim_end_chars(trim_start_chars(s))
}

/// Computes `str::trim`: the string without leading and trailing
/// characters of the Unicode `White_Space` property, as its documentation
/// states.
#[verifier::external_body]
fn str_trim(s: &str) -> (r: &str)
    ensures
        r@ == trim_chars(s@),
{
    s.trim()
}

/// The UTF-8 text `b` without leading and trailing white space.
pub open spec fn trimmed(b: Seq<u8>) -> Seq<u8> {
    encode_utf8(trim_chars(decode_utf8(b)))
}

/// Whether `s` starts with `*/*`.
pub open spec fn is_wildcard(s: Seq<u8>) -> bool {
    s.len() >= 3 && s.subrange(0, 3) == "*/*".spec_bytes()
}

/// What one item of an `Accept` header says of `m`: `Some(true)` to accept,
/// `Some(false)` to refuse (an item without a `/`), `None` to look further.
/// The subtype compared is the item's, unless `m`'s own subtype holds a
/// `;`, in which case it is the part of `m`'s subtype before it.
pub open spec fn item_verdict(m: Mime, item: Seq<u8>) -> Option<bool> {
    let t = trimmed(item);
    if is_wildcard(t) {
        Some(true)
    } else {
        let i = find_byte(t, 0x2F);
        if i >= t.len() {
            Some(false)
        } else {
            let typ = t.subrange(0, i);
            let sub = t.subrange(i + 1, t.len() as int);
            let own = m.subtype.spec_bytes();
            let j = find_byte(own, 0x3B);
            let compared = if j < own.len() { own.subrange(0, j) } else { sub };
            if typ == m.typ.spec_bytes() && (compared == own || compared == "*".spec_bytes()) {
                Some(true)
            } else {
                None
            }
        }
    }
}

/// Whether an `Accept` header value accepts `m`: its comma separated items
/// are looked at in turn until one decides.
pub open spec fn acceptable(m: Mime, accept: Seq<u8>) -> bool
    decreases accept.len(),
{
    let i = find_byte(accept, 0x2C);
    if 0 <= i < accept.len() {
        match item_verdict(m, accept.subrange(0, i)) {
            Some(v) => v,
            None => {
                proof {
                    lemma_find_byte(accept, 0x2C);
                }
                acceptable(m, accept.subrange(i + 1, accept.len() as int))
            },
        }
    } else {
        match item_verdict(m, accept) {
            Some(v) => v,
            None => false,
        }
    }
}

/// `t` starts with the bytes `*/*`.
pub open spec fn starts_any_any(t: Seq<u8>) -> bool {
    t.len() >= 3 && t[0] == 0x2A && t[1] == 0x2F && t[2] == 0x2A
}

/// An `Accept` item accepts a media type only by naming `*/*` or the media
/// type's own type: when it accepts and does not start with `*/*`, the
/// (trimmed) item has a `/`, what comes before its first `/` is `m`'s type,
/// and, where `m`'s subtype holds no `;`, what comes after is `*` or `m`'s
/// subtype.
pub proof fn lemma_item_accepts_only_its_type(m: Mime, item: Seq<u8>)
    ensures
        item_verdict(m, item) == Some(true) && !starts_any_any(trimmed(item)) ==> ({
            let t = trimmed(item);
            exists|i: int| {
                &&& 0 <= i < t.len()
                &&& t[i] == 0x2F
                &&& forall|j: int| 0 <= j < i ==> t[j] != 0x2F
                &&& t.subrange(0, i) == m.typ.spec_bytes()
                &&& (forall|k: int| 0 <= k < m.subtype.spec_bytes().len() ==> m.subtype.spec_bytes()[k] != 0x3B)
                    ==> (t.subrange(i + 1, t.len() as int) == m.subtype.spec_bytes()
                    || t.subrange(i + 1, t.len() as int) == seq![0x2Au8])
            }
        }),
{
    let t = trimmed(item);
    reveal_strlit("*/*");
    reveal_strlit("*");
    vstd::string::is_ascii_spec_bytes("*/*");
    vstd::string::is_ascii_spec_bytes("*");
    assert("*".spec_bytes() =~= seq![0x2Au8]);
    if item_verdict(m, item) == Some(true) && !starts_any_any(t) {
        assert(!is_wildcard(t)) by {
            if is_wildcard(t) {
                assert(t.subrange(0, 3)[0] == 0x2A);
                assert(t.subrange(0, 3)[1] == 0x2F);
                assert(t.subrange(0, 3)[2] == 0x2A);
            }
        }
        lemma_find_byte(t, 0x2F);
        let own = m.subtype.spec_bytes();
        lemma_find_byte(own, 0x3B);
        let i = find_byte(t, 0x2F);
        assert(i < t.len());
    }
}

/// An `Accept` header accepts a media type only through one of its items:
/// when it accepts, some stretch of it is an item that accepts on its own.
pub proof fn lemma_acceptable_by_an_item(m: Mime, accept: Seq<u8>)
    ensures
        acceptable(m, accept) ==> exists|lo: int, hi: int|
            0 <= lo <= hi <= accept.len() && item_verdict(m, #[trigger] accept.subrange(lo, hi)) == Some(true),
    decreases accept.len(),
{
    let i = find_byte(accept, 0x2C);
    lemma_find_byte(accept, 0x2C);
    if acceptable(m, accept) {
        if 0 <= i < accept.len() {
            if item_verdict(m, accept.subrange(0, i)) == Some(true) {
                assert(item_verdict(m, accept.subrange(0, i)) == Some(true));
            } else {
                let rest = accept.subrange(i + 1, accept.len() as int);
                lemma_acceptable_by_an_item(m, rest);
                let (lo, hi) = choose|lo: int, hi: int|
                    0 <= lo <= hi <= rest.len() && item_verdict(m, #[trigger] rest.subrange(lo, hi)) == Some(true);
                assert(rest.subrange(lo, hi) =~= accept.subrange(i + 1 + lo, i + 1 + hi));
            }
        } else {
            assert(accept.subrange(0, accept.len() as int) =~= accept);
        }
    }
}

/// The written form of a media type.
pub open spec fn mime_bytes(m: Mime) -> Seq<u8> {
    let head = m.typ.spec_bytes() + "/".spec_bytes() + m.subtype.spec_bytes();
    if m.parameters.spec_bytes().len() == 0 {
        head
    } else {
        head + ";".spec_bytes() + m.parameters.spec_bytes()
    }
}

/// The length a media type announces for itself: that of its type, a
/// separator, its subtype and its parameters, the parameters counting one
/// byte when there are none.
pub open spec fn mime_len(m: Mime) -> int {
    let params: int = m.parameters.spec_bytes().len() as int;
    let counted: int = if params == 0 { 1 } else { params };
    m.typ.spec_bytes().len() + 1 + m.subtype.spec_bytes().len() + counted
}

impl<'a> Mime<'a> {
    pub fn new(typ: &'a str, subtype: &'a str, parameters: &'a str) -> (r: Self)
        ensures
            r.typ == typ && r.subtype == subtype && r.parameters == parameters,
    {
        Mime { typ, subtype, parameters }
    }

    /// Whether the value of an `Accept` header allows this media type (see
    /// `acceptable`).
    pub fn is_acceptable(&self, accept: &str) -> (r: bool)
        ensures
            r == acceptable(*self, accept.spec_bytes()),
    {
        let mut rest = accept;
        loop
            invariant
                acceptable(*self, accept.spec_bytes()) == acceptable(*self, rest.spec_bytes()),
            decreases rest.spec_bytes().len(),
        {
            let ghost rb = rest.spec_bytes();
            proof {
                lemma_find_byte(rb, 0x2C);
            }
            let (item, next) = match split_once_ascii(rest, 0x2C) {
                Some((item, next)) => (item, Some(next)),
                None => (rest, None),
            };
            match self.verdict(item) {
                Some(v) => return v,
                None => {},
            }
            match next {
                Some(n) => {
                    rest = n;
                },
                None => return false,
            }
        }
    }

    /// What one item of an `Accept` header says (see `item_verdict`).
    fn verdict(&self, item: &str) -> (r: Option<bool>)
        ensures
            r == item_verdict(*self, item.spec_bytes()),
    {
        let t = str_trim(item);
        proof {
            encode_utf8_decode_utf8(item@);
            assert(decode_utf8(item.spec_bytes()) == item@);
            assert(t.spec_bytes() == trimmed(item.spec_bytes()));
        }
        let tb = t.as_bytes();
        if tb.len() >= 3 && bytes_eq(&tb[0..3], "*/*".as_bytes()) {
            return Some(true);
        }
        proof {
            lemma_find_byte(tb@, 0x2F);
            lemma_find_byte(self.subtype.spec_bytes(), 0x3B);
        }
        let (typ, subtype) = match split_once_ascii(t, 0x2F) {
            Some(parts) => parts,
            None => return Some(false),
        };
        let compared = match split_once_ascii(self.subtype, 0x3B) {
            Some((head, _)) => head,
            None => subtype,
        };
        let cb = compared.as_bytes();
        if bytes_eq(typ.as_bytes(), self.typ.as_bytes()) && (bytes_eq(cb, self.subtype.as_bytes())
            || bytes_eq(cb, "*".as_bytes())) {
            Some(true)
        } else {
            None
        }
    }

    /// The length this media type announces for itself (see `mime_len`).
    pub fn len(&self) -> (r: usize)
        requires
            mime_len(*self) <= usize::MAX,
        ensures
            r == mime_len(*self),
    {
        let mut params = self.parameters.as_bytes().len();
        if params == 0 {
            params = params + 1;
        }
        self.typ.as_bytes().len() + 1 + self.subtype.as_bytes().len() + params
    }

    /// The written form of this media type.
    pub fn to_bytes(&self) -> (r: Vec<u8>)
        ensures
            r@ == mime_bytes(*self),
    {
        let mut out: Vec<u8> = Vec::new();
        push_bytes(&mut out, self.typ.as_bytes());
        push_bytes(&mut out, "/".as_bytes());
        push_bytes(&mut out, self.subtype.as_bytes());
        let ghost head = self.typ.spec_bytes() + "/".spec_bytes() + self.subtype.spec_bytes();
        assert(out@ =~= head);
        let params = self.parameters.as_bytes();
        if params.len() != 0 {
            push_bytes(&mut out, ";".as_bytes());
            push_bytes(&mut out, params);
            assert(out@ =~= head + ";".spec_bytes() + self.parameters.spec_bytes());
        }
        out
    }
}

/// A `200 OK` response carrying `body` of media type `mime`.
pub open spec fn ok_response(mime: Seq<u8>, body: Seq<u8>) -> Seq<u8> {
    "HTTP/1.1 200 OK\r\nContent-Type:".spec_bytes() + mime + "\r\nContent-Length:".spec_bytes()
        + decimal(body.len()) + "\r\n\r\n".spec_bytes() + body
}

/// A `400 Bad Request` response giving `reason`.
pub open spec fn bad_request_response(reason: Seq<u8>) -> Seq<u8> {
    "HTTP/1.1 400 Bad Request\r\nContent-Type:text/plain\r\nContent-Length:".spec_bytes()
        + decimal(reason.len()) + "\r\n\r\n".spec_bytes() + reason
}

/// The `404 Not Found` response.
pub open spec fn not_found_response() -> Seq<u8> {
    "HTTP/1.1 404 Not Found\r\nContent-Type:text/plain\r\nContent-Length:9\r\n\r\nNot Found".spec_bytes()
}

/// The names of `methods`, separated by commas.
pub open spec fn method_list(methods: Seq<Method>) -> Seq<u8>
    decreases methods.len(),
{
    if methods.len() == 0 {
        Seq::empty()
    } else if methods.len() == 1 {
        method_name(methods[0])
    } else {
        method_list(methods.drop_last()) + ",".spec_bytes() + method_name(methods.last())
    }
}

/// A `405 Method Not Allowed` response listing the `allow`ed methods.
pub open spec fn method_not_allowed_response(allow: Seq<Method>) -> Seq<u8> {
    "HTTP/1.1 405 Method Not Allowed\r\nAllow:".spec_bytes() + method_list(allow)
        + "\r\nContent-Length:0\r\n\r\n".spec_bytes()
}

/// A `406 Not Acceptable` response naming the media type `accept` on offer.
pub open spec fn not_acceptable_response(accept: Mime) -> Seq<u8> {
    "HTTP/1.1 406 Not Acceptable\r\nContent-Type:text/plain\r\nContent-Length:".spec_bytes()
        + decimal(mime_len(accept) as nat) + "\r\n\r\n".spec_bytes() + mime_bytes(accept)
}

/// The response `200 OK` carrying `body` of media type `mime`.
pub fn ok(mime: &[u8], body: &[u8]) -> (r: Vec<u8>)
    ensures
        r@ == ok_response(mime@, body@),
{
    let mut out: Vec<u8> = Vec::new();
    push_bytes(&mut out, "HTTP/1.1 200 OK\r\nContent-Type:".as_bytes());
    push_bytes(&mut out, mime);
    push_bytes(&mut out, "\r\nContent-Length:".as_bytes());
    let len = usize_decimal(body.len());
    push_bytes(&mut out, len.as_slice());
    push_bytes(&mut out, "\r\n\r\n".as_bytes());
    push_bytes(&mut out, body);
    assert(out@ =~= ok_response(mime@, body@));
    out
}

/// The response `200 OK` with the plain text body `OK`.
pub fn ok_default() -> (r: Vec<u8>)
    ensures
        r@ == ok_response("text/plain".spec_bytes(), "OK".spec_bytes()),
{
    ok("text/plain".as_bytes(), "OK".as_bytes())
}

/// The response `400 Bad Request` giving `reason`.
pub fn bad_request(reason: &[u8]) -> (r: Vec<u8>)
    ensures
        r@ == bad_request_response(reason@),
{
    let mut out: Vec<u8> = Vec::new();
    push_bytes(&mut out, "HTTP/1.1 400 Bad Request\r\nContent-Type:text/plain\r\nContent-Length:".as_bytes());
    let len = usize_decimal(reason.len());
    push_bytes(&mut out, len.as_slice());
    push_bytes(&mut out, "\r\n\r\n".as_bytes());
    push_bytes(&mut out, reason);
    assert(out@ =~= bad_request_response(reason@));
    out
}

/// The response `404 Not Found`.
pub fn not_found() -> (r: Vec<u8>)
    ensures
        r@ == not_found_response(),
{
    let mut out: Vec<u8> = Vec::new();
    push_bytes(&mut out, "HTTP/1.1 404 Not Found\r\nContent-Type:text/plain\r\nContent-Length:9\r\n\r\nNot Found".as_bytes());
    assert(out@ =~= not_found_response());
    out
}

/// The response `405 Method Not Allowed` listing the `allow`ed methods.
pub fn method_not_allowed(allow: &[Method]) -> (r: Vec<u8>)
    ensures
        r@ == method_not_allowed_response(allow@),
{
    let mut out: Vec<u8> = Vec::new();
    push_bytes(&mut out, "HTTP/1.1 405 Method Not Allowed\r\nAllow:".as_bytes());
    let ghost start = out@;
    let mut i: usize = 0;
    while i < allow.len()
        invariant
            i <= allow@.len(),
            out@ == start + method_list(allow@.subrange(0, i as int)),
        decreases allow@.len() - i,
    {
        let ghost before = out@;
        if i != 0 {
            push_bytes(&mut out, ",".as_bytes());
        }
        push_bytes(&mut out, allow[i].as_bytes());
        proof {
            let next = allow@.subrange(0, i + 1);
            assert(next.drop_last() =~= allow@.subrange(0, i as int));
            assert(next.last() == allow@[i as int]);
            if i == 0 {
                assert(out@ =~= start + method_list(next));
            } else {
                assert(out@ =~= start + method_list(next));
            }
        }
        i = i + 1;
    }
    assert(allow@.subrange(0, allow@.len() as int) =~= allow@);
    push_bytes(&mut out, "\r\nContent-Length:0\r\n\r\n".as_bytes());
    assert(out@ =~= method_not_allowed_response(allow@));
    out
}

/// The response `406 Not Acceptable` naming the media type on offer.
pub fn not_acceptable(accept: &Mime) -> (r: Vec<u8>)
    requires
        mime_len(*accept) <= usize::MAX,
    ensures
        r@ == not_acceptable_response(*accept),
{
    let mut out: Vec<u8> = Vec::new();
    push_bytes(&mut out, "HTTP/1.1 406 Not Acceptable\r\nContent-Type:text/plain\r\nContent-Length:".as_bytes());
    let len = usize_decimal(accept.len());
    push_bytes(&mut out, len.as_slice());
    push_bytes(&mut out, "\r\n\r\n".as_bytes());
    let m = accept.to_bytes();
    push_bytes(&mut out, m.as_slice());
    assert(out@ =~= not_acceptable_response(*accept));
    out
}

} // verus!
