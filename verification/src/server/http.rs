//! Framing of HTTP/1.1 requests: finding the end of the head, reading its
//! method, path and headers, and keeping what follows a request.
use vstd::prelude::*;
use vstd::string::StringSliceAdditionalSpecFns;
use vstd::utf8::*;

use crate::network::api::{parse_method, Method};
use crate::text::{ascii_lower, digit_run, eq_ignore_ascii_case, eq_ignore_case, leading_decimal};

verus! {

/// Whether `\r\n\r\n`, the end of a request head, starts at offset `j`.
pub open spec fn is_head_end(b: Seq<u8>, j: int) -> bool {
    &&& 0 <= j
    &&& j + 4 <= b.len()
    &&& b[j] == 0x0D
    &&& b[j + 1] == 0x0A
    &&& b[j + 2] == 0x0D
    &&& b[j + 3] == 0x0A
}

/// Whether no `\r\n\r\n` starts at an offset in `lo..hi`.
pub open spec fn no_head_end(b: Seq<u8>, lo: int, hi: int) -> bool {
    forall|j: int| lo <= j < hi ==> !#[trigger] is_head_end(b, j)
}

/// The offset just past the first `\r\n\r\n` that starts in `lo..hi`, if
/// one does.
pub open spec fn first_head_end(b: Seq<u8>, lo: int, hi: int, r: Option<int>) -> bool {
    match r {
        Some(x) => lo <= x - 4 < hi && is_head_end(b, x - 4) && no_head_end(b, lo, x - 4),
        None => no_head_end(b, lo, hi),
    }
}

/// `x - y`, or zero when `y` is larger.
pub open spec fn saturating_sub(x: int, y: int) -> int {
    if x >= y { x - y } else { 0 }
}

/// Looks for the end of the request head, `\r\n\r\n`, in `buffer`, of which
/// the first `old_len` bytes were looked at before, and gives the offset of
/// the first byte of the body. The scan starts three bytes before `old_len`,
/// in case the marker straddles the previous read; where the first
/// `old_len` bytes hold no marker, the offset is that of the first marker in
/// the whole buffer.
pub fn find_body(buffer: &[u8], old_len: usize) -> (r: Option<usize>)
    ensures
        first_head_end(
            buffer@,
            saturating_sub(old_len as int, 3),
            buffer@.len() - 3,
            match r {
                Some(x) => Some(x as int),
                None => None,
            },
        ),
        no_head_end(buffer@, 0, old_len as int - 3) ==> first_head_end(
            buffer@,
            0,
            buffer@.len() - 3,
            match r {
                Some(x) => Some(x as int),
                None => None,
            },
        ),
{
    let start = old_len.saturating_sub(3);
    let end = buffer.len().saturating_sub(3);
    let mut i = start;
    while i < end
        invariant
            start == saturating_sub(old_len as int, 3),
            end == saturating_sub(buffer@.len() as int, 3),
            start <= i,
            no_head_end(buffer@, start as int, i as int),
        decreases end - i,
    {
        if buffer[i] == 0x0D && buffer[i + 1] == 0x0A {
            if buffer[i + 2] == 0x0D {
                if buffer[i + 3] == 0x0A {
                    return Some(i + 4);
                }
            } else {
                // Neither of the next two bytes is `\r`, so no marker starts
                // there.
                proof {
                    assert forall|j: int| start <= j < i + 3 implies !#[trigger] is_head_end(buffer@, j) by {
                        if j >= i && j < i + 3 {
                            assert(buffer@[i + 2] != 0x0D);
                        }
                    }
                }
                i = if i + 3 < end { i + 3 } else { end };
                continue;
            }
        }
        i = i + 1;
    }
    proof {
        assert forall|j: int| start <= j < buffer@.len() - 3 implies !#[trigger] is_head_end(buffer@, j) by {
            if j < i {
            }
        }
    }
    None
}

/// A buffer of fixed capacity that bytes are received into.
#[derive(Debug)]
pub struct Buffer {
    inner: Vec<u8>,
    len: usize,
}

impl View for Buffer {
    type V = Seq<u8>;

    /// The bytes received.
    closed spec fn view(&self) -> Seq<u8> {
        self.inner@.subrange(0, self.len as int)
    }
}

impl Buffer {
    /// The buffer keeps its received bytes at the start of its storage.
    pub closed spec fn wf(&self) -> bool {
        self.len <= self.inner@.len()
    }

    /// How many bytes the buffer can hold.
    pub closed spec fn capacity(&self) -> nat {
        self.inner@.len()
    }

    /// An empty buffer receiving into `inner`.
    pub fn new(inner: Vec<u8>) -> (r: Self)
        ensures
            r.wf(),
            r@ == Seq::<u8>::empty(),
            r.capacity() == inner@.len(),
    {
        Buffer { inner, len: 0 }
    }

    /// How many bytes were received.
    pub fn len(&self) -> (r: usize)
        requires
            self.wf(),
        ensures
            r == self@.len(),
    {
        self.len
    }

    /// How many more bytes fit.
    pub fn remaining(&self) -> (r: usize)
        requires
            self.wf(),
        ensures
            r == self.capacity() - self@.len(),
    {
        self.inner.len() - self.len
    }

    /// Forgets the bytes received.
    pub fn clear(&mut self)
        requires
            old(self).wf(),
        ensures
            final(self).wf(),
            final(self)@ == Seq::<u8>::empty(),
            final(self).capacity() == old(self).capacity(),
    {
        self.len = 0;
    }

    /// The bytes received.
    pub fn data(&self) -> (r: &[u8])
        requires
            self.wf(),
        ensures
            r@ == self@,
    {
        let r = self.inner.as_slice();
        &r[0..self.len]
    }

    /// Records `data`, just read, after the bytes received so far; gives its
    /// length.
    pub fn receive(&mut self, data: &[u8]) -> (r: usize)
        requires
            old(self).wf(),
            data@.len() <= old(self).capacity() - old(self)@.len(),
        ensures
            final(self).wf(),
            final(self)@ == old(self)@ + data@,
            final(self).capacity() == old(self).capacity(),
            r == data@.len(),
    {
        let ghost start = self@;
        let cap = self.inner.len();
        let mut i: usize = 0;
        while i < data.len()
            invariant
                cap == self.inner@.len(),
                i <= data@.len(),
                self.len + data@.len() - i <= self.inner@.len(),
                self.inner@.len() == old(self).inner@.len(),
                self.len == old(self).len + i,
                self.inner@.subrange(0, self.len as int) == start + data@.subrange(0, i as int),
                start == old(self)@,
                old(self).wf(),
            decreases data@.len() - i,
        {
            let at = self.len;
            let ghost prev = self.inner@;
            self.inner.set(at, data[i]);
            proof {
                assert(self.inner@.subrange(0, at + 1) =~= prev.subrange(0, at as int).push(data@[i as int]));
                assert(start + data@.subrange(0, i + 1) =~= (start + data@.subrange(0, i as int)).push(data@[i as int]));
            }
            self.len = at + 1;
            i = i + 1;
        }
        assert(data@.subrange(0, data@.len() as int) =~= data@);
        data.len()
    }

    /// Drops the first `prefix` bytes received, moving the rest to the start.
    pub fn discard_prefix(&mut self, prefix: usize)
        requires
            old(self).wf(),
            prefix <= old(self)@.len(),
        ensures
            final(self).wf(),
            final(self)@ == old(self)@.subrange(prefix as int, old(self)@.len() as int),
            final(self).capacity() == old(self).capacity(),
    {
        let ghost kept = self@.subrange(prefix as int, self@.len() as int);
        let n = self.len - prefix;
        let mut i: usize = 0;
        while i < n
            invariant
                i <= n,
                n == old(self).len - prefix,
                prefix <= old(self).len <= old(self).inner@.len(),
                self.len == old(self).len,
                self.inner@.len() == old(self).inner@.len(),
                forall|j: int| 0 <= j < i ==> self.inner@[j] == old(self).inner@[prefix + j],
                forall|j: int| i + prefix <= j < old(self).inner@.len() ==> self.inner@[j] == old(self).inner@[j],
            decreases n - i,
        {
            let b = self.inner[prefix + i];
            self.inner.set(i, b);
            i = i + 1;
        }
        self.len = n;
        assert(self@ =~= kept);
    }

    /// Drops the request of `head_len` bytes of head and `content_length`
    /// bytes of body that starts the buffer, keeping what was received
    /// after it.
    pub fn finish_request(&mut self, head_len: usize, content_length: usize)
        requires
            old(self).wf(),
            head_len + content_length <= old(self)@.len(),
        ensures
            final(self).wf(),
            final(self)@ == old(self)@.subrange(head_len + content_length, old(self)@.len() as int),
            final(self).capacity() == old(self).capacity(),
    {
        let total_len = head_len + content_length;
        let total_read = self.len;
        let extra = total_read - total_len;
        let next_request_offset = self.len - extra;
        self.discard_prefix(next_request_offset);
    }
}

/// A header: its name and its value.
pub type Header<'a> = (&'a str, &'a [u8]);

/// The name and value bytes of each header.
pub open spec fn header_bytes(headers: Seq<Header>) -> Seq<(Seq<u8>, Seq<u8>)> {
    headers.map_values(|h: Header| (h.0.spec_bytes(), h.1@))
}

/// The value of the first header whose name is `name`, ignoring ASCII case.
pub open spec fn header_value(headers: Seq<(Seq<u8>, Seq<u8>)>, name: Seq<u8>) -> Option<Seq<u8>>
    decreases headers.len(),
{
    if headers.len() == 0 {
        None
    } else if eq_ignore_case(headers[0].0, name) {
        Some(headers[0].1)
    } else {
        header_value(headers.drop_first(), name)
    }
}

/// Looks up the first header called `name` (see `header_value`).
pub fn find_header<'a>(headers: &[Header<'a>], name: &[u8]) -> (r: Option<&'a [u8]>)
    ensures
        match r {
            Some(v) => header_value(header_bytes(headers@), name@) == Some(v@),
            None => header_value(header_bytes(headers@), name@) is None,
        },
{
    let mut i: usize = 0;
    assert(header_bytes(headers@).subrange(0, headers@.len() as int) =~= header_bytes(headers@));
    while i < headers.len()
        invariant
            i <= headers@.len(),
            header_value(header_bytes(headers@), name@) == header_value(
                header_bytes(headers@).subrange(i as int, headers@.len() as int),
                name@,
            ),
        decreases headers@.len() - i,
    {
        let ghost rest = header_bytes(headers@).subrange(i as int, headers@.len() as int);
        assert(rest[0] == (headers@[i as int].0.spec_bytes(), headers@[i as int].1@));
        if eq_ignore_ascii_case(headers[i].0.as_bytes(), name) {
            return Some(headers[i].1);
        }
        assert(rest.drop_first() =~= header_bytes(headers@).subrange(i + 1, headers@.len() as int));
        i = i + 1;
    }
    None
}

/// Whether the headers ask to close the connection: the first `Connection`
/// header has the value `close`, both compared without regard to ASCII case.
pub open spec fn wants_close(headers: Seq<(Seq<u8>, Seq<u8>)>) -> bool {
    match header_value(headers, "connection".spec_bytes()) {
        Some(v) => eq_ignore_case(v, "close".spec_bytes()),
        None => false,
    }
}

/// The value `close`, in any ASCII case: five bytes that lower to `c`, `l`,
/// `o`, `s`, `e`.
pub open spec fn is_close_value(v: Seq<u8>) -> bool {
    &&& v.len() == 5
    &&& ascii_lower(v[0]) == 0x63
    &&& ascii_lower(v[1]) == 0x6C
    &&& ascii_lower(v[2]) == 0x6F
    &&& ascii_lower(v[3]) == 0x73
    &&& ascii_lower(v[4]) == 0x65
}

/// A request asks to close the connection exactly when its first
/// `Connection` header has the value `close` in some ASCII case; any other
/// value (such as `keep-alive`), or no such header, keeps it open.
pub proof fn lemma_close_only_on_close(headers: Seq<(Seq<u8>, Seq<u8>)>)
    ensures
        wants_close(headers) <==> (header_value(headers, "connection".spec_bytes()) matches Some(v) && is_close_value(v)),
{
    reveal_strlit("close");
    vstd::string::is_ascii_spec_bytes("close");
    let c = "close".spec_bytes();
    assert(c =~= seq![0x63u8, 0x6C, 0x6F, 0x73, 0x65]);
    if let Some(v) = header_value(headers, "connection".spec_bytes()) {
        if is_close_value(v) {
            assert forall|i: int| 0 <= i < v.len() implies ascii_lower(#[trigger] v[i]) == ascii_lower(c[i]) by {
                assert(0 <= i < 5);
            }
        }
        if eq_ignore_case(v, c) {
            assert(ascii_lower(v[0]) == ascii_lower(c[0]));
            assert(ascii_lower(v[1]) == ascii_lower(c[1]));
            assert(ascii_lower(v[2]) == ascii_lower(c[2]));
            assert(ascii_lower(v[3]) == ascii_lower(c[3]));
            assert(ascii_lower(v[4]) == ascii_lower(c[4]));
        }
    }
}

/// The body length the headers announce: the leading decimal number of the
/// first `Content-Length` header, or zero without one.
pub open spec fn announced_length(headers: Seq<(Seq<u8>, Seq<u8>)>) -> nat {
    match header_value(headers, "content-length".spec_bytes()) {
        Some(v) => leading_decimal(v),
        None => 0,
    }
}

/// Computes `<usize as atoi::FromRadix10>::from_radix_10(text)`: the value of
/// the decimal digits at the start of `text` and how many there are. The
/// crate multiplies and adds without checks, so the value must fit.
#[verifier::external_body]
fn usize_from_radix_10(text: &[u8]) -> (r: (usize, usize))
    requires
        leading_decimal(text@) <= usize::MAX,
    ensures
        r.0 == leading_decimal(text@),
        r.1 == digit_run(text@),
{
    <usize as atoi::FromRadix10>::from_radix_10(text)
}

/// The body length the headers announce (see `announced_length`).
pub fn content_length(headers: &[Header]) -> (r: usize)
    requires
        announced_length(header_bytes(headers@)) <= usize::MAX,
    ensures
        r == announced_length(header_bytes(headers@)),
{
    match find_header(headers, "content-length".as_bytes()) {
        Some(v) => usize_from_radix_10(v).0,
        None => 0,
    }
}

/// What a request head says: its method and path, whether the client wants
/// the connection closed after it, and its headers.
#[derive(Debug)]
pub struct RequestHead<'a> {
    pub method: Method,
    pub path: &'a str,
    pub close: bool,
    pub headers: Vec<Header<'a>>,
}

/// The bytes of an optional string, empty when absent.
pub open spec fn str_or_empty(s: Option<&str>) -> Seq<u8> {
    match s {
        Some(s) => s.spec_bytes(),
        None => Seq::empty(),
    }
}

impl<'a> RequestHead<'a> {
    /// Reads a parsed request line and headers: the method (absent counts
    /// as empty) must name a method, ignoring ASCII case; an absent path
    /// counts as empty.
    pub fn from_parts(method: Option<&'a str>, path: Option<&'a str>, headers: Vec<Header<'a>>) -> (r: Result<Self, ()>)
        ensures
            match parse_method(str_or_empty(method)) {
                None => r is Err,
                Some(m) => r matches Ok(h) && h.method == m && h.path.spec_bytes() == str_or_empty(path)
                    && h.close == wants_close(header_bytes(headers@)) && h.headers@ == headers@,
            },
    {
        let close = match find_header(headers.as_slice(), "connection".as_bytes()) {
            Some(v) => eq_ignore_ascii_case(v, "close".as_bytes()),
            None => false,
        };
        let empty = "";
        proof {
            reveal_strlit("");
        }
        let method = match method {
            Some(m) => m,
            None => empty,
        };
        let method = match Method::try_from(method) {
            Ok(m) => m,
            Err(_) => return Err(()),
        };
        let path = match path {
            Some(p) => p,
            None => empty,
        };
        Ok(RequestHead { method, path, close, headers })
    }
}

/// Name for what `httparse::Request::parse` leaves in a request made with
/// room for 16 headers after parsing `raw`: `None` when it reports an
/// error, otherwise the method, the path and the headers (name and value)
/// the request then holds.
pub uninterp spec fn httparse_request(raw: Seq<u8>) -> Option<(Option<Seq<char>>, Option<Seq<char>>, Seq<(Seq<char>, Seq<u8>)>)>;

/// The characters of an optional string.
pub open spec fn str_chars(s: Option<&str>) -> Option<Seq<char>> {
    match s {
        Some(s) => Some(s@),
        None => None,
    }
}

/// The characters of each header name, and each value.
pub open spec fn header_chars(headers: Seq<Header>) -> Seq<(Seq<char>, Seq<u8>)> {
    headers.map_values(|h: Header| (h.0@, h.1@))
}

/// Calls `httparse::Request::parse` on `raw` with a request made by
/// `httparse::Request::new` over 16 empty headers, and gives the method,
/// path and headers the request holds afterwards, or `None` when `parse`
/// returns an error. The contract claims only that this is a function of
/// the bytes of `raw` (named `httparse_request`).
#[verifier::external_body]
fn parse_request_head<'a>(raw: &'a [u8]) -> (r: Option<(Option<&'a str>, Option<&'a str>, Vec<Header<'a>>)>)
    ensures
        match r {
            None => httparse_request(raw@) is None,
            Some(p) => httparse_request(raw@) == Some((str_chars(p.0), str_chars(p.1), header_chars(p.2@))),
        },
{
    let mut headers = [httparse::EMPTY_HEADER; 16];
    let mut request = httparse::Request::new(&mut headers);
    match request.parse(raw) {
        Ok(_) => Some((request.method, request.path, request.headers.iter().map(|h| (h.name, h.value)).collect())),
        Err(_) => None,
    }
}

/// The UTF-8 bytes of optional characters, empty when absent.
pub open spec fn chars_or_empty(s: Option<Seq<char>>) -> Seq<u8> {
    match s {
        Some(s) => encode_utf8(s),
        None => Seq::empty(),
    }
}

/// The bytes of each header name, and each value.
pub open spec fn header_chars_bytes(headers: Seq<(Seq<char>, Seq<u8>)>) -> Seq<(Seq<u8>, Seq<u8>)> {
    headers.map_values(|h: (Seq<char>, Seq<u8>)| (encode_utf8(h.0), h.1))
}

/// Reads the head of a request: parsed by `httparse` (see
/// `httparse_request`), then read by `RequestHead::from_parts`. A request
/// that fails either is answered `400 Bad Request`. The head keeps the
/// parsed headers, in order.
pub fn read_head<'a>(raw: &'a [u8]) -> (r: Result<RequestHead<'a>, ()>)
    ensures
        match httparse_request(raw@) {
            None => r is Err,
            Some(p) => match parse_method(chars_or_empty(p.0)) {
                None => r is Err,
                Some(m) => r matches Ok(h) && h.method == m && h.path.spec_bytes() == chars_or_empty(p.1)
                    && header_bytes(h.headers@) == header_chars_bytes(p.2)
                    && h.close == wants_close(header_chars_bytes(p.2)),
            },
        },
{
    let (method, path, headers) = match parse_request_head(raw) {
        Some(p) => p,
        None => return Err(()),
    };
    proof {
        assert(header_chars_bytes(header_chars(headers@)) =~= header_bytes(headers@));
    }
    RequestHead::from_parts(method, path, headers)
}

/// What a connection does once a request's head was read.
#[derive(Debug, Clone, Copy, PartialEq, Eq, Structural)]
pub enum Step {
    /// Answer `400 Bad Request` and end the connection.
    Reject,
    /// Serve the request; end the connection afterwards when `close`.
    Serve { close: bool },
}

/// The step after reading a request's head: a head that could not be read
/// is rejected; otherwise the request is served, and the connection ends
/// after it when the client asked to close it.
pub fn next_step(head: &Result<RequestHead, ()>) -> (r: Step)
    ensures
        match head {
            Err(_) => r == Step::Reject,
            Ok(h) => r == (Step::Serve { close: h.close }),
        },
{
    match head {
        Err(_) => Step::Reject,
        Ok(h) => Step::Serve { close: h.close },
    }
}

} // verus!
