//! Choosing the answer to a request: the API under `/api/`, otherwise the
//! configurator's static files.
use vstd::prelude::*;
use vstd::string::StringSliceAdditionalSpecFns;
use vstd::utf8::*;

use super::http::{find_header, header_bytes, header_value, Header};
use super::respond::{
    acceptable, bad_request, bad_request_response, decimal, method_not_allowed,
    method_not_allowed_response, mime_bytes, mime_len, not_acceptable, not_acceptable_response,
    not_found, not_found_response, ok, ok_default, ok_response, usize_decimal, Mime,
};
use crate::network::api::{Method, Response};
use crate::text::{bytes_eq, lemma_ascii_boundaries, push_bytes, str_from_utf8};

verus! {

/// A static file: its media type, whether it is gzip compressed, and its
/// content.
#[derive(Debug, Clone, Copy)]
pub struct File<'a> {
    pub mime: Mime<'a>,
    pub gzipped: bool,
    pub content: &'a [u8],
}

/// The response carrying a static file.
pub open spec fn file_response(f: File) -> Seq<u8> {
    let encoding = if f.gzipped {
        "Content-Encoding:gzip\r\n".spec_bytes()
    } else {
        Seq::<u8>::empty()
    };
    "HTTP/1.1 200 Ok\r\n".spec_bytes() + "Content-Type:".spec_bytes() + mime_bytes(f.mime)
        + "\r\n".spec_bytes() + encoding + "Content-Length:".spec_bytes() + decimal(
        f.content@.len(),
    ) + "\r\n\r\n".spec_bytes() + f.content@
}

impl<'a> File<'a> {
    /// The response carrying this file (see `file_response`).
    pub fn response(&self) -> (r: Vec<u8>)
        ensures
            r@ == file_response(*self),
    {
        let mut out: Vec<u8> = Vec::new();
        push_bytes(&mut out, "HTTP/1.1 200 Ok\r\n".as_bytes());
        push_bytes(&mut out, "Content-Type:".as_bytes());
        let mime = self.mime.to_bytes();
        push_bytes(&mut out, mime.as_slice());
        push_bytes(&mut out, "\r\n".as_bytes());
        let ghost before = out@;
        if self.gzipped {
            push_bytes(&mut out, "Content-Encoding:gzip\r\n".as_bytes());
        }
        push_bytes(&mut out, "Content-Length:".as_bytes());
        let len = usize_decimal(self.content.len());
        push_bytes(&mut out, len.as_slice());
        push_bytes(&mut out, "\r\n\r\n".as_bytes());
        push_bytes(&mut out, self.content);
        assert(out@ =~= file_response(*self));
        out
    }
}

/// Byte-wise lexicographic order, the order of `str`.
pub open spec fn lex_less(a: Seq<u8>, b: Seq<u8>) -> bool
    decreases a.len(),
{
    if a.len() == 0 {
        b.len() > 0
    } else if b.len() == 0 {
        false
    } else if a[0] != b[0] {
        a[0] < b[0]
    } else {
        lex_less(a.drop_first(), b.drop_first())
    }
}

pub proof fn lemma_lex_less_asymmetric(a: Seq<u8>, b: Seq<u8>)
    ensures
        lex_less(a, b) ==> !lex_less(b, a),
        !lex_less(a, a),
    decreases a.len(),
{
    if a.len() > 0 && b.len() > 0 && a[0] == b[0] {
        lemma_lex_less_asymmetric(a.drop_first(), b.drop_first());
    }
    if a.len() > 0 {
        lemma_lex_less_asymmetric(a.drop_first(), a.drop_first());
    }
}

/// The routes of a table of files.
pub open spec fn route_names(routes: Seq<(&str, File)>) -> Seq<Seq<u8>> {
    routes.map_values(|r: (&str, File)| r.0.spec_bytes())
}

/// Routes in strictly increasing order.
pub open spec fn sorted(names: Seq<Seq<u8>>) -> bool {
    forall|i: int, j: int| 0 <= i < j < names.len() ==> lex_less(#[trigger] names[i], #[trigger] names[j])
}

/// How two byte strings compare.
#[derive(Debug, Clone, Copy, PartialEq, Eq, Structural)]
pub enum Order {
    Less,
    Equal,
    Greater,
}

/// Compares two byte strings lexicographically.
pub fn lex_order(a: &[u8], b: &[u8]) -> (r: Order)
    ensures
        r == Order::Less <==> lex_less(a@, b@),
        r == Order::Equal <==> a@ == b@,
        r == Order::Greater <==> lex_less(b@, a@),
{
    let mut i: usize = 0;
    proof {
        lemma_lex_less_asymmetric(a@, b@);
        lemma_lex_less_asymmetric(b@, a@);
        assert(a@.subrange(0, a@.len() as int) =~= a@);
        assert(b@.subrange(0, b@.len() as int) =~= b@);
    }
    while i < a.len() && i < b.len() && a[i] == b[i]
        invariant
            i <= a@.len(),
            i <= b@.len(),
            a@.subrange(0, i as int) == b@.subrange(0, i as int),
            lex_less(a@, b@) == lex_less(a@.subrange(i as int, a@.len() as int), b@.subrange(i as int, b@.len() as int)),
            lex_less(b@, a@) == lex_less(b@.subrange(i as int, b@.len() as int), a@.subrange(i as int, a@.len() as int)),
        decreases a@.len() - i,
    {
        let ghost sa = a@.subrange(i as int, a@.len() as int);
        let ghost sb = b@.subrange(i as int, b@.len() as int);
        assert(sa.drop_first() =~= a@.subrange(i + 1, a@.len() as int));
        assert(sb.drop_first() =~= b@.subrange(i + 1, b@.len() as int));
        assert(a@.subrange(0, i + 1) =~= a@.subrange(0, i as int).push(a@[i as int]));
        assert(b@.subrange(0, i + 1) =~= b@.subrange(0, i as int).push(b@[i as int]));
        i = i + 1;
    }
    let ghost sa = a@.subrange(i as int, a@.len() as int);
    let ghost sb = b@.subrange(i as int, b@.len() as int);
    if i == a.len() && i == b.len() {
        assert(a@ =~= a@.subrange(0, i as int));
        assert(b@ =~= b@.subrange(0, i as int));
        Order::Equal
    } else if i == a.len() {
        assert(a@.len() != b@.len());
        Order::Less
    } else if i == b.len() {
        assert(a@.len() != b@.len());
        Order::Greater
    } else if a[i] < b[i] {
        assert(a@[i as int] != b@[i as int]);
        Order::Less
    } else {
        assert(a@[i as int] != b@[i as int]);
        Order::Greater
    }
}

/// Looks `path` up in a table of files by binary search. A table in strictly
/// increasing order of route gives the entry with that route, or `None`
/// when there is none.
pub fn find_route(routes: &[(&str, File)], path: &str) -> (r: Option<usize>)
    ensures
        r matches Some(i) ==> i < routes@.len() && route_names(routes@)[i as int] == path.spec_bytes(),
        sorted(route_names(routes@)) && r is None ==> forall|i: int|
            0 <= i < routes@.len() ==> route_names(routes@)[i] != path.spec_bytes(),
{
    let ghost names = route_names(routes@);
    let p = path.as_bytes();
    let mut lo: usize = 0;
    let mut hi: usize = routes.len();
    while lo < hi
        invariant
            lo <= hi <= routes@.len(),
            names == route_names(routes@),
            p@ == path.spec_bytes(),
            sorted(names) ==> forall|i: int| 0 <= i < lo ==> lex_less(#[trigger] names[i], p@),
            sorted(names) ==> forall|i: int| hi <= i < routes@.len() ==> lex_less(p@, #[trigger] names[i]),
        decreases hi - lo,
    {
        let mid = lo + (hi - lo) / 2;
        let name = routes[mid].0.as_bytes();
        assert(names[mid as int] == name@);
        match lex_order(name, p) {
            Order::Equal => return Some(mid),
            Order::Less => {
                proof {
                    if sorted(names) {
                        assert forall|i: int| 0 <= i < mid + 1 implies lex_less(#[trigger] names[i], p@) by {
                            if i < mid {
                                lemma_lex_less_trans(names[i], names[mid as int], p@);
                            }
                        }
                    }
                }
                lo = mid + 1;
            },
            Order::Greater => {
                proof {
                    if sorted(names) {
                        assert forall|i: int| mid <= i < routes@.len() implies lex_less(p@, #[trigger] names[i]) by {
                            if i > mid {
                                lemma_lex_less_trans(p@, names[mid as int], names[i]);
                            }
                        }
                    }
                }
                hi = mid;
            },
        }
    }
    proof {
        assert forall|i: int| 0 <= i < routes@.len() && sorted(names) implies names[i] != p@ by {
            lemma_lex_less_asymmetric(names[i], p@);
            lemma_lex_less_asymmetric(p@, names[i]);
        }
    }
    None
}

pub proof fn lemma_lex_less_trans(a: Seq<u8>, b: Seq<u8>, c: Seq<u8>)
    requires
        lex_less(a, b),
        lex_less(b, c),
    ensures
        lex_less(a, c),
    decreases a.len(),
{
    if a.len() > 0 && b.len() > 0 && c.len() > 0 && a[0] == b[0] && b[0] == c[0] {
        lemma_lex_less_trans(a.drop_first(), b.drop_first(), c.drop_first());
    }
}

/// How a request is answered: by the API, given the path after `/api/`,
/// or with the bytes of a response.
#[derive(Debug)]
pub enum Route<'a> {
    Api(&'a str),
    Static(Vec<u8>),
}

/// The `Accept` header's value: that of the first header called `accept`
/// (ignoring ASCII case) when it is UTF-8, otherwise `*/*`.
pub open spec fn accept_value(headers: Seq<(Seq<u8>, Seq<u8>)>) -> Seq<u8> {
    match header_value(headers, "accept".spec_bytes()) {
        Some(v) => if valid_utf8(v) {
            v
        } else {
            "*/*".spec_bytes()
        },
        None => "*/*".spec_bytes(),
    }
}

/// A path under `/api/`.
pub open spec fn is_api_path(p: Seq<u8>) -> bool {
    p.len() >= 5 && p.subrange(0, 5) == "/api/".spec_bytes()
}

/// The file served for `path`: the table's entry with that route, or
/// `index` when there is none.
pub open spec fn chosen_file<'a>(routes: Seq<(&'a str, File<'a>)>, index: File<'a>, path: Seq<u8>) -> File<'a> {
    if exists|i: int| 0 <= i < routes.len() && #[trigger] route_names(routes)[i] == path {
        routes[choose|i: int| 0 <= i < routes.len() && #[trigger] route_names(routes)[i] == path].1
    } else {
        index
    }
}

/// The answer with a static file: the file when the `Accept` value allows
/// its media type, otherwise `406 Not Acceptable`.
pub open spec fn static_response(f: File, accept: Seq<u8>) -> Seq<u8> {
    if acceptable(f.mime, accept) {
        file_response(f)
    } else {
        not_acceptable_response(f.mime)
    }
}

/// Media types short enough for their announced length to fit a `usize`.
pub open spec fn mimes_fit(routes: Seq<(&str, File)>, index: File) -> bool {
    &&& mime_len(index.mime) <= usize::MAX
    &&& forall|i: int| 0 <= i < routes.len() ==> mime_len(#[trigger] routes[i].1.mime) <= usize::MAX
}

/// Decides how to answer a request for `path` with `method` and `headers`:
/// paths under `/api/` go to the API; `GET` requests get a static file from
/// `routes` (in strictly increasing order of route), or `index`; other
/// methods get `405 Method Not Allowed`, allowing `GET`.
pub fn route<'a>(
    path: &'a str,
    method: Method,
    headers: &[Header],
    routes: &[(&str, File)],
    index: &File,
) -> (r: Route<'a>)
    requires
        sorted(route_names(routes@)),
        mimes_fit(routes@, *index),
    ensures
        if is_api_path(path.spec_bytes()) {
            r matches Route::Api(p) && p.spec_bytes() == path.spec_bytes().subrange(
                5,
                path.spec_bytes().len() as int,
            )
        } else if method == Method::Get {
            r matches Route::Static(b) && b@ == static_response(
                chosen_file(routes@, *index, path.spec_bytes()),
                accept_value(header_bytes(headers@)),
            )
        } else {
            r matches Route::Static(b) && b@ == method_not_allowed_response(seq![Method::Get])
        },
{
    let accept = match find_header(headers, "accept".as_bytes()) {
        Some(v) => match str_from_utf8(v) {
            Some(s) => s,
            None => "*/*",
        },
        None => "*/*",
    };
    let p = path.as_bytes();
    if p.len() >= 5 && bytes_eq(&p[0..5], "/api/".as_bytes()) {
        proof {
            encode_utf8_valid_utf8(path@);
            assert(p@[4] == p@.subrange(0, 5)[4]);
            reveal_strlit("/api/");
            vstd::string::is_ascii_spec_bytes("/api/");
            assert(p@[4] == 0x2F);
            lemma_ascii_boundaries(p@, 4);
        }
        let (_, rest) = path.split_at(5);
        return Route::Api(rest);
    }
    if method == Method::Get {
        let file = match find_route(routes, path) {
            Some(i) => {
                proof {
                    let names = route_names(routes@);
                    let j = choose|j: int| 0 <= j < routes@.len() && #[trigger] names[j] == p@;
                    if j != i {
                        if j < i {
                            lemma_lex_less_asymmetric(names[j], names[i as int]);
                        } else {
                            lemma_lex_less_asymmetric(names[i as int], names[j]);
                        }
                    }
                }
                &routes[i].1
            },
            None => index,
        };
        let body = if file.mime.is_acceptable(accept) {
            file.response()
        } else {
            not_acceptable(&file.mime)
        };
        Route::Static(body)
    } else {
        let allow = [Method::Get];
        let body = method_not_allowed(&allow);
        assert(allow@ == seq![Method::Get]);
        Route::Static(body)
    }
}

/// What an API response leads to: a response to write, after which the
/// connection goes on, or an event stream.
#[derive(Debug)]
pub enum Outcome<StreamId> {
    Complete(Vec<u8>),
    EventStream(StreamId),
}

/// The bytes that answer an API response (an event stream is answered by
/// the stream itself).
pub fn api_outcome<StreamId>(response: Response<StreamId>) -> (r: Outcome<StreamId>)
    ensures
        match response {
            Response::Success(Some(b)) => r matches Outcome::Complete(x) && x@ == ok_response(b.mime@, b.body@),
            Response::Success(None) => r matches Outcome::Complete(x) && x@ == ok_response(
                "text/plain".spec_bytes(),
                "OK".spec_bytes(),
            ),
            Response::NotFound => r matches Outcome::Complete(x) && x@ == not_found_response(),
            Response::BadRequest { reason } => r matches Outcome::Complete(x) && x@ == bad_request_response(reason@),
            Response::MethodNotAllowed(allow) => r matches Outcome::Complete(x) && x@ == method_not_allowed_response(allow@),
            Response::EventStream(id) => r == Outcome::EventStream(id),
        },
{
    match response {
        Response::Success(Some(body)) => Outcome::Complete(ok(body.mime.as_slice(), body.body.as_slice())),
        Response::Success(None) => Outcome::Complete(ok_default()),
        Response::NotFound => Outcome::Complete(not_found()),
        Response::BadRequest { reason } => Outcome::Complete(bad_request(reason.as_slice())),
        Response::MethodNotAllowed(allow) => Outcome::Complete(method_not_allowed(allow.as_slice())),
        Response::EventStream(id) => Outcome::EventStream(id),
    }
}

/// The head of the response that opens an event stream.
pub open spec fn event_stream_head() -> Seq<u8> {
    "HTTP/1.1 200 OK\r\nContent-Type:text/event-stream\r\nCache-Control:no-cache\r\n\r\n".spec_bytes()
}

/// The head of the response that opens an event stream.
pub fn start_event_stream() -> (r: Vec<u8>)
    ensures
        r@ == event_stream_head(),
{
    let mut out: Vec<u8> = Vec::new();
    push_bytes(&mut out, "HTTP/1.1 200 OK\r\nContent-Type:text/event-stream\r\nCache-Control:no-cache\r\n\r\n".as_bytes());
    assert(out@ =~= event_stream_head());
    out
}

/// In a table in strictly increasing order of route, every listed file is
/// the one served at its route.
pub proof fn lemma_listed_file_served<'a>(routes: Seq<(&'a str, File<'a>)>, index: File<'a>, i: int)
    requires
        sorted(route_names(routes)),
        0 <= i < routes.len(),
    ensures
        chosen_file(routes, index, route_names(routes)[i]) == routes[i].1,
{
    let names = route_names(routes);
    assert(names[i] == names[i]);
    let j = choose|j: int| 0 <= j < routes.len() && #[trigger] names[j] == names[i];
    if j != i {
        if j < i {
            lemma_lex_less_asymmetric(names[j], names[i]);
        } else {
            lemma_lex_less_asymmetric(names[i], names[j]);
        }
    }
}

} // verus!
