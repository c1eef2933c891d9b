//! The HTTP API seen by the network code: methods, responses and event
//! streams.
use vstd::prelude::*;
use vstd::string::StringSliceAdditionalSpecFns;

use crate::text::{ascii_lower, eq_ignore_ascii_case, eq_ignore_case, find_byte, lemma_find_byte, push_bytes};

verus! {

/// An HTTP request method.
#[derive(Debug, Clone, Copy, PartialEq, Eq, Structural)]
pub enum Method {
    Get,
    Head,
    Post,
    Put,
    Delete,
    Connect,
    Options,
    Trace,
    Patch,
}

/// The name of a method as it appears on the wire.
pub open spec fn method_name(m: Method) -> Seq<u8> {
    match m {
        Method::Get => "GET".spec_bytes(),
        Method::Head => "HEAD".spec_bytes(),
        Method::Post => "POST".spec_bytes(),
        Method::Put => "PUT".spec_bytes(),
        Method::Delete => "DELETE".spec_bytes(),
        Method::Connect => "CONNECT".spec_bytes(),
        Method::Options => "OPTIONS".spec_bytes(),
        Method::Trace => "TRACE".spec_bytes(),
        Method::Patch => "PATCH".spec_bytes(),
    }
}

/// The method named by `s`, compared without regard to ASCII case.
pub open spec fn parse_method(s: Seq<u8>) -> Option<Method> {
    if eq_ignore_case(s, "get".spec_bytes()) {
        Some(Method::Get)
    } else if eq_ignore_case(s, "head".spec_bytes()) {
        Some(Method::Head)
    } else if eq_ignore_case(s, "post".spec_bytes()) {
        Some(Method::Post)
    } else if eq_ignore_case(s, "put".spec_bytes()) {
        Some(Method::Put)
    } else if eq_ignore_case(s, "delete".spec_bytes()) {
        Some(Method::Delete)
    } else if eq_ignore_case(s, "connect".spec_bytes()) {
        Some(Method::Connect)
    } else if eq_ignore_case(s, "options".spec_bytes()) {
        Some(Method::Options)
    } else if eq_ignore_case(s, "trace".spec_bytes()) {
        Some(Method::Trace)
    } else if eq_ignore_case(s, "patch".spec_bytes()) {
        Some(Method::Patch)
    } else {
        None
    }
}

impl Method {
    /// The method's name in upper case.
    pub fn as_bytes(&self) -> (r: &'static [u8])
        ensures
            r@ == method_name(*self),
    {
        match self {
            Method::Get => "GET".as_bytes(),
            Method::Head => "HEAD".as_bytes(),
            Method::Post => "POST".as_bytes(),
            Method::Put => "PUT".as_bytes(),
            Method::Delete => "DELETE".as_bytes(),
            Method::Connect => "CONNECT".as_bytes(),
            Method::Options => "OPTIONS".as_bytes(),
            Method::Trace => "TRACE".as_bytes(),
            Method::Patch => "PATCH".as_bytes(),
        }
    }

    /// Reads a method name, ignoring ASCII case.
    fn parse(method: &str) -> (r: Option<Method>)
        ensures
            r == parse_method(method.spec_bytes()),
    {
        let m = method.as_bytes();
        if eq_ignore_ascii_case(m, "get".as_bytes()) {
            Some(Method::Get)
        } else if eq_ignore_ascii_case(m, "head".as_bytes()) {
            Some(Method::Head)
        } else if eq_ignore_ascii_case(m, "post".as_bytes()) {
            Some(Method::Post)
        } else if eq_ignore_ascii_case(m, "put".as_bytes()) {
            Some(Method::Put)
        } else if eq_ignore_ascii_case(m, "delete".as_bytes()) {
            Some(Method::Delete)
        } else if eq_ignore_ascii_case(m, "connect".as_bytes()) {
            Some(Method::Connect)
        } else if eq_ignore_ascii_case(m, "options".as_bytes()) {
            Some(Method::Options)
        } else if eq_ignore_ascii_case(m, "trace".as_bytes()) {
            Some(Method::Trace)
        } else if eq_ignore_ascii_case(m, "patch".as_bytes()) {
            Some(Method::Patch)
        } else {
            None
        }
    }
}

impl<'a> TryFrom<&'a str> for Method {
    type Error = ();

    /// Reads a method name, ignoring ASCII case.
    fn try_from(method: &'a str) -> (r: Result<Self, ()>)
    {
        match Method::parse(method) {
            Some(m) => Ok(m),
            None => Err(()),
        }
    }
}

impl<'a> vstd::std_specs::convert::TryFromSpecImpl<&'a str> for Method {
    open spec fn obeys_try_from_spec() -> bool {
        true
    }

    open spec fn try_from_spec(method: &'a str) -> Result<Self, ()> {
        match parse_method(method.spec_bytes()) {
            Some(m) => Ok(m),
            None => Err(()),
        }
    }
}

/// A response body and its media type.
#[derive(Debug)]
pub struct Body {
    pub mime: Vec<u8>,
    pub body: Vec<u8>,
}

/// The answer of the API to a request.
#[derive(Debug)]
pub enum Response<StreamId> {
    Success(Option<Body>),
    NotFound,
    BadRequest { reason: Vec<u8> },
    MethodNotAllowed(Vec<Method>),
    EventStream(StreamId),
}

/// The media type of binary bodies.
pub open spec fn octet_stream() -> Seq<u8> {
    "application/octet-stream".spec_bytes()
}

/// The bytes of `s`.
fn bytes_to_vec(s: &[u8]) -> (r: Vec<u8>)
    ensures
        r@ == s@,
{
    let mut out: Vec<u8> = Vec::new();
    push_bytes(&mut out, s);
    out
}

impl<StreamId> Response<StreamId> {
    /// A successful response carrying `body` as binary data.
    pub fn binary(body: &[u8]) -> (r: Self)
        ensures
            r matches Response::Success(Some(b)) && b.mime@ == octet_stream() && b.body@ == body@,
    {
        let mime = bytes_to_vec("application/octet-stream".as_bytes());
        let body = bytes_to_vec(body);
        Response::Success(Some(Body { mime, body }))
    }

    /// The response with its data owned; a response already owns its data,
    /// so it is handed back unchanged.
    pub fn into_owned(self) -> (r: Self)
        ensures
            r == self,
    {
        self
    }
}

/// A receiver of server-sent events.
pub trait EventHandler {
    type Error;

    /// Sends `data` as an unnamed event.
    fn send(&mut self, data: &[u8]) -> Result<(), Self::Error>;

    /// Sends `data` as an event called `name`.
    fn send_named(&mut self, name: &[u8], data: &[u8]) -> Result<(), Self::Error>;
}

/// The `data:` lines of an event carrying `data`: one per line of `data`,
/// lines being separated by `\n`.
pub open spec fn event_data(data: Seq<u8>) -> Seq<u8>
    decreases data.len(),
{
    let i = find_byte(data, 0x0A);
    if 0 <= i < data.len() {
        proof {
            lemma_find_byte(data, 0x0A);
        }
        "data:".spec_bytes() + data.subrange(0, i) + seq![0x0Au8] + event_data(
            data.subrange(i + 1, data.len() as int),
        )
    } else {
        "data:".spec_bytes() + data + seq![0x0Au8]
    }
}

/// The bytes of an event called `name` carrying `data`.
pub open spec fn named_event(name: Seq<u8>, data: Seq<u8>) -> Seq<u8> {
    "event:".spec_bytes() + name + seq![0x0Au8] + event_data(data)
}

/// Writes server-sent events to a byte buffer.
#[derive(Debug)]
pub struct EventWriter {
    pub out: Vec<u8>,
}

impl EventWriter {
    /// Appends the `data:` lines for `data`.
    pub fn write_data(&mut self, data: &[u8])
        ensures
            final(self).out@ == old(self).out@ + event_data(data@),
    {
        let mut rest = data;
        loop
            invariant
                old(self).out@ + event_data(data@) == self.out@ + event_data(rest@),
            decreases rest@.len(),
        {
            proof {
                lemma_find_byte(rest@, 0x0A);
            }
            let mut i: usize = 0;
            while i < rest.len() && rest[i] != 0x0A
                invariant
                    i <= rest@.len(),
                    i <= find_byte(rest@, 0x0A),
                    forall|j: int| 0 <= j < i ==> rest@[j] != 0x0A,
                    0 <= find_byte(rest@, 0x0A) <= rest@.len(),
                    find_byte(rest@, 0x0A) < rest@.len() ==> rest@[find_byte(rest@, 0x0A)] == 0x0A,
                decreases rest@.len() - i,
            {
                i = i + 1;
            }
            assert(i == find_byte(rest@, 0x0A));
            let ghost before = self.out@;
            push_bytes(&mut self.out, "data:".as_bytes());
            push_bytes(&mut self.out, &rest[0..i]);
            self.out.push(0x0A);
            if i == rest.len() {
                assert(rest@.subrange(0, i as int) =~= rest@);
                assert(self.out@ =~= before + event_data(rest@));
                assert(self.out@ + Seq::<u8>::empty() =~= self.out@);
                return;
            }
            let next = &rest[i + 1..rest.len()];
            assert(self.out@ + event_data(next@) =~= before + event_data(rest@));
            rest = next;
        }
    }
}

impl EventHandler for EventWriter {
    type Error = core::convert::Infallible;

    fn send(&mut self, data: &[u8]) -> (r: Result<(), Self::Error>)
        ensures
            r is Ok,
            final(self).out@ == old(self).out@ + event_data(data@),
    {
        self.write_data(data);
        Ok(())
    }

    fn send_named(&mut self, name: &[u8], data: &[u8]) -> (r: Result<(), Self::Error>)
        ensures
            r is Ok,
            final(self).out@ == old(self).out@ + named_event(name@, data@),
    {
        let ghost start = self.out@;
        push_bytes(&mut self.out, "event:".as_bytes());
        push_bytes(&mut self.out, name);
        self.out.push(0x0A);
        self.write_data(data);
        assert(self.out@ =~= start + named_event(name@, data@));
        Ok(())
    }
}

/// The bytes of the method names, in upper and in lower case.
proof fn lemma_method_name_bytes()
    ensures
        "GET".spec_bytes() == seq![0x47u8, 0x45, 0x54],
        "HEAD".spec_bytes() == seq![0x48u8, 0x45, 0x41, 0x44],
        "POST".spec_bytes() == seq![0x50u8, 0x4F, 0x53, 0x54],
        "PUT".spec_bytes() == seq![0x50u8, 0x55, 0x54],
        "DELETE".spec_bytes() == seq![0x44u8, 0x45, 0x4C, 0x45, 0x54, 0x45],
        "CONNECT".spec_bytes() == seq![0x43u8, 0x4F, 0x4E, 0x4E, 0x45, 0x43, 0x54],
        "OPTIONS".spec_bytes() == seq![0x4Fu8, 0x50, 0x54, 0x49, 0x4F, 0x4E, 0x53],
        "TRACE".spec_bytes() == seq![0x54u8, 0x52, 0x41, 0x43, 0x45],
        "PATCH".spec_bytes() == seq![0x50u8, 0x41, 0x54, 0x43, 0x48],
        "get".spec_bytes() == seq![0x67u8, 0x65, 0x74],
        "head".spec_bytes() == seq![0x68u8, 0x65, 0x61, 0x64],
        "post".spec_bytes() == seq![0x70u8, 0x6F, 0x73, 0x74],
        "put".spec_bytes() == seq![0x70u8, 0x75, 0x74],
        "delete".spec_bytes() == seq![0x64u8, 0x65, 0x6C, 0x65, 0x74, 0x65],
        "connect".spec_bytes() == seq![0x63u8, 0x6F, 0x6E, 0x6E, 0x65, 0x63, 0x74],
        "options".spec_bytes() == seq![0x6Fu8, 0x70, 0x74, 0x69, 0x6F, 0x6E, 0x73],
        "trace".spec_bytes() == seq![0x74u8, 0x72, 0x61, 0x63, 0x65],
        "patch".spec_bytes() == seq![0x70u8, 0x61, 0x74, 0x63, 0x68],
{
    reveal_strlit("GET");
    assert(vstd::string::is_ascii("GET"));
    vstd::string::is_ascii_spec_bytes("GET");
    assert("GET".spec_bytes() =~= seq![0x47u8, 0x45, 0x54]);
    reveal_strlit("HEAD");
    assert(vstd::string::is_ascii("HEAD"));
    vstd::string::is_ascii_spec_bytes("HEAD");
    assert("HEAD".spec_bytes() =~= seq![0x48u8, 0x45, 0x41, 0x44]);
    reveal_strlit("POST");
    assert(vstd::string::is_ascii("POST"));
    vstd::string::is_ascii_spec_bytes("POST");
    assert("POST".spec_bytes() =~= seq![0x50u8, 0x4F, 0x53, 0x54]);
    reveal_strlit("PUT");
    assert(vstd::string::is_ascii("PUT"));
    vstd::string::is_ascii_spec_bytes("PUT");
    assert("PUT".spec_bytes() =~= seq![0x50u8, 0x55, 0x54]);
    reveal_strlit("DELETE");
    assert(vstd::string::is_ascii("DELETE"));
    vstd::string::is_ascii_spec_bytes("DELETE");
    assert("DELETE".spec_bytes() =~= seq![0x44u8, 0x45, 0x4C, 0x45, 0x54, 0x45]);
    reveal_strlit("CONNECT");
    assert(vstd::string::is_ascii("CONNECT"));
    vstd::string::is_ascii_spec_bytes("CONNECT");
    assert("CONNECT".spec_bytes() =~= seq![0x43u8, 0x4F, 0x4E, 0x4E, 0x45, 0x43, 0x54]);
    reveal_strlit("OPTIONS");
    assert(vstd::string::is_ascii("OPTIONS"));
    vstd::string::is_ascii_spec_bytes("OPTIONS");
    assert("OPTIONS".spec_bytes() =~= seq![0x4Fu8, 0x50, 0x54, 0x49, 0x4F, 0x4E, 0x53]);
    reveal_strlit("TRACE");
    assert(vstd::string::is_ascii("TRACE"));
    vstd::string::is_ascii_spec_bytes("TRACE");
    assert("TRACE".spec_bytes() =~= seq![0x54u8, 0x52, 0x41, 0x43, 0x45]);
    reveal_strlit("PATCH");
    assert(vstd::string::is_ascii("PATCH"));
    vstd::string::is_ascii_spec_bytes("PATCH");
    assert("PATCH".spec_bytes() =~= seq![0x50u8, 0x41, 0x54, 0x43, 0x48]);
    reveal_strlit("get");
    assert(vstd::string::is_ascii("get"));
    vstd::string::is_ascii_spec_bytes("get");
    assert("get".spec_bytes() =~= seq![0x67u8, 0x65, 0x74]);
    reveal_strlit("head");
    assert(vstd::string::is_ascii("head"));
    vstd::string::is_ascii_spec_bytes("head");
    assert("head".spec_bytes() =~= seq![0x68u8, 0x65, 0x61, 0x64]);
    reveal_strlit("post");
    assert(vstd::string::is_ascii("post"));
    vstd::string::is_ascii_spec_bytes("post");
    assert("post".spec_bytes() =~= seq![0x70u8, 0x6F, 0x73, 0x74]);
    reveal_strlit("put");
    assert(vstd::string::is_ascii("put"));
    vstd::string::is_ascii_spec_bytes("put");
    assert("put".spec_bytes() =~= seq![0x70u8, 0x75, 0x74]);
    reveal_strlit("delete");
    assert(vstd::string::is_ascii("delete"));
    vstd::string::is_ascii_spec_bytes("delete");
    assert("delete".spec_bytes() =~= seq![0x64u8, 0x65, 0x6C, 0x65, 0x74, 0x65]);
    reveal_strlit("connect");
    assert(vstd::string::is_ascii("connect"));
    vstd::string::is_ascii_spec_bytes("connect");
    assert("connect".spec_bytes() =~= seq![0x63u8, 0x6F, 0x6E, 0x6E, 0x65, 0x63, 0x74]);
    reveal_strlit("options");
    assert(vstd::string::is_ascii("options"));
    vstd::string::is_ascii_spec_bytes("options");
    assert("options".spec_bytes() =~= seq![0x6Fu8, 0x70, 0x74, 0x69, 0x6F, 0x6E, 0x73]);
    reveal_strlit("trace");
    assert(vstd::string::is_ascii("trace"));
    vstd::string::is_ascii_spec_bytes("trace");
    assert("trace".spec_bytes() =~= seq![0x74u8, 0x72, 0x61, 0x63, 0x65]);
    reveal_strlit("patch");
    assert(vstd::string::is_ascii("patch"));
    vstd::string::is_ascii_spec_bytes("patch");
    assert("patch".spec_bytes() =~= seq![0x70u8, 0x61, 0x74, 0x63, 0x68]);
}

/// Equality up to ASCII case of two byte strings of at most seven bytes,
/// checked position by position.
proof fn lemma_eq_ignore_case_at(a: Seq<u8>, b: Seq<u8>)
    requires
        a.len() <= 7,
    ensures
        eq_ignore_case(a, b) == (a.len() == b.len() && (a.len() <= 0 || ascii_lower(a[0]) == ascii_lower(b[0]))
            && (a.len() <= 1 || ascii_lower(a[1]) == ascii_lower(b[1]))
            && (a.len() <= 2 || ascii_lower(a[2]) == ascii_lower(b[2]))
            && (a.len() <= 3 || ascii_lower(a[3]) == ascii_lower(b[3]))
            && (a.len() <= 4 || ascii_lower(a[4]) == ascii_lower(b[4]))
            && (a.len() <= 5 || ascii_lower(a[5]) == ascii_lower(b[5]))
            && (a.len() <= 6 || ascii_lower(a[6]) == ascii_lower(b[6]))),
{
    if a.len() == b.len() && (a.len() <= 0 || ascii_lower(a[0]) == ascii_lower(b[0]))
        && (a.len() <= 1 || ascii_lower(a[1]) == ascii_lower(b[1]))
        && (a.len() <= 2 || ascii_lower(a[2]) == ascii_lower(b[2]))
        && (a.len() <= 3 || ascii_lower(a[3]) == ascii_lower(b[3]))
        && (a.len() <= 4 || ascii_lower(a[4]) == ascii_lower(b[4]))
        && (a.len() <= 5 || ascii_lower(a[5]) == ascii_lower(b[5]))
        && (a.len() <= 6 || ascii_lower(a[6]) == ascii_lower(b[6])) {
        assert forall|i: int| 0 <= i < a.len() implies ascii_lower(#[trigger] a[i]) == ascii_lower(b[i]) by {
            assert(i == 0 || i == 1 || i == 2 || i == 3 || i == 4 || i == 5 || i == 6);
        }
    }
}

/// A method's name reads back as that method.
pub proof fn lemma_method_name_parses(m: Method)
    ensures
        parse_method(method_name(m)) == Some(m),
{
    lemma_method_name_bytes();
    let n = method_name(m);
    lemma_eq_ignore_case_at(n, "get".spec_bytes());
    lemma_eq_ignore_case_at(n, "put".spec_bytes());
    lemma_eq_ignore_case_at(n, "head".spec_bytes());
    lemma_eq_ignore_case_at(n, "post".spec_bytes());
    lemma_eq_ignore_case_at(n, "trace".spec_bytes());
    lemma_eq_ignore_case_at(n, "patch".spec_bytes());
    lemma_eq_ignore_case_at(n, "delete".spec_bytes());
    lemma_eq_ignore_case_at(n, "connect".spec_bytes());
    lemma_eq_ignore_case_at(n, "options".spec_bytes());
}

/// Data without a line break is sent as a single `data:` line.
pub proof fn lemma_single_line_event(data: Seq<u8>)
    requires
        forall|i: int| 0 <= i < data.len() ==> data[i] != 0x0A,
    ensures
        event_data(data) == "data:".spec_bytes() + data + seq![0x0Au8],
{
    lemma_find_byte(data, 0x0A);
}

/// Each line of the data is sent as a line of its own: the lines before the
/// first line break and after it are framed one after the other.
pub proof fn lemma_event_lines(line: Seq<u8>, rest: Seq<u8>)
    requires
        forall|i: int| 0 <= i < line.len() ==> line[i] != 0x0A,
    ensures
        event_data(line + seq![0x0Au8] + rest) == "data:".spec_bytes() + line + seq![0x0Au8]
            + event_data(rest),
{
    let data = line + seq![0x0Au8] + rest;
    lemma_find_byte(data, 0x0A);
    assert(data[line.len() as int] == 0x0A);
    assert(find_byte(data, 0x0A) == line.len()) by {
        if find_byte(data, 0x0A) < line.len() {
            assert(data[find_byte(data, 0x0A)] == line[find_byte(data, 0x0A)]);
        }
    }
    assert(data.subrange(0, line.len() as int) =~= line);
    assert(data.subrange(line.len() as int + 1, data.len() as int) =~= rest);
}

} // verus!
