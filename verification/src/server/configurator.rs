//! The configurator's routes: its static files and the WebSocket API.
use vstd::prelude::*;
use vstd::string::StringSliceAdditionalSpecFns;

use super::router::{chosen_file, find_route, lemma_lex_less_asymmetric, route_names, sorted, File};
use crate::text::bytes_eq;

verus! {

/// Marks the routers the configurator can serve with.
pub trait Seal {
}

/// Serves the configurator's static files.
#[derive(Debug, Clone, Copy)]
pub struct AssetsRouter;

impl AssetsRouter {
    /// The file served for `path`: the entry of `routes` (in strictly
    /// increasing order of route) with that route, or `index`.
    pub fn file<'a>(&self, routes: &'a [(&'a str, File<'a>)], index: &'a File<'a>, path: &str) -> (r: &'a File<'a>)
        requires
            sorted(route_names(routes@)),
        ensures
            *r == chosen_file(routes@, *index, path.spec_bytes()),
    {
        match find_route(routes, path) {
            Some(i) => {
                proof {
                    let names = route_names(routes@);
                    let j = choose|j: int| 0 <= j < routes@.len() && #[trigger] names[j] == path.spec_bytes();
                    if j != i {
                        if j < i {
                            lemma_lex_less_asymmetric(names[j], names[i as int]);
                        } else {
                            lemma_lex_less_asymmetric(names[i as int], names[j]);
                        }
                    }
                }
                &routes[i].1
            },
            None => index,
        }
    }
}

/// Upgrades requests for the root path to the WebSocket API.
#[derive(Debug, Clone, Copy)]
pub struct UpgradeHandler;

/// Whether `protocols` (absent without a `Sec-WebSocket-Protocol` header)
/// holds `name`.
pub open spec fn offers(protocols: Option<Seq<Seq<u8>>>, name: Seq<u8>) -> bool {
    match protocols {
        Some(p) => p.contains(name),
        None => false,
    }
}

/// The bytes of each string.
pub open spec fn strs_bytes(s: Seq<&str>) -> Seq<Seq<u8>> {
    s.map_values(|x: &str| x.spec_bytes())
}

impl UpgradeHandler {
    /// Whether the handler answers `path` with an upgrade: only the root,
    /// written empty or as `/`; other paths are answered `404 Not Found`.
    pub fn serves(&self, path: &str) -> (r: bool)
        ensures
            r == (path.spec_bytes().len() == 0 || path.spec_bytes() == "/".spec_bytes()),
    {
        let p = path.as_bytes();
        p.len() == 0 || bytes_eq(p, "/".as_bytes())
    }

    /// Whether the client offers the sub-protocol `name`; otherwise it is
    /// answered `400 Bad Request`.
    pub fn accepts(&self, protocols: Option<&[&str]>, name: &str) -> (r: bool)
        ensures
            r == offers(
                match protocols {
                    Some(p) => Some(strs_bytes(p@)),
                    None => None,
                },
                name.spec_bytes(),
            ),
    {
        let list = match protocols {
            Some(p) => p,
            None => return false,
        };
        let n = name.as_bytes();
        let mut i: usize = 0;
        while i < list.len()
            invariant
                i <= list@.len(),
                protocols == Some(list),
                n@ == name.spec_bytes(),
                forall|j: int| 0 <= j < i ==> list@[j].spec_bytes() != n@,
            decreases list@.len() - i,
        {
            if bytes_eq(list[i].as_bytes(), n) {
                assert(strs_bytes(list@)[i as int] == name.spec_bytes());
                assert(strs_bytes(list@).contains(name.spec_bytes()));
                return true;
            }
            i = i + 1;
        }
        proof {
            assert forall|j: int| 0 <= j < strs_bytes(list@).len() implies strs_bytes(list@)[j] != name.spec_bytes() by {
                assert(strs_bytes(list@)[j] == list@[j].spec_bytes());
            }
        }
        false
    }
}

/// The WebSocket API session for one client.
#[derive(Debug)]
pub struct Handler<'a, A> {
    pub api: &'a A,
}

impl<'a, A> Handler<'a, A> {
    pub fn new(api: &'a A) -> (r: Self)
        ensures
            r.api == api,
    {
        Handler { api }
    }
}

/// A WebSocket message received.
#[derive(Debug, Clone, Copy)]
pub enum Message<'a> {
    Text(&'a str),
    Binary(&'a [u8]),
    Close(Option<(u16, &'a str)>),
    Ping(&'a [u8]),
    Pong(&'a [u8]),
}

/// What the session does with a message.
#[derive(Debug, Clone, Copy)]
pub enum Reply<'a> {
    /// Hand the request to the API and send back its answer, if any.
    Handle(&'a [u8]),
    /// Answer a ping with this payload.
    Pong(&'a [u8]),
    /// Close the connection, echoing the close frame.
    Close(Option<(u16, &'a str)>),
    /// Wait for the next message.
    Ignore,
}

/// What the session does with a message: binary messages are API requests,
/// pings are answered, a close ends the session, and text and pongs are
/// ignored.
pub fn reply<'a>(message: Message<'a>) -> (r: Reply<'a>)
    ensures
        r == match message {
            Message::Binary(b) => Reply::Handle(b),
            Message::Ping(p) => Reply::Pong(p),
            Message::Close(c) => Reply::Close(c),
            Message::Text(_) => Reply::Ignore,
            Message::Pong(_) => Reply::Ignore,
        },
{
    match message {
        Message::Binary(b) => Reply::Handle(b),
        Message::Ping(p) => Reply::Pong(p),
        Message::Close(c) => Reply::Close(c),
        Message::Text(_) => Reply::Ignore,
        Message::Pong(_) => Reply::Ignore,
    }
}

} // verus!
