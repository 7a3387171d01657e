//! The life of one connection, as a state machine.
//!
//! The machine decides; whoever owns the socket acts. For each state
//! [`Connection::pending`] names the outside work that the state waits for,
//! and [`Connection::step`] takes the outcome of that work to the next state:
//!
//! ```text
//! AwaitingRead -> Parsed -> Routed -> Responded -> Closed
//! ```
//!
//! A read that fails or brings no bytes closes the connection without a
//! response. Request text that does not parse, and a request that neither a
//! route nor a file answers, are answered alike with `NotFound`.

use crate::request::{outcome_view, parse_text, HttpMethod, HttpRequest, ParseError, RequestView};
use crate::response::{encode_spec, ContentType, HttpResponse};
use crate::router::{routed, RouteEntry, Router, Routing};
use crate::text::{matches_at, occurs_at, to_chars, to_string};
use vstd::prelude::*;
use vstd::slice::slice_subrange;
use vstd::utf8::{decode_utf8, encode_utf8, encode_utf8_decode_utf8, valid_utf8};

verus! {

/// The text that `String::from_utf8_lossy` makes of a sequence of bytes.
pub uninterp spec fn utf8_lossy(bytes: Seq<u8>) -> Seq<char>;

/// Decodes bytes as UTF-8 with `String::from_utf8_lossy`, which puts U+FFFD
/// in place of each ill-formed sequence.
///
/// Believed, not proved: the text depends on the bytes alone, and bytes that
/// are well-formed UTF-8 are the bytes of the text.
#[verifier::external_body]
fn decode_lossy(bytes: &[u8]) -> (text: String)
    ensures
        text@ == utf8_lossy(bytes@),
        valid_utf8(bytes@) ==> encode_utf8(text@) == bytes@,
{
    String::from_utf8_lossy(bytes).into_owned()
}

/// The text that the bytes of a read are parsed as: what they encode where
/// they are well-formed UTF-8, else what lossy decoding makes of them.
pub open spec fn request_text(bytes: Seq<u8>) -> Seq<char> {
    if valid_utf8(bytes) {
        decode_utf8(bytes)
    } else {
        utf8_lossy(bytes)
    }
}

/// The state of a connection.
#[derive(Debug)]
pub enum Connection {
    /// Nothing has been read yet.
    AwaitingRead,
    /// The bytes that were read have been decoded and parsed.
    Parsed(Result<HttpRequest, ParseError>),
    /// The request has been looked up in the route table.
    Routed(Routing),
    /// The response is decided and waits to be written.
    Responded(HttpResponse),
    /// The connection is over.
    Closed,
}

/// The outside work that a state waits for.
#[derive(Debug)]
pub enum Action {
    /// Read once from the socket.
    Read,
    /// Nothing to do outside: step on with `Event::Proceed`.
    Proceed,
    /// Ask the static-file collaborator for the file of this name.
    LookupFile(String),
    /// Write these bytes to the socket, all of them.
    Write(Vec<u8>),
    /// Release the connection.
    Close,
}

/// The outcome of the outside work.
#[derive(Debug)]
pub enum Event {
    /// The read brought these bytes; none at the end of the stream.
    Read(Vec<u8>),
    /// The read failed.
    ReadFailed,
    /// There was nothing to do.
    Proceed,
    /// The file's bytes, or `None` where there is no such file or no
    /// collaborator.
    File(Option<Vec<u8>>),
    /// The bytes were written.
    Written,
    /// The write failed.
    WriteFailed,
}

/// The path prefix under which unmatched `GET` requests ask for a file.
pub open spec fn file_prefix() -> Seq<char> {
    "/files/"@
}

/// Whether an unmatched request asks for a file.
pub open spec fn wants_file(request: RequestView) -> bool {
    request.method == HttpMethod::Get && occurs_at(request.resource, file_prefix(), 0)
}

/// The name of the file that an unmatched request asks for: what follows
/// the prefix.
pub open spec fn file_name(request: RequestView) -> Seq<char> {
    request.resource.skip(file_prefix().len() as int)
}

/// Whether `action` is the outside work that `state` waits for.
pub open spec fn is_pending(state: Connection, action: Action) -> bool {
    match state {
        Connection::AwaitingRead => action == Action::Read,
        Connection::Parsed(_) => action == Action::Proceed,
        Connection::Routed(Routing::Matched(_)) => action == Action::Proceed,
        Connection::Routed(Routing::Unmatched(request)) => if wants_file(request@) {
            action matches Action::LookupFile(name) && name@ == file_name(request@)
        } else {
            action == Action::Proceed
        },
        Connection::Responded(response) => action matches Action::Write(bytes) && bytes@
            == encode_spec(response),
        Connection::Closed => action == Action::Close,
    }
}

/// Whether `next` is a state that follows `state` on `event`, with the
/// routes `entries`.
///
/// Read bytes are decoded and parsed. A parsed request is dispatched; text
/// that did not parse is answered with `NotFound`. A matched request goes on
/// with its handler's response; an unmatched one with the file that was
/// found for it, as an octet stream, else with `NotFound`. Once the response
/// is written, or the write has failed, the connection is closed. So it is on
/// a read that failed or brought nothing, and on any event that the state did
/// not wait for.
pub open spec fn steps_to<H: Fn(HttpRequest) -> HttpResponse>(
    entries: Seq<RouteEntry<H>>,
    state: Connection,
    event: Event,
    next: Connection,
) -> bool {
    match (state, event) {
        (Connection::AwaitingRead, Event::Read(bytes)) => if bytes@.len() > 0 {
            next matches Connection::Parsed(outcome) && outcome_view(outcome) == parse_text(
                request_text(bytes@),
            )
        } else {
            next == Connection::Closed
        },
        (Connection::Parsed(Ok(request)), Event::Proceed) => {
            next matches Connection::Routed(outcome) && routed(entries, request, outcome)
        },
        (Connection::Parsed(Err(_)), Event::Proceed) => next == Connection::Responded(
            HttpResponse::NotFound,
        ),
        (Connection::Routed(Routing::Matched(response)), Event::Proceed) => next
            == Connection::Responded(response),
        (Connection::Routed(Routing::Unmatched(request)), Event::File(Some(bytes))) => if wants_file(
            request@,
        ) {
            next == Connection::Responded(
                HttpResponse::Success(ContentType::OctetStream(bytes), None),
            )
        } else {
            next == Connection::Closed
        },
        (Connection::Routed(Routing::Unmatched(request)), Event::File(None)) => if wants_file(
            request@,
        ) {
            next == Connection::Responded(HttpResponse::NotFound)
        } else {
            next == Connection::Closed
        },
        (Connection::Routed(Routing::Unmatched(request)), Event::Proceed) => if wants_file(
            request@,
        ) {
            next == Connection::Closed
        } else {
            next == Connection::Responded(HttpResponse::NotFound)
        },
        (Connection::Responded(_), Event::Written) => next == Connection::Closed,
        (Connection::Responded(_), Event::WriteFailed) => next == Connection::Closed,
        _ => next == Connection::Closed,
    }
}

/// How many steps a state is from the end, at most.
pub open spec fn steps_left(state: Connection) -> nat {
    match state {
        Connection::AwaitingRead => 4,
        Connection::Parsed(_) => 3,
        Connection::Routed(_) => 2,
        Connection::Responded(_) => 1,
        Connection::Closed => 0,
    }
}

/// Every step moves a connection forward: the states follow each other in
/// the order `AwaitingRead`, `Parsed`, `Routed`, `Responded`, `Closed`, none
/// is entered twice, and `Closed` is never left. A response is decided only
/// after a read that brought bytes.
pub proof fn lemma_step_advances<H: Fn(HttpRequest) -> HttpResponse>(
    entries: Seq<RouteEntry<H>>,
    state: Connection,
    event: Event,
    next: Connection,
)
    requires
        steps_to(entries, state, event, next),
    ensures
        state != Connection::Closed ==> steps_left(next) < steps_left(state),
        state == Connection::Closed ==> next == Connection::Closed,
        state == Connection::AwaitingRead ==> next is Parsed || next == Connection::Closed,
        state == Connection::AwaitingRead && next is Parsed ==> (event matches Event::Read(bytes)
            && bytes@.len() > 0),
{
}

/// Whether an unmatched request asks for a file.
fn asks_for_file(request: &HttpRequest) -> (r: Option<String>)
    ensures
        match r {
            Some(name) => wants_file(request@) && name@ == file_name(request@),
            None => !wants_file(request@),
        },
{
    match request.method {
        HttpMethod::Get => {},
        _ => {
            return None;
        },
    }
    let resource = to_chars(request.resource.as_str());
    let prefix = to_chars("/files/");
    if prefix.len() <= resource.len() && matches_at(resource.as_slice(), prefix.as_slice(), 0) {
        let name = slice_subrange(resource.as_slice(), prefix.len(), resource.len());
        assert(name@ =~= file_name(request@));
        Some(to_string(name))
    } else {
        None
    }
}

impl Connection {
    /// A connection that has just been accepted.
    pub fn new() -> (state: Connection)
        ensures
            state == Connection::AwaitingRead,
    {
        Connection::AwaitingRead
    }

    /// Whether the connection is over.
    pub fn is_closed(&self) -> (r: bool)
        ensures
            r == (*self == Connection::Closed),
    {
        match self {
            Connection::Closed => true,
            _ => false,
        }
    }

    /// The outside work that the state waits for.
    pub fn pending(&self) -> (action: Action)
        ensures
            is_pending(*self, action),
    {
        match self {
            Connection::AwaitingRead => Action::Read,
            Connection::Parsed(_) => Action::Proceed,
            Connection::Routed(Routing::Matched(_)) => Action::Proceed,
            Connection::Routed(Routing::Unmatched(request)) => match asks_for_file(request) {
                Some(name) => Action::LookupFile(name),
                None => Action::Proceed,
            },
            Connection::Responded(response) => Action::Write(response.encode()),
            Connection::Closed => Action::Close,
        }
    }

    /// Takes the outcome of the outside work to the next state.
    pub fn step<H: Fn(HttpRequest) -> HttpResponse>(
        self,
        router: &Router<H>,
        event: Event,
    ) -> (next: Connection)
        ensures
            steps_to(router.entries(), self, event, next),
    {
        match (self, event) {
            (Connection::AwaitingRead, Event::Read(bytes)) => {
                if bytes.len() > 0 {
                    let text = decode_lossy(bytes.as_slice());
                    proof {
                        encode_utf8_decode_utf8(text@);
                    }
                    Connection::Parsed(HttpRequest::parse(text.as_str()))
                } else {
                    Connection::Closed
                }
            },
            (Connection::Parsed(Ok(request)), Event::Proceed) => Connection::Routed(
                router.dispatch(request),
            ),
            (Connection::Parsed(Err(_)), Event::Proceed) => Connection::Responded(
                HttpResponse::NotFound,
            ),
            (Connection::Routed(Routing::Matched(response)), Event::Proceed) => {
                Connection::Responded(response)
            },
            (Connection::Routed(Routing::Unmatched(request)), Event::File(found)) => {
                match asks_for_file(&request) {
                    Some(_) => match found {
                        Some(bytes) => Connection::Responded(
                            HttpResponse::Success(ContentType::OctetStream(bytes), None),
                        ),
                        None => Connection::Responded(HttpResponse::NotFound),
                    },
                    None => Connection::Closed,
                }
            },
            (Connection::Routed(Routing::Unmatched(request)), Event::Proceed) => {
                match asks_for_file(&request) {
                    Some(_) => Connection::Closed,
                    None => Connection::Responded(HttpResponse::NotFound),
                }
            },
            (Connection::Responded(_), Event::Written) => Connection::Closed,
            (Connection::Responded(_), Event::WriteFailed) => Connection::Closed,
            _ => Connection::Closed,
        }
    }
}

} // verus!
