//! The handlers of the stock endpoints: the home page, the echo of a path
//! parameter, and the echo of the `User-Agent` header.

use crate::request::HttpRequest;
use crate::response::{ContentEncoding, ContentType, HttpResponse};
use crate::text::{contains, search, to_chars};
use crate::text_map::TextMap;
use vstd::prelude::*;

verus! {

/// The encoding label that a response gets: `gzip` where the request has an
/// `Accept-Encoding` header whose value holds `gzip`, else none.
pub open spec fn encoding_for(headers: Map<Seq<char>, Seq<char>>) -> Option<ContentEncoding> {
    if headers.contains_key("Accept-Encoding"@) && contains(headers["Accept-Encoding"@], "gzip"@) {
        Some(ContentEncoding::Gzip)
    } else {
        None
    }
}

/// Whether `response` is a success that carries `text` as plain text under
/// the label `encoding`.
pub open spec fn is_plain_text(
    response: HttpResponse,
    text: Seq<char>,
    encoding: Option<ContentEncoding>,
) -> bool {
    &&& response matches HttpResponse::Success(ContentType::PlainText(body), label)
    &&& body@ == text
    &&& label == encoding
}

/// The encoding label for a response to a request with these headers.
pub fn negotiate_encoding(headers: &TextMap) -> (r: Option<ContentEncoding>)
    ensures
        r == encoding_for(headers@),
{
    match headers.get("Accept-Encoding") {
        Some(value) => {
            let accepted = to_chars(value.as_str());
            let wanted = to_chars("gzip");
            if search(accepted.as_slice(), wanted.as_slice()).is_some() {
                Some(ContentEncoding::Gzip)
            } else {
                None
            }
        },
        None => None,
    }
}

/// Answers with an empty plain-text body.
pub fn handle_home(_request: HttpRequest) -> (response: HttpResponse)
    ensures
        is_plain_text(response, Seq::empty(), None),
{
    HttpResponse::Success(ContentType::PlainText(String::new()), None)
}

/// Answers with the value of the path parameter `str` as plain text, under
/// the encoding label that the request's headers ask for. Without that
/// parameter the answer is `NotFound`.
pub fn handle_echo(request: HttpRequest) -> (response: HttpResponse)
    ensures
        match request@.params {
            Some(params) if params.contains_key("str"@) => is_plain_text(
                response,
                params["str"@],
                encoding_for(request@.headers),
            ),
            _ => response == HttpResponse::NotFound,
        },
{
    match &request.params {
        Some(params) => match params.get("str") {
            Some(value) => {
                let encoding = negotiate_encoding(&request.headers);
                HttpResponse::Success(ContentType::PlainText(value.clone()), encoding)
            },
            None => HttpResponse::NotFound,
        },
        None => HttpResponse::NotFound,
    }
}

/// Answers with the value of the `User-Agent` header as plain text, under
/// the encoding label that the request's headers ask for. Without that
/// header the answer is `NotFound`.
pub fn handle_user_agent(request: HttpRequest) -> (response: HttpResponse)
    ensures
        if request@.headers.contains_key("User-Agent"@) {
            is_plain_text(
                response,
                request@.headers["User-Agent"@],
                encoding_for(request@.headers),
            )
        } else {
            response == HttpResponse::NotFound
        },
{
    match request.headers.get("User-Agent") {
        Some(agent) => {
            let encoding = negotiate_encoding(&request.headers);
            HttpResponse::Success(ContentType::PlainText(agent.clone()), encoding)
        },
        None => HttpResponse::NotFound,
    }
}

} // verus!
