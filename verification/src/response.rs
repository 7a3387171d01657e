//! The structured response, and the encoder that writes its wire form.

use crate::request::{crlf, header_block, header_line};
use vstd::prelude::*;
use vstd::slice::slice_to_vec;
use vstd::utf8::encode_utf8;

verus! {

/// A label for how a body is encoded. The label is only announced: the body
/// bytes are sent as they are.
#[derive(Debug, Clone, Copy, PartialEq, Eq, Structural)]
pub enum ContentEncoding {
    Gzip,
}

/// The body of a successful response, by the kind of content.
#[derive(Debug, Clone, PartialEq, Eq)]
pub enum ContentType {
    PlainText(String),
    Html(String),
    OctetStream(Vec<u8>),
}

/// A response.
#[derive(Debug, Clone, PartialEq, Eq)]
pub enum HttpResponse {
    /// Success, with a body and an optional encoding label.
    Success(ContentType, Option<ContentEncoding>),
    /// The resource was created. No body.
    Created,
    /// Nothing answers the request. No body.
    NotFound,
}

/// The decimal digit for a number below ten.
pub open spec fn digit(d: nat) -> char {
    if d == 0 {
        '0'
    } else if d == 1 {
        '1'
    } else if d == 2 {
        '2'
    } else if d == 3 {
        '3'
    } else if d == 4 {
        '4'
    } else if d == 5 {
        '5'
    } else if d == 6 {
        '6'
    } else if d == 7 {
        '7'
    } else if d == 8 {
        '8'
    } else {
        '9'
    }
}

/// The decimal numeral of `n`, without leading zeros.
pub open spec fn decimal(n: nat) -> Seq<char>
    decreases n,
{
    if n < 10 {
        seq![digit(n)]
    } else {
        decimal(n / 10).push(digit(n % 10))
    }
}

/// The value of the `Content-Type` header.
pub open spec fn media_type(content: ContentType) -> Seq<char> {
    match content {
        ContentType::PlainText(_) => "text/plain"@,
        ContentType::Html(_) => "text/html"@,
        ContentType::OctetStream(_) => "application/octet-stream"@,
    }
}

/// The bytes of the body: text in UTF-8, raw bytes as they are.
pub open spec fn body_bytes(content: ContentType) -> Seq<u8> {
    match content {
        ContentType::PlainText(text) => encode_utf8(text@),
        ContentType::Html(text) => encode_utf8(text@),
        ContentType::OctetStream(data) => data@,
    }
}

/// The value of the `Content-Encoding` header.
pub open spec fn encoding_label(encoding: ContentEncoding) -> Seq<char> {
    match encoding {
        ContentEncoding::Gzip => "gzip"@,
    }
}

/// The status line, without its line break.
pub open spec fn status_line(response: HttpResponse) -> Seq<char> {
    match response {
        HttpResponse::Success(_, _) => "HTTP/1.1 200 OK"@,
        HttpResponse::Created => "HTTP/1.1 201 Created"@,
        HttpResponse::NotFound => "HTTP/1.1 404 Not Found"@,
    }
}

/// The headers of a response, in the order in which they are sent:
/// `Content-Type`, then `Content-Encoding` if an encoding is labelled, then
/// `Content-Length` with the number of body bytes.
pub open spec fn response_headers(response: HttpResponse) -> Seq<(Seq<char>, Seq<char>)> {
    match response {
        HttpResponse::Success(content, encoding) => {
            let kind = seq![("Content-Type"@, media_type(content))];
            let label = match encoding {
                Some(e) => seq![("Content-Encoding"@, encoding_label(e))],
                None => Seq::empty(),
            };
            let length = seq![("Content-Length"@, decimal(body_bytes(content).len()))];
            kind + label + length
        },
        _ => Seq::empty(),
    }
}

/// The bytes that follow the empty line.
pub open spec fn response_body(response: HttpResponse) -> Seq<u8> {
    match response {
        HttpResponse::Success(content, _) => body_bytes(content),
        _ => Seq::empty(),
    }
}

/// The status line, the header lines and the empty line.
pub open spec fn head_text(response: HttpResponse) -> Seq<char> {
    status_line(response) + crlf() + header_block(response_headers(response)) + crlf()
}

/// The wire form of a response: the head in UTF-8, then the body.
pub open spec fn encode_spec(response: HttpResponse) -> Seq<u8> {
    encode_utf8(head_text(response)) + response_body(response)
}

/// The decimal digit for `d`.
fn digit_char(d: usize) -> (c: char)
    requires
        d < 10,
    ensures
        c == digit(d as nat),
{
    if d == 0 {
        '0'
    } else if d == 1 {
        '1'
    } else if d == 2 {
        '2'
    } else if d == 3 {
        '3'
    } else if d == 4 {
        '4'
    } else if d == 5 {
        '5'
    } else if d == 6 {
        '6'
    } else if d == 7 {
        '7'
    } else if d == 8 {
        '8'
    } else {
        '9'
    }
}

/// Appends the decimal numeral of `n` to `out`.
pub fn push_decimal(out: &mut String, n: usize)
    ensures
        final(out)@ == old(out)@ + decimal(n as nat),
    decreases n,
{
    if n >= 10 {
        push_decimal(out, n / 10);
    }
    out.push(digit_char(n % 10));
    proof {
        if n >= 10 {
            let front = decimal((n / 10) as nat);
            assert(final(out)@ =~= old(out)@ + front.push(digit((n % 10) as nat)));
        } else {
            assert(final(out)@ =~= old(out)@ + seq![digit(n as nat)]);
        }
    }
}

impl ContentType {
    /// The value of the `Content-Type` header.
    pub fn media_type(&self) -> (r: &'static str)
        ensures
            r@ == media_type(*self),
    {
        match self {
            ContentType::PlainText(_) => "text/plain",
            ContentType::Html(_) => "text/html",
            ContentType::OctetStream(_) => "application/octet-stream",
        }
    }

    /// The bytes of the body.
    pub fn body(&self) -> (r: &[u8])
        ensures
            r@ == body_bytes(*self),
    {
        match self {
            ContentType::PlainText(text) => text.as_str().as_bytes(),
            ContentType::Html(text) => text.as_str().as_bytes(),
            ContentType::OctetStream(data) => data.as_slice(),
        }
    }
}

impl ContentEncoding {
    /// The value of the `Content-Encoding` header.
    pub fn label(&self) -> (r: &'static str)
        ensures
            r@ == encoding_label(*self),
    {
        match self {
            ContentEncoding::Gzip => "gzip",
        }
    }
}

/// Appends one header line and its line break to `out`.
fn push_header(out: &mut String, name: &str, value: &str)
    ensures
        final(out)@ == old(out)@ + header_line(name@, value@) + crlf(),
{
    proof {
        reveal_strlit(": ");
        reveal_strlit("\r\n");
    }
    assert(": "@ =~= seq![':', ' ']);
    assert("\r\n"@ =~= crlf());
    out.append(name);
    out.append(": ");
    out.append(value);
    out.append("\r\n");
    assert(out@ =~= old(out)@ + header_line(name@, value@) + crlf());
}

impl HttpResponse {
    /// The status line and the headers, with the empty line that ends them.
    pub fn head(&self) -> (r: String)
        ensures
            r@ == head_text(*self),
    {
        proof {
            reveal_strlit("\r\n");
        }
        assert("\r\n"@ =~= crlf());
        let mut out = String::new();
        match self {
            HttpResponse::Success(content, encoding) => {
                out.append("HTTP/1.1 200 OK");
                out.append("\r\n");
                let ghost start = out@;
                let ghost hs = response_headers(*self);
                push_header(&mut out, "Content-Type", content.media_type());
                let ghost h0 = header_line("Content-Type"@, media_type(*content)) + crlf();
                let ghost h1 = match encoding {
                    Some(e) => header_line("Content-Encoding"@, encoding_label(*e)) + crlf(),
                    None => Seq::empty(),
                };
                match encoding {
                    Some(e) => {
                        push_header(&mut out, "Content-Encoding", e.label());
                    },
                    None => {},
                }
                assert(out@ =~= start + h0 + h1);
                let mut length = String::new();
                push_decimal(&mut length, content.body().len());
                assert(length@ =~= decimal(body_bytes(*content).len()));
                push_header(&mut out, "Content-Length", length.as_str());
                let ghost h2 = header_line("Content-Length"@, length@) + crlf();
                proof {
                    let empty = Seq::<(Seq<char>, Seq<char>)>::empty();
                    assert(header_block(empty) =~= Seq::<char>::empty());
                    match encoding {
                        Some(e) => {
                            assert(hs.skip(1).skip(1).skip(1) =~= empty);
                            assert(header_block(hs.skip(1).skip(1)) =~= h2);
                            assert(header_block(hs.skip(1)) =~= h1 + h2);
                        },
                        None => {
                            assert(hs.skip(1).skip(1) =~= empty);
                            assert(header_block(hs.skip(1)) =~= h2);
                        },
                    }
                    assert(header_block(hs) =~= h0 + h1 + h2);
                    assert(out@ =~= start + header_block(hs));
                }
                out.append("\r\n");
            },
            HttpResponse::Created => {
                out.append("HTTP/1.1 201 Created");
                out.append("\r\n");
                out.append("\r\n");
                assert(header_block(response_headers(*self)) =~= Seq::<char>::empty());
                assert(out@ =~= head_text(*self));
            },
            HttpResponse::NotFound => {
                out.append("HTTP/1.1 404 Not Found");
                out.append("\r\n");
                out.append("\r\n");
                assert(header_block(response_headers(*self)) =~= Seq::<char>::empty());
                assert(out@ =~= head_text(*self));
            },
        }
        out
    }

    /// The bytes that follow the empty line.
    pub fn body(&self) -> (r: &[u8])
        ensures
            r@ == response_body(*self),
    {
        match self {
            HttpResponse::Success(content, _) => content.body(),
            _ => {
                let none: &[u8] = &[];
                assert(none@ =~= Seq::<u8>::empty());
                none
            },
        }
    }

    /// The wire form of the response.
    pub fn encode(&self) -> (r: Vec<u8>)
        ensures
            r@ == encode_spec(*self),
    {
        let head = self.head();
        let mut out = slice_to_vec(head.as_str().as_bytes());
        out.extend_from_slice(self.body());
        out
    }
}

/// Writes the wire form of `response` to the end of `stream`.
pub fn send_response(stream: &mut Vec<u8>, response: HttpResponse)
    ensures
        final(stream)@ == old(stream)@ + encode_spec(response),
{
    let bytes = response.encode();
    stream.extend_from_slice(bytes.as_slice());
}

} // verus!
