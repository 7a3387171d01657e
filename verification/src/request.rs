//! The structured request, and the parser that reads it from request text.

use crate::text::{
    find, join, join_slices, lemma_find_from, same_text, search, split, split_slice, strip,
    to_chars, to_string, tokenize, tokens, trim, views,
};
use crate::text_map::{map_of, TextMap};
use vstd::prelude::*;
use vstd::slice::slice_subrange;

verus! {

/// The request methods that the server accepts.
#[derive(Debug, Clone, Copy, PartialEq, Eq, Structural, Hash)]
pub enum HttpMethod {
    Get,
    Post,
    Put,
    Delete,
}

/// The protocol versions that the server accepts.
#[derive(Debug, Clone, Copy, PartialEq, Eq, Structural, Hash)]
pub enum HttpProtocol {
    Http11,
}

/// Why request text was rejected.
#[derive(Debug, Clone, Copy, PartialEq, Eq, Structural, Hash)]
pub enum ParseError {
    /// The request line has fewer than three tokens.
    MalformedRequestLine,
    /// The first token is none of `GET`, `POST`, `PUT`, `DELETE`.
    UnsupportedMethod,
    /// The third token is not `HTTP/1.1`.
    UnsupportedProtocol,
    /// A header line holds no `:`.
    MalformedHeader,
}

/// The line separator of the wire format.
pub open spec fn crlf() -> Seq<char> {
    seq!['\r', '\n']
}

/// The separator between a header's name and its value.
pub open spec fn colon() -> Seq<char> {
    seq![':']
}

/// The token that stands for a method on the wire.
pub open spec fn method_name(method: HttpMethod) -> Seq<char> {
    match method {
        HttpMethod::Get => "GET"@,
        HttpMethod::Post => "POST"@,
        HttpMethod::Put => "PUT"@,
        HttpMethod::Delete => "DELETE"@,
    }
}

/// The method that a token stands for. The match is exact and case-sensitive.
pub open spec fn method_of(token: Seq<char>) -> Option<HttpMethod> {
    if token == "GET"@ {
        Some(HttpMethod::Get)
    } else if token == "POST"@ {
        Some(HttpMethod::Post)
    } else if token == "PUT"@ {
        Some(HttpMethod::Put)
    } else if token == "DELETE"@ {
        Some(HttpMethod::Delete)
    } else {
        None
    }
}

/// The token that stands for a protocol version on the wire.
pub open spec fn protocol_name(protocol: HttpProtocol) -> Seq<char> {
    match protocol {
        HttpProtocol::Http11 => "HTTP/1.1"@,
    }
}

/// The protocol version that a token stands for.
pub open spec fn protocol_of(token: Seq<char>) -> Option<HttpProtocol> {
    if token == "HTTP/1.1"@ {
        Some(HttpProtocol::Http11)
    } else {
        None
    }
}

impl HttpMethod {
    /// The token that stands for the method on the wire.
    pub fn as_str(&self) -> (r: &'static str)
        ensures
            r@ == method_name(*self),
    {
        match self {
            HttpMethod::Get => "GET",
            HttpMethod::Post => "POST",
            HttpMethod::Put => "PUT",
            HttpMethod::Delete => "DELETE",
        }
    }

    /// The method that `token` stands for, if it is one of the four.
    pub fn from_chars(token: &[char]) -> (r: Option<HttpMethod>)
        ensures
            r == method_of(token@),
    {
        if same_text(token, to_chars("GET").as_slice()) {
            Some(HttpMethod::Get)
        } else if same_text(token, to_chars("POST").as_slice()) {
            Some(HttpMethod::Post)
        } else if same_text(token, to_chars("PUT").as_slice()) {
            Some(HttpMethod::Put)
        } else if same_text(token, to_chars("DELETE").as_slice()) {
            Some(HttpMethod::Delete)
        } else {
            None
        }
    }

    /// The method that `token` stands for, if it is one of the four.
    pub fn parse(token: &str) -> (r: Option<HttpMethod>)
        ensures
            r == method_of(token@),
    {
        HttpMethod::from_chars(to_chars(token).as_slice())
    }
}

impl HttpProtocol {
    /// The token that stands for the protocol version on the wire.
    pub fn as_str(&self) -> (r: &'static str)
        ensures
            r@ == protocol_name(*self),
    {
        match self {
            HttpProtocol::Http11 => "HTTP/1.1",
        }
    }

    /// The protocol version that `token` stands for, if it is supported.
    pub fn from_chars(token: &[char]) -> (r: Option<HttpProtocol>)
        ensures
            r == protocol_of(token@),
    {
        if same_text(token, to_chars("HTTP/1.1").as_slice()) {
            Some(HttpProtocol::Http11)
        } else {
            None
        }
    }

    /// The protocol version that `token` stands for, if it is supported.
    pub fn parse(token: &str) -> (r: Option<HttpProtocol>)
        ensures
            r == protocol_of(token@),
    {
        HttpProtocol::from_chars(to_chars(token).as_slice())
    }
}

/// A parsed request.
#[derive(Debug)]
pub struct HttpRequest {
    pub method: HttpMethod,
    /// The request path, as it stood on the request line.
    pub resource: String,
    pub protocol: HttpProtocol,
    /// The headers by name. Names are case-sensitive.
    pub headers: TextMap,
    pub body: String,
    /// The parameters that the matching route extracted from the path;
    /// `None` until a route has matched.
    pub params: Option<TextMap>,
}

/// What a request holds, as mathematical values.
pub ghost struct RequestView {
    pub method: HttpMethod,
    pub resource: Seq<char>,
    pub protocol: HttpProtocol,
    pub headers: Map<Seq<char>, Seq<char>>,
    pub body: Seq<char>,
    pub params: Option<Map<Seq<char>, Seq<char>>>,
}

impl View for HttpRequest {
    type V = RequestView;

    open spec fn view(&self) -> RequestView {
        RequestView {
            method: self.method,
            resource: self.resource@,
            protocol: self.protocol,
            headers: self.headers@,
            body: self.body@,
            params: match self.params {
                Some(p) => Some(p@),
                None => None,
            },
        }
    }
}

/// The request line: method, resource and protocol with one space between them.
pub open spec fn request_line(
    method: HttpMethod,
    resource: Seq<char>,
    protocol: HttpProtocol,
) -> Seq<char> {
    method_name(method) + seq![' '] + resource + seq![' '] + protocol_name(protocol)
}

/// A header line: the name, a colon, a space and the value.
pub open spec fn header_line(name: Seq<char>, value: Seq<char>) -> Seq<char> {
    name + seq![':', ' '] + value
}

/// The header lines in order, each followed by CRLF.
pub open spec fn header_block(headers: Seq<(Seq<char>, Seq<char>)>) -> Seq<char>
    decreases headers.len(),
{
    if headers.len() == 0 {
        Seq::empty()
    } else {
        header_line(headers[0].0, headers[0].1) + crlf() + header_block(headers.skip(1))
    }
}

/// The wire form of a request: the request line, the header lines, an empty
/// line and the body.
pub open spec fn wire_text(
    method: HttpMethod,
    resource: Seq<char>,
    protocol: HttpProtocol,
    headers: Seq<(Seq<char>, Seq<char>)>,
    body: Seq<char>,
) -> Seq<char> {
    request_line(method, resource, protocol) + crlf() + header_block(headers) + crlf() + body
}

/// The number of lines at the front of `ls` that are not empty.
pub open spec fn leading_nonempty(ls: Seq<Seq<char>>) -> nat
    decreases ls.len(),
{
    if ls.len() == 0 || ls[0].len() == 0 {
        0
    } else {
        1 + leading_nonempty(ls.skip(1))
    }
}

/// The name and the value of a header line: the text before and after the
/// first `:`, each without surrounding whitespace. `None` if there is no `:`.
pub open spec fn parse_header(line: Seq<char>) -> Option<(Seq<char>, Seq<char>)> {
    match find(line, colon()) {
        Some(i) => Some((trim(line.take(i)), trim(line.skip(i + 1)))),
        None => None,
    }
}

/// The names and values of the header lines, in order. `None` if one of the
/// lines holds no `:`.
pub open spec fn parse_headers(ls: Seq<Seq<char>>) -> Option<Seq<(Seq<char>, Seq<char>)>>
    decreases ls.len(),
{
    if ls.len() == 0 {
        Some(Seq::empty())
    } else {
        match (parse_headers(ls.drop_last()), parse_header(ls.last())) {
            (Some(front), Some(header)) => Some(front.push(header)),
            _ => None,
        }
    }
}

/// What request text parses to.
///
/// The text is split into lines at each CRLF. The first line is the request
/// line; its first three whitespace-separated tokens are the method, the
/// resource and the protocol, and further tokens are ignored. The lines that
/// follow, up to the first empty line, are headers; of two headers with the
/// same name the later one wins. The lines after the empty line, joined with
/// CRLF again, are the body; without an empty line the body is empty.
///
/// The request line is judged first: too few tokens, then the method, then
/// the protocol. Only then are the headers read.
pub open spec fn parse_text(text: Seq<char>) -> Result<RequestView, ParseError> {
    let ls = split(text, crlf());
    let toks = tokens(ls[0]);
    let n = leading_nonempty(ls.skip(1)) as int;
    if toks.len() < 3 {
        Err(ParseError::MalformedRequestLine)
    } else if method_of(toks[0]) is None {
        Err(ParseError::UnsupportedMethod)
    } else if protocol_of(toks[2]) is None {
        Err(ParseError::UnsupportedProtocol)
    } else {
        match parse_headers(ls.subrange(1, 1 + n)) {
            None => Err(ParseError::MalformedHeader),
            Some(headers) => Ok(
                RequestView {
                    method: method_of(toks[0])->0,
                    resource: toks[1],
                    protocol: protocol_of(toks[2])->0,
                    headers: map_of(headers),
                    body: if 1 + n < ls.len() {
                        join(ls.skip(n + 2), crlf())
                    } else {
                        Seq::empty()
                    },
                    params: None,
                },
            ),
        }
    }
}

/// The outcome of parsing, with the request as mathematical values.
pub open spec fn outcome_view(r: Result<HttpRequest, ParseError>) -> Result<
    RequestView,
    ParseError,
> {
    match r {
        Ok(request) => Ok(request@),
        Err(e) => Err(e),
    }
}

/// Lines that are not empty at the front of `ls` are counted by `leading_nonempty`.
pub proof fn lemma_leading_nonempty(ls: Seq<Seq<char>>, k: int)
    requires
        0 <= k <= ls.len(),
        forall|j: int| 0 <= j < k ==> (#[trigger] ls[j]).len() > 0,
    ensures
        leading_nonempty(ls) >= k,
        (k == ls.len() || ls[k].len() == 0) ==> leading_nonempty(ls) == k,
    decreases k,
{
    if k > 0 {
        assert(ls[0].len() > 0);
        assert forall|j: int| 0 <= j < k - 1 implies (#[trigger] ls.skip(1)[j]).len() > 0 by {
            assert(ls[j + 1].len() > 0);
        }
        lemma_leading_nonempty(ls.skip(1), k - 1);
    }
}

/// `leading_nonempty` never counts more lines than there are.
pub proof fn lemma_leading_nonempty_bound(ls: Seq<Seq<char>>)
    ensures
        leading_nonempty(ls) <= ls.len(),
    decreases ls.len(),
{
    if ls.len() > 0 && ls[0].len() > 0 {
        lemma_leading_nonempty_bound(ls.skip(1));
    }
}

/// A prefix of the header lines that does not parse spoils the whole list.
pub proof fn lemma_parse_headers_take(ls: Seq<Seq<char>>, k: int)
    requires
        0 <= k <= ls.len(),
        parse_headers(ls.take(k)) is None,
    ensures
        parse_headers(ls) is None,
    decreases ls.len() - k,
{
    if k < ls.len() {
        assert(ls.take(k + 1).drop_last() =~= ls.take(k));
        lemma_parse_headers_take(ls, k + 1);
    } else {
        assert(ls.take(k) =~= ls);
    }
}

impl HttpRequest {
    /// Reads the name and the value of one header line.
    fn parse_header_line(line: &[char]) -> (r: Option<(String, String)>)
        ensures
            match r {
                Some(header) => parse_header(line@) == Some((header.0@, header.1@)),
                None => parse_header(line@) is None,
            },
    {
        let sep: Vec<char> = vec![':'];
        assert(sep@ =~= colon());
        match search(line, sep.as_slice()) {
            Some(i) => {
                proof {
                    lemma_find_from(line@, colon(), 0);
                    assert(i + colon().len() <= line.len());
                }
                let name = strip(slice_subrange(line, 0, i));
                let value = strip(slice_subrange(line, i + 1, line.len()));
                assert(line@.subrange(0, i as int) =~= line@.take(i as int));
                assert(line@.subrange(i + 1, line@.len() as int) =~= line@.skip(i + 1));
                Some((to_string(name), to_string(value)))
            },
            None => None,
        }
    }

    /// Parses the characters of request text.
    pub fn parse_chars(text: &[char]) -> (r: Result<HttpRequest, ParseError>)
        ensures
            outcome_view(r) == parse_text(text@),
    {
        let sep: Vec<char> = vec!['\r', '\n'];
        assert(sep@ =~= crlf());
        let ls = split_slice(text, sep.as_slice());
        let ghost lines = views(ls@);
        assert(split(text@, crlf()).len() >= 1);
        let toks = tokenize(ls[0]);
        let ghost words = views(toks@);
        if toks.len() < 3 {
            return Err(ParseError::MalformedRequestLine);
        }
        assert(words[0] == toks@[0]@ && words[1] == toks@[1]@ && words[2] == toks@[2]@);
        let method = match HttpMethod::from_chars(toks[0]) {
            Some(m) => m,
            None => {
                return Err(ParseError::UnsupportedMethod);
            },
        };
        let protocol = match HttpProtocol::from_chars(toks[2]) {
            Some(p) => p,
            None => {
                return Err(ParseError::UnsupportedProtocol);
            },
        };
        let mut headers = TextMap::new();
        let ghost mut parsed: Seq<(Seq<char>, Seq<char>)> = Seq::empty();
        let mut i: usize = 1;
        assert(lines.subrange(1, 1) =~= Seq::empty());
        while i < ls.len() && ls[i].len() > 0
            invariant
                1 <= i <= ls.len(),
                lines == views(ls@),
                lines == split(text@, crlf()),
                tokens(lines[0]).len() >= 3,
                method_of(tokens(lines[0])[0]) is Some,
                protocol_of(tokens(lines[0])[2]) is Some,
                forall|j: int| 1 <= j < i ==> (#[trigger] lines[j]).len() > 0,
                parse_headers(lines.subrange(1, i as int)) == Some(parsed),
                headers@ == map_of(parsed),
            decreases ls.len() - i,
        {
            assert(lines[i as int] == ls@[i as int]@);
            let ghost upto = lines.subrange(1, i + 1);
            assert(upto.drop_last() =~= lines.subrange(1, i as int));
            assert(upto.last() == lines[i as int]);
            match HttpRequest::parse_header_line(ls[i]) {
                Some((name, value)) => {
                    proof {
                        let earlier = parsed;
                        parsed = earlier.push((name@, value@));
                        assert(parsed.drop_last() =~= earlier);
                    }
                    headers.insert(name, value);
                },
                None => {
                    proof {
                        let rest = lines.skip(1);
                        assert forall|j: int| 0 <= j < i implies (#[trigger] rest[j]).len()
                            > 0 by {
                            assert(lines[j + 1].len() > 0);
                        }
                        lemma_leading_nonempty(rest, i as int);
                        let n = leading_nonempty(rest) as int;
                        lemma_leading_nonempty_bound(rest);
                        let all = lines.subrange(1, 1 + n);
                        assert(all.take(i as int) =~= upto);
                        lemma_parse_headers_take(all, i as int);
                    }
                    return Err(ParseError::MalformedHeader);
                },
            }
            i += 1;
        }
        proof {
            let rest = lines.skip(1);
            assert forall|j: int| 0 <= j < i - 1 implies (#[trigger] rest[j]).len() > 0 by {
                assert(lines[j + 1].len() > 0);
            }
            if i < ls.len() {
                assert(rest[i - 1] == lines[i as int]);
                assert(lines[i as int] == ls@[i as int]@);
            }
            lemma_leading_nonempty(rest, i - 1);
        }
        let body = if i < ls.len() {
            let tail = slice_subrange(ls.as_slice(), i + 1, ls.len());
            assert(views(tail@) =~= lines.skip(i + 1));
            to_string(join_slices(tail, sep.as_slice()).as_slice())
        } else {
            String::new()
        };
        Ok(
            HttpRequest {
                method,
                resource: to_string(toks[1]),
                protocol,
                headers,
                body,
                params: None,
            },
        )
    }

    /// The wire form of the request, with the headers in the order in which
    /// their names were first inserted. The parameters are not part of it.
    pub fn to_text(&self) -> (r: String)
        ensures
            r@ == wire_text(
                self.method,
                self.resource@,
                self.protocol,
                self.headers.pairs(),
                self.body@,
            ),
    {
        proof {
            reveal_strlit(" ");
            reveal_strlit(": ");
            reveal_strlit("\r\n");
        }
        assert(" "@ =~= seq![' ']);
        assert(": "@ =~= seq![':', ' ']);
        assert("\r\n"@ =~= crlf());
        let ghost pairs = self.headers.pairs();
        let mut r = String::new();
        r.append(self.method.as_str());
        r.append(" ");
        r.append(self.resource.as_str());
        r.append(" ");
        r.append(self.protocol.as_str());
        r.append("\r\n");
        let ghost head = request_line(self.method, self.resource@, self.protocol) + crlf();
        assert(r@ =~= head);
        let n = self.headers.len();
        let mut i: usize = 0;
        assert(pairs.skip(0) =~= pairs);
        while i < n
            invariant
                i <= n,
                n == pairs.len(),
                pairs == self.headers.pairs(),
                ": "@ == seq![':', ' '],
                "\r\n"@ == crlf(),
                r@ + header_block(pairs.skip(i as int)) == head + header_block(pairs),
            decreases n - i,
        {
            let ghost before = r@;
            match self.headers.entry(i) {
                Some((name, value)) => {
                    r.append(name.as_str());
                    r.append(": ");
                    r.append(value.as_str());
                    r.append("\r\n");
                },
                None => {},
            }
            proof {
                let rest = pairs.skip(i as int);
                assert(rest[0] == pairs[i as int]);
                assert(rest.skip(1) =~= pairs.skip(i + 1));
                assert(r@ =~= before + (header_line(rest[0].0, rest[0].1) + crlf()));
                assert(r@ + header_block(pairs.skip(i + 1)) =~= before + header_block(rest));
            }
            i += 1;
        }
        assert(r@ =~= head + header_block(pairs));
        r.append("\r\n");
        r.append(self.body.as_str());
        r
    }

    /// Parses request text. See [`parse_text`] for what is accepted.
    pub fn parse(text: &str) -> (r: Result<HttpRequest, ParseError>)
        ensures
            outcome_view(r) == parse_text(text@),
    {
        HttpRequest::parse_chars(to_chars(text).as_slice())
    }
}

} // verus!
