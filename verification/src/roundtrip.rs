//! Parsing the wire form of a request gives the request back.

use crate::request::{
    colon, crlf, header_block, header_line, lemma_leading_nonempty, method_name, method_of,
    parse_header, parse_headers, parse_text, protocol_name, protocol_of, request_line, wire_text,
    HttpMethod, HttpProtocol, ParseError, RequestView,
};
use crate::text::{
    contains, is_whitespace, is_word, lemma_find_from, lemma_find_from_is, lemma_find_from_none,
    lemma_join_split, lemma_split_first, lemma_tokens_space, lemma_tokens_word, lemma_trim_space,
    occurs_at, split, tokens, trim,
};
use crate::text_map::map_of;
use vstd::prelude::*;

verus! {

/// A header whose name and value come back unchanged from the wire: neither
/// has whitespace at its ends, the name holds no colon, and the line holds no
/// line break.
pub open spec fn header_survives(name: Seq<char>, value: Seq<char>) -> bool {
    &&& trim(name) == name
    &&& trim(value) == value
    &&& !contains(name, colon())
    &&& !contains(header_line(name, value), crlf())
}

/// A request that the wire form can carry: the resource is one token, and
/// every header survives.
pub open spec fn wire_safe(resource: Seq<char>, headers: Seq<(Seq<char>, Seq<char>)>) -> bool {
    &&& is_word(resource)
    &&& forall|i: int|
        0 <= i < headers.len() ==> header_survives((#[trigger] headers[i]).0, headers[i].1)
}

/// The header lines of a list of headers.
pub open spec fn header_lines(headers: Seq<(Seq<char>, Seq<char>)>) -> Seq<Seq<char>> {
    Seq::new(headers.len(), |i: int| header_line(headers[i].0, headers[i].1))
}

/// A method's token is one word, and stands for that method.
pub proof fn lemma_method_name(method: HttpMethod)
    ensures
        is_word(method_name(method)),
        method_of(method_name(method)) == Some(method),
{
    reveal_strlit("GET");
    reveal_strlit("POST");
    reveal_strlit("PUT");
    reveal_strlit("DELETE");
    assert("GET"@.len() == 3 && "PUT"@.len() == 3 && "POST"@.len() == 4 && "DELETE"@.len() == 6);
    assert("GET"@[0] == 'G' && "PUT"@[0] == 'P');
}

/// A protocol's token is one word, and stands for that protocol.
pub proof fn lemma_protocol_name(protocol: HttpProtocol)
    ensures
        is_word(protocol_name(protocol)),
        protocol_of(protocol_name(protocol)) == Some(protocol),
{
    reveal_strlit("HTTP/1.1");
}

/// The tokens of a request line are the method, the resource and the protocol.
pub proof fn lemma_request_line_tokens(
    method: HttpMethod,
    resource: Seq<char>,
    protocol: HttpProtocol,
)
    requires
        is_word(resource),
    ensures
        tokens(request_line(method, resource, protocol)) == seq![
            method_name(method),
            resource,
            protocol_name(protocol),
        ],
{
    let m = method_name(method);
    let p = protocol_name(protocol);
    let space = seq![' '];
    lemma_method_name(method);
    lemma_protocol_name(protocol);
    let t3 = p + Seq::<char>::empty();
    let t2 = space + t3;
    let t1 = resource + t2;
    let t0 = space + t1;
    lemma_tokens_word(p, Seq::empty());
    lemma_tokens_space(' ', t3);
    assert(t2[0] == ' ');
    lemma_tokens_word(resource, t2);
    lemma_tokens_space(' ', t1);
    assert(t0[0] == ' ');
    lemma_tokens_word(m, t0);
    assert(request_line(method, resource, protocol) =~= m + t0);
    assert(tokens(Seq::<char>::empty()) =~= Seq::<Seq<char>>::empty());
    assert(tokens(m + t0) =~= seq![m, resource, p]);
}

/// Text without a carriage return holds no line break.
pub proof fn lemma_no_return_no_crlf(line: Seq<char>)
    requires
        forall|j: int| 0 <= j < line.len() ==> line[j] != '\r',
    ensures
        !contains(line, crlf()),
{
    assert forall|j: int| 0 <= j implies !occurs_at(line, crlf(), j) by {
        if occurs_at(line, crlf(), j) {
            assert(line.subrange(j, j + 2)[0] == '\r');
        }
    }
    lemma_find_from_none(line, crlf(), 0);
}

/// A request line holds no line break.
pub proof fn lemma_request_line_no_crlf(
    method: HttpMethod,
    resource: Seq<char>,
    protocol: HttpProtocol,
)
    requires
        is_word(resource),
    ensures
        !contains(request_line(method, resource, protocol), crlf()),
{
    let line = request_line(method, resource, protocol);
    let m = method_name(method);
    let p = protocol_name(protocol);
    lemma_method_name(method);
    lemma_protocol_name(protocol);
    assert(is_whitespace('\r'));
    assert forall|j: int| 0 <= j < line.len() implies line[j] != '\r' by {
        if j < m.len() {
            assert(line[j] == m[j]);
        } else if j == m.len() {
        } else if j < m.len() + 1 + resource.len() {
            assert(line[j] == resource[j - m.len() - 1]);
        } else if j == m.len() + 1 + resource.len() {
        } else {
            assert(line[j] == p[j - m.len() - resource.len() - 2]);
        }
    }
    lemma_no_return_no_crlf(line);
}

/// A line without a line break, followed by one, is the first line.
pub proof fn lemma_first_line(line: Seq<char>, rest: Seq<char>)
    requires
        !contains(line, crlf()),
    ensures
        split(line + crlf() + rest, crlf()) == seq![line] + split(rest, crlf()),
{
    let s = line + crlf() + rest;
    lemma_find_from(line, crlf(), 0);
    assert forall|j: int| 0 <= j < line.len() implies !occurs_at(s, crlf(), j) by {
        if occurs_at(s, crlf(), j) {
            if j + 2 <= line.len() {
                assert(line.subrange(j, j + 2) =~= s.subrange(j, j + 2));
                assert(occurs_at(line, crlf(), j));
            } else {
                assert(s.subrange(j, j + 2)[1] == s[j + 1]);
                assert(s[j + 1] == '\r');
            }
        }
    }
    lemma_split_first(line, crlf(), rest);
}

/// The lines of a header block that is followed by an empty line and a body.
pub proof fn lemma_split_block(headers: Seq<(Seq<char>, Seq<char>)>, body: Seq<char>)
    requires
        forall|i: int|
            0 <= i < headers.len() ==> header_survives((#[trigger] headers[i]).0, headers[i].1),
    ensures
        split(header_block(headers) + crlf() + body, crlf()) == header_lines(headers) + seq![
            Seq::<char>::empty(),
        ] + split(body, crlf()),
    decreases headers.len(),
{
    let empty = Seq::<char>::empty();
    if headers.len() == 0 {
        lemma_no_return_no_crlf(empty);
        lemma_first_line(empty, body);
        assert(header_block(headers) + crlf() + body =~= empty + crlf() + body);
        assert(header_lines(headers) + seq![empty] + split(body, crlf()) =~= seq![empty] + split(
            body,
            crlf(),
        ));
    } else {
        let first = header_line(headers[0].0, headers[0].1);
        let tail = headers.skip(1);
        assert forall|i: int| 0 <= i < tail.len() implies header_survives(
            (#[trigger] tail[i]).0,
            tail[i].1,
        ) by {
            assert(tail[i] == headers[i + 1]);
        }
        lemma_split_block(tail, body);
        let after = header_block(tail) + crlf() + body;
        assert(header_survives(headers[0].0, headers[0].1));
        lemma_first_line(first, after);
        assert(header_block(headers) + crlf() + body =~= first + crlf() + after);
        assert(header_lines(headers) =~= seq![first] + header_lines(tail));
        assert(seq![first] + (header_lines(tail) + seq![empty] + split(body, crlf()))
            =~= header_lines(headers) + seq![empty] + split(body, crlf()));
    }
}

/// A header line of a header that survives parses to that header.
pub proof fn lemma_parse_header_line(name: Seq<char>, value: Seq<char>)
    requires
        header_survives(name, value),
    ensures
        parse_header(header_line(name, value)) == Some((name, value)),
{
    let line = header_line(name, value);
    let i = name.len() as int;
    lemma_find_from(name, colon(), 0);
    assert(line.subrange(i, i + 1) =~= colon());
    assert forall|j: int| 0 <= j < i implies !occurs_at(line, colon(), j) by {
        if occurs_at(line, colon(), j) {
            assert(name.subrange(j, j + 1) =~= line.subrange(j, j + 1));
            assert(occurs_at(name, colon(), j));
        }
    }
    lemma_find_from_is(line, colon(), 0, i);
    assert(line.take(i) =~= name);
    assert(line.skip(i + 1) =~= seq![' '] + value);
    lemma_trim_space(' ', value);
}

/// The header lines of headers that survive parse to those headers.
pub proof fn lemma_parse_header_lines(headers: Seq<(Seq<char>, Seq<char>)>)
    requires
        forall|i: int|
            0 <= i < headers.len() ==> header_survives((#[trigger] headers[i]).0, headers[i].1),
    ensures
        parse_headers(header_lines(headers)) == Some(headers),
    decreases headers.len(),
{
    let ls = header_lines(headers);
    if headers.len() > 0 {
        let front = headers.drop_last();
        assert forall|i: int| 0 <= i < front.len() implies header_survives(
            (#[trigger] front[i]).0,
            front[i].1,
        ) by {
            assert(front[i] == headers[i]);
        }
        lemma_parse_header_lines(front);
        assert(ls.drop_last() =~= header_lines(front));
        let last = headers.last();
        assert(header_survives(headers[headers.len() - 1].0, headers[headers.len() - 1].1));
        lemma_parse_header_line(last.0, last.1);
        assert(ls.last() == header_line(last.0, last.1));
        assert(front.push(last) =~= headers);
    } else {
        assert(headers =~= Seq::empty());
    }
}

/// Parsing the wire form of a request gives the request back: the method,
/// the resource, the protocol and the body as they were, and the headers as
/// a map, in whatever order they stood on the wire.
pub proof fn lemma_parse_wire_text(
    method: HttpMethod,
    resource: Seq<char>,
    protocol: HttpProtocol,
    headers: Seq<(Seq<char>, Seq<char>)>,
    body: Seq<char>,
)
    requires
        wire_safe(resource, headers),
    ensures
        parse_text(wire_text(method, resource, protocol, headers, body)) == Ok::<
            RequestView,
            ParseError,
        >(
            RequestView {
                method,
                resource,
                protocol,
                headers: map_of(headers),
                body,
                params: None,
            },
        ),
{
    let text = wire_text(method, resource, protocol, headers, body);
    let first = request_line(method, resource, protocol);
    let empty = Seq::<char>::empty();
    let block = header_block(headers) + crlf() + body;
    let hl = header_lines(headers);
    let bl = split(body, crlf());
    let k = headers.len() as int;
    assert(text =~= first + crlf() + block);
    lemma_request_line_no_crlf(method, resource, protocol);
    lemma_first_line(first, block);
    lemma_split_block(headers, body);
    let ls = split(text, crlf());
    assert(ls == seq![first] + (hl + seq![empty] + bl));
    assert(ls[0] == first);
    lemma_request_line_tokens(method, resource, protocol);
    lemma_method_name(method);
    lemma_protocol_name(protocol);
    let rest = ls.skip(1);
    assert(rest =~= hl + seq![empty] + bl);
    assert forall|j: int| 0 <= j < k implies (#[trigger] rest[j]).len() > 0 by {
        assert(rest[j] == header_line(headers[j].0, headers[j].1));
    }
    assert(rest[k] == empty);
    lemma_leading_nonempty(rest, k);
    assert(ls.subrange(1, 1 + k) =~= hl);
    lemma_parse_header_lines(headers);
    assert(ls.skip(k + 2) =~= bl);
    lemma_join_split(body, crlf());
}

} // verus!
