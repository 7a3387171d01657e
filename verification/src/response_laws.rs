//! What holds of every encoded response.

use crate::request::{colon, crlf, header_block, header_line, parse_headers};
use crate::response::{
    body_bytes, decimal, digit, encode_spec, head_text, media_type, response_body,
    response_headers, status_line, ContentEncoding, ContentType, HttpResponse,
};
use crate::roundtrip::{
    header_lines, header_survives, lemma_first_line, lemma_no_return_no_crlf,
    lemma_parse_header_lines, lemma_split_block,
};
use crate::text::{is_whitespace, lemma_find_from_none, occurs_at, split, trim};
use crate::text_map::map_of;
use vstd::prelude::*;
use vstd::utf8::encode_utf8;

verus! {

/// The number that a decimal digit stands for.
pub open spec fn digit_value(c: char) -> nat {
    if c == '1' {
        1
    } else if c == '2' {
        2
    } else if c == '3' {
        3
    } else if c == '4' {
        4
    } else if c == '5' {
        5
    } else if c == '6' {
        6
    } else if c == '7' {
        7
    } else if c == '8' {
        8
    } else if c == '9' {
        9
    } else {
        0
    }
}

/// The number that a decimal numeral stands for.
pub open spec fn decimal_value(digits: Seq<char>) -> nat
    decreases digits.len(),
{
    if digits.len() == 0 {
        0
    } else {
        decimal_value(digits.drop_last()) * 10 + digit_value(digits.last())
    }
}

/// The numeral of a number stands for that number.
pub proof fn lemma_decimal_value(n: nat)
    ensures
        decimal_value(decimal(n)) == n,
    decreases n,
{
    if n < 10 {
        assert(decimal(n).drop_last() =~= Seq::<char>::empty());
        assert(decimal_value(decimal(n).drop_last()) == 0);
    } else {
        lemma_decimal_value(n / 10);
        assert(decimal(n).drop_last() =~= decimal(n / 10));
    }
}

/// The three header names differ from each other.
proof fn lemma_header_names()
    ensures
        "Content-Type"@ != "Content-Encoding"@,
        "Content-Type"@ != "Content-Length"@,
        "Content-Encoding"@ != "Content-Length"@,
{
    reveal_strlit("Content-Type");
    reveal_strlit("Content-Encoding");
    reveal_strlit("Content-Length");
    assert("Content-Type"@.len() == 12);
    assert("Content-Encoding"@.len() == 16);
    assert("Content-Length"@.len() == 14);
}

/// A successful response without an encoding label announces the exact
/// number of body bytes in `Content-Length`, has no `Content-Encoding`
/// header, and carries the body as it is after the head.
pub proof fn lemma_unlabelled_response(content: ContentType)
    ensures
        ({
            let response = HttpResponse::Success(content, None);
            let headers = map_of(response_headers(response));
            &&& headers.contains_key("Content-Length"@)
            &&& decimal_value(headers["Content-Length"@]) == body_bytes(content).len()
            &&& !headers.contains_key("Content-Encoding"@)
            &&& encode_spec(response) == encode_utf8(head_text(response)) + body_bytes(content)
        }),
{
    lemma_header_names();
    let response = HttpResponse::Success(content, None);
    let hs = response_headers(response);
    let kind = ("Content-Type"@, media_type(content));
    let length = ("Content-Length"@, decimal(body_bytes(content).len()));
    assert(hs =~= seq![kind, length]);
    assert(hs.drop_last() =~= seq![kind]);
    assert(hs.drop_last().drop_last() =~= Seq::empty());
    assert(map_of(Seq::empty()) =~= Map::empty());
    assert(map_of(hs.drop_last()) =~= Map::empty().insert(kind.0, kind.1));
    lemma_decimal_value(body_bytes(content).len());
}

/// A successful response labelled as gzip announces `Content-Encoding: gzip`
/// and is otherwise unchanged: the body bytes and `Content-Length` are those
/// of the response without the label.
pub proof fn lemma_labelled_response(content: ContentType)
    ensures
        ({
            let labelled = HttpResponse::Success(content, Some(ContentEncoding::Gzip));
            let plain = HttpResponse::Success(content, None);
            let headers = map_of(response_headers(labelled));
            &&& headers.contains_key("Content-Encoding"@)
            &&& headers["Content-Encoding"@] == "gzip"@
            &&& headers.contains_key("Content-Length"@)
            &&& headers["Content-Length"@] == map_of(response_headers(plain))["Content-Length"@]
            &&& response_body(labelled) == response_body(plain)
            &&& encode_spec(labelled) == encode_utf8(head_text(labelled)) + body_bytes(content)
        }),
{
    lemma_header_names();
    lemma_unlabelled_response(content);
    let labelled = HttpResponse::Success(content, Some(ContentEncoding::Gzip));
    let plain = HttpResponse::Success(content, None);
    let kind = ("Content-Type"@, media_type(content));
    let label = ("Content-Encoding"@, "gzip"@);
    let length = ("Content-Length"@, decimal(body_bytes(content).len()));
    let hs = response_headers(labelled);
    assert(hs =~= seq![kind, label, length]);
    assert(hs.drop_last() =~= seq![kind, label]);
    assert(hs.drop_last().drop_last() =~= seq![kind]);
    assert(hs.drop_last().drop_last().drop_last() =~= Seq::empty());
    assert(map_of(Seq::empty()) =~= Map::empty());
    assert(map_of(seq![kind]) =~= Map::empty().insert(kind.0, kind.1));
    assert(map_of(seq![kind, label]) =~= map_of(seq![kind]).insert(label.0, label.1));
    let ps = response_headers(plain);
    assert(ps =~= seq![kind, length]);
    assert(ps.drop_last() =~= seq![kind]);
}

/// Text without whitespace and without a colon.
pub open spec fn is_plain(s: Seq<char>) -> bool {
    forall|j: int| 0 <= j < s.len() ==> !is_whitespace(#[trigger] s[j]) && s[j] != ':'
}

/// A header with a plain name and a plain value survives the wire.
pub proof fn lemma_plain_header_survives(name: Seq<char>, value: Seq<char>)
    requires
        is_plain(name),
        is_plain(value),
    ensures
        header_survives(name, value),
{
    let line = header_line(name, value);
    assert(is_whitespace('\r'));
    assert forall|j: int| 0 <= j < line.len() implies line[j] != '\r' by {
        if j < name.len() {
            assert(line[j] == name[j]);
        } else if j >= name.len() + 2 {
            assert(line[j] == value[j - name.len() - 2]);
        }
    }
    lemma_no_return_no_crlf(line);
    assert forall|j: int| 0 <= j implies !occurs_at(name, colon(), j) by {
        if occurs_at(name, colon(), j) {
            assert(name.subrange(j, j + 1)[0] == name[j]);
        }
    }
    lemma_find_from_none(name, colon(), 0);
    lemma_plain_trimmed(name);
    lemma_plain_trimmed(value);
}

/// Plain text has nothing to trim.
pub proof fn lemma_plain_trimmed(s: Seq<char>)
    requires
        is_plain(s),
    ensures
        trim(s) == s,
{
    if s.len() > 0 {
        assert(!is_whitespace(s[0]));
        assert(!is_whitespace(s[s.len() - 1]));
    }
}

/// A decimal numeral is plain.
pub proof fn lemma_decimal_plain(n: nat)
    ensures
        is_plain(decimal(n)),
    decreases n,
{
    if n >= 10 {
        lemma_decimal_plain(n / 10);
    }
}

/// The names and values of the headers of a response are plain.
pub proof fn lemma_response_headers_plain(response: HttpResponse)
    ensures
        forall|i: int|
            0 <= i < response_headers(response).len() ==> is_plain(
                (#[trigger] response_headers(response)[i]).0,
            ) && is_plain(response_headers(response)[i].1),
{
    reveal_strlit("Content-Type");
    reveal_strlit("Content-Encoding");
    reveal_strlit("Content-Length");
    reveal_strlit("text/plain");
    reveal_strlit("text/html");
    reveal_strlit("application/octet-stream");
    reveal_strlit("gzip");
    match response {
        HttpResponse::Success(content, encoding) => {
            lemma_decimal_plain(body_bytes(content).len());
            assert(is_plain("Content-Type"@));
            assert(is_plain("Content-Encoding"@));
            assert(is_plain("Content-Length"@));
            assert(is_plain(media_type(content)));
            assert(is_plain("gzip"@));
        },
        _ => {},
    }
}

/// The head of a response reads back under the header grammar of requests:
/// split at the line breaks it is the status line, one line for each header
/// and two empty lines, and the header lines parse to the headers.
pub proof fn lemma_head_reads_back(response: HttpResponse)
    ensures
        split(head_text(response), crlf()) == seq![status_line(response)] + header_lines(
            response_headers(response),
        ) + seq![Seq::<char>::empty(), Seq::<char>::empty()],
        parse_headers(header_lines(response_headers(response))) == Some(
            response_headers(response),
        ),
{
    let hs = response_headers(response);
    let status = status_line(response);
    let empty = Seq::<char>::empty();
    lemma_response_headers_plain(response);
    assert forall|i: int| 0 <= i < hs.len() implies header_survives(
        (#[trigger] hs[i]).0,
        hs[i].1,
    ) by {
        lemma_plain_header_survives(hs[i].0, hs[i].1);
    }
    lemma_parse_header_lines(hs);
    lemma_split_block(hs, empty);
    reveal_strlit("HTTP/1.1 200 OK");
    reveal_strlit("HTTP/1.1 201 Created");
    reveal_strlit("HTTP/1.1 404 Not Found");
    lemma_no_return_no_crlf(status);
    let block = header_block(hs) + crlf() + empty;
    lemma_first_line(status, block);
    assert(head_text(response) =~= status + crlf() + block);
    lemma_no_return_no_crlf(empty);
    assert(split(empty, crlf()) =~= seq![empty]);
    assert(seq![status] + (header_lines(hs) + seq![empty] + seq![empty]) =~= seq![status]
        + header_lines(hs) + seq![empty, empty]);
}

} // verus!
