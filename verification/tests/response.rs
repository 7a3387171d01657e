use mini_http::response::{send_response, ContentEncoding, ContentType, HttpResponse};

fn plain(body: &str) -> ContentType {
    ContentType::PlainText(body.to_string())
}

#[test]
fn empty_plain_text() {
    let response = HttpResponse::Success(plain(""), None);
    assert_eq!(
        response.encode(),
        b"HTTP/1.1 200 OK\r\nContent-Type: text/plain\r\nContent-Length: 0\r\n\r\n".to_vec()
    );
}

#[test]
fn plain_text_with_body() {
    let response = HttpResponse::Success(plain("abc"), None);
    assert_eq!(
        response.encode(),
        b"HTTP/1.1 200 OK\r\nContent-Type: text/plain\r\nContent-Length: 3\r\n\r\nabc".to_vec()
    );
}

#[test]
fn html_body() {
    let response = HttpResponse::Success(ContentType::Html("<p>hi</p>".to_string()), None);
    assert_eq!(
        response.encode(),
        b"HTTP/1.1 200 OK\r\nContent-Type: text/html\r\nContent-Length: 9\r\n\r\n<p>hi</p>".to_vec()
    );
}

#[test]
fn octet_stream_is_sent_as_it_is() {
    let data = vec![0u8, 159, 146, 150, 255, 13, 10];
    let response = HttpResponse::Success(ContentType::OctetStream(data.clone()), None);
    let mut expected =
        b"HTTP/1.1 200 OK\r\nContent-Type: application/octet-stream\r\nContent-Length: 7\r\n\r\n"
            .to_vec();
    expected.extend_from_slice(&data);
    assert_eq!(response.encode(), expected);
}

#[test]
fn content_length_counts_bytes_not_characters() {
    let response = HttpResponse::Success(plain("h\u{e9}llo \u{4e16}\u{754c}"), None);
    let encoded = response.encode();
    let text = String::from_utf8(encoded).unwrap();
    assert_eq!(
        text,
        "HTTP/1.1 200 OK\r\nContent-Type: text/plain\r\nContent-Length: 13\r\n\r\nh\u{e9}llo \u{4e16}\u{754c}"
    );
}

#[test]
fn content_length_in_decimal() {
    for n in [9usize, 10, 11, 99, 100, 101, 1000, 12345] {
        let response = HttpResponse::Success(ContentType::OctetStream(vec![b'x'; n]), None);
        let encoded = response.encode();
        let head = format!(
            "HTTP/1.1 200 OK\r\nContent-Type: application/octet-stream\r\nContent-Length: {}\r\n\r\n",
            n
        );
        assert_eq!(encoded.len(), head.len() + n);
        assert_eq!(&encoded[..head.len()], head.as_bytes());
    }
}

#[test]
fn gzip_label_is_announced_between_type_and_length() {
    let response = HttpResponse::Success(plain("abc"), Some(ContentEncoding::Gzip));
    assert_eq!(
        response.encode(),
        b"HTTP/1.1 200 OK\r\nContent-Type: text/plain\r\nContent-Encoding: gzip\r\nContent-Length: 3\r\n\r\nabc"
            .to_vec()
    );
}

#[test]
fn gzip_label_leaves_the_body_as_it_is() {
    let labelled = HttpResponse::Success(plain("some text"), Some(ContentEncoding::Gzip));
    let unlabelled = HttpResponse::Success(plain("some text"), None);
    assert_eq!(labelled.body(), unlabelled.body());
    assert_eq!(labelled.body(), b"some text");
    let a = labelled.encode();
    let b = unlabelled.encode();
    assert_eq!(&a[a.len() - 9..], &b[b.len() - 9..]);
    assert_eq!(a.len(), b.len() + "Content-Encoding: gzip\r\n".len());
}

#[test]
fn unlabelled_response_has_no_content_encoding() {
    let head = HttpResponse::Success(plain("Content-Encoding: gzip"), None).head();
    assert!(!head.contains("Content-Encoding"));
    assert!(head.contains("Content-Length: 22\r\n"));
}

#[test]
fn created_has_no_headers_and_no_body() {
    assert_eq!(HttpResponse::Created.encode(), b"HTTP/1.1 201 Created\r\n\r\n".to_vec());
    assert_eq!(HttpResponse::Created.body(), b"");
}

#[test]
fn not_found_has_no_headers_and_no_body() {
    assert_eq!(HttpResponse::NotFound.encode(), b"HTTP/1.1 404 Not Found\r\n\r\n".to_vec());
    assert_eq!(HttpResponse::NotFound.head(), "HTTP/1.1 404 Not Found\r\n\r\n");
}

#[test]
fn media_types_and_labels() {
    assert_eq!(plain("").media_type(), "text/plain");
    assert_eq!(ContentType::Html(String::new()).media_type(), "text/html");
    assert_eq!(ContentType::OctetStream(Vec::new()).media_type(), "application/octet-stream");
    assert_eq!(ContentEncoding::Gzip.label(), "gzip");
}

#[test]
fn send_response_appends_to_the_stream() {
    let mut stream = b"earlier".to_vec();
    send_response(&mut stream, HttpResponse::NotFound);
    assert_eq!(stream, b"earlierHTTP/1.1 404 Not Found\r\n\r\n".to_vec());
    send_response(&mut stream, HttpResponse::Created);
    assert_eq!(stream, b"earlierHTTP/1.1 404 Not Found\r\n\r\nHTTP/1.1 201 Created\r\n\r\n".to_vec());
}
