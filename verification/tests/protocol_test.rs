use pizzeria::response::{ensure_success_code, http_read_status, parse_http_response_body, HttpError};

#[test]
fn http_test_parse_http_response_body() {
    let input = "HTTP/1.1 200 OK\r
content-type: text/plain; charset=utf-8\r
content-length: 9\r
date: Fri, 17 Oct 2025 07:50:31 GMT\r
\r
body-text";

    let result = parse_http_response_body(input.as_bytes()).unwrap();
    assert_eq!(result, String::from("body-text"));
}

#[test]
fn mod_test_parse_http_response_body() {
    let input = "HTTP/1.1 200 OK\r
content-type: text/plain; charset=utf-8\r
content-length: 9\r
date: Fri, 17 Oct 2025 07:50:31 GMT\r
\r
body-text";

    let result = parse_http_response_body(input.as_bytes()).unwrap();
    assert_eq!(result, String::from("body-text"));
}

#[test]
fn parse_body_honours_header_case_and_extra_headers() {
    let upper = "HTTP/1.1 200 OK\r\nServer: x\r\nContent-Length: 5\r\nVia: y\r\n\r\nhellotrailing";
    assert_eq!(parse_http_response_body(upper.as_bytes()).unwrap(), "hello");

    let mixed = "HTTP/1.1 200 OK\r\nCoNtEnT-LeNgTh: 2\r\n\r\nokmore";
    assert_eq!(parse_http_response_body(mixed.as_bytes()).unwrap(), "ok");
}

#[test]
fn parse_body_without_content_length_is_empty() {
    let input = "HTTP/1.1 204 No Content\r\nServer: x\r\n\r\nleftover";
    assert_eq!(parse_http_response_body(input.as_bytes()).unwrap(), "");
}

#[test]
fn parse_body_short_stream_is_unexpected_eof() {
    let input = "HTTP/1.1 200 OK\r\nContent-Length: 10\r\n\r\nabc";
    let r = parse_http_response_body(input.as_bytes());
    assert!(matches!(r, Err(HttpError::UnexpectedEof)));
}

#[test]
fn parse_body_bad_content_length_is_an_error() {
    let input = "HTTP/1.1 200 OK\r\nContent-Length: ten\r\n\r\nabc";
    match parse_http_response_body(input.as_bytes()) {
        Err(HttpError::InvalidContentLength { value }) => assert_eq!(value, "ten"),
        _ => panic!("expected a content-length error"),
    }
}

#[test]
fn parse_body_invalid_utf8_is_an_error() {
    let input: &[u8] = b"HTTP/1.1 200 OK\r\nContent-Length: 2\r\n\r\n\xff\xfe";
    let r = parse_http_response_body(input);
    assert!(matches!(r, Err(HttpError::BodyUtf8)));
}

#[test]
fn read_status_takes_second_token() {
    assert_eq!(http_read_status(b"HTTP/1.1 204 No Content\r\nX: y\r\n\r\n"), 204);
    assert_eq!(http_read_status(b"HTTP/1.1 500 Oops\r\n"), 500);
    assert_eq!(http_read_status(b"HTTP/1.1\r\n"), 0);
    assert_eq!(http_read_status(b"HTTP/1.1 nope\r\n"), 0);
    assert_eq!(http_read_status(b""), 0);
}

#[test]
fn success_codes_are_the_2xx_range() {
    assert!(ensure_success_code(200).is_ok());
    assert!(ensure_success_code(204).is_ok());
    assert!(ensure_success_code(299).is_ok());
    match ensure_success_code(404) {
        Err(HttpError::HttpStatus { code }) => assert_eq!(code, 404),
        _ => panic!("expected a status error"),
    }
    assert!(ensure_success_code(0).is_err());
}

#[test]
fn transport_error_messages_are_exact() {
    let err = pizzeria::response::HttpError::HttpStatus { code: 503 };
    assert_eq!(err.message(), "Backend antwortet mit HTTP 503.");
    let err = pizzeria::response::HttpError::InvalidContentLength { value: String::from("zehn") };
    assert_eq!(err.message(), "Ungültige Länge 'zehn'.");
    assert_eq!(
        pizzeria::response::HttpError::UnexpectedEof.message(),
        "Unerwartetes Ende der Verbindung - Antwort unvollständig."
    );
    assert_eq!(pizzeria::response::HttpError::BodyUtf8.message(), "Nicht gültiges UTF8.");
}
