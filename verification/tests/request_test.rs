use pizzeria::request::RequestBuilder;

#[test]
fn request_test() {
    let request = RequestBuilder::post()
        .path(String::from("/foobar"))
        .host(String::from("1.2.3.4:3333"))
        .content_type(String::from("text/plain; charset=utf-8"))
        .content_length(125)
        .body(String::from("ABCDEF"))
        .build();

    let expected_request = "POST /foobar HTTP/1.1\r
Host: 1.2.3.4:3333\r
Content-Type: text/plain; charset=utf-8\r
Content-Length: 125\r
Connection: close\r
\r
ABCDEF";
    assert_eq!(request, expected_request)
}

#[test]
fn test_that_default_path_is_root() {
    let request = RequestBuilder::post().host(String::from("1.2.3.4:3333")).build();

    let expected_request = "POST / HTTP/1.1\r
Host: 1.2.3.4:3333\r
Connection: close\r
\r
";
    assert_eq!(request, expected_request)
}

#[test]
fn test_that_default_method_is_get() {
    let request = RequestBuilder::get()
        .path(String::from("/foobar"))
        .host(String::from("1.2.3.4:3333"))
        .build();

    let expected_request = "GET /foobar HTTP/1.1\r
Host: 1.2.3.4:3333\r
Connection: close\r
\r
";
    assert_eq!(request, expected_request)
}

#[test]
fn delete_request_has_delete_method() {
    let request = RequestBuilder::delete()
        .path(String::from("/toppings/clear"))
        .host(String::from("127.0.0.1:3333"))
        .build();
    assert!(request.starts_with("DELETE /toppings/clear HTTP/1.1\r\n"));
}
