use rust_web_server::http::{response, route, Page};

#[test]
fn root_request_gets_index_page() {
    let req = b"GET / HTTP/1.1\r\nHost: localhost:3000\r\n\r\n";
    assert_eq!(route(req), Page::Index);
    assert_eq!(route(b"GET / HTTP/1.1\r\n"), Page::Index);
}

#[test]
fn other_requests_get_not_found_page() {
    assert_eq!(route(b"GET /sleep HTTP/1.1\r\n\r\n"), Page::NotFound);
    assert_eq!(route(b"POST / HTTP/1.1\r\n\r\n"), Page::NotFound);
    assert_eq!(route(b"GET / HTTP/1.1"), Page::NotFound);
    assert_eq!(route(b""), Page::NotFound);
    assert_eq!(route(&[0u8; 1024]), Page::NotFound);
}

#[test]
fn pages_name_their_status_and_file() {
    assert_eq!(Page::Index.status_line(), "HTTP/1.1 200 OK");
    assert_eq!(Page::Index.file_name(), "index.html");
    assert_eq!(Page::NotFound.status_line(), "HTTP/1.1 404 NOT FOUND");
    assert_eq!(Page::NotFound.file_name(), "404.html");
}

#[test]
fn response_frames_status_length_and_body() {
    let r = response("HTTP/1.1 200 OK", b"<p>hi</p>");
    assert_eq!(r, b"HTTP/1.1 200 OK\r\nContent-Length: 9\r\n\r\n<p>hi</p>".to_vec());
}

#[test]
fn response_with_empty_body() {
    let r = response("HTTP/1.1 404 NOT FOUND", b"");
    assert_eq!(r, b"HTTP/1.1 404 NOT FOUND\r\nContent-Length: 0\r\n\r\n".to_vec());
}

#[test]
fn response_length_has_several_digits() {
    let body = vec![b'x'; 1234];
    let r = response("HTTP/1.1 200 OK", &body);
    let mut expected = b"HTTP/1.1 200 OK\r\nContent-Length: 1234\r\n\r\n".to_vec();
    expected.extend_from_slice(&body);
    assert_eq!(r, expected);
}
