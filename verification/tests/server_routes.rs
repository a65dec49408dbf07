use terb::server::{http_response, resolve_route, route_request, Route, Status};

fn padded(request: &[u8]) -> [u8; 512] {
    let mut buf = [0u8; 512];
    buf[..request.len()].copy_from_slice(request);
    buf
}

#[test]
fn root_is_the_index() {
    let buf = padded(b"GET / HTTP/1.1\r\nHost: localhost\r\n\r\n");
    assert!(matches!(route_request(&buf), Route::Index));
}

#[test]
fn path_is_a_file_under_out() {
    let buf = padded(b"GET /posts/a.html HTTP/1.1\r\nHost: x\r\n\r\n");
    match route_request(&buf) {
        Route::File(p) => assert_eq!(p, "out/posts/a.html"),
        _ => panic!("expected a file"),
    }
}

#[test]
fn absolute_path_replaces_out() {
    let buf = padded(b"GET //etc/hosts HTTP/1.1\r\n\r\n");
    match route_request(&buf) {
        Route::File(p) => assert_eq!(p, "/etc/hosts"),
        _ => panic!("expected a file"),
    }
}

#[test]
fn other_methods_are_missing() {
    assert!(matches!(route_request(&padded(b"POST / HTTP/1.1\r\n\r\n")), Route::Missing));
    assert!(matches!(route_request(&padded(b"GET")), Route::Missing));
    assert!(matches!(route_request(b"GET "), Route::Missing));
}

#[test]
fn line_without_crlf_runs_to_the_end() {
    let buf = b"GET /x";
    match route_request(buf) {
        Route::File(p) => assert_eq!(p, "out/x"),
        _ => panic!("expected a file"),
    }
    let buf = padded(b"GET /x");
    match route_request(&buf) {
        Route::File(p) => {
            assert!(p.starts_with("out/x"));
            assert_eq!(p.len(), "out/x".len() + 512 - 6);
        }
        _ => panic!("expected a file"),
    }
}

#[test]
fn invalid_utf8_is_replaced() {
    let buf = padded(b"GET /a\xffb HTTP/1.1\r\n\r\n");
    match route_request(&buf) {
        Route::File(p) => assert_eq!(p, "out/a\u{fffd}b"),
        _ => panic!("expected a file"),
    }
}

#[test]
fn resolution_of_routes() {
    let r = resolve_route(Route::Index, false);
    assert!(matches!(r.status, Status::Found));
    assert_eq!(r.file, "out/index.html");
    let r = resolve_route(Route::File("out/a".to_string()), true);
    assert!(matches!(r.status, Status::Found));
    assert_eq!(r.file, "out/a");
    let r = resolve_route(Route::File("out/a".to_string()), false);
    assert!(matches!(r.status, Status::NotFound));
    assert_eq!(r.file, "out/404.html");
    let r = resolve_route(Route::Missing, true);
    assert!(matches!(r.status, Status::NotFound));
    assert_eq!(r.file, "out/404.html");
}

#[test]
fn response_is_status_then_contents() {
    assert_eq!(http_response(&Status::Found, "<p>x</p>"), "HTTP/1.1 200 OK\r\n\r\n<p>x</p>");
    assert_eq!(http_response(&Status::NotFound, ""), "HTTP/1.1 404 NOT FOUND\r\n\r\n");
}
