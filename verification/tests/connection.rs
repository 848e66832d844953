use symphrs::connection::{
    build_response, classify_request, status_line, template_name, RequestKind,
};

#[test]
fn home_request_is_classified_as_home() {
    let request = "GET / HTTP/1.1\r\nHost: localhost\r\n\r\n";
    assert_eq!(RequestKind::Home, classify_request(request));
}

#[test]
fn sleep_request_is_classified_as_sleep() {
    let request = "GET /sleep HTTP/1.1\r\nHost: localhost\r\n\r\n";
    assert_eq!(RequestKind::Sleep, classify_request(request));
}

#[test]
fn other_requests_are_not_found() {
    assert_eq!(RequestKind::NotFound, classify_request("GET /missing HTTP/1.1\r\n"));
    assert_eq!(RequestKind::NotFound, classify_request("POST / HTTP/1.1\r\n"));
    assert_eq!(RequestKind::NotFound, classify_request(""));
    assert_eq!(RequestKind::NotFound, classify_request("GET / HTTP/1.0\r\n"));
}

#[test]
fn status_lines_match_the_kind() {
    assert_eq!("HTTP/1.1 200 OK\r\n\r\n", status_line(RequestKind::Home));
    assert_eq!("HTTP/1.1 200 OK\r\n\r\n", status_line(RequestKind::Sleep));
    assert_eq!("HTTP/1.1 404 Not Found\r\n\r\n", status_line(RequestKind::NotFound));
}

#[test]
fn template_names_match_the_kind() {
    assert_eq!("hello.html", template_name(RequestKind::Home));
    assert_eq!("hello.html", template_name(RequestKind::Sleep));
    assert_eq!("404.html", template_name(RequestKind::NotFound));
}

#[test]
fn responses_are_headers_then_contents() {
    let response = build_response("HTTP/1.1 200 OK\r\n\r\n", "<html>hi</html>");
    assert_eq!("HTTP/1.1 200 OK\r\n\r\n<html>hi</html>", response.as_str());

    let empty = build_response("", "");
    assert_eq!("", empty.as_str());
}
