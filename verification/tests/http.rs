use agent_harness::http_server::{
    format_error, format_http_response, format_relative_url, format_status_code_message,
    parse_http_request, read_http_request, Error, HttpRequest, HttpResponse, RequestType,
};
use agent_harness::json::Json;

fn reason(content: &str) -> String {
    match parse_http_request(content) {
        Err(Error::InvalidRequest(reason)) => reason,
        _ => panic!("{:?} is no invalid request", content),
    }
}

fn parsed(content: &str) -> HttpRequest {
    match parse_http_request(content) {
        Ok(request) => request,
        Err(error) => panic!("{}", error.message()),
    }
}

#[test]
fn a_request_is_read_as_it_was_sent() {
    let request = parsed(
        "POST /api/agent/task/fail HTTP/1.1\r\nAccept: */*\r\nX-Empty:\r\n\r\nline one\nline two",
    );
    assert_eq!(request.method, RequestType::POST);
    assert_eq!(request.request_target, "/api/agent/task/fail");
    assert_eq!(request.protocol, "HTTP/1.1");
    assert_eq!(request.headers.len(), 2);
    assert_eq!(request.headers.get("Accept"), Some(&"*/*".to_owned()));
    assert_eq!(request.headers.get("X-Empty"), Some(&"".to_owned()));
    assert_eq!(request.body, "line one\nline two");
}

#[test]
fn a_request_without_an_empty_line_has_no_body() {
    let request = parsed("GET / HTTP/1.1\nA: 1");
    assert_eq!(request.method, RequestType::GET);
    assert_eq!(request.headers.get("A"), Some(&"1".to_owned()));
    assert_eq!(request.body, "");
}

#[test]
fn a_header_with_more_than_one_colon_is_left_out() {
    let request = parsed("GET / HTTP/1.1\r\nHost: localhost:3000\r\nno colon\r\nA:1\r\nA: 2\r\n\r\n");
    assert_eq!(request.headers.len(), 1);
    assert_eq!(request.headers.get("A"), Some(&"2".to_owned()));
}

#[test]
fn the_ends_of_body_lines_become_line_feeds() {
    assert_eq!(parsed("GET / HTTP/1.1\r\n\r\na\r\nb\r\n").body, "a\nb");
}

#[test]
fn more_words_on_the_start_line_are_ignored() {
    let request = parsed(" GET\t/x  HTTP/1.0 more ");
    assert_eq!(request.request_target, "/x");
    assert_eq!(request.protocol, "HTTP/1.0");
}

#[test]
fn each_missing_part_has_its_reason() {
    assert_eq!(reason(""), "Empty request");
    assert_eq!(reason("\r\nGET / HTTP/1.1"), "Missing HTTP method");
    assert_eq!(reason("  "), "Missing HTTP method");
    assert_eq!(reason("PUT / HTTP/1.1"), "Unsupported HTTP method: PUT");
    assert_eq!(reason("get"), "Unsupported HTTP method: get");
    assert_eq!(reason("GET"), "Missing request target");
    assert_eq!(reason("POST /"), "Missing HTTP protocol");
}

#[test]
fn bytes_that_are_no_text_are_replaced() {
    match read_http_request(b"GET /\xff HTTP/1.1") {
        Ok(request) => assert_eq!(request.request_target, "/\u{fffd}"),
        Err(_) => panic!(),
    }
    match read_http_request("GET /\u{e9} HTTP/1.1".as_bytes()) {
        Ok(request) => assert_eq!(request.request_target, "/\u{e9}"),
        Err(_) => panic!(),
    }
    assert!(read_http_request(b"").is_err());
}

#[test]
fn a_slash_at_the_end_makes_no_difference() {
    assert_eq!(format_relative_url("/api"), Some("/api/".to_owned()));
    assert_eq!(format_relative_url("/api/"), Some("/api/".to_owned()));
    assert_eq!(format_relative_url(""), Some("/".to_owned()));
    assert_eq!(format_relative_url("/"), Some("/".to_owned()));
}

#[test]
fn status_codes_have_words() {
    assert_eq!(format_status_code_message(200), "200 OK");
    assert_eq!(format_status_code_message(404), "404 Not Found");
    assert_eq!(format_status_code_message(500), "42 Misc");
}

#[test]
fn responses_are_written() {
    assert_eq!(
        format_http_response(HttpResponse::ok()).unwrap(),
        "HTTP/1.1 200 OK\r\nContent-Length: 0\r\n\r\n"
    );
    assert_eq!(
        format_http_response(HttpResponse::not_found()).unwrap(),
        "HTTP/1.1 404 Not Found\r\nContent-Length: 0\r\n\r\n"
    );
    assert_eq!(
        format_http_response(HttpResponse::new().text("h\u{e9}")).unwrap(),
        "HTTP/1.1 42 Misc\r\nContent-Length: 3\r\n\r\nh\u{e9}"
    );
}

#[test]
fn a_length_that_was_set_stays() {
    let mut response = HttpResponse::ok().text("abc");
    response.headers.insert("Content-Length".to_owned(), "99".to_owned());
    response.headers.insert("X".to_owned(), "y".to_owned());
    assert_eq!(
        format_http_response(response.clone()).unwrap(),
        "HTTP/1.1 200 OK\r\nContent-Length: 99\r\nX: y\r\n\r\nabc"
    );
}

#[test]
fn a_json_response_says_so() {
    let document = Json::object(vec![
        ("b".to_owned(), Json::array(vec![Json::Number(7), Json::text("x\"y")])),
    ]);
    let response = HttpResponse::ok().json(&document);
    assert_eq!(response.body, "{\"b\":[7,\"x\\\"y\"]}");
    assert_eq!(response.headers.get("Content-Type"), Some(&"application/json".to_owned()));
    assert_eq!(
        format_http_response(HttpResponse::ok().json_body("{}".to_owned())).unwrap(),
        "HTTP/1.1 200 OK\r\nContent-Type: application/json\r\nContent-Length: 2\r\n\r\n{}"
    );
}

#[test]
fn errors_are_put_in_words() {
    for error in [
        Error::ConnectionFailed("refused".to_owned()),
        Error::IOError("broken \"pipe\"\n".to_owned()),
        Error::InvalidRequest("Empty request".to_owned()),
        Error::InvalidRequestEndpoint("/a".to_owned()),
        Error::InvalidEndpoint("/b".to_owned()),
    ] {
        assert_eq!(error.message(), format!("HTTP Server Error: {:?}", error));
    }
    assert_eq!(
        Error::IOError("a\"b".to_owned()).message(),
        "HTTP Server Error: IOError(\"a\\\"b\")"
    );
    assert_eq!(format_error("IOError", "x"), "HTTP Server Error: IOError(x)");
}
