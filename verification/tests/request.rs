use cgid::cgi::CgiEnvironment;
use cgid::request::parse_request_line;
use cgid::request::set_request;

#[test]
fn request_line_with_query() {
    let r = parse_request_line("GET /foo/bar?x=1 HTTP/1.0");
    assert_eq!(r.method, "GET");
    assert_eq!(r.path_info, "/foo/bar");
    assert_eq!(r.query_string, "x=1");
    assert_eq!(r.protocol, "HTTP/1.0");
}

#[test]
fn request_line_without_query() {
    let r = parse_request_line("POST /submit HTTP/1.0");
    assert_eq!(r.method, "POST");
    assert_eq!(r.path_info, "/submit");
    assert_eq!(r.query_string, "");
    assert_eq!(r.protocol, "HTTP/1.0");
}

#[test]
fn request_line_missing_separators_yields_empty_tokens() {
    let r = parse_request_line("GET");
    assert_eq!(r.method, "GET");
    assert_eq!(r.path_info, "");
    assert_eq!(r.query_string, "");
    assert_eq!(r.protocol, "");
}

#[test]
fn request_line_empty() {
    let r = parse_request_line("");
    assert_eq!(r.method, "");
    assert_eq!(r.path_info, "");
    assert_eq!(r.query_string, "");
    assert_eq!(r.protocol, "");
}

#[test]
fn protocol_keeps_trailing_text_verbatim() {
    let r = parse_request_line("GET /p HTTP/1.0 extra text");
    assert_eq!(r.protocol, "HTTP/1.0 extra text");
}

#[test]
fn empty_query_after_question_mark() {
    let r = parse_request_line("GET /p? HTTP/1.0");
    assert_eq!(r.path_info, "/p");
    assert_eq!(r.query_string, "");
    assert_eq!(r.protocol, "HTTP/1.0");
}

#[test]
fn set_request_populates_environment() {
    let mut env = CgiEnvironment::new();
    set_request("GET /foo/bar?x=1 HTTP/1.0", &mut env);
    assert_eq!(env.get("REQUEST_METHOD").unwrap().as_str(), "GET");
    assert_eq!(env.get("SCRIPT_NAME").unwrap().as_str(), "");
    assert_eq!(env.get("PATH_INFO").unwrap().as_str(), "/foo/bar");
    assert_eq!(env.get("QUERY_STRING").unwrap().as_str(), "x=1");
    assert_eq!(env.get("REQUEST_URI").unwrap().as_str(), "/cgi-bin/app.cgi");
    assert_eq!(env.get("SERVER_PROTOCOL").unwrap().as_str(), "HTTP/1.0");
    assert_eq!(env.len(), 6);
}
