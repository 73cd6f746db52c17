use cgid::builder::build_environment;
use cgid::cgi::base_environment;
use cgid::error::HttpError;
use cgid::relay::copy_exact;
use cgid::relay::ByteSink;
use cgid::relay::ByteSource;

#[test]
fn ambient_values_absent_fall_back() {
    let env = base_environment(None, None);
    assert_eq!(env.get("SERVER_NAME").unwrap().as_str(), "127.0.0.1");
    assert_eq!(env.get("SERVER_PORT").unwrap().as_str(), "80");
    assert_eq!(env.get("GATEWAY_INTERFACE").unwrap().as_str(), "CGI/1.1");
    assert!(env.get("SERVER_SOFTWARE").is_some());
}

#[test]
fn ambient_values_present_are_taken() {
    let env = base_environment(Some(String::from("10.0.0.7")), Some(String::from("8080")));
    assert_eq!(env.get("SERVER_NAME").unwrap().as_str(), "10.0.0.7");
    assert_eq!(env.get("SERVER_PORT").unwrap().as_str(), "8080");
}

#[test]
fn build_environment_full_request() {
    let headers = vec![
        String::from("Content-Type: text/plain"),
        String::from("Content-Length: 5"),
        String::from("X-Trace-Id: abc-123"),
    ];
    let r = build_environment("POST /submit?a=b HTTP/1.0", &headers, None, None);
    let (env, cl) = r.expect("well-formed request must build");
    assert_eq!(cl, 5);
    assert_eq!(env.get("REQUEST_METHOD").unwrap().as_str(), "POST");
    assert_eq!(env.get("PATH_INFO").unwrap().as_str(), "/submit");
    assert_eq!(env.get("QUERY_STRING").unwrap().as_str(), "a=b");
    assert_eq!(env.get("SERVER_PROTOCOL").unwrap().as_str(), "HTTP/1.0");
    assert_eq!(env.get("CONTENT_TYPE").unwrap().as_str(), "text/plain");
    assert_eq!(env.get("CONTENT_LENGTH").unwrap().as_str(), "5");
    assert_eq!(env.get("HTTP_X_TRACE_ID").unwrap().as_str(), "abc-123");
    assert_eq!(env.get("SERVER_NAME").unwrap().as_str(), "127.0.0.1");
}

#[test]
fn build_environment_aborts_on_bad_header() {
    let headers = vec![
        String::from("Content-Type: text/plain"),
        String::from("broken header line"),
    ];
    let r = build_environment("GET / HTTP/1.0", &headers, None, None);
    assert!(matches!(r, Err(HttpError::MalformedHeader)));
}

#[test]
fn build_environment_without_content_length_declares_zero() {
    let headers = vec![String::from("Host: example.test")];
    let (env, cl) = build_environment("GET / HTTP/1.0", &headers, None, None).unwrap();
    assert_eq!(cl, 0);
    assert_eq!(env.get("HTTP_HOST").unwrap().as_str(), "example.test");
    assert!(env.get("CONTENT_LENGTH").is_none());
}

#[test]
fn end_to_end_body_relayed_unchanged() {
    let body = b"hello".to_vec();
    let headers = vec![
        String::from("Content-Type: text/plain"),
        format!("Content-Length: {}", body.len()),
    ];
    let (env, cl) = build_environment("POST /echo HTTP/1.0", &headers, None, None).unwrap();
    assert_eq!(cl, body.len());
    assert_eq!(env.get("CONTENT_LENGTH").unwrap().as_str(), "5");

    let mut inbound = ByteSource::new(body.clone());
    let mut child_stdin = ByteSink::new();
    assert!(copy_exact(&mut inbound, &mut child_stdin, cl).is_ok());
    let child_input = child_stdin.into_bytes();
    assert_eq!(child_input, body);

    let mut child_stdout = ByteSource::new(child_input);
    let mut outbound = ByteSink::new();
    assert!(copy_exact(&mut child_stdout, &mut outbound, cl).is_ok());
    assert_eq!(outbound.into_bytes(), body);
}

#[test]
fn status_lines_for_error_classes() {
    assert_eq!(HttpError::MalformedHeader.status_line(), "400 Invalid Header");
    assert_eq!(
        HttpError::TransferFault.status_line(),
        "500 Internal Server Error"
    );
}
