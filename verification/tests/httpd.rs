use cgid::cgi::CgiEnvironment;
use cgid::error::HttpError;
use cgid::header::parse_content_length;
use cgid::header::set_header;

fn chars(s: &str) -> Vec<char> {
    s.chars().collect()
}

#[test]
fn test_set_header() {
    let mut content_length: usize = 0;
    let input_key = "Header-test";
    let input_value = "value";
    let input = format!("{}: {}", input_key, input_value);

    let expected_key = "HTTP_HEADER_TEST";
    let expected_value = "value";

    let mut env = CgiEnvironment::new();
    assert!(set_header(&input, &mut env, &mut content_length).is_ok());
    assert_eq!(env.get(expected_key).unwrap().as_str(), expected_value);
}

#[test]
fn header_key_uppercased_and_underscored() {
    let mut env = CgiEnvironment::new();
    let mut cl: usize = 0;
    assert!(set_header("X-Custom-Header: abc", &mut env, &mut cl).is_ok());
    assert_eq!(env.get("HTTP_X_CUSTOM_HEADER").unwrap().as_str(), "abc");
    assert!(env.get("HTTP_X-Custom-Header").is_none());
}

#[test]
fn header_value_leading_spaces_stripped_rest_verbatim() {
    let mut env = CgiEnvironment::new();
    let mut cl: usize = 0;
    assert!(set_header("K:    two  words ", &mut env, &mut cl).is_ok());
    assert_eq!(env.get("HTTP_K").unwrap().as_str(), "two  words ");
}

#[test]
fn header_without_colon_is_malformed() {
    let mut env = CgiEnvironment::new();
    let mut cl: usize = 0;
    let r = set_header("NoColonHere", &mut env, &mut cl);
    assert_eq!(r, Err(HttpError::MalformedHeader));
    assert_eq!(env.len(), 0);
    assert_eq!(cl, 0);
}

#[test]
fn empty_header_line_is_malformed() {
    let mut env = CgiEnvironment::new();
    let mut cl: usize = 0;
    assert_eq!(set_header("", &mut env, &mut cl), Err(HttpError::MalformedHeader));
    assert_eq!(env.len(), 0);
}

#[test]
fn content_length_captured_and_stored() {
    let mut env = CgiEnvironment::new();
    let mut cl: usize = 0;
    assert!(set_header("Content-Length: 1234", &mut env, &mut cl).is_ok());
    assert_eq!(cl, 1234);
    assert_eq!(env.get("CONTENT_LENGTH").unwrap().as_str(), "1234");
    assert!(env.get("HTTP_CONTENT_LENGTH").is_none());
}

#[test]
fn content_length_non_numeric_is_malformed() {
    let mut env = CgiEnvironment::new();
    let mut cl: usize = 7;
    let r = set_header("Content-Length: abc", &mut env, &mut cl);
    assert_eq!(r, Err(HttpError::MalformedHeader));
    assert_eq!(env.len(), 0);
    assert_eq!(cl, 7);
}

#[test]
fn content_type_stored_without_http_prefix() {
    let mut env = CgiEnvironment::new();
    let mut cl: usize = 0;
    assert!(set_header("Content-Type: text/plain", &mut env, &mut cl).is_ok());
    assert_eq!(env.get("CONTENT_TYPE").unwrap().as_str(), "text/plain");
    assert!(env.get("HTTP_CONTENT_TYPE").is_none());
    assert_eq!(cl, 0);
}

#[test]
fn content_length_case_insensitive_name() {
    let mut env = CgiEnvironment::new();
    let mut cl: usize = 0;
    assert!(set_header("content-length: 9", &mut env, &mut cl).is_ok());
    assert_eq!(cl, 9);
    assert_eq!(env.get("CONTENT_LENGTH").unwrap().as_str(), "9");
}

#[test]
fn parse_content_length_plain_and_padded() {
    assert_eq!(parse_content_length(&chars("0")), Some(0));
    assert_eq!(parse_content_length(&chars("007")), Some(7));
    assert_eq!(parse_content_length(&chars("1234")), Some(1234));
}

#[test]
fn parse_content_length_accepts_leading_plus() {
    assert_eq!(parse_content_length(&chars("+12")), Some(12));
    assert_eq!(parse_content_length(&chars("+")), None);
}

#[test]
fn parse_content_length_rejects_junk_and_empty() {
    assert_eq!(parse_content_length(&chars("")), None);
    assert_eq!(parse_content_length(&chars("12a")), None);
    assert_eq!(parse_content_length(&chars("-3")), None);
    assert_eq!(parse_content_length(&chars(" 4")), None);
}

#[test]
fn parse_content_length_overflow() {
    assert_eq!(
        parse_content_length(&chars("18446744073709551615")),
        Some(usize::MAX)
    );
    assert_eq!(parse_content_length(&chars("18446744073709551616")), None);
}

#[test]
fn environment_last_write_wins() {
    let mut env = CgiEnvironment::new();
    env.set(String::from("K"), String::from("one"));
    env.set(String::from("K"), String::from("two"));
    assert_eq!(env.len(), 1);
    assert_eq!(env.get("K").unwrap().as_str(), "two");
}

#[test]
fn environment_into_pairs_round_trip() {
    let mut env = CgiEnvironment::new();
    env.set(String::from("A"), String::from("1"));
    env.set(String::from("B"), String::from("2"));
    let pairs = env.into_pairs();
    assert_eq!(pairs.len(), 2);
    assert!(pairs.iter().any(|p| p.0 == "A" && p.1 == "1"));
    assert!(pairs.iter().any(|p| p.0 == "B" && p.1 == "2"));
}
