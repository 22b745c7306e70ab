use queues::request::{get_param, method_from_token, parse_request_line, ParseError, RequestMethod};

#[test]
fn get_param_reads_the_last_segment() {
    assert_eq!(get_param("/pi/12".to_string()), Ok(12));
    assert_eq!(get_param("/pi/0".to_string()), Ok(0));
    assert_eq!(get_param("/pi/+7".to_string()), Ok(7));
    assert_eq!(get_param("42".to_string()), Ok(42));
    assert_eq!(get_param("/pi/4294967295".to_string()), Ok(u32::MAX));
}

#[test]
fn get_param_rejects_what_is_not_a_u32() {
    assert_eq!(get_param("/pi/abc".to_string()), Err("'abc' is not a number".to_string()));
    assert_eq!(get_param("/pi/".to_string()), Err("'' is not a number".to_string()));
    assert_eq!(
        get_param("/pi/4294967296".to_string()),
        Err("'4294967296' is not a number".to_string())
    );
    assert_eq!(get_param("/pi/-1".to_string()), Err("'-1' is not a number".to_string()));
    assert_eq!(get_param("/pi/+".to_string()), Err("'+' is not a number".to_string()));
    assert_eq!(get_param("/pi/1 2".to_string()), Err("'1 2' is not a number".to_string()));
}

#[test]
fn methods_are_read_by_name() {
    assert_eq!(method_from_token("GET"), Some(RequestMethod::GET));
    assert_eq!(method_from_token("HEAD"), Some(RequestMethod::HEAD));
    assert_eq!(method_from_token("POST"), Some(RequestMethod::POST));
    assert_eq!(method_from_token("PUT"), Some(RequestMethod::PUT));
    assert_eq!(method_from_token("DELETE"), Some(RequestMethod::DELETE));
    assert_eq!(method_from_token("CONNECT"), Some(RequestMethod::CONNECT));
    assert_eq!(method_from_token("OPTIONS"), Some(RequestMethod::OPTIONS));
    assert_eq!(method_from_token("TRACE"), Some(RequestMethod::TRACE));
    assert_eq!(method_from_token("PATCH"), Some(RequestMethod::PATCH));
    assert_eq!(method_from_token("get"), None);
    assert_eq!(method_from_token(""), None);
}

#[test]
fn request_line_gives_method_and_uri() {
    let lines = vec!["GET /pi/3 HTTP/1.1".to_string(), "Host: localhost".to_string()];
    assert_eq!(parse_request_line(&lines), Ok((RequestMethod::GET, "/pi/3".to_string())));
    let lines = vec!["POST /upload HTTP/1.1".to_string()];
    assert_eq!(parse_request_line(&lines), Ok((RequestMethod::POST, "/upload".to_string())));
    let lines = vec!["DELETE".to_string()];
    assert_eq!(parse_request_line(&lines), Ok((RequestMethod::DELETE, String::new())));
}

#[test]
fn request_line_errors() {
    let lines = vec!["FETCH /x HTTP/1.1".to_string()];
    assert_eq!(
        parse_request_line(&lines),
        Err(ParseError::UnknownMethod("FETCH".to_string()))
    );
    assert_eq!(parse_request_line(&Vec::new()), Err(ParseError::EmptyHeaders));
}

fn upload_request_lines() -> Vec<String> {
    vec![
        "POST /upload HTTP/1.1".to_string(),
        "Host: localhost:3030".to_string(),
        "Content-Type: multipart/form-data; boundary=xyz".to_string(),
        "not a header".to_string(),
        "HOST: other: host".to_string(),
    ]
}

#[test]
fn header_pairs_lower_case_the_keys() {
    let pairs = queues::request::header_pairs(&upload_request_lines());
    assert_eq!(
        pairs,
        vec![
            ("host".to_string(), "localhost:3030".to_string()),
            ("content-type".to_string(), "multipart/form-data; boundary=xyz".to_string()),
            ("host".to_string(), "other: host".to_string()),
        ]
    );
}

#[test]
fn parse_headers_keeps_the_last_value_of_a_key() {
    let headers = queues::request::parse_headers(&upload_request_lines());
    assert_eq!(headers.len(), 2);
    assert_eq!(headers.get("host"), Some(&"other: host".to_string()));
    assert_eq!(
        headers.get("content-type"),
        Some(&"multipart/form-data; boundary=xyz".to_string())
    );
}

#[test]
fn parse_headers_skips_the_request_line() {
    let lines = vec!["Key: value".to_string()];
    assert!(queues::request::parse_headers(&lines).is_empty());
    assert!(queues::request::parse_headers(&Vec::new()).is_empty());
}
