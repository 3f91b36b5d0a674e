use rest_cli::{Line, Method, ParseError, ParsedRequest, Request};

fn setup(text: &str, method: &str) -> Result<ParsedRequest, ParseError> {
    let mut n = 0;
    let mut lines = vec![];
    for line in text.split("\n") {
        n += 1;
        lines.push(Line::new(line, n));
    }
    Request::new(lines, method).parse()
}

#[test]
fn get() {
    let req = setup("https://example.com\nGET /route", "GET").unwrap();

    assert_eq!(req.method.as_str(), "GET");
    assert_eq!(
        reqwest::Url::parse(&req.uri).unwrap(),
        reqwest::Url::parse("https://example.com/route").unwrap()
    );
    assert!(req.headers.is_empty());
    match req.body {
        Some(_) => panic!("Body should be empty"),
        None => {} // OK
    }
}

#[test]
fn no_location_specified() {
    let req = setup("http://localhost:8080\nPUT ", "PUT");
    match req {
        Ok(_) => {
            panic!("Expected error");
        }
        Err(e) => {
            assert_eq!(e.message(), "Error (line 2): Expected location");
        }
    }
}

#[test]
fn post() {
    let text = r#"http://localhost
Content-Type: application/json
{
    "key": "value"
}
POST /"#;
    let req = setup(text, "POST").unwrap();

    assert_eq!(req.method.as_str(), "POST");
    assert_eq!(
        reqwest::Url::parse(&req.uri).unwrap(),
        reqwest::Url::parse("http://localhost/").unwrap()
    );
    let headers = &req.headers;
    assert_eq!(headers.len(), 1);
    let (name, value) = &headers[0];
    assert!(name.eq_ignore_ascii_case("content-type"));
    assert_eq!(value, &"application/json");
    match &req.body {
        Some(body) => {
            let expected_body = r#"{    "key": "value"}"#;
            assert_eq!(body.as_bytes(), expected_body.as_bytes());
        }
        None => panic!("Expected body"),
    }
}

#[test]
fn invalid_header() {
    let text = "https://www.example.com
Content-Type: text/html
other header
DELETE /api/thing";
    let req = setup(text, "DELETE");
    match req {
        Ok(_) => {
            panic!("Expected error");
        }
        Err(e) => {
            assert_eq!(e.message(), "Error (line 3): Invalid header syntax");
        }
    }
}

fn block(lines: &[(&str, usize)], method: &str) -> Request {
    let lines = lines.iter().map(|(text, number)| Line::new(text, *number)).collect();
    Request::new(lines, method)
}

#[test]
fn uri_is_host_then_path_without_normalization() {
    let req = block(&[("http://host", 1), ("GET path", 2)], "GET").parse().unwrap();
    assert_eq!(req.uri, "http://hostpath");
    let req = block(&[("http://host/", 1), ("GET /path", 2)], "GET").parse().unwrap();
    assert_eq!(req.uri, "http://host//path");
    let req = block(&[("https://example.com", 4), ("GET /route", 9)], "GET");
    assert_eq!(req.get_uri(), Ok("https://example.com/route".to_string()));
}

#[test]
fn location_is_all_that_follows_the_first_space() {
    let req = block(&[("http://h", 1), ("GET /a b c", 2)], "GET").parse().unwrap();
    assert_eq!(req.uri, "http://h/a b c");
    let req = block(&[("http://h", 1), ("GET  /a", 2)], "GET").parse().unwrap();
    assert_eq!(req.uri, "http://h /a");
}

#[test]
fn missing_location_without_space() {
    let outcome = block(&[("http://localhost:8080", 7), ("PUT", 12)], "PUT").parse();
    assert_eq!(outcome, Err(ParseError::MissingLocation(12)));
    let outcome = block(&[("http://localhost:8080", 7), ("PUT ", 12)], "PUT").get_uri();
    assert_eq!(outcome, Err(ParseError::MissingLocation(12)));
}

#[test]
fn block_of_one_line_lacks_its_host() {
    let outcome = block(&[("GET /route", 3)], "GET").parse();
    assert_eq!(outcome, Err(ParseError::MissingHost(3)));
    assert_eq!(outcome.unwrap_err().message(), "Error (line 3): Expected host");
    let outcome = block(&[("GET ", 3)], "GET").parse();
    assert_eq!(outcome, Err(ParseError::MissingLocation(3)));
}

#[test]
fn unknown_method_is_reported_at_the_first_line() {
    let outcome = block(&[("http://h", 5), ("A: b", 6), ("TRACE /x", 7)], "TRACE").parse();
    assert_eq!(outcome, Err(ParseError::InvalidMethod(5, "TRACE".to_string())));
    assert_eq!(outcome.unwrap_err().message(), "Error (line 5): Invalid method: TRACE");
    let outcome = block(&[("http://h", 5), ("GET /x", 7)], "get").parse();
    assert_eq!(outcome, Err(ParseError::InvalidMethod(5, "get".to_string())));
}

#[test]
fn faults_are_looked_for_in_order() {
    // location before headers, headers before the method
    let outcome = block(&[("http://h", 1), ("no colon", 2), ("TRACE", 3)], "TRACE").parse();
    assert_eq!(outcome, Err(ParseError::MissingLocation(3)));
    let outcome = block(&[("http://h", 1), ("no colon", 2), ("TRACE /x", 3)], "TRACE").parse();
    assert_eq!(outcome, Err(ParseError::InvalidHeader(2)));
    // the first invalid header is the one reported
    let outcome = block(
        &[("http://h", 1), ("A: b", 2), ("first", 4), ("second", 5), ("GET /x", 6)],
        "GET",
    )
    .parse();
    assert_eq!(outcome, Err(ParseError::InvalidHeader(4)));
}

#[test]
fn all_seven_methods_are_recognized() {
    let cases = [
        ("GET", Method::Get),
        ("HEAD", Method::Head),
        ("OPTIONS", Method::Options),
        ("POST", Method::Post),
        ("PUT", Method::Put),
        ("DELETE", Method::Delete),
        ("PATCH", Method::Patch),
    ];
    for (keyword, method) in cases {
        let last = format!("{} /x", keyword);
        let req = block(&[("http://h", 1), (last.as_str(), 2)], keyword).parse().unwrap();
        assert_eq!(req.method, method);
        assert_eq!(req.method.as_str(), keyword);
        assert_eq!(Method::from_keyword(keyword), Some(method));
        assert_eq!(Method::detect(&last), Some(method));
    }
    assert_eq!(Method::from_keyword("GETX"), None);
    assert_eq!(Method::from_keyword("GE"), None);
    assert_eq!(Method::from_keyword(""), None);
}

#[test]
fn headers_keep_order_and_duplicates() {
    let req = block(
        &[
            ("http://h", 1),
            ("Accept: text/html", 2),
            ("X-Tag: one", 3),
            ("Accept: application/json", 4),
            ("GET /", 5),
        ],
        "GET",
    )
    .parse()
    .unwrap();
    assert_eq!(
        req.headers,
        vec![
            ("Accept".to_string(), "text/html".to_string()),
            ("X-Tag".to_string(), "one".to_string()),
            ("Accept".to_string(), "application/json".to_string()),
        ]
    );
    assert_eq!(req.body, None);
}

#[test]
fn header_is_split_at_its_first_colon() {
    let req = block(
        &[("http://h", 1), ("Host: localhost:8080", 2), ("Empty:", 3), ("Blank:   ", 4), ("GET /", 5)],
        "GET",
    )
    .parse()
    .unwrap();
    assert_eq!(
        req.headers,
        vec![
            ("Host".to_string(), "localhost:8080".to_string()),
            ("Empty".to_string(), "".to_string()),
            ("Blank".to_string(), "".to_string()),
        ]
    );
}

#[test]
fn header_value_loses_only_the_white_space_at_its_front() {
    let req = block(
        &[("http://h", 1), (" Name :\t  value with space  ", 2), ("GET /", 3)],
        "GET",
    )
    .parse()
    .unwrap();
    assert_eq!(
        req.headers,
        vec![(" Name ".to_string(), "value with space  ".to_string())]
    );
    assert_eq!(
        rest_cli::request::parse_header("a:\u{a0}\u{2003}b"),
        Some(("a".to_string(), "b".to_string()))
    );
    assert_eq!(rest_cli::request::parse_header("no colon here"), None);
    assert_eq!(
        rest_cli::request::parse_header(":x"),
        Some(("".to_string(), "x".to_string()))
    );
}

#[test]
fn body_lines_are_joined_without_separator() {
    let req = block(
        &[("http://h", 1), ("  {", 2), ("  \"a\": 1,", 3), ("  \"b\": 2", 4), ("}", 5), ("POST /", 6)],
        "POST",
    )
    .parse()
    .unwrap();
    assert_eq!(req.body, Some("  {  \"a\": 1,  \"b\": 2}".to_string()));
    assert!(req.headers.is_empty());
}

#[test]
fn body_on_one_line_and_headers_after_it() {
    let req = block(
        &[("http://h", 1), ("{\"a\": 1}", 2), ("After: body", 3), ("POST /", 4)],
        "POST",
    )
    .parse()
    .unwrap();
    assert_eq!(req.body, Some("{\"a\": 1}".to_string()));
    assert_eq!(req.headers, vec![("After".to_string(), "body".to_string())]);
}

#[test]
fn body_stays_open_when_the_brace_is_not_last() {
    // the closing brace is followed by a space: the body goes on
    let req = block(
        &[("http://h", 1), ("{", 2), ("} ", 3), ("Not: a header", 4), ("POST /", 5)],
        "POST",
    )
    .parse()
    .unwrap();
    assert_eq!(req.body, Some("{} Not: a header".to_string()));
    assert!(req.headers.is_empty());
}

#[test]
fn nested_object_cuts_the_body_short() {
    let text = r#"http://localhost
{
    "inner": {"a":1}
    "more": 2
}
POST /"#;
    // the line that ends the inner object ends the body: the next line is
    // read as a header, and the last brace as a header without a colon
    assert_eq!(setup(text, "POST"), Err(ParseError::InvalidHeader(5)));

    let text = r#"http://localhost
{
    "inner": {"a":1}
    "more": 2
POST /"#;
    let req = setup(text, "POST").unwrap();
    assert_eq!(req.body, Some("{    \"inner\": {\"a\":1}".to_string()));
    assert_eq!(req.headers, vec![("    \"more\"".to_string(), "2".to_string())]);
}

#[test]
fn trace_line_is_method_then_uri() {
    let req = setup("https://example.com\nDELETE /api/thing", "DELETE").unwrap();
    assert_eq!(req.trace(), "DELETE https://example.com/api/thing");
}

#[test]
fn request_error_formats_line_and_message() {
    let req = block(&[("http://h", 1), ("GET /", 2)], "GET");
    assert_eq!(req.error(2, "Expected location"), "Error (line 2): Expected location");
    assert_eq!(req.error(0, ""), "Error (line 0): ");
}

#[test]
fn new_keeps_lines_and_method() {
    let req = block(&[("http://h", 3), ("GET /", 8)], "GET");
    assert_eq!(req.method, "GET");
    assert_eq!(req.lines.len(), 2);
    assert_eq!(req.lines[0], Line::new("http://h", 3));
    assert_eq!(req.lines[1].text, "GET /");
    assert_eq!(req.lines[1].number, 8);
    assert_eq!(req.lines[1].clone(), req.lines[1]);
}

#[test]
fn header_parsing_agrees_with_std() {
    let samples = [
        "Content-Type: application/json",
        "a:b",
        "a: b:c",
        ":",
        "name:\t \u{2003}value  ",
        "no colon",
        "",
        " spaced name : v",
    ];
    for s in samples {
        let expected = s
            .split_once(':')
            .map(|(name, value)| (name.to_string(), value.trim_start().to_string()));
        assert_eq!(rest_cli::request::parse_header(s), expected);
    }
}
