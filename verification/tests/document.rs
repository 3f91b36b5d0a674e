use rest_cli::{parse_input, Method, ParseError, ParsedRequest};

#[test]
fn empty_document_has_no_outcome() {
    assert_eq!(parse_input(""), vec![]);
}

#[test]
fn comments_and_empty_lines_make_no_block() {
    assert_eq!(parse_input("# only a comment"), vec![]);
    assert_eq!(parse_input("\n\n# a\n\n#b\n#\n\n"), vec![]);
    assert_eq!(parse_input("#GET /x\n# POST /y\r\n\r\n"), vec![]);
}

#[test]
fn document_without_method_line_has_no_outcome() {
    assert_eq!(parse_input("http://localhost\nAccept: */*\n"), vec![]);
}

#[test]
fn one_outcome_per_block_in_order() {
    let outcomes = parse_input(
        "# first\nhttp://a\nGET /1\n\n# second\nhttp://b\nAccept: text/plain\nPOST /2\n",
    );
    assert_eq!(
        outcomes,
        vec![
            Ok(ParsedRequest {
                method: Method::Get,
                uri: "http://a/1".to_string(),
                headers: vec![],
                body: None,
            }),
            Ok(ParsedRequest {
                method: Method::Post,
                uri: "http://b/2".to_string(),
                headers: vec![("Accept".to_string(), "text/plain".to_string())],
                body: None,
            }),
        ]
    );
}

#[test]
fn errors_carry_numbers_of_the_unfiltered_document() {
    let outcomes = parse_input("# c\n\nhttp://a\n# c\n\nother header\n\nGET /1\n");
    assert_eq!(outcomes, vec![Err(ParseError::InvalidHeader(6))]);
    let outcomes = parse_input("\n\n\nhttp://a\n\n\n\n\n\n\n\nPUT \n");
    assert_eq!(outcomes, vec![Err(ParseError::MissingLocation(12))]);
    assert_eq!(
        outcomes[0].as_ref().unwrap_err().message(),
        "Error (line 12): Expected location"
    );
}

#[test]
fn failed_block_does_not_stop_the_next() {
    let document = "https://www.example.com
Content-Type: text/html
other header
DELETE /api/thing
https://www.example.com
Content-Type: text/html
DELETE /api/thing
";
    let outcomes = parse_input(document);
    assert_eq!(outcomes.len(), 2);
    assert_eq!(outcomes[0], Err(ParseError::InvalidHeader(3)));
    assert_eq!(
        outcomes[1],
        Ok(ParsedRequest {
            method: Method::Delete,
            uri: "https://www.example.com/api/thing".to_string(),
            headers: vec![("Content-Type".to_string(), "text/html".to_string())],
            body: None,
        })
    );
    // the second block has the outcome that it has on its own
    let alone = parse_input("https://www.example.com\nContent-Type: text/html\nDELETE /api/thing\n");
    assert_eq!(alone.len(), 1);
    assert_eq!(alone[0], outcomes[1]);
}

#[test]
fn every_fault_is_reported_for_its_own_block() {
    let outcomes = parse_input("http://a\nPUT\nGET /lonely\nhttp://b\nbad\nHEAD /x\nhttp://c\nPATCH /y");
    assert_eq!(
        outcomes,
        vec![
            Err(ParseError::MissingLocation(2)),
            Err(ParseError::MissingHost(3)),
            Err(ParseError::InvalidHeader(5)),
            Ok(ParsedRequest {
                method: Method::Patch,
                uri: "http://c/y".to_string(),
                headers: vec![],
                body: None,
            }),
        ]
    );
}

#[test]
fn parsing_twice_gives_the_same() {
    let document = "http://a\nX: 1\n{\n\"k\": 1\n}\nPOST /p\nbroken\nGET\n\nhttp://b\nGET /q\n";
    let once = parse_input(document);
    let again = parse_input(document);
    assert_eq!(once, again);
    assert_eq!(once.len(), 3);
}

#[test]
fn body_bearing_block_in_a_document() {
    let document = "http://localhost\r\nContent-Type: application/json\r\n{\r\n    \"key\": \"value\"\r\n}\r\nPOST /\r\n";
    assert_eq!(
        parse_input(document),
        vec![Ok(ParsedRequest {
            method: Method::Post,
            uri: "http://localhost/".to_string(),
            headers: vec![("Content-Type".to_string(), "application/json".to_string())],
            body: Some("{    \"key\": \"value\"}".to_string()),
        })]
    );
}

#[test]
fn method_line_with_longer_token_still_closes_the_block() {
    // the keyword is matched as a prefix; the location is what follows the
    // first space
    let outcomes = parse_input("http://a\nGETX /1\n");
    assert_eq!(
        outcomes,
        vec![Ok(ParsedRequest {
            method: Method::Get,
            uri: "http://a/1".to_string(),
            headers: vec![],
            body: None,
        })]
    );
}

#[test]
fn lines_after_the_last_method_line_are_ignored() {
    let outcomes = parse_input("http://a\nOPTIONS /1\nhttp://b\nno method follows\n");
    assert_eq!(outcomes.len(), 1);
    assert_eq!(outcomes[0].as_ref().unwrap().method, Method::Options);
}
