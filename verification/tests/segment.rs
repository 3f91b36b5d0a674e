use rest_cli::segment::segment;
use rest_cli::{Line, Request};

fn lines(texts: &[&str]) -> Vec<Line> {
    texts
        .iter()
        .enumerate()
        .map(|(i, text)| Line::new(text, i + 1))
        .collect()
}

#[test]
fn no_lines_no_blocks() {
    assert_eq!(segment(&lines(&[])), vec![]);
}

#[test]
fn lines_without_method_line_are_in_no_block() {
    assert_eq!(segment(&lines(&["http://h", "A: b", "get /x"])), vec![]);
}

#[test]
fn each_method_line_closes_a_block() {
    let all = lines(&["http://a", "GET /1", "http://b", "X: y", "POST /2"]);
    let blocks = segment(&all);
    assert_eq!(
        blocks,
        vec![
            Request::new(vec![all[0].clone(), all[1].clone()], "GET"),
            Request::new(vec![all[2].clone(), all[3].clone(), all[4].clone()], "POST"),
        ]
    );
}

#[test]
fn trailing_lines_are_dropped() {
    let all = lines(&["http://a", "GET /1", "http://b", "X: y"]);
    let blocks = segment(&all);
    assert_eq!(
        blocks,
        vec![Request::new(vec![all[0].clone(), all[1].clone()], "GET")]
    );
}

#[test]
fn method_line_right_after_a_block_is_a_block_of_one_line() {
    let all = lines(&["http://a", "GET /1", "PUT /2", "DELETE /3"]);
    let blocks = segment(&all);
    assert_eq!(blocks.len(), 3);
    assert_eq!(blocks[1], Request::new(vec![all[2].clone()], "PUT"));
    assert_eq!(blocks[2], Request::new(vec![all[3].clone()], "DELETE"));
}

#[test]
fn keyword_is_matched_as_a_prefix() {
    let all = lines(&["http://a", "GETTING /1", "http://b", "PATCHWORK", "http://c", "OPTIONS"]);
    let blocks = segment(&all);
    assert_eq!(blocks.len(), 3);
    assert_eq!(blocks[0].method, "GET");
    assert_eq!(blocks[1].method, "PATCH");
    assert_eq!(blocks[2].method, "OPTIONS");
    // the keyword has to stand at the very start, in capitals
    assert_eq!(segment(&lines(&["http://a", " GET /1", "Get /2", "xPOST /3"])), vec![]);
}

#[test]
fn block_lines_keep_their_numbers() {
    let all = vec![
        Line::new("http://a", 2),
        Line::new("HEAD /x", 4),
        Line::new("http://b", 9),
        Line::new("PUT /y", 12),
    ];
    let blocks = segment(&all);
    assert_eq!(blocks[1].lines[0].number, 9);
    assert_eq!(blocks[1].lines[1].number, 12);
}
