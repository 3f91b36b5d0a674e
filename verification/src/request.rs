//! Request blocks and their parser: from the lines of one block to the
//! request that they describe.

use crate::error::{format_error, report, Fault, ParseError};
use crate::line::{Line, SourceLine};
use crate::method::{lemma_named_is_keyword, Method};
use crate::parsed::{ParsedRequest, RequestDescriptor};
use crate::text::{
    begins_with, begins_with_char, count_indent, ends_with, ends_with_char, find_char, leading,
    lemma_leading, lemma_leading_is, lemma_leading_push, lemma_position, lemma_position_is,
    position, trim_start,
};
use vstd::prelude::*;
use vstd::string::StringExecFns;

verus! {

/// The lines of one request, as they stand in the document. The first line
/// names the host, the last line the method and the location; the lines
/// between them are headers and body.
pub struct RequestBlock {
    pub lines: Seq<SourceLine>,
    /// The token that the block is tagged with. The segmenter tags a block
    /// with the keyword that it found at the start of the last line.
    pub method: Seq<char>,
}

/// One request block of a request file.
#[derive(Debug, PartialEq, Eq)]
pub struct Request {
    pub lines: Vec<Line>,
    pub method: String,
}

impl View for Request {
    type V = RequestBlock;

    open spec fn view(&self) -> RequestBlock {
        RequestBlock { lines: self.lines.deep_view(), method: self.method@ }
    }
}

impl DeepView for Request {
    type V = RequestBlock;

    open spec fn deep_view(&self) -> RequestBlock {
        self@
    }
}

/// What follows the first space of the last line of a block: the location.
/// There is none where the line holds no space or ends with its first space.
pub open spec fn location_of(terminator: Seq<char>) -> Option<Seq<char>> {
    let space = position(terminator, ' ') as int;
    if space + 1 < terminator.len() {
        Some(terminator.skip(space + 1))
    } else {
        None
    }
}

/// Whether a body is open after `lines`: a line opened it, and no line
/// since, that line included, ends with `}`.
pub open spec fn in_body_after(lines: Seq<SourceLine>) -> bool
    decreases lines.len(), 0nat,
{
    if lines.len() == 0 {
        false
    } else {
        joins_body(lines.drop_last(), lines.last()) && !ends_with(lines.last().text, '}')
    }
}

/// Whether the line `next`, which follows `lines`, belongs to the body: a
/// body is open, or the first character of the line that is no white space
/// is `{`.
pub open spec fn joins_body(lines: Seq<SourceLine>, next: SourceLine) -> bool
    decreases lines.len(), 1nat,
{
    in_body_after(lines) || begins_with(next.text, '{')
}

/// The lines among `lines` that do not belong to the body, in order.
pub open spec fn header_lines(lines: Seq<SourceLine>) -> Seq<SourceLine>
    decreases lines.len(),
{
    if lines.len() == 0 {
        Seq::empty()
    } else if joins_body(lines.drop_last(), lines.last()) {
        header_lines(lines.drop_last())
    } else {
        header_lines(lines.drop_last()).push(lines.last())
    }
}

/// The texts of the lines among `lines` that belong to the body, one after
/// the other with nothing between them.
pub open spec fn body_text(lines: Seq<SourceLine>) -> Seq<char>
    decreases lines.len(),
{
    if lines.len() == 0 {
        Seq::empty()
    } else if joins_body(lines.drop_last(), lines.last()) {
        body_text(lines.drop_last()) + lines.last().text
    } else {
        body_text(lines.drop_last())
    }
}

/// Name and value of a header line: what stands before its first colon, and
/// what stands after it without the white space at the front. A line
/// without a colon is no header.
pub open spec fn split_header(text: Seq<char>) -> Option<(Seq<char>, Seq<char>)> {
    let colon = position(text, ':') as int;
    if colon < text.len() {
        Some((text.take(colon), trim_start(text.skip(colon + 1))))
    } else {
        None
    }
}

/// The predicate "is a header": the line holds a colon.
pub open spec fn is_header() -> spec_fn(SourceLine) -> bool {
    |line: SourceLine| split_header(line.text) is Some
}

/// The function from a header line to its name and value.
pub open spec fn header_of() -> spec_fn(SourceLine) -> (Seq<char>, Seq<char>) {
    |line: SourceLine| split_header(line.text)->0
}

impl RequestBlock {
    /// A block has at least two lines: one that names the host, and one that
    /// names the method and the location. A block of one line is malformed:
    /// it lacks its host line.
    pub open spec fn well_formed(self) -> bool {
        self.lines.len() >= 2
    }

    /// The lines between the first and the last.
    pub open spec fn interior(self) -> Seq<SourceLine> {
        if self.lines.len() >= 2 {
            self.lines.subrange(1, self.lines.len() - 1)
        } else {
            Seq::empty()
        }
    }

    /// The URI of the request: the text of the first line and the location
    /// named in the last, with nothing added or changed.
    pub open spec fn uri(self) -> Result<Seq<char>, Fault> {
        match location_of(self.lines.last().text) {
            Some(location) => Ok(self.lines[0].text + location),
            None => Err(Fault::MissingLocation(self.lines.last().number)),
        }
    }

    /// The request that the block describes, or the first fault found in
    /// it. The location is looked for first, then the host line, then each
    /// header line in turn, and the method last.
    pub open spec fn parse(self) -> Result<RequestDescriptor, Fault> {
        let headers = header_lines(self.interior());
        let valid = leading(headers, is_header()) as int;
        let body = body_text(self.interior());
        match self.uri() {
            Err(fault) => Err(fault),
            Ok(uri) => if !self.well_formed() {
                Err(Fault::MissingHost(self.lines.last().number))
            } else if valid < headers.len() {
                Err(Fault::InvalidHeader(headers[valid].number))
            } else {
                match Method::named(self.method) {
                    None => Err(Fault::InvalidMethod(self.lines[0].number, self.method)),
                    Some(method) => Ok(
                        RequestDescriptor {
                            method,
                            uri,
                            headers: headers.map_values(header_of()),
                            body: if body.len() == 0 {
                                None
                            } else {
                                Some(body)
                            },
                        },
                    ),
                }
            },
        }
    }
}

/// The outcome of parsing a block, as the contracts speak of it.
pub open spec fn outcome_view(outcome: Result<ParsedRequest, ParseError>) -> Result<
    RequestDescriptor,
    Fault,
> {
    match outcome {
        Ok(request) => Ok(request@),
        Err(error) => Err(error@),
    }
}

/// The location is what follows the first space, whatever it holds: in a
/// last line made of a token without a space, a space, and a path that is
/// not empty, the location is that path.
pub proof fn lemma_location(token: Seq<char>, path: Seq<char>)
    requires
        !token.contains(' '),
        path.len() > 0,
    ensures
        location_of(token + seq![' '] + path) == Some(path),
{
    let text = token + seq![' '] + path;
    assert forall|j: int| 0 <= j < token.len() implies #[trigger] text[j] != ' ' by {
        assert(text[j] == token[j]);
        assert(token.contains(token[j]));
    }
    lemma_position_is(text, ' ', token.len() as int);
    assert(text.skip(token.len() as int + 1) =~= path);
}

/// A last line that holds no space, or none before its last character,
/// names no location.
pub proof fn lemma_no_location(token: Seq<char>)
    requires
        !token.contains(' '),
    ensures
        location_of(token) is None,
        location_of(token + seq![' ']) is None,
{
    let spaced = token + seq![' '];
    assert forall|j: int| 0 <= j < token.len() implies #[trigger] spaced[j] != ' ' && token[j]
        != ' ' by {
        assert(spaced[j] == token[j]);
        assert(token.contains(token[j]));
    }
    lemma_position_is(token, ' ', token.len() as int);
    lemma_position_is(spaced, ' ', token.len() as int);
}

/// No method keyword holds a space.
pub proof fn lemma_keyword_holds_no_space(method: Method)
    ensures
        !method.keyword().contains(' '),
{
    let keyword = method.keyword();
    assert forall|j: int| 0 <= j < keyword.len() implies keyword[j] != ' ' by {}
}

/// The URI is the host line followed by the path, exactly: for a block
/// whose last line is a method keyword, a space and a path that is not
/// empty, nothing is added between host and path and nothing is changed in
/// either.
pub proof fn lemma_uri_is_host_then_path(block: RequestBlock, method: Method, path: Seq<char>)
    requires
        block.lines.len() > 0,
        block.lines.last().text == method.keyword() + seq![' '] + path,
        path.len() > 0,
    ensures
        block.uri() == Ok::<Seq<char>, Fault>(block.lines[0].text + path),
{
    lemma_keyword_holds_no_space(method);
    lemma_location(method.keyword(), path);
}

/// The block of two lines, a host line and a last line made of a method
/// keyword, a space and a path, describes the request with that method to
/// the host followed by the path, without headers or body.
pub proof fn lemma_parse_plain_block(block: RequestBlock, method: Method, path: Seq<char>)
    requires
        block.lines.len() == 2,
        block.lines[1].text == method.keyword() + seq![' '] + path,
        path.len() > 0,
        block.method == method.keyword(),
    ensures
        block.parse() == Ok::<RequestDescriptor, Fault>(
            RequestDescriptor {
                method,
                uri: block.lines[0].text + path,
                headers: Seq::empty(),
                body: None,
            },
        ),
{
    lemma_uri_is_host_then_path(block, method, path);
    lemma_named_is_keyword(block.method, method);
    assert(block.interior() =~= Seq::<SourceLine>::empty());
    assert(header_lines(block.interior()).map_values(header_of()) =~= Seq::<
        (Seq<char>, Seq<char>),
    >::empty());
}

/// A block whose last line names no location after the method fails with
/// `MissingLocation` at the number of that line, whatever else it holds.
pub proof fn lemma_missing_location(block: RequestBlock, token: Seq<char>)
    requires
        block.lines.len() > 0,
        !token.contains(' '),
        block.lines.last().text == token || block.lines.last().text == token + seq![' '],
    ensures
        block.parse() == Err::<RequestDescriptor, Fault>(
            Fault::MissingLocation(block.lines.last().number),
        ),
{
    lemma_no_location(token);
}

/// The header lines found in the first lines of a block stay header lines,
/// in their places, when more lines follow.
pub proof fn lemma_header_lines_grow(lines: Seq<SourceLine>, i: int)
    requires
        0 <= i <= lines.len(),
    ensures
        header_lines(lines.take(i)).is_prefix_of(header_lines(lines)),
    decreases lines.len() - i,
{
    if i == lines.len() {
        assert(lines.take(i) =~= lines);
    } else {
        lemma_header_lines_grow(lines, i + 1);
        assert(lines.take(i + 1).drop_last() =~= lines.take(i));
    }
}

/// Where every line is part of the body or holds a colon, all header lines
/// are headers.
pub proof fn lemma_headers_valid(lines: Seq<SourceLine>)
    requires
        forall|j: int|
            0 <= j < lines.len() ==> joins_body(lines.take(j), #[trigger] lines[j])
                || split_header(lines[j].text) is Some,
    ensures
        leading(header_lines(lines), is_header()) == header_lines(lines).len(),
    decreases lines.len(),
{
    if lines.len() > 0 {
        let before = lines.drop_last();
        assert forall|j: int| 0 <= j < before.len() implies joins_body(
            before.take(j),
            #[trigger] before[j],
        ) || split_header(before[j].text) is Some by {
            assert(before.take(j) =~= lines.take(j));
            assert(before[j] == lines[j]);
        }
        lemma_headers_valid(before);
        assert(lines.take(lines.len() - 1) =~= before);
        assert(joins_body(before, lines[lines.len() - 1]) || is_header()(lines.last()));
        lemma_leading_push(header_lines(before), is_header(), lines.last());
    } else {
        lemma_leading_is(header_lines(lines), is_header(), 0);
    }
}

/// A block with a header line that holds no colon fails with
/// `InvalidHeader` at the number of the first such line, given that its
/// last line names a location.
pub proof fn lemma_invalid_header(block: RequestBlock, i: int)
    requires
        block.well_formed(),
        block.uri() is Ok,
        0 <= i < block.interior().len(),
        !joins_body(block.interior().take(i), block.interior()[i]),
        !block.interior()[i].text.contains(':'),
        forall|j: int|
            0 <= j < i ==> joins_body(block.interior().take(j), #[trigger] block.interior()[j])
                || split_header(block.interior()[j].text) is Some,
    ensures
        block.parse() == Err::<RequestDescriptor, Fault>(
            Fault::InvalidHeader(block.interior()[i].number),
        ),
{
    let interior = block.interior();
    let seen = interior.take(i);
    let line = interior[i];
    assert forall|j: int| 0 <= j < seen.len() implies joins_body(seen.take(j), #[trigger] seen[j])
        || split_header(seen[j].text) is Some by {
        assert(seen.take(j) =~= interior.take(j));
        assert(seen[j] == interior[j]);
    }
    lemma_headers_valid(seen);
    lemma_position(line.text, ':');
    if position(line.text, ':') < line.text.len() {
        assert(line.text.contains(line.text[position(line.text, ':') as int]));
    }
    let found = header_lines(seen);
    assert(interior.take(i + 1).drop_last() =~= seen);
    assert(header_lines(interior.take(i + 1)) == found.push(line));
    lemma_leading_push(found, is_header(), line);
    lemma_header_lines_grow(interior, i + 1);
    let all = header_lines(interior);
    let valid = found.len() as int;
    assert forall|j: int| 0 <= j < valid implies is_header()(#[trigger] all[j]) by {
        assert(all[j] == found.push(line)[j]);
        lemma_leading(found, is_header());
        assert(found.push(line)[j] == found[j]);
    }
    assert(all[valid] == found.push(line)[valid]);
    lemma_leading_is(all, is_header(), valid);
}

/// Every header line is one of the lines that it was found among. The
/// result is the place of the header line `k` among them.
pub proof fn lemma_header_line_place(lines: Seq<SourceLine>, k: int) -> (j: int)
    requires
        0 <= k < header_lines(lines).len(),
    ensures
        0 <= j < lines.len(),
        lines[j] == header_lines(lines)[k],
    decreases lines.len(),
{
    let before = lines.drop_last();
    if !joins_body(before, lines.last()) && k == header_lines(before).len() {
        lines.len() - 1
    } else {
        lemma_header_line_place(before, k)
    }
}

/// A fault is reported at a line of the block that it is found in.
pub proof fn lemma_fault_within_block(block: RequestBlock) -> (j: int)
    requires
        block.lines.len() > 0,
        block.parse() is Err,
    ensures
        0 <= j < block.lines.len(),
        block.parse()->Err_0.line() == block.lines[j].number,
{
    let headers = header_lines(block.interior());
    let valid = leading(headers, is_header()) as int;
    if block.uri() is Err || !block.well_formed() {
        block.lines.len() - 1
    } else if valid < headers.len() {
        lemma_header_line_place(block.interior(), valid) + 1
    } else {
        0
    }
}

/// The body closes with the first of its lines that ends with `}`: the line
/// after it belongs to the body only if it opens a body itself. A body with
/// an object nested in it is cut short at the line that ends the inner
/// object.
pub proof fn lemma_body_closes_at_brace(lines: Seq<SourceLine>, closing: SourceLine, next: SourceLine)
    requires
        joins_body(lines, closing),
        ends_with(closing.text, '}'),
    ensures
        !in_body_after(lines.push(closing)),
        joins_body(lines.push(closing), next) == begins_with(next.text, '{'),
{
    assert(lines.push(closing).drop_last() =~= lines);
}

/// Name and value of the header line `text`, if it holds a colon.
pub fn parse_header(text: &str) -> (header: Option<(String, String)>)
    ensures
        header.deep_view() == split_header(text@),
{
    let colon = find_char(text, ':');
    let n = text.unicode_len();
    if colon < n {
        let name = text.substring_char(0, colon);
        let rest = text.substring_char(colon + 1, n);
        let value = rest.substring_char(count_indent(rest), n - colon - 1);
        Some((String::from_str(name), String::from_str(value)))
    } else {
        None
    }
}

impl Request {
    /// The block made of `lines` and tagged with `method`.
    pub fn new(lines: Vec<Line>, method: &str) -> (block: Request)
        ensures
            block@ == (RequestBlock { lines: lines.deep_view(), method: method@ }),
    {
        Request { lines, method: String::from_str(method) }
    }

    /// The report of a fault at line `line` of the document.
    pub fn error(&self, line: usize, msg: &str) -> (text: String)
        ensures
            text@ == report(line as nat, msg@),
    {
        format_error(line, msg)
    }

    /// Assembles the URI from the first and the last line of the block.
    pub fn get_uri(&self) -> (uri: Result<String, ParseError>)
        requires
            self.lines@.len() > 0,
        ensures
            match uri {
                Ok(text) => self@.uri() == Ok::<Seq<char>, Fault>(text@),
                Err(error) => self@.uri() == Err::<Seq<char>, Fault>(error@),
            },
    {
        let n = self.lines.len();
        let last = &self.lines[n - 1];
        let terminator = last.text.as_str();
        let space = find_char(terminator, ' ');
        let end = terminator.unicode_len();
        assert(self@.lines.last() == last@);
        assert(self@.lines[0] == self.lines[0]@);
        if space < end && space + 1 < end {
            let mut uri = self.lines[0].text.clone();
            uri.append(terminator.substring_char(space + 1, end));
            Ok(uri)
        } else {
            Err(ParseError::MissingLocation(last.number))
        }
    }

    /// Parses the block into the request that it describes.
    pub fn parse(&self) -> (outcome: Result<ParsedRequest, ParseError>)
        requires
            self.lines@.len() > 0,
        ensures
            outcome_view(outcome) == self@.parse(),
    {
        let uri = match self.get_uri() {
            Ok(uri) => uri,
            Err(error) => {
                return Err(error);
            },
        };
        let n = self.lines.len();
        assert(self@.lines.last() == self.lines[n - 1]@);
        assert(self@.lines[0] == self.lines[0]@);
        if n < 2 {
            return Err(ParseError::MissingHost(self.lines[n - 1].number));
        }
        let ghost all = self@.lines;
        let mut in_body = false;
        let mut body = String::new();
        let mut headers: Vec<(String, String)> = Vec::new();
        let mut invalid: Option<usize> = None;
        let mut i: usize = 1;
        assert(all.subrange(1, 1) =~= Seq::<SourceLine>::empty());
        assert(headers.deep_view() =~= Seq::<SourceLine>::empty().map_values(header_of()));
        while i < n - 1
            invariant
                1 <= i <= n - 1,
                n == self.lines.len(),
                all == self@.lines,
                in_body == in_body_after(all.subrange(1, i as int)),
                body@ == body_text(all.subrange(1, i as int)),
                ({
                    let found = header_lines(all.subrange(1, i as int));
                    let valid = leading(found, is_header()) as int;
                    match invalid {
                        None => valid == found.len() && headers.deep_view() == found.map_values(
                            header_of(),
                        ),
                        Some(number) => valid < found.len() && found[valid].number == number,
                    }
                }),
            decreases n - i,
        {
            let line = &self.lines[i];
            let text = line.text.as_str();
            let ghost seen = all.subrange(1, i as int);
            let ghost found = header_lines(seen);
            proof {
                assert(all.subrange(1, i + 1).drop_last() =~= seen);
                assert(all.subrange(1, i + 1).last() == line@);
                lemma_leading_push(found, is_header(), line@);
            }
            if in_body || begins_with_char(text, '{') {
                body.append(text);
                in_body = !ends_with_char(text, '}');
            } else {
                if invalid.is_none() {
                    match parse_header(text) {
                        Some(header) => {
                            let ghost before = headers.deep_view();
                            headers.push(header);
                            assert(headers.deep_view() =~= before.push(header.deep_view()));
                            assert(found.push(line@).map_values(header_of()) =~= found.map_values(
                                header_of(),
                            ).push(header_of()(line@)));
                        },
                        None => {
                            invalid = Some(line.number);
                        },
                    }
                }
            }
            i += 1;
        }
        assert(all.subrange(1, n - 1) == self@.interior());
        if let Some(number) = invalid {
            return Err(ParseError::InvalidHeader(number));
        }
        match Method::from_keyword(self.method.as_str()) {
            None => Err(ParseError::InvalidMethod(self.lines[0].number, self.method.clone())),
            Some(method) => {
                let body = if body.as_str().is_empty() {
                    None
                } else {
                    Some(body)
                };
                Ok(ParsedRequest { method, uri, headers, body })
            },
        }
    }
}

} // verus!
