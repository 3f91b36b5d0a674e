//! What can be wrong with a request block, and how it is reported.

use vstd::prelude::*;
use vstd::string::StringExecFns;

verus! {

/// A fault found in a request block. Each carries the number that the line
/// it is reported at has in the document.
pub enum Fault {
    /// The last line of the block names no location after the method. It is
    /// reported at that line.
    MissingLocation(nat),
    /// The block consists of its last line alone: no line names a host. It
    /// is reported at that line.
    MissingHost(nat),
    /// A header line holds no colon. It is reported at that line.
    InvalidHeader(nat),
    /// The block is tagged with a token that is no method keyword. It is
    /// reported at the first line of the block, with the token.
    InvalidMethod(nat, Seq<char>),
}

/// The error with which parsing a request block fails.
#[derive(Debug, PartialEq, Eq)]
pub enum ParseError {
    MissingLocation(usize),
    MissingHost(usize),
    InvalidHeader(usize),
    InvalidMethod(usize, String),
}

impl View for ParseError {
    type V = Fault;

    open spec fn view(&self) -> Fault {
        match self {
            ParseError::MissingLocation(line) => Fault::MissingLocation(*line as nat),
            ParseError::MissingHost(line) => Fault::MissingHost(*line as nat),
            ParseError::InvalidHeader(line) => Fault::InvalidHeader(*line as nat),
            ParseError::InvalidMethod(line, token) => Fault::InvalidMethod(*line as nat, token@),
        }
    }
}

impl DeepView for ParseError {
    type V = Fault;

    open spec fn deep_view(&self) -> Fault {
        self@
    }
}

/// The character that stands for a digit below ten.
pub open spec fn digit(d: nat) -> char {
    if d == 0 {
        '0'
    } else if d == 1 {
        '1'
    } else if d == 2 {
        '2'
    } else if d == 3 {
        '3'
    } else if d == 4 {
        '4'
    } else if d == 5 {
        '5'
    } else if d == 6 {
        '6'
    } else if d == 7 {
        '7'
    } else if d == 8 {
        '8'
    } else {
        '9'
    }
}

/// A number written in decimal, without leading zeros.
pub open spec fn decimal(n: nat) -> Seq<char>
    decreases n,
{
    if n < 10 {
        seq![digit(n)]
    } else {
        decimal(n / 10).push(digit(n % 10))
    }
}

/// The report of a fault: the line it is found at, then what is wrong.
pub open spec fn report(line: nat, what: Seq<char>) -> Seq<char> {
    "Error (line "@ + decimal(line) + "): "@ + what
}

impl Fault {
    /// The number of the line at which the fault is reported.
    pub open spec fn line(self) -> nat {
        match self {
            Fault::MissingLocation(line) => line,
            Fault::MissingHost(line) => line,
            Fault::InvalidHeader(line) => line,
            Fault::InvalidMethod(line, _) => line,
        }
    }

    /// What is wrong, in words.
    pub open spec fn what(self) -> Seq<char> {
        match self {
            Fault::MissingLocation(_) => "Expected location"@,
            Fault::MissingHost(_) => "Expected host"@,
            Fault::InvalidHeader(_) => "Invalid header syntax"@,
            Fault::InvalidMethod(_, token) => "Invalid method: "@ + token,
        }
    }

    /// The report of this fault.
    pub open spec fn message(self) -> Seq<char> {
        report(self.line(), self.what())
    }
}

/// The text of a digit below ten.
fn digit_str(d: usize) -> (s: &'static str)
    requires
        d < 10,
    ensures
        s@ == seq![digit(d as nat)],
{
    proof {
        reveal_strlit("0");
        reveal_strlit("1");
        reveal_strlit("2");
        reveal_strlit("3");
        reveal_strlit("4");
        reveal_strlit("5");
        reveal_strlit("6");
        reveal_strlit("7");
        reveal_strlit("8");
        reveal_strlit("9");
    }
    let s = if d == 0 {
        "0"
    } else if d == 1 {
        "1"
    } else if d == 2 {
        "2"
    } else if d == 3 {
        "3"
    } else if d == 4 {
        "4"
    } else if d == 5 {
        "5"
    } else if d == 6 {
        "6"
    } else if d == 7 {
        "7"
    } else if d == 8 {
        "8"
    } else {
        "9"
    };
    assert(s@ =~= seq![digit(d as nat)]);
    s
}

/// Appends `n`, written in decimal, to `out`.
pub fn push_decimal(out: &mut String, n: usize)
    ensures
        final(out)@ == old(out)@ + decimal(n as nat),
    decreases n,
{
    if n >= 10 {
        push_decimal(out, n / 10);
    }
    let ghost before = out@;
    out.append(digit_str(n % 10));
    assert(before + seq![digit((n % 10) as nat)] =~= before.push(digit((n % 10) as nat)));
    assert(old(out)@ + decimal(n as nat) =~= out@);
}

/// The report of a fault at line `line`: `Error (line N): ` and then `what`.
pub fn format_error(line: usize, what: &str) -> (text: String)
    ensures
        text@ == report(line as nat, what@),
{
    let mut text = String::from_str("Error (line ");
    push_decimal(&mut text, line);
    text.append("): ");
    text.append(what);
    text
}

impl ParseError {
    /// The number of the line at which the error is reported.
    pub fn line(&self) -> (line: usize)
        ensures
            line == self@.line(),
    {
        match self {
            ParseError::MissingLocation(line) => *line,
            ParseError::MissingHost(line) => *line,
            ParseError::InvalidHeader(line) => *line,
            ParseError::InvalidMethod(line, _) => *line,
        }
    }

    /// The report of this error, as it is shown to the user.
    pub fn message(&self) -> (text: String)
        ensures
            text@ == self@.message(),
    {
        match self {
            ParseError::MissingLocation(line) => format_error(*line, "Expected location"),
            ParseError::MissingHost(line) => format_error(*line, "Expected host"),
            ParseError::InvalidHeader(line) => format_error(*line, "Invalid header syntax"),
            ParseError::InvalidMethod(line, token) => {
                let mut what = String::from_str("Invalid method: ");
                what.append(token.as_str());
                format_error(*line, what.as_str())
            },
        }
    }
}

} // verus!
