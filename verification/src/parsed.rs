//! The result of parsing one request block: what is handed to the
//! transport.

use crate::method::Method;
use vstd::prelude::*;
use vstd::string::StringExecFns;

verus! {

/// A request as the transport is to send it.
pub struct RequestDescriptor {
    pub method: Method,
    /// The host line followed by the location, with nothing put between.
    pub uri: Seq<char>,
    /// Name and value of each header line, in the order of the lines. A name
    /// may occur more than once.
    pub headers: Seq<(Seq<char>, Seq<char>)>,
    /// The body, where the block holds one that is not empty.
    pub body: Option<Seq<char>>,
}

/// A parsed request: method, URI, headers and body.
#[derive(Debug, PartialEq, Eq)]
pub struct ParsedRequest {
    pub method: Method,
    pub uri: String,
    pub headers: Vec<(String, String)>,
    pub body: Option<String>,
}

impl View for ParsedRequest {
    type V = RequestDescriptor;

    open spec fn view(&self) -> RequestDescriptor {
        RequestDescriptor {
            method: self.method,
            uri: self.uri@,
            headers: self.headers.deep_view(),
            body: self.body.deep_view(),
        }
    }
}

impl DeepView for ParsedRequest {
    type V = RequestDescriptor;

    open spec fn deep_view(&self) -> RequestDescriptor {
        self@
    }
}

impl RequestDescriptor {
    /// The line that announces the request: the method keyword, a space,
    /// and the URI.
    pub open spec fn trace(self) -> Seq<char> {
        self.method.keyword() + seq![' '] + self.uri
    }
}

impl ParsedRequest {
    /// The line that announces the request before it is sent.
    pub fn trace(&self) -> (line: String)
        ensures
            line@ == self@.trace(),
    {
        proof {
            reveal_strlit(" ");
        }
        let mut line = String::from_str(self.method.as_str());
        line.append(" ");
        line.append(self.uri.as_str());
        assert(" "@ =~= seq![' ']);
        line
    }
}

} // verus!
