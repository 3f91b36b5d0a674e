//! The HTTP methods a request file can name, and the keywords that stand
//! for them.

use crate::text::{same_text, starts_with};
use vstd::prelude::*;

verus! {

/// A method keyword that closes a request block.
#[derive(Clone, Copy, Debug, PartialEq, Eq, Structural)]
pub enum Method {
    Get,
    Head,
    Options,
    Post,
    Put,
    Delete,
    Patch,
}

impl Method {
    /// The keyword as it is written in a request file.
    pub open spec fn keyword(self) -> Seq<char> {
        match self {
            Method::Get => seq!['G', 'E', 'T'],
            Method::Head => seq!['H', 'E', 'A', 'D'],
            Method::Options => seq!['O', 'P', 'T', 'I', 'O', 'N', 'S'],
            Method::Post => seq!['P', 'O', 'S', 'T'],
            Method::Put => seq!['P', 'U', 'T'],
            Method::Delete => seq!['D', 'E', 'L', 'E', 'T', 'E'],
            Method::Patch => seq!['P', 'A', 'T', 'C', 'H'],
        }
    }

    /// The method whose keyword is exactly `token`.
    pub open spec fn named(token: Seq<char>) -> Option<Method> {
        if token == Method::Get.keyword() {
            Some(Method::Get)
        } else if token == Method::Head.keyword() {
            Some(Method::Head)
        } else if token == Method::Options.keyword() {
            Some(Method::Options)
        } else if token == Method::Post.keyword() {
            Some(Method::Post)
        } else if token == Method::Put.keyword() {
            Some(Method::Put)
        } else if token == Method::Delete.keyword() {
            Some(Method::Delete)
        } else if token == Method::Patch.keyword() {
            Some(Method::Patch)
        } else {
            None
        }
    }

    /// The method with whose keyword `text` begins. The keywords are tried
    /// in a fixed order; the text need not end where the keyword ends.
    pub open spec fn opening(text: Seq<char>) -> Option<Method> {
        if Method::Get.keyword().is_prefix_of(text) {
            Some(Method::Get)
        } else if Method::Head.keyword().is_prefix_of(text) {
            Some(Method::Head)
        } else if Method::Options.keyword().is_prefix_of(text) {
            Some(Method::Options)
        } else if Method::Post.keyword().is_prefix_of(text) {
            Some(Method::Post)
        } else if Method::Put.keyword().is_prefix_of(text) {
            Some(Method::Put)
        } else if Method::Delete.keyword().is_prefix_of(text) {
            Some(Method::Delete)
        } else if Method::Patch.keyword().is_prefix_of(text) {
            Some(Method::Patch)
        } else {
            None
        }
    }

    /// The keyword of this method.
    pub fn as_str(self) -> (s: &'static str)
        ensures
            s@ == self.keyword(),
    {
        proof {
            reveal_strlit("GET");
            reveal_strlit("HEAD");
            reveal_strlit("OPTIONS");
            reveal_strlit("POST");
            reveal_strlit("PUT");
            reveal_strlit("DELETE");
            reveal_strlit("PATCH");
        }
        let s = match self {
            Method::Get => "GET",
            Method::Head => "HEAD",
            Method::Options => "OPTIONS",
            Method::Post => "POST",
            Method::Put => "PUT",
            Method::Delete => "DELETE",
            Method::Patch => "PATCH",
        };
        assert(s@ =~= self.keyword());
        s
    }

    /// The method that `token` names, if it is one of the seven keywords.
    pub fn from_keyword(token: &str) -> (found: Option<Method>)
        ensures
            found == Method::named(token@),
    {
        if same_text(token, Method::Get.as_str()) {
            Some(Method::Get)
        } else if same_text(token, Method::Head.as_str()) {
            Some(Method::Head)
        } else if same_text(token, Method::Options.as_str()) {
            Some(Method::Options)
        } else if same_text(token, Method::Post.as_str()) {
            Some(Method::Post)
        } else if same_text(token, Method::Put.as_str()) {
            Some(Method::Put)
        } else if same_text(token, Method::Delete.as_str()) {
            Some(Method::Delete)
        } else if same_text(token, Method::Patch.as_str()) {
            Some(Method::Patch)
        } else {
            None
        }
    }

    /// The method with whose keyword the line `text` begins, if any.
    pub fn detect(text: &str) -> (found: Option<Method>)
        ensures
            found == Method::opening(text@),
    {
        if starts_with(text, Method::Get.as_str()) {
            Some(Method::Get)
        } else if starts_with(text, Method::Head.as_str()) {
            Some(Method::Head)
        } else if starts_with(text, Method::Options.as_str()) {
            Some(Method::Options)
        } else if starts_with(text, Method::Post.as_str()) {
            Some(Method::Post)
        } else if starts_with(text, Method::Put.as_str()) {
            Some(Method::Put)
        } else if starts_with(text, Method::Delete.as_str()) {
            Some(Method::Delete)
        } else if starts_with(text, Method::Patch.as_str()) {
            Some(Method::Patch)
        } else {
            None
        }
    }
}

/// No keyword begins another: a text begins with at most one of them.
pub proof fn lemma_keywords_exclusive(text: Seq<char>, a: Method, b: Method)
    requires
        a.keyword().is_prefix_of(text),
        b.keyword().is_prefix_of(text),
    ensures
        a == b,
{
    let first = a.keyword();
    let second = b.keyword();
    assert(first[0] == text[0] && second[0] == text[0]);
    assert(first[1] == text[1] && second[1] == text[1]);
}

/// The order in which the keywords are tried does not matter: `opening`
/// finds a method exactly when the text begins with that method's keyword.
pub proof fn lemma_opening_is_prefix(text: Seq<char>, m: Method)
    ensures
        Method::opening(text) == Some(m) <==> m.keyword().is_prefix_of(text),
{
    if m.keyword().is_prefix_of(text) {
        match Method::opening(text) {
            Some(found) => {
                lemma_keywords_exclusive(text, found, m);
            },
            None => {},
        }
    }
}

/// Every keyword names its own method, and only a keyword names a method.
pub proof fn lemma_named_is_keyword(token: Seq<char>, m: Method)
    ensures
        Method::named(token) == Some(m) <==> token == m.keyword(),
{
    if token == m.keyword() {
        assert(m.keyword().is_prefix_of(token));
        match Method::named(token) {
            Some(found) => {
                assert(found.keyword().is_prefix_of(token));
                lemma_keywords_exclusive(token, found, m);
            },
            None => {},
        }
    }
}

} // verus!
