//! What decides how a response is shown: the class of its status code, and
//! whether its body is announced as JSON.

use crate::text::same_text;
use vstd::prelude::*;

verus! {

/// The classes of status codes that are shown apart from each other.
#[derive(Clone, Copy, Debug, PartialEq, Eq, Structural)]
pub enum StatusClass {
    /// 100 to 199.
    Informational,
    /// 200 to 299.
    Success,
    /// 300 to 399.
    Redirection,
    /// Every other code: the errors, and what lies outside the classes.
    Other,
}

impl StatusClass {
    /// The class of the status code `code`.
    pub open spec fn of(code: u16) -> StatusClass {
        if 200 <= code < 300 {
            StatusClass::Success
        } else if 300 <= code < 400 {
            StatusClass::Redirection
        } else if 100 <= code < 200 {
            StatusClass::Informational
        } else {
            StatusClass::Other
        }
    }

    /// The class of the status code `code`.
    pub fn classify(code: u16) -> (class: StatusClass)
        ensures
            class == StatusClass::of(code),
    {
        if 200 <= code && code < 300 {
            StatusClass::Success
        } else if 300 <= code && code < 400 {
            StatusClass::Redirection
        } else if 100 <= code && code < 200 {
            StatusClass::Informational
        } else {
            StatusClass::Other
        }
    }
}

/// The one content type whose body is shown as JSON.
pub open spec fn json_content_type() -> Seq<char> {
    "application/json; charset=utf-8"@
}

/// Whether a body with the content type `content_type` is shown as JSON:
/// only where the content type is `application/json; charset=utf-8`,
/// letter for letter.
pub fn is_json(content_type: &str) -> (json: bool)
    ensures
        json == (content_type@ == json_content_type()),
{
    same_text(content_type, "application/json; charset=utf-8")
}

} // verus!
