//! Parser for request files: a text document that describes HTTP requests,
//! one block per request.
//!
//! A request file is read in three steps. The line filter drops empty lines
//! and comments and numbers the rest; the segmenter cuts the remaining lines
//! into blocks, each closed by a line that begins with a method keyword; the
//! parser turns each block into a request, or into the error that says what
//! is wrong with the block and at which line.

pub mod cli;
pub mod document;
pub mod error;
pub mod line;
pub mod method;
pub mod parsed;
pub mod request;
pub mod response;
pub mod segment;
pub mod text;

pub use crate::document::parse_input;
pub use crate::error::ParseError;
pub use crate::line::Line;
pub use crate::method::Method;
pub use crate::parsed::ParsedRequest;
pub use crate::request::Request;
