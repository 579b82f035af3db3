//! Common MIME types.
use vstd::prelude::*;
use vstd::string::StringExecFns;

verus! {

/// Common MIME types
#[derive(Debug, Clone)]
pub enum Content {
    /// HTML - `text/html`
    HTML,
    /// TXT - `text/plain`
    TXT,
    /// CSV - `text/csv`
    CSV,
    /// JSON - `application/json`
    JSON,
    /// XML - `application/xml`
    XML,
    /// Custom Content Type
    Custom(String),
}

/// The MIME type a [`Content`] stands for.
pub open spec fn content_type_spec(c: Content) -> Seq<char> {
    match c {
        Content::HTML => "text/html"@,
        Content::TXT => "text/plain"@,
        Content::CSV => "text/csv"@,
        Content::JSON => "application/json"@,
        Content::XML => "application/xml"@,
        Content::Custom(i) => i@,
    }
}

impl Content {
    /// Get Content as a MIME Type
    pub fn as_type(&self) -> (r: String)
        ensures
            r@ == content_type_spec(*self),
    {
        match self {
            Content::HTML => String::from_str("text/html"),
            Content::TXT => String::from_str("text/plain"),
            Content::CSV => String::from_str("text/csv"),
            Content::JSON => String::from_str("application/json"),
            Content::XML => String::from_str("application/xml"),
            Content::Custom(i) => i.clone(),
        }
    }
}

} // verus!
