//! The errors that building a site can end in, and the message of each.
use vstd::prelude::*;

verus! {

/// What can go wrong while a site is built. Errors that come from outside the
/// library (reading and writing files, walking the source directory, rendering
/// templates) carry the outside error's own message.
#[derive(Debug, Clone, PartialEq, Eq)]
pub enum GoethiteError {
    Io(String),
    NotFound(String),
    InvalidConfig,
    Traverse,
    MissingFrontMatter(String),
    Other,
    Template(String),
    MissingLayout(String),
    InvalidMarkdown(String),
    InvalidDate(String),
}

/// The message that an error is shown with.
pub open spec fn error_message(e: GoethiteError) -> Seq<char> {
    match e {
        GoethiteError::Io(err) => "IO Error: "@ + err@,
        GoethiteError::NotFound(file) => "File Not Found: "@ + file@,
        GoethiteError::InvalidConfig => "Invalid config file"@,
        GoethiteError::Traverse => "Error while traversing source directory"@,
        GoethiteError::MissingFrontMatter(file) => "Missing front matter for: "@ + file@,
        GoethiteError::Other => "General error occurred"@,
        GoethiteError::Template(err) => "Template Error: "@ + err@,
        GoethiteError::MissingLayout(layout) => "Layout not found: "@ + layout@,
        GoethiteError::InvalidMarkdown(err) => "Invalid markdown: "@ + err@,
        GoethiteError::InvalidDate(date) => "Invalid date: "@ + date@,
    }
}

impl GoethiteError {
    /// The message that this error is shown with.
    pub fn message(&self) -> (r: String)
        ensures
            r@ == error_message(*self),
    {
        match self {
            GoethiteError::Io(err) => String::from_str("IO Error: ").concat(err.as_str()),
            GoethiteError::NotFound(file) => String::from_str("File Not Found: ").concat(
                file.as_str(),
            ),
            GoethiteError::InvalidConfig => String::from_str("Invalid config file"),
            GoethiteError::Traverse => String::from_str("Error while traversing source directory"),
            GoethiteError::MissingFrontMatter(file) => String::from_str(
                "Missing front matter for: ",
            ).concat(file.as_str()),
            GoethiteError::Other => String::from_str("General error occurred"),
            GoethiteError::Template(err) => String::from_str("Template Error: ").concat(
                err.as_str(),
            ),
            GoethiteError::MissingLayout(layout) => String::from_str("Layout not found: ").concat(
                layout.as_str(),
            ),
            GoethiteError::InvalidMarkdown(err) => String::from_str("Invalid markdown: ").concat(
                err.as_str(),
            ),
            GoethiteError::InvalidDate(date) => String::from_str("Invalid date: ").concat(
                date.as_str(),
            ),
        }
    }
}

} // verus!
