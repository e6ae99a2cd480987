use goethite::error::GoethiteError;

#[test]
fn error_messages() {
    assert_eq!(GoethiteError::Io("broken pipe".to_string()).message(), "IO Error: broken pipe");
    assert_eq!(GoethiteError::NotFound("\"a.toml\"".to_string()).message(), "File Not Found: \"a.toml\"");
    assert_eq!(GoethiteError::InvalidConfig.message(), "Invalid config file");
    assert_eq!(GoethiteError::Traverse.message(), "Error while traversing source directory");
    assert_eq!(GoethiteError::MissingFrontMatter("a.md".to_string()).message(), "Missing front matter for: a.md");
    assert_eq!(GoethiteError::Other.message(), "General error occurred");
    assert_eq!(GoethiteError::Template("Bad".to_string()).message(), "Template Error: Bad");
    assert_eq!(GoethiteError::MissingLayout("post".to_string()).message(), "Layout not found: post");
    assert_eq!(GoethiteError::InvalidMarkdown("bad".to_string()).message(), "Invalid markdown: bad");
    assert_eq!(GoethiteError::InvalidDate("x".to_string()).message(), "Invalid date: x");
}
