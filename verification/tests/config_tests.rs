use goethite::config::{Config, TomlConfig};
use goethite::error::GoethiteError;

#[test]
fn config_from_decoded_file() {
    let decoded = TomlConfig {
        author: "Ada".to_string(),
        name: "Notes".to_string(),
        tagline: Some("Short notes".to_string()),
        description: None,
    };
    let c = Config::new(Some(decoded), "src".to_string(), "out".to_string()).ok().unwrap();
    assert_eq!(c.author, "Ada");
    assert_eq!(c.name, "Notes");
    assert_eq!(c.tagline, Some("Short notes".to_string()));
    assert_eq!(c.description, None);
    assert_eq!(c.source, "src");
    assert_eq!(c.destination, "out");
}

#[test]
fn config_that_did_not_decode() {
    let r = Config::new(None, "src".to_string(), "out".to_string());
    assert_eq!(r.err(), Some(GoethiteError::InvalidConfig));
}

#[test]
fn config_file_path() {
    assert_eq!(Config::file_path("src"), "src/goethite.toml");
    assert_eq!(Config::file_path("src/"), "src/goethite.toml");
}
