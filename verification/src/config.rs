//! The configuration of a site: who writes it, what it is called, where its
//! sources are and where it is built to.
use vstd::prelude::*;
use crate::error::GoethiteError;
use crate::paths;

verus! {

/// The fields of the site's `goethite.toml`, as decoded from TOML.
pub struct TomlConfig {
    pub author: String,
    pub name: String,
    pub tagline: Option<String>,
    pub description: Option<String>,
}

/// The configuration of a site.
pub struct Config {
    pub author: String,
    pub name: String,
    pub source: String,
    pub destination: String,
    pub tagline: Option<String>,
    pub description: Option<String>,
}

impl Config {
    /// The configuration of a site with sources in `source`, built into
    /// `destination`, from its decoded `goethite.toml`; `InvalidConfig` where the
    /// file did not decode.
    pub fn new(decoded: Option<TomlConfig>, source: String, destination: String) -> (r: Result<
        Config,
        GoethiteError,
    >)
        ensures
            decoded is None <==> r == Err::<Config, GoethiteError>(GoethiteError::InvalidConfig),
            decoded matches Some(c) ==> r matches Ok(cfg) && cfg.author == c.author && cfg.name
                == c.name && cfg.tagline == c.tagline && cfg.description == c.description
                && cfg.source == source && cfg.destination == destination,
    {
        match decoded {
            Some(c) => Ok(
                Config {
                    author: c.author,
                    name: c.name,
                    tagline: c.tagline,
                    description: c.description,
                    source: source,
                    destination: destination,
                },
            ),
            None => Err(GoethiteError::InvalidConfig),
        }
    }

    /// The path of the configuration file of a site with sources in `source`.
    pub fn file_path(source: &str) -> (r: String)
        ensures
            r@ == paths::joined_path(source@, "goethite.toml"@),
    {
        paths::join(source, "goethite.toml")
    }
}

} // verus!
