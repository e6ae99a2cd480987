//! A static site generator: it reads a source directory of pages written in
//! Markdown or HTML with TOML front matter, and lays them out with Mustache
//! templates into a destination directory.
pub mod text;
pub mod date;
pub mod error;
pub mod paths;
pub mod config;
pub mod utils;
pub mod page;
pub mod post;
pub mod site;
