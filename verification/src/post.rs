//! Blog posts read from their own front matter, where the title is required and
//! the layout is `post` unless another is named.
use vstd::prelude::*;
use crate::config::Config;

verus! {

/// The front matter of a post, as decoded from TOML: the title is required.
pub struct TomlAttributes {
    pub title: String,
    pub author: Option<String>,
    pub layout: Option<String>,
}

/// The attributes of a post.
#[derive(Debug)]
pub struct Attributes {
    pub title: String,
    pub author: String,
    pub layout: String,
}

/// A blog post: its attributes, its content and the path of its file.
#[derive(Debug)]
pub struct Post {
    pub attributes: Attributes,
    pub content: String,
    pub path: String,
}

/// The attributes of a post with front matter `attrs`: the layout `post` unless
/// it names one, and the site's author unless it names one.
fn parse_attributes(attrs: TomlAttributes, config: &Config) -> (r: Attributes)
    ensures
        r.title == attrs.title,
        attrs.layout matches Some(l) ==> r.layout == l,
        attrs.layout is None ==> r.layout@ == "post"@,
        attrs.author matches Some(a) ==> r.author == a,
        attrs.author is None ==> r.author@ == config.author@,
{
    Attributes {
        layout: match attrs.layout {
            Some(l) => l,
            None => String::from_str("post"),
        },
        author: match attrs.author {
            Some(a) => a,
            None => config.author.clone(),
        },
        title: attrs.title,
    }
}

impl Post {
    /// The post at `path` with front matter `attributes` and content `content`.
    pub fn new(attributes: TomlAttributes, content: String, path: String, config: &Config) -> (r:
        Post)
        ensures
            r.content == content,
            r.path == path,
            r.attributes.title == attributes.title,
            attributes.layout matches Some(l) ==> r.attributes.layout == l,
            attributes.layout is None ==> r.attributes.layout@ == "post"@,
            attributes.author matches Some(a) ==> r.attributes.author == a,
            attributes.author is None ==> r.attributes.author@ == config.author@,
    {
        Post { content: content, path: path, attributes: parse_attributes(attributes, config) }
    }
}

} // verus!
