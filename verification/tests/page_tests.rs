use goethite::config::Config;
use goethite::date::Date;
use goethite::error::GoethiteError;
use goethite::page::{Page, TomlAttributes};
use goethite::post::{self, Post};
use goethite::utils::Markup;

fn config() -> Config {
    Config {
        author: "Ada".to_string(),
        name: "Notes".to_string(),
        source: "src".to_string(),
        destination: "out".to_string(),
        tagline: None,
        description: None,
    }
}

fn front_matter(title: Option<&str>, author: Option<&str>, layout: Option<&str>, date: Option<&str>) -> TomlAttributes {
    TomlAttributes {
        title: title.map(|s| s.to_string()),
        author: author.map(|s| s.to_string()),
        layout: layout.map(|s| s.to_string()),
        date: date.map(|s| s.to_string()),
    }
}

#[test]
fn post_page() {
    let fm = front_matter(Some("My First Post"), None, Some("post"), Some("2015-06-30"));
    let p = Page::new(Some(fm), "<p>hi</p>".to_string(), "src/_posts/My First Post.md", &config()).unwrap();
    assert_eq!(p.attributes.title, "My First Post");
    assert_eq!(p.attributes.author, "Ada");
    assert_eq!(p.attributes.layout, "post");
    assert_eq!(p.attributes.prefix, Some("2015/06/30".to_string()));
    assert_eq!(p.attributes.permalink, "2015/06/30/my-first-post.html");
    assert_eq!(p.path, "out/2015/06/30/my-first-post.html");
    assert_eq!(p.content, "<p>hi</p>");
    assert_eq!(p.markup, Markup::Markdown);
    assert!(p.is_post());
    assert_eq!(p.attributes.display_date(), "30 Jun 2015");
}

#[test]
fn plain_page_defaults() {
    let fm = front_matter(None, Some("Bob"), None, Some("2014-01-02"));
    let p = Page::new(Some(fm), "body".to_string(), "src/about.html", &config()).unwrap();
    assert_eq!(p.attributes.title, "about");
    assert_eq!(p.attributes.author, "Bob");
    assert_eq!(p.attributes.layout, "page");
    assert_eq!(p.attributes.prefix, None);
    assert_eq!(p.attributes.permalink, "about.html");
    assert_eq!(p.path, "out/about.html");
    assert_eq!(p.markup, Markup::HTML);
    assert!(!p.is_post());
}

#[test]
fn page_without_date_is_dated_today() {
    let fm = front_matter(Some("T"), None, None, None);
    let p = Page::new(Some(fm), "x".to_string(), "src/t.md", &config()).unwrap();
    assert!(p.attributes.date.year() >= 2024);
}

#[test]
fn page_without_front_matter() {
    let r = Page::new(None, "x".to_string(), "src/t.md", &config());
    assert_eq!(r.err(), Some(GoethiteError::MissingFrontMatter("src/t.md".to_string())));
}

#[test]
fn page_with_bad_date() {
    let fm = front_matter(None, None, None, Some("30/06/2015"));
    let r = Page::new(Some(fm), "x".to_string(), "src/t.md", &config());
    assert_eq!(r.err(), Some(GoethiteError::InvalidDate("30/06/2015".to_string())));
}

#[test]
fn try_new_refuses_other_files() {
    let fm = front_matter(None, None, None, Some("2015-06-30"));
    assert!(Page::try_new(Some(fm), "x".to_string(), "src/style.css", &config()).is_none());
    let fm = front_matter(None, None, None, Some("2015-06-30"));
    let p = Page::try_new(Some(fm), "x".to_string(), "src/a.md", &config()).unwrap().unwrap();
    assert_eq!(p.attributes.title, "a");
}

#[test]
fn law_post_iff_prefix_example() {
    for layout in [Some("post"), Some("page"), Some("default"), None] {
        let fm = front_matter(Some("X Y"), None, layout, Some("2020-02-29"));
        let p = Page::new(Some(fm), "x".to_string(), "src/x y.md", &config()).unwrap();
        assert_eq!(p.is_post(), p.attributes.prefix.is_some());
        if let Some(prefix) = &p.attributes.prefix {
            assert_eq!(prefix, "2020/02/29");
            assert_eq!(p.attributes.permalink, format!("{}/x-y.html", prefix));
        }
    }
}

#[test]
fn duplicate_is_equal() {
    let fm = front_matter(Some("T"), None, Some("post"), Some("2015-06-30"));
    let p = Page::new(Some(fm), "x".to_string(), "src/t.md", &config()).unwrap();
    let q = p.duplicate();
    assert_eq!(q.attributes.title, p.attributes.title);
    assert_eq!(q.attributes.prefix, p.attributes.prefix);
    assert_eq!(q.path, p.path);
    assert_eq!(q.content, p.content);
    assert_eq!(q.markup, p.markup);
}

#[test]
fn post_defaults() {
    let attrs = post::TomlAttributes { title: "Hello".to_string(), author: None, layout: None };
    let p = Post::new(attrs, "body".to_string(), "src/hello.md".to_string(), &config());
    assert_eq!(p.attributes.title, "Hello");
    assert_eq!(p.attributes.author, "Ada");
    assert_eq!(p.attributes.layout, "post");
    assert_eq!(p.content, "body");
    assert_eq!(p.path, "src/hello.md");
    let attrs = post::TomlAttributes {
        title: "Hello".to_string(),
        author: Some("Bob".to_string()),
        layout: Some("note".to_string()),
    };
    let p = Post::new(attrs, "body".to_string(), "src/hello.md".to_string(), &config());
    assert_eq!(p.attributes.author, "Bob");
    assert_eq!(p.attributes.layout, "note");
}

#[test]
fn undated_page_on_a_given_day() {
    let today = Date::new(2019, 12, 31).unwrap();
    let fm = front_matter(Some("New Year"), None, Some("post"), None);
    let p = Page::new_on(Some(fm), "x".to_string(), "src/new year.md", &config(), today).unwrap();
    assert_eq!((p.attributes.date.year(), p.attributes.date.month(), p.attributes.date.day()), (2019, 12, 31));
    assert_eq!(p.attributes.permalink, "2019/12/31/new-year.html");
    assert_eq!(p.path, "out/2019/12/31/new-year.html");
    let fm = front_matter(None, None, None, Some("2015-06-30"));
    let q = Page::new_on(Some(fm), "x".to_string(), "src/a.html", &config(), today).unwrap();
    assert_eq!(q.attributes.date.year(), 2015);
}
