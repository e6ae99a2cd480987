use goethite::config::Config;
use goethite::error::GoethiteError;
use goethite::page::{Page, TomlAttributes};
use goethite::site::{
    collect_posts, entry_action, is_hidden, render_target, template_name, EntryAction, Site,
    Templates,
};

fn config() -> Config {
    Config {
        author: "Ada".to_string(),
        name: "Notes".to_string(),
        source: "src".to_string(),
        destination: "out".to_string(),
        tagline: None,
        description: None,
    }
}

fn page(name: &str, layout: &str, date: &str) -> Page {
    let fm = TomlAttributes {
        title: Some(name.to_string()),
        author: None,
        layout: Some(layout.to_string()),
        date: Some(date.to_string()),
    };
    Page::new(Some(fm), String::new(), &format!("src/{}.md", name), &config()).unwrap()
}

fn titles(pages: &[Page]) -> Vec<String> {
    pages.iter().map(|p| p.attributes.title.clone()).collect()
}

#[test]
fn posts_are_newest_first() {
    let pages = vec![
        page("a", "post", "2015-01-01"),
        page("b", "page", "2016-01-01"),
        page("c", "post", "2017-03-01"),
        page("d", "post", "2016-05-05"),
    ];
    assert_eq!(titles(&collect_posts(&pages)), vec!["c", "d", "a"]);
}

#[test]
fn law_posts_keep_order_within_a_date_example() {
    let pages = vec![
        page("a", "post", "2015-01-01"),
        page("b", "post", "2016-01-01"),
        page("c", "post", "2015-01-01"),
        page("d", "post", "2016-01-01"),
        page("e", "page", "2015-01-01"),
        page("f", "post", "2015-01-01"),
    ];
    assert_eq!(titles(&collect_posts(&pages)), vec!["b", "d", "a", "c", "f"]);
}

#[test]
fn no_posts() {
    let pages = vec![page("a", "page", "2015-01-01")];
    assert!(collect_posts(&pages).is_empty());
    assert!(collect_posts(&Vec::new()).is_empty());
}

#[test]
fn site_with_pages() {
    let site = Site::new(config());
    assert!(site.pages.is_empty() && site.posts.is_empty());
    let pages = vec![page("a", "post", "2015-01-01"), page("b", "post", "2016-01-01"), page("c", "page", "2014-01-01")];
    let site = site.with_pages(pages);
    assert_eq!(titles(&site.pages), vec!["a", "b", "c"]);
    assert_eq!(titles(&site.posts), vec!["b", "a"]);
    assert_eq!(site.config.name, "Notes");
}

#[test]
fn templates_by_name() {
    let mut t = Templates::new();
    assert_eq!(t.len(), 0);
    assert_eq!(t.insert("post".to_string()), 0);
    assert_eq!(t.insert("page".to_string()), 1);
    assert_eq!(t.get("post"), Some(0));
    assert_eq!(t.get("page"), Some(1));
    assert_eq!(t.get("index"), None);
}

#[test]
fn law_template_lookup_after_insert_example() {
    let mut t = Templates::new();
    t.insert("post".to_string());
    t.insert("page".to_string());
    assert_eq!(t.insert("post".to_string()), 0);
    assert_eq!(t.len(), 2);
    assert_eq!(t.get("page"), Some(1));
    assert_eq!(t.insert("index".to_string()), 2);
    assert_eq!(t.get("post"), Some(0));
    assert_eq!(t.get("index"), Some(2));
}

#[test]
fn template_names() {
    assert_eq!(template_name("post.mustache"), "post");
    assert_eq!(template_name("default"), "default");
    assert_eq!(template_name("a.mustache.mustache"), "a");
}

#[test]
fn hidden_entries() {
    assert!(is_hidden(".git"));
    assert!(is_hidden(".DS_Store"));
    assert!(!is_hidden("src"));
    assert!(!is_hidden(""));
    assert!(!is_hidden("a.b"));
}

#[test]
fn entry_actions() {
    assert_eq!(entry_action("src/a.md", true), EntryAction::BuildMarkdown);
    assert_eq!(entry_action("src/a.markdown", true), EntryAction::BuildMarkdown);
    assert_eq!(entry_action("src/a.html", true), EntryAction::BuildHtml);
    assert_eq!(entry_action("src/post.mustache", true), EntryAction::AddTemplate);
    assert_eq!(entry_action("src/a.css", true), EntryAction::Copy);
    assert_eq!(entry_action("src/img", false), EntryAction::Skip);
}

#[test]
fn render_targets() {
    let mut t = Templates::new();
    t.insert("page".to_string());
    t.insert("post".to_string());
    let p = page("a", "post", "2015-01-01");
    assert_eq!(render_target(&p, &t), Ok(Some(1)));
    let q = page("b", "gallery", "2015-01-01");
    assert_eq!(render_target(&q, &t), Err(GoethiteError::MissingLayout("gallery".to_string())));
    let fm = TomlAttributes { title: None, author: None, layout: Some("nope".to_string()), date: Some("2015-01-01".to_string()) };
    let m = Page::new(Some(fm), String::new(), "src/x.mustache", &config()).unwrap();
    assert_eq!(render_target(&m, &t), Ok(None));
}
