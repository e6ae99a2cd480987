use goethite::config::Config;
use goethite::date::Date;
use goethite::error::GoethiteError;
use goethite::utils::{
    extract_markup, has_content, markup_from_extension, new_path, normalize_path_str,
    output_file_path, parse_date, parse_date_on, read_content, render_markdown, slugify, Markup,
};

fn config() -> Config {
    Config {
        author: "Ada".to_string(),
        name: "Notes".to_string(),
        source: "src".to_string(),
        destination: "out".to_string(),
        tagline: None,
        description: None,
    }
}

#[test]
fn read_content_with_front_matter() {
    let c = read_content("---\ntitle = \"Hi\"\n---\nbody text\n");
    assert_eq!(c.attributes, Some("\ntitle = \"Hi\"\n".to_string()));
    assert_eq!(c.text, "\nbody text\n");
}

#[test]
fn read_content_without_front_matter() {
    let c = read_content("just a body\n");
    assert_eq!(c.attributes, None);
    assert_eq!(c.text, "just a body\n");
}

#[test]
fn read_content_with_three_pieces_has_no_front_matter() {
    let c = read_content("---a---b---c");
    assert_eq!(c.attributes, None);
    assert_eq!(c.text, "a");
}

#[test]
fn read_content_empty_front_matter_is_skipped() {
    let c = read_content("------body");
    assert_eq!(c.attributes, None);
    assert_eq!(c.text, "body");
}

#[test]
fn read_content_empty_body() {
    let c = read_content("---x---");
    assert_eq!(c.attributes, Some("x".to_string()));
    assert_eq!(c.text, "");
}

#[test]
fn has_content_cases() {
    assert!(!has_content(""));
    assert!(!has_content("---"));
    assert!(!has_content("------"));
    assert!(has_content("a"));
    assert!(has_content("---a---"));
}

#[test]
fn law_read_back_front_matter_example() {
    let fm = "\ntitle = \"A\"\nlayout = \"post\"\n";
    let body = "\n# Heading\n\nSome - text.\n";
    let c = read_content(&format!("---{}---{}", fm, body));
    assert_eq!(c.attributes, Some(fm.to_string()));
    assert_eq!(c.text, body);
}

#[test]
fn normalize_adds_a_slash() {
    assert_eq!(normalize_path_str(&"src".to_string()), "src/");
    assert_eq!(normalize_path_str(&"src/".to_string()), "src/");
    assert_eq!(normalize_path_str(&"".to_string()), "/");
}

#[test]
fn law_normalized_is_idempotent_example() {
    let once = normalize_path_str(&"a/b".to_string());
    assert_eq!(normalize_path_str(&once), once);
    assert!(once.ends_with('/'));
}

#[test]
fn markup_of_extensions() {
    assert_eq!(markup_from_extension("md"), Some(Markup::Markdown));
    assert_eq!(markup_from_extension("markdown"), Some(Markup::Markdown));
    assert_eq!(markup_from_extension("html"), Some(Markup::HTML));
    assert_eq!(markup_from_extension("mustache"), Some(Markup::Mustache));
    assert_eq!(markup_from_extension("css"), None);
    assert_eq!(markup_from_extension("MD"), None);
}

#[test]
fn markup_of_paths() {
    assert_eq!(extract_markup("src/a/post.md"), Some(Markup::Markdown));
    assert_eq!(extract_markup("src/index.html"), Some(Markup::HTML));
    assert_eq!(extract_markup("src/_layouts/post.mustache"), Some(Markup::Mustache));
    assert_eq!(extract_markup("src/style.css"), None);
    assert_eq!(extract_markup("src/README"), None);
    assert_eq!(extract_markup("src/.md"), None);
}

#[test]
fn law_markup_name_round_trip_example() {
    for m in [Markup::Markdown, Markup::HTML, Markup::Mustache] {
        assert_eq!(markup_from_extension(m.as_str()), Some(m));
    }
    assert_eq!(Markup::HTML.as_str(), "html");
}

#[test]
fn slugify_examples() {
    assert_eq!(slugify(&"Hello, World!".to_string()), "hello-world");
    assert_eq!(slugify(&"  --Rust & Verus--  ".to_string()), "rust-verus");
    assert_eq!(slugify(&"My First Post".to_string()), "my-first-post");
    assert_eq!(slugify(&"Ünïcode".to_string()), "n-code");
    assert_eq!(slugify(&"!!!".to_string()), "");
    assert_eq!(slugify(&"".to_string()), "");
    assert_eq!(slugify(&"ABC123".to_string()), "abc123");
}

#[test]
fn law_slug_idempotent_example() {
    for s in ["Hello, World!", "a--b", "-x-", "Ünïcode", "already-a-slug"] {
        let once = slugify(&s.to_string());
        assert_eq!(slugify(&once), once);
        assert!(!once.starts_with('-') && !once.ends_with('-'));
        assert!(!once.contains("--"));
        assert!(once.chars().all(|c| c.is_ascii_lowercase() || c.is_ascii_digit() || c == '-'));
    }
}

#[test]
fn parse_date_reads_front_matter_dates() {
    let d = parse_date(Some("2015-06-30".to_string())).unwrap();
    assert_eq!((d.year(), d.month(), d.day()), (2015, 6, 30));
}

#[test]
fn parse_date_rejects_bad_dates() {
    assert_eq!(
        parse_date(Some("2015-02-30".to_string())).err(),
        Some(GoethiteError::InvalidDate("2015-02-30".to_string()))
    );
    assert_eq!(
        parse_date(Some("yesterday".to_string())).err(),
        Some(GoethiteError::InvalidDate("yesterday".to_string()))
    );
}

#[test]
fn parse_date_defaults_to_today() {
    let d = parse_date(None).unwrap();
    assert!(d.year() >= 2024);
    assert!(Date::new(d.year(), d.month(), d.day()).is_some());
}

#[test]
fn render_markdown_renders_html() {
    assert_eq!(render_markdown("some _emphasis_ required".to_string()).unwrap(), "<p>some <em>emphasis</em> required</p>\n");
    let html = render_markdown("~~gone~~".to_string()).unwrap();
    assert!(html.contains("<del>gone</del>"));
    let html = render_markdown("| a | b |\n|---|---|\n| 1 | 2 |\n".to_string()).unwrap();
    assert!(html.contains("<table>"));
    let html = render_markdown("foo_bar_baz".to_string()).unwrap();
    assert!(!html.contains("<em>"));
}

#[test]
fn new_path_of_copied_file() {
    assert_eq!(new_path("src/css/site.css", None, &config()), "out/css/site.css");
}

#[test]
fn new_path_of_page() {
    assert_eq!(new_path("about.html", None, &config()), "out/about.html");
}

#[test]
fn new_path_of_post() {
    assert_eq!(
        new_path("2015/06/30/my-post.html", Some("2015/06/30".to_string()), &config()),
        "out/2015/06/30/my-post.html"
    );
}

#[test]
fn new_path_with_slash_source() {
    let mut c = config();
    c.source = "src/".to_string();
    assert_eq!(new_path("src/img/a.png", None, &c), "out/img/a.png");
    assert_eq!(new_path("srcx/a.png", None, &c), "out/srcx/a.png");
}

#[test]
fn output_file_paths() {
    assert_eq!(output_file_path("out/about.md"), "out/about.html");
    assert_eq!(output_file_path("out/2015/06/30/post.html"), "out/2015/06/30/post.html");
    assert_eq!(output_file_path("out/notes"), "out/notes.html");
}

#[test]
fn parse_date_on_a_given_day() {
    let today = Date::new(2020, 2, 29).unwrap();
    let d = parse_date_on(None, Some(today)).unwrap();
    assert_eq!((d.year(), d.month(), d.day()), (2020, 2, 29));
    let d = parse_date_on(Some("2015-06-30".to_string()), Some(today)).unwrap();
    assert_eq!((d.year(), d.month(), d.day()), (2015, 6, 30));
    assert_eq!(
        parse_date_on(Some("junk".to_string()), Some(today)).err(),
        Some(GoethiteError::InvalidDate("junk".to_string()))
    );
}

#[test]
fn parse_date_on_an_unknown_day() {
    assert_eq!(parse_date_on(None, None).err(), Some(GoethiteError::Other));
    let d = parse_date_on(Some("2015-06-30".to_string()), None).unwrap();
    assert_eq!((d.year(), d.month(), d.day()), (2015, 6, 30));
}

#[test]
fn law_read_back_unfenced_front_matter_example() {
    let fm = "title = \"Hi\"\n";
    let body = "\nthe body\n";
    let c = read_content(&format!("{}---{}", fm, body));
    assert_eq!(c.attributes, Some(fm.to_string()));
    assert_eq!(c.text, body.to_string());
}

#[test]
fn front_matter_ending_in_a_dash_is_cut_early() {
    let c = read_content("a----b");
    assert_eq!(c.attributes, Some("a".to_string()));
    assert_eq!(c.text, "-b".to_string());
}
