use goethite::text::{remove_all, same_text, split_str};

#[test]
fn split_examples() {
    assert_eq!(split_str("a---b---c", "---"), vec!["a", "b", "c"]);
    assert_eq!(split_str("---a---", "---"), vec!["", "a", ""]);
    assert_eq!(split_str("----a", "---"), vec!["", "-a"]);
    assert_eq!(split_str("", "---"), vec![""]);
    assert_eq!(split_str("no fences", "---"), vec!["no fences"]);
}

#[test]
fn law_split_rejoins_example() {
    for s in ["a---b---c", "---a---", "-----", "", "x--y"] {
        assert_eq!(split_str(s, "---").join("---"), s);
    }
}

#[test]
fn remove_all_examples() {
    assert_eq!(remove_all("src/css/src/a.css", "src/"), "css/a.css");
    assert_eq!(remove_all("page.mustache", ".mustache"), "page");
    assert_eq!(remove_all("plain", "xyz"), "plain");
}

#[test]
fn same_text_examples() {
    assert!(same_text("md", "md"));
    assert!(!same_text("md", "MD"));
    assert!(!same_text("", "a"));
}
