use n_body::start_screen::credits::Link;

#[test]
fn make_splits_name_and_link() {
    let l = Link::make("Verus: https://verus.rs").unwrap();
    assert_eq!(l.name, "Verus");
    assert_eq!(l.link, "https://verus.rs");
}

#[test]
fn make_splits_at_first_separator() {
    let l = Link::make("a: b: c").unwrap();
    assert_eq!(l.name, "a");
    assert_eq!(l.link, "b: c");
}

#[test]
fn make_keeps_colons_without_space() {
    let l = Link::make("docs: https://example.com:8080/x").unwrap();
    assert_eq!(l.name, "docs");
    assert_eq!(l.link, "https://example.com:8080/x");
    let l = Link::make("a:: b").unwrap();
    assert_eq!(l.name, "a:");
    assert_eq!(l.link, "b");
}

#[test]
fn make_rejects_lines_without_separator() {
    assert!(Link::make("").is_none());
    assert!(Link::make("no separator here").is_none());
    assert!(Link::make("name:link").is_none());
    assert!(Link::make("name :link").is_none());
}

#[test]
fn make_accepts_empty_parts() {
    let l = Link::make(": ").unwrap();
    assert_eq!(l.name, "");
    assert_eq!(l.link, "");
}

#[test]
fn make_handles_non_ascii() {
    let l = Link::make("Größe: ünïcode").unwrap();
    assert_eq!(l.name, "Größe");
    assert_eq!(l.link, "ünïcode");
}

#[test]
fn source_list_reads_each_line_in_order() {
    let links = Link::source_list("one: 1\ntwo: 2\nthree: 3");
    let pairs: Vec<(&str, &str)> = links.iter().map(|l| (l.name, l.link)).collect();
    assert_eq!(pairs, vec![("one", "1"), ("two", "2"), ("three", "3")]);
}

#[test]
fn source_list_skips_lines_without_separator() {
    let links = Link::source_list("\nheader\none: 1\n\ntwo: 2\n");
    let pairs: Vec<(&str, &str)> = links.iter().map(|l| (l.name, l.link)).collect();
    assert_eq!(pairs, vec![("one", "1"), ("two", "2")]);
}

#[test]
fn source_list_of_empty_text_is_empty() {
    assert!(Link::source_list("").is_empty());
    assert!(Link::source_list("\n\n").is_empty());
}

#[test]
fn source_list_of_one_line_is_make() {
    let links = Link::source_list("rust: https://rust-lang.org");
    assert_eq!(links.len(), 1);
    let made = Link::make("rust: https://rust-lang.org").unwrap();
    assert_eq!(links[0].name, made.name);
    assert_eq!(links[0].link, made.link);
}

#[test]
fn source_list_of_joined_texts_concatenates() {
    let a = Link::source_list("a: 1\nskip");
    let b = Link::source_list("b: 2");
    let ab = Link::source_list("a: 1\nskip\nb: 2");
    let names: Vec<&str> = ab.iter().map(|l| l.name).collect();
    let expected: Vec<&str> = a.iter().chain(b.iter()).map(|l| l.name).collect();
    assert_eq!(names, expected);
}

#[test]
fn source_list_keeps_carriage_returns() {
    let links = Link::source_list("a: 1\r\nb: 2");
    assert_eq!(links[0].link, "1\r");
    assert_eq!(links[1].link, "2");
}
