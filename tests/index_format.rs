use bins::error::Error;
use bins::index::Index;
use bins::url::WebUrl;

fn url(s: &str) -> WebUrl {
    WebUrl::parse(s).unwrap()
}

fn entries(index: &Index) -> Vec<(String, String)> {
    index
        .files
        .iter()
        .map(|(k, v)| (k.clone(), v.as_str().to_string()))
        .collect()
}

#[test]
fn renders_header_separator_and_numbered_entries() {
    let index = Index::from_pairs(
        vec!["a.txt".to_string(), "b c.txt".to_string()],
        vec![url("https://example.com/a"), url("https://example.com/b")],
    );
    assert_eq!(
        index.to_string(),
        "2 files\n-------\n\n1. a.txt: https://example.com/a\n2. b c.txt: https://example.com/b\n"
    );
}

#[test]
fn render_then_parse_gives_the_same_entries() {
    let index = Index::from_pairs(
        vec!["one.rs".to_string(), "name with spaces.md".to_string(), "z".to_string()],
        vec![
            url("https://example.com/1"),
            url("https://example.com/x/2"),
            url("http://paste.example.org/raw/3"),
        ],
    );
    let parsed = Index::parse(&index.to_string()).unwrap();
    assert_eq!(entries(&parsed), entries(&index));
    assert_eq!(entries(&parsed)[1].0, "name with spaces.md");
}

#[test]
fn ten_entries_round_trip() {
    let names: Vec<String> = (1..=10).map(|i| format!("f{}.txt", i)).collect();
    let urls: Vec<WebUrl> = (1..=10).map(|i| url(&format!("https://example.com/{}", i))).collect();
    let index = Index::from_pairs(names, urls);
    let text = index.to_string();
    assert!(text.starts_with("10 files\n--------\n\n"));
    assert!(text.contains("10. f10.txt: https://example.com/10\n"));
    let parsed = Index::parse(&text).unwrap();
    assert_eq!(entries(&parsed), entries(&index));
}

#[test]
fn fewer_than_four_lines_is_not_an_index() {
    assert!(matches!(Index::parse("1 files\n-------\n"), Err(Error::InvalidIndex)));
    assert!(matches!(Index::parse(""), Err(Error::InvalidIndex)));
    assert!(matches!(Index::parse("just one line"), Err(Error::InvalidIndex)));
}

#[test]
fn entry_line_without_separator_is_not_an_index() {
    assert!(matches!(
        Index::parse("1 files\n-------\n\nthis is plain text\n"),
        Err(Error::InvalidIndex)
    ));
}

#[test]
fn entry_line_without_space_before_separator_is_not_an_index() {
    assert!(matches!(
        Index::parse("1 files\n-------\n\nname: https://example.com/a\n"),
        Err(Error::InvalidIndex)
    ));
}

#[test]
fn entry_with_bad_url_is_not_an_index() {
    assert!(matches!(
        Index::parse("1 files\n-------\n\n1. a.txt: not a url\n"),
        Err(Error::InvalidIndex)
    ));
}

#[test]
fn zero_entries_is_not_an_index() {
    assert!(matches!(Index::parse("0 files\n-------\n\n\n  \n"), Err(Error::InvalidIndex)));
}

#[test]
fn blank_lines_between_entries_are_skipped() {
    let parsed =
        Index::parse("2 files\n-------\n\n1. a: https://example.com/a\n \n2. b: https://example.com/b\n")
            .unwrap();
    assert_eq!(
        entries(&parsed),
        vec![
            ("a".to_string(), "https://example.com/a".to_string()),
            ("b".to_string(), "https://example.com/b".to_string()),
        ]
    );
}

#[test]
fn urls_are_kept_in_their_parsed_form() {
    let parsed = Index::parse("1 files\n-------\n\n1. a: HTTPS://Example.COM\n").unwrap();
    assert_eq!(entries(&parsed), vec![("a".to_string(), "https://example.com/".to_string())]);
}

#[test]
fn a_repeated_name_keeps_its_last_url_at_the_end() {
    let parsed = Index::parse(
        "3 files\n-------\n\n1. a: https://example.com/1\n2. b: https://example.com/2\n3. a: https://example.com/3\n",
    )
    .unwrap();
    assert_eq!(
        entries(&parsed),
        vec![
            ("b".to_string(), "https://example.com/2".to_string()),
            ("a".to_string(), "https://example.com/3".to_string()),
        ]
    );
}

#[test]
fn url_after_first_separator_is_taken_whole() {
    let parsed = Index::parse("1 files\n-------\n\n1. a: https://example.com/x?q=a: b\n").unwrap();
    assert_eq!(entries(&parsed)[0].0, "a");
    assert_eq!(entries(&parsed)[0].1, "https://example.com/x?q=a:%20b");
}
