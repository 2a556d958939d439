use bins::display::{join_files, number_lines, urls_text};
use bins::error::Error;
use bins::output::{numbered_name, safe_file_name, summary_line};
use bins::select::{PasteFile, RemotePasteFile};
use bins::url::WebUrl;

#[test]
fn three_lines_use_a_one_digit_gutter() {
    assert_eq!(number_lines("a\nb\nc"), "1  a\n2  b\n3  c");
}

#[test]
fn nine_lines_use_a_one_digit_gutter() {
    let text = "1\n2\n3\n4\n5\n6\n7\n8\n9";
    let out = number_lines(text);
    assert!(out.starts_with("1  1\n"));
    assert!(out.ends_with("\n9  9"));
}

#[test]
fn ten_lines_use_a_two_digit_gutter() {
    let text = (1..=10).map(|i| format!("l{}", i)).collect::<Vec<_>>().join("\n");
    let out = number_lines(&text);
    let lines: Vec<&str> = out.split('\n').collect();
    assert_eq!(lines.len(), 10);
    assert_eq!(lines[0], " 1  l1");
    assert_eq!(lines[8], " 9  l9");
    assert_eq!(lines[9], "10  l10");
}

#[test]
fn trailing_newline_makes_an_empty_numbered_line() {
    assert_eq!(number_lines("x\n"), "1  x\n2  ");
    assert_eq!(number_lines(""), "1  ");
}

#[test]
fn single_file_is_shown_bare() {
    let files = vec![PasteFile { name: "a".to_string(), data: "hello".to_string() }];
    assert_eq!(join_files(&files), "hello");
}

#[test]
fn several_files_are_shown_under_headers() {
    let files = vec![
        PasteFile { name: "a".to_string(), data: "one".to_string() },
        PasteFile { name: "b".to_string(), data: "two".to_string() },
    ];
    assert_eq!(join_files(&files), "==> a <==\none\n==> b <==\ntwo");
}

#[test]
fn urls_are_listed_one_per_line() {
    let files = vec![
        RemotePasteFile {
            name: "a".to_string(),
            url: WebUrl::parse("https://example.com/a").unwrap(),
            contents: None,
        },
        RemotePasteFile {
            name: "b".to_string(),
            url: WebUrl::parse("https://example.com/b").unwrap(),
            contents: None,
        },
    ];
    assert_eq!(urls_text(&files), "https://example.com/a\nhttps://example.com/b");
}

#[test]
fn collision_gets_a_number_before_the_extension() {
    assert_eq!(numbered_name("a.txt", 0), "a.txt");
    assert_eq!(numbered_name("a.txt", 1), "a_1.txt");
    assert_eq!(numbered_name("a.txt", 12), "a_12.txt");
    assert_eq!(numbered_name("archive.tar.gz", 2), "archive.tar_2.gz");
}

#[test]
fn collision_without_extension_appends_the_number() {
    assert_eq!(numbered_name("README", 2), "README_2");
    assert_eq!(numbered_name(".bashrc", 1), ".bashrc_1");
}

#[test]
fn second_file_after_a_collision_keeps_its_name() {
    let existing = vec!["a.txt".to_string()];
    let mut written = Vec::new();
    for name in ["a.txt", "b.txt"] {
        let mut num = 0;
        let mut candidate = numbered_name(name, num);
        while existing.contains(&candidate) || written.contains(&candidate) {
            num += 1;
            candidate = numbered_name(name, num);
        }
        written.push(candidate);
    }
    assert_eq!(written, vec!["a_1.txt", "b.txt"]);
    assert_eq!(existing, vec!["a.txt"]);
}

#[test]
fn names_that_leave_the_directory_are_refused() {
    assert_eq!(safe_file_name("notes.txt").unwrap(), "notes.txt");
    for bad in ["", ".", "..", "../x", "a/b", "a\\b", "/etc/passwd"] {
        match safe_file_name(bad) {
            Err(Error::UnsafeFileName(n)) => assert_eq!(n, bad),
            _ => panic!("expected {:?} to be refused", bad),
        }
    }
}

#[test]
fn summary_names_file_and_path() {
    assert_eq!(summary_line("a.txt", "/tmp/out/a_1.txt"), "Wrote a.txt -> /tmp/out/a_1.txt\n");
}
