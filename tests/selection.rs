use bins::error::Error;
use bins::select::{select_by_keys, select_files, RemotePasteFile, Selection};
use bins::url::WebUrl;

fn file(name: &str, contents: &str) -> RemotePasteFile {
    RemotePasteFile {
        name: name.to_string(),
        url: WebUrl::parse(&format!("https://example.com/{}", name)).unwrap(),
        contents: Some(contents.to_string()),
    }
}

fn none() -> Selection {
    Selection { files: vec![], range: None, all: false }
}

fn names(files: &[RemotePasteFile]) -> Vec<String> {
    files.iter().map(|f| f.name.clone()).collect()
}

#[test]
fn explicit_name_selects_that_file() {
    let files = vec![file("a.txt", "A"), file("b.txt", "B")];
    let sel = Selection { files: vec!["b.txt".to_string()], range: None, all: false };
    let chosen = select_files(&files, &sel).unwrap();
    assert_eq!(chosen.len(), 1);
    assert_eq!(chosen[0].contents.as_deref(), Some("B"));
}

#[test]
fn missing_name_is_reported() {
    let files = vec![file("a.txt", "A"), file("b.txt", "B")];
    let sel = Selection { files: vec!["c.txt".to_string()], range: None, all: false };
    match select_files(&files, &sel) {
        Err(Error::FileNotFound(n)) => assert_eq!(n, "c.txt"),
        _ => panic!("expected a missing file"),
    }
}

#[test]
fn names_match_without_case_and_keep_request_order() {
    let files = vec![file("a.txt", "A"), file("B.TXT", "B")];
    let sel = Selection { files: vec!["b.txt".to_string(), "A.Txt".to_string()], range: None, all: false };
    let chosen = select_files(&files, &sel).unwrap();
    assert_eq!(names(&chosen), vec!["B.TXT", "a.txt"]);
}

#[test]
fn first_missing_name_is_the_one_reported() {
    let files = vec![file("a.txt", "A"), file("b.txt", "B")];
    let sel = Selection {
        files: vec!["a.txt".to_string(), "x".to_string(), "y".to_string()],
        range: None,
        all: false,
    };
    match select_files(&files, &sel) {
        Err(Error::FileNotFound(n)) => assert_eq!(n, "x"),
        _ => panic!("expected a missing file"),
    }
}

#[test]
fn keys_are_compared_exactly() {
    let files = vec![file("a.txt", "A"), file("b.txt", "B")];
    let keys = vec!["first".to_string(), "second".to_string()];
    let sel = Selection { files: vec!["anything".to_string()], range: None, all: false };
    let chosen = select_by_keys(&files, &keys, &vec!["second".to_string()], &sel).unwrap();
    assert_eq!(names(&chosen), vec!["b.txt"]);
    match select_by_keys(&files, &keys, &vec!["Second".to_string()], &sel) {
        Err(Error::FileNotFound(n)) => assert_eq!(n, "anything"),
        _ => panic!("expected a missing file"),
    }
}

#[test]
fn single_file_needs_no_selection() {
    let files = vec![file("only.txt", "content")];
    let chosen = select_files(&files, &none()).unwrap();
    assert_eq!(chosen.len(), 1);
    assert_eq!(chosen[0].contents.as_deref(), Some("content"));
}

#[test]
fn two_files_without_selection_are_ambiguous() {
    let files = vec![file("a.txt", "A"), file("b.txt", "B")];
    match select_files(&files, &none()) {
        Err(Error::AmbiguousSelection(all)) => assert_eq!(all, vec!["a.txt", "b.txt"]),
        _ => panic!("expected an ambiguous selection"),
    }
}

#[test]
fn all_takes_every_file_in_order() {
    let files = vec![file("a.txt", "A"), file("b.txt", "B"), file("c.txt", "C")];
    let sel = Selection { files: vec![], range: None, all: true };
    assert_eq!(names(&select_files(&files, &sel).unwrap()), vec!["a.txt", "b.txt", "c.txt"]);
}

#[test]
fn numbers_count_from_one() {
    let files = vec![file("a.txt", "A"), file("b.txt", "B"), file("c.txt", "C")];
    let sel = Selection { files: vec![], range: Some(vec![3, 1]), all: false };
    assert_eq!(names(&select_files(&files, &sel).unwrap()), vec!["c.txt", "a.txt"]);
}

#[test]
fn missing_number_is_reported() {
    let files = vec![file("a.txt", "A"), file("b.txt", "B")];
    for n in [0usize, 3] {
        let sel = Selection { files: vec![], range: Some(vec![1, n]), all: false };
        match select_files(&files, &sel) {
            Err(Error::FileNumberNotFound(m)) => assert_eq!(m, n),
            _ => panic!("expected a missing number"),
        }
    }
}

#[test]
fn names_take_precedence_over_numbers_and_all() {
    let files = vec![file("a.txt", "A"), file("b.txt", "B")];
    let sel = Selection { files: vec!["a.txt".to_string()], range: Some(vec![2]), all: true };
    assert_eq!(names(&select_files(&files, &sel).unwrap()), vec!["a.txt"]);
}
