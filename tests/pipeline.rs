use std::cell::RefCell;
use std::collections::HashMap;

use bins::engine::{
    convert_urls_to_raw_urls, generate_index, produce_info, produce_info_all, produce_raw_contents,
    produce_raw_info, produce_raw_info_all, resolve_info, upload_all, upload_paste,
    upload_response_url, Arguments, ConvertUrlsToRawUrls, Downloader, GenerateIndex, ProduceInfo,
    ProduceRawContent, ProduceRawInfo, Produced, UploadBatchContent, UploadContent, UploadUrl,
    Uploader, UsesIndices,
};
use bins::error::Error;
use bins::select::{PasteFile, Selection};
use bins::url::WebUrl;

/// A paste service kept in memory: `/view/<n>` shows paste `n`, `/raw/<n>` serves it.
struct Memory {
    pastes: RefCell<HashMap<String, String>>,
    uploads: RefCell<Vec<String>>,
}

impl Memory {
    fn new() -> Memory {
        Memory { pastes: RefCell::new(HashMap::new()), uploads: RefCell::new(Vec::new()) }
    }

    fn store(&self, id: &str, text: &str) {
        self.pastes.borrow_mut().insert(id.to_string(), text.to_string());
    }
}

fn url(s: &str) -> WebUrl {
    WebUrl::parse(s).unwrap()
}

impl ConvertUrlsToRawUrls for Memory {
    fn convert_url_to_raw_url(&self, u: &WebUrl) -> Result<WebUrl, Error> {
        Ok(url(&u.as_str().replace("/view/", "/raw/")))
    }
}

impl Downloader for Memory {
    fn download(&self, u: &WebUrl) -> Result<String, Error> {
        let id = u.last_segment().unwrap();
        self.pastes.borrow().get(&id).cloned().ok_or(Error::Transport(format!("404 {}", u.as_str())))
    }
}

impl Uploader for Memory {
    fn upload(&self, target: &WebUrl, file: &PasteFile) -> Result<String, Error> {
        assert_eq!(target.as_str(), "https://mem.example/upload");
        let id = format!("{}", self.uploads.borrow().len() + 1);
        self.store(&id, &file.data);
        self.uploads.borrow_mut().push(file.name.clone());
        Ok(format!("https://mem.example/view/{}", id))
    }
}

impl UploadUrl for Memory {
    fn get_upload_url(&self) -> String {
        "https://mem.example/upload".to_string()
    }
}

impl UsesIndices for Memory {}

fn args(all: bool) -> Arguments {
    Arguments {
        selection: Selection { files: vec![], range: None, all },
        urls: false,
        raw_urls: false,
        number_lines: false,
    }
}

fn files_of(p: Produced) -> Vec<(String, String)> {
    match p {
        Produced::Files(fs) => fs.into_iter().map(|f| (f.name, f.data)).collect(),
        Produced::Urls(_) => panic!("expected files"),
    }
}

#[test]
fn plain_content_is_a_single_file_named_after_the_url() {
    let files = resolve_info(&url("https://mem.example/view/abc"), "just text".to_string()).unwrap();
    assert_eq!(files.len(), 1);
    assert_eq!(files[0].name, "abc");
    assert_eq!(files[0].url.as_str(), "https://mem.example/view/abc");
    assert_eq!(files[0].contents.as_deref(), Some("just text"));
}

#[test]
fn index_content_gives_its_entries_unfetched() {
    let text = "2 files\n-------\n\n1. a: https://mem.example/view/1\n2. b: https://mem.example/view/2\n";
    let files = resolve_info(&url("https://mem.example/view/9"), text.to_string()).unwrap();
    let seen: Vec<(String, String, bool)> =
        files.iter().map(|f| (f.name.clone(), f.url.as_str().to_string(), f.contents.is_some())).collect();
    assert_eq!(
        seen,
        vec![
            ("a".to_string(), "https://mem.example/view/1".to_string(), false),
            ("b".to_string(), "https://mem.example/view/2".to_string(), false),
        ]
    );
}

#[test]
fn url_without_path_segments_is_malformed() {
    let r = resolve_info(&url("data:text/plain,hello"), "hello".to_string());
    assert!(matches!(r, Err(Error::MalformedUrl)));
}

#[test]
fn segments_skip_empty_ones() {
    assert_eq!(url("https://example.com/a//b/").segments(), vec!["a", "b"]);
    assert_eq!(url("https://example.com/a//b/").last_segment(), Some(String::new()));
    assert!(url("data:text/plain,x").segments().is_empty());
}

#[test]
fn upload_response_must_be_a_url() {
    assert_eq!(
        upload_response_url(Ok("https://x.example/p".to_string())).unwrap().as_str(),
        "https://x.example/p"
    );
    assert!(matches!(upload_response_url(Ok("oops".to_string())), Err(Error::MalformedUrl)));
    assert!(matches!(
        upload_response_url(Err(Error::Transport("down".to_string()))),
        Err(Error::Transport(_))
    ));
}

#[test]
fn single_upload_returns_the_response_url() {
    let m = Memory::new();
    let u = upload_paste(&m, &PasteFile { name: "a".to_string(), data: "A".to_string() }).unwrap();
    assert_eq!(u.as_str(), "https://mem.example/view/1");
    let u = upload_all(&m, &vec![PasteFile { name: "b".to_string(), data: "B".to_string() }]).unwrap();
    assert_eq!(u.as_str(), "https://mem.example/view/2");
    assert_eq!(*m.uploads.borrow(), vec!["a", "b"]);
}

#[test]
fn uploading_three_files_builds_an_index_that_downloads_back() {
    let m = Memory::new();
    let sent = vec![
        PasteFile { name: "one.txt".to_string(), data: "first".to_string() },
        PasteFile { name: "two words.md".to_string(), data: "second\nline".to_string() },
        PasteFile { name: "three.rs".to_string(), data: "fn main() {}".to_string() },
    ];
    let index_url = upload_all(&m, &sent).unwrap();
    assert_eq!(index_url.as_str(), "https://mem.example/view/4");
    assert_eq!(*m.uploads.borrow(), vec!["one.txt", "two words.md", "three.rs", "index.md"]);
    assert_eq!(
        m.pastes.borrow().get("4").unwrap(),
        "3 files\n-------\n\n1. one.txt: https://mem.example/view/1\n2. two words.md: https://mem.example/view/2\n3. three.rs: https://mem.example/view/3\n"
    );
    let got = files_of(produce_raw_contents(&m, &index_url, &args(true)).unwrap());
    let want: Vec<(String, String)> = sent.into_iter().map(|f| (f.name, f.data)).collect();
    assert_eq!(got, want);
}

#[test]
fn generated_index_maps_names_to_their_uploads() {
    let m = Memory::new();
    let files = vec![
        PasteFile { name: "x".to_string(), data: "1".to_string() },
        PasteFile { name: "y".to_string(), data: "2".to_string() },
    ];
    let index = generate_index(&m, &files).unwrap();
    let entries: Vec<(String, String)> =
        index.files.iter().map(|(k, v)| (k.clone(), v.as_str().to_string())).collect();
    assert_eq!(
        entries,
        vec![
            ("x".to_string(), "https://mem.example/view/1".to_string()),
            ("y".to_string(), "https://mem.example/view/2".to_string()),
        ]
    );
}

#[test]
fn single_file_paste_is_not_fetched_twice() {
    let m = Memory::new();
    m.store("7", "hello\nworld");
    let got = files_of(produce_raw_contents(&m, &url("https://mem.example/view/7"), &args(false)).unwrap());
    assert_eq!(got, vec![("7".to_string(), "hello\nworld".to_string())]);
}

#[test]
fn numbered_lines_are_applied_to_fetched_files() {
    let m = Memory::new();
    m.store("7", "hello\nworld");
    let mut a = args(false);
    a.number_lines = true;
    let got = files_of(produce_raw_contents(&m, &url("https://mem.example/view/7"), &a).unwrap());
    assert_eq!(got[0].1, "1  hello\n2  world");
}

#[test]
fn ambiguous_multi_file_paste_lists_names() {
    let m = Memory::new();
    m.store("1", "A");
    m.store("2", "B");
    m.store("3", "2 files\n-------\n\n1. a.txt: https://mem.example/view/1\n2. b.txt: https://mem.example/view/2\n");
    match produce_raw_contents(&m, &url("https://mem.example/view/3"), &args(false)) {
        Err(Error::AmbiguousSelection(names)) => assert_eq!(names, vec!["a.txt", "b.txt"]),
        _ => panic!("expected an ambiguous selection"),
    }
}

#[test]
fn url_modes_list_urls_without_fetching() {
    let m = Memory::new();
    m.store("3", "2 files\n-------\n\n1. a.txt: https://mem.example/view/1\n2. b.txt: https://mem.example/view/2\n");
    let mut a = args(true);
    a.raw_urls = true;
    match produce_raw_contents(&m, &url("https://mem.example/view/3"), &a).unwrap() {
        Produced::Urls(s) => assert_eq!(s, "https://mem.example/raw/1\nhttps://mem.example/raw/2"),
        Produced::Files(_) => panic!("expected urls"),
    }
    let mut a = args(true);
    a.urls = true;
    match produce_raw_contents(&m, &url("https://mem.example/view/3"), &a).unwrap() {
        Produced::Urls(s) => assert_eq!(s, "https://mem.example/view/1\nhttps://mem.example/view/2"),
        Produced::Files(_) => panic!("expected urls"),
    }
}

#[test]
fn fetch_failure_propagates() {
    let m = Memory::new();
    let r = produce_raw_contents(&m, &url("https://mem.example/view/404"), &args(false));
    assert!(matches!(r, Err(Error::Transport(_))));
}

#[test]
fn several_pastes_resolve_in_input_order() {
    let m = Memory::new();
    m.store("1", "A");
    m.store("2", "B");
    let urls = vec![url("https://mem.example/view/2"), url("https://mem.example/view/1")];
    let info = produce_info_all(&m, &urls).unwrap();
    let names: Vec<String> = info.iter().map(|f| f.name.clone()).collect();
    assert_eq!(names, vec!["2", "1"]);
    let raw = produce_raw_info_all(&m, &urls).unwrap();
    let raw_urls: Vec<String> = raw.iter().map(|f| f.url.as_str().to_string()).collect();
    assert_eq!(raw_urls, vec!["https://mem.example/raw/2", "https://mem.example/raw/1"]);
    let converted = convert_urls_to_raw_urls(&m, &urls).unwrap();
    assert_eq!(converted[0].as_str(), "https://mem.example/raw/2");
    let single = produce_info(&m, &urls[0]).unwrap();
    assert_eq!(single[0].url.as_str(), "https://mem.example/view/2");
    let single_raw = produce_raw_info(&m, &urls[0]).unwrap();
    assert_eq!(single_raw[0].url.as_str(), "https://mem.example/raw/2");
}

#[test]
fn composed_operations_are_available_as_methods() {
    let m = Memory::new();
    let files = vec![
        PasteFile { name: "a".to_string(), data: "A".to_string() },
        PasteFile { name: "b".to_string(), data: "B".to_string() },
    ];
    let one = m.upload_paste(&files[0]).unwrap();
    assert_eq!(one.as_str(), "https://mem.example/view/1");
    let index = m.generate_index(&files).unwrap();
    assert_eq!(index.files.len(), 2);
    let top = m.upload_all(&files).unwrap();
    assert_eq!(top.as_str(), "https://mem.example/view/6");
    assert_eq!(m.produce_info(&top).unwrap().len(), 2);
    let raw = m.produce_raw_info(&top).unwrap();
    assert_eq!(raw[1].url.as_str(), "https://mem.example/raw/5");
    let sel = Selection { files: vec!["B".to_string()], range: None, all: false };
    let a = Arguments { selection: sel, urls: false, raw_urls: false, number_lines: false };
    assert_eq!(files_of(m.produce_raw_contents(&top, &a).unwrap()), vec![("b".to_string(), "B".to_string())]);
}
