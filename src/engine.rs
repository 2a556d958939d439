//! Backend capabilities, and the operations every backend gains from them.
//!
//! A backend supplies a few primitives (raw-URL conversion, fetching,
//! uploading, its upload endpoint) and opts in to multi-file pastes by
//! implementing `UsesIndices`. Resolving, selecting, fetching and uploading
//! whole pastes are generic functions over those primitives.
use vstd::prelude::*;
use vstd::string::StringExecFns;
use crate::display::{join_lines, number_lines, numbered, urls_text};
use crate::error::Error;
use crate::files::files_in_order;
use crate::index::{insert_all, parse_index, Index};
use crate::select::{lower_of, select_files, selected, PasteFile, RemotePasteFile, Selection};
use crate::url::{last_segment_of, url_parse, WebUrl};

verus! {

/// Turns any URL of a paste into the URL that serves its raw content.
pub trait ConvertUrlsToRawUrls {
    fn convert_url_to_raw_url(&self, url: &WebUrl) -> Result<WebUrl, Error>;
}

/// Fetches the text at a URL.
pub trait Downloader {
    fn download(&self, url: &WebUrl) -> Result<String, Error>;
}

/// Sends one file to an upload endpoint and returns the response body.
pub trait Uploader {
    fn upload(&self, url: &WebUrl, file: &PasteFile) -> Result<String, Error>;
}

/// The backend's fixed upload endpoint.
pub trait UploadUrl {
    fn get_upload_url(&self) -> String;
}

/// Tells whether a URL belongs to the backend.
pub trait VerifyUrl {
    fn verify_url(&self, url: &WebUrl) -> bool;
}

/// Marks a backend that stores multi-file pastes as an index of single-file pastes.
pub trait UsesIndices {}

/// A backend as the command line knows it.
pub trait Bin {
    fn get_name(&self) -> String;

    fn get_domain(&self) -> String;
}

/// The file of a resolved paste, as a view.
pub type FileView = (Seq<char>, Seq<char>, Option<Seq<char>>);

/// The files of a paste at `url` whose raw content is `content`: the entries of
/// the index when the content is one, else the content itself as a single file
/// named after the last path segment of `url` (none when the URL has no path).
pub open spec fn info_of(url: Seq<char>, content: Seq<char>) -> Option<Seq<FileView>> {
    match parse_index(content) {
        Some(es) => Some(es.map_values(|e: (Seq<char>, Seq<char>)| (e.0, e.1, None::<Seq<char>>))),
        None => match last_segment_of(url) {
            Some(n) => Some(seq![(n, url, Some(content))]),
            None => None,
        },
    }
}

/// The views of some remote files.
pub open spec fn file_views(v: Seq<RemotePasteFile>) -> Seq<FileView> {
    v.map_values(|f: RemotePasteFile| f@)
}

/// Whether `files` is what some raw content of the paste at `url` resolves to.
pub open spec fn resolves_from(url: Seq<char>, files: Seq<FileView>) -> bool {
    exists|c: Seq<char>| info_of(url, c) == Some(files)
}

/// Whether `files` is what some raw content of the paste at `url` resolves to,
/// with each file's URL replaced: names and fetched contents are kept.
pub open spec fn raw_resolves_from(url: Seq<char>, files: Seq<FileView>) -> bool {
    exists|v: Seq<FileView>| #![auto] resolves_from(url, v) && v.len() == files.len()
        && forall|i: int| 0 <= i < v.len() ==> v[i].0 == files[i].0 && v[i].2 == files[i].2
}

/// The files of the paste at `url`, given its raw content.
pub fn resolve_info(url: &WebUrl, content: String) -> (r: Result<Vec<RemotePasteFile>, Error>)
    ensures
        match info_of(url@, content@) {
            Some(v) => r is Ok && file_views(r->Ok_0@) == v,
            None => r is Err && r->Err_0 is MalformedUrl,
        },
{
    match Index::parse(content.as_str()) {
        Ok(index) => {
            let ghost es = index@;
            let entries = files_in_order(&index.files);
            let mut out: Vec<RemotePasteFile> = Vec::new();
            let mut entries = entries;
            let mut rest: Vec<RemotePasteFile> = Vec::new();
            // Move the entries out from the back, then restore their order.
            while entries.len() > 0
                invariant
                    entries@.len() + rest@.len() == es.len(),
                    forall|i: int| 0 <= i < entries@.len() ==> (#[trigger] entries@[i]).0@ == es[i].0
                        && entries@[i].1@ == es[i].1,
                    forall|i: int| 0 <= i < rest@.len() ==> (#[trigger] rest@[i])@ == (
                        es[es.len() - 1 - i].0,
                        es[es.len() - 1 - i].1,
                        None::<Seq<char>>,
                    ),
                decreases entries.len(),
            {
                let (name, u) = entries.pop().unwrap();
                rest.push(RemotePasteFile { name, url: u, contents: None });
            }
            while rest.len() > 0
                invariant
                    out@.len() + rest@.len() == es.len(),
                    forall|i: int| 0 <= i < rest@.len() ==> (#[trigger] rest@[i])@ == (
                        es[es.len() - 1 - i].0,
                        es[es.len() - 1 - i].1,
                        None::<Seq<char>>,
                    ),
                    forall|i: int| 0 <= i < out@.len() ==> (#[trigger] out@[i])@ == (
                        es[i].0,
                        es[i].1,
                        None::<Seq<char>>,
                    ),
                decreases rest.len(),
            {
                let f = rest.pop().unwrap();
                out.push(f);
            }
            assert(file_views(out@) =~= es.map_values(
                |e: (Seq<char>, Seq<char>)| (e.0, e.1, None::<Seq<char>>),
            ));
            Ok(out)
        },
        Err(_) => match url.last_segment() {
            Some(name) => {
                let f = RemotePasteFile { name, url: url.clone(), contents: Some(content) };
                let out = vec![f];
                assert(file_views(out@) =~= seq![(last_segment_of(url@)->Some_0, url@, Some(content@))]);
                Ok(out)
            },
            None => Err(Error::MalformedUrl),
        },
    }
}

/// Resolves the paste at `url` into its files, through its raw content.
pub fn produce_info<B: ConvertUrlsToRawUrls + Downloader + UsesIndices>(bin: &B, url: &WebUrl) -> (r: Result<Vec<RemotePasteFile>, Error>)
    ensures
        r is Ok ==> resolves_from(url@, file_views(r->Ok_0@)),
{
    let raw = bin.convert_url_to_raw_url(url)?;
    let content = bin.download(&raw)?;
    let ghost c = content@;
    let r = resolve_info(url, content);
    if r.is_ok() {
        assert(info_of(url@, c) == Some(file_views(r->Ok_0@)));
    }
    r
}

/// Resolves the paste at `url`, with every file's URL turned into its raw URL.
pub fn produce_raw_info<B: ConvertUrlsToRawUrls + Downloader + UsesIndices>(bin: &B, url: &WebUrl) -> (r: Result<Vec<RemotePasteFile>, Error>)
    ensures
        r is Ok ==> raw_resolves_from(url@, file_views(r->Ok_0@)),
{
    let info = produce_info(bin, url)?;
    let ghost v = file_views(info@);
    let mut out: Vec<RemotePasteFile> = Vec::new();
    let mut i: usize = 0;
    while i < info.len()
        invariant
            i <= info.len(),
            v == file_views(info@),
            out@.len() == i,
            forall|j: int| 0 <= j < i ==> v[j].0 == (#[trigger] out@[j]).name@ && v[j].2 == out@[j]@.2,
        decreases info.len() - i,
    {
        let raw = bin.convert_url_to_raw_url(&info[i].url)?;
        let f = info[i].clone();
        out.push(RemotePasteFile { name: f.name, url: raw, contents: f.contents });
        i = i + 1;
    }
    assert(v.len() == file_views(out@).len());
    assert(resolves_from(url@, v));
    Ok(out)
}

/// Converts every URL into its raw URL, in order.
pub fn convert_urls_to_raw_urls<B: ConvertUrlsToRawUrls>(bin: &B, urls: &Vec<WebUrl>) -> (r: Result<Vec<WebUrl>, Error>)
    ensures
        r is Ok ==> r->Ok_0@.len() == urls@.len(),
{
    let mut out: Vec<WebUrl> = Vec::new();
    let mut i: usize = 0;
    while i < urls.len()
        invariant
            i <= urls.len(),
            out@.len() == i,
        decreases urls.len() - i,
    {
        let raw = bin.convert_url_to_raw_url(&urls[i])?;
        out.push(raw);
        i = i + 1;
    }
    Ok(out)
}

/// Resolves several pastes and puts their files one after another, in input order.
pub fn produce_info_all<B: ConvertUrlsToRawUrls + Downloader + UsesIndices>(bin: &B, urls: &Vec<WebUrl>) -> (r: Result<Vec<RemotePasteFile>, Error>)
    ensures
        r is Ok ==> exists|parts: Seq<Seq<FileView>>| #![auto] parts.len() == urls@.len()
            && (forall|i: int| 0 <= i < parts.len() ==> resolves_from(urls@[i]@, parts[i]))
            && file_views(r->Ok_0@) == parts.flatten(),
{
    let mut out: Vec<RemotePasteFile> = Vec::new();
    let ghost parts: Seq<Seq<FileView>> = seq![];
    let mut i: usize = 0;
    while i < urls.len()
        invariant
            i <= urls.len(),
            parts.len() == i,
            forall|j: int| #![auto] 0 <= j < i ==> resolves_from(urls@[j]@, parts[j]),
            file_views(out@) == parts.flatten(),
        decreases urls.len() - i,
    {
        let mut files = produce_info(bin, &urls[i])?;
        let ghost part = file_views(files@);
        let ghost before = out@;
        out.append(&mut files);
        proof {
            assert(file_views(out@) =~= file_views(before) + part);
            parts.lemma_flatten_push(part);
            parts = parts.push(part);
        }
        i = i + 1;
    }
    Ok(out)
}

/// Resolves several pastes into raw-URL files, one after another, in input order.
pub fn produce_raw_info_all<B: ConvertUrlsToRawUrls + Downloader + UsesIndices>(bin: &B, urls: &Vec<WebUrl>) -> (r: Result<Vec<RemotePasteFile>, Error>)
    ensures
        r is Ok ==> exists|parts: Seq<Seq<FileView>>| #![auto] parts.len() == urls@.len()
            && (forall|i: int| 0 <= i < parts.len() ==> raw_resolves_from(urls@[i]@, parts[i]))
            && file_views(r->Ok_0@) == parts.flatten(),
{
    let mut out: Vec<RemotePasteFile> = Vec::new();
    let ghost parts: Seq<Seq<FileView>> = seq![];
    let mut i: usize = 0;
    while i < urls.len()
        invariant
            i <= urls.len(),
            parts.len() == i,
            forall|j: int| #![auto] 0 <= j < i ==> raw_resolves_from(urls@[j]@, parts[j]),
            file_views(out@) == parts.flatten(),
        decreases urls.len() - i,
    {
        let mut files = produce_raw_info(bin, &urls[i])?;
        let ghost part = file_views(files@);
        let ghost before = out@;
        out.append(&mut files);
        proof {
            assert(file_views(out@) =~= file_views(before) + part);
            parts.lemma_flatten_push(part);
            parts = parts.push(part);
        }
        i = i + 1;
    }
    Ok(out)
}

/// How the files of a paste are asked for.
pub struct Arguments {
    /// Which files to take.
    pub selection: Selection,
    /// Hand back the files' URLs as resolved, without fetching.
    pub urls: bool,
    /// Hand back the files' raw URLs, without fetching.
    pub raw_urls: bool,
    /// Number the lines of each file.
    pub number_lines: bool,
}

/// What a download hands back: a list of URLs, or the selected files.
pub enum Produced {
    Urls(String),
    Files(Vec<PasteFile>),
}

/// The text of a file once its lines are numbered, if that was asked for.
pub open spec fn shaped(data: Seq<char>, number: bool) -> Seq<char> {
    if number {
        numbered(data)
    } else {
        data
    }
}

/// The selected files with their texts: `texts[i]` belongs to `files[i]`.
pub fn to_paste_files(files: &Vec<RemotePasteFile>, texts: Vec<String>, number: bool) -> (r: Vec<PasteFile>)
    requires
        texts@.len() == files@.len(),
    ensures
        r@.len() == files@.len(),
        forall|i: int| 0 <= i < r@.len() ==> (#[trigger] r@[i])@ == (
            files@[i].name@,
            shaped(texts@[i]@, number),
        ),
{
    let mut out: Vec<PasteFile> = Vec::new();
    let mut i: usize = 0;
    while i < files.len()
        invariant
            i <= files.len() == texts.len(),
            out@.len() == i,
            forall|j: int| 0 <= j < i ==> (#[trigger] out@[j])@ == (
                files@[j].name@,
                shaped(texts@[j]@, number),
            ),
        decreases files.len() - i,
    {
        let data = if number {
            number_lines(texts[i].as_str())
        } else {
            texts[i].clone()
        };
        out.push(PasteFile { name: files[i].name.clone(), data });
        i = i + 1;
    }
    out
}

/// Whether `out` is what a download of the paste at `url` with `args` hands
/// back, when `info` is what the paste resolved to and `chosen` is what the
/// selection took from it: the chosen files' URLs, one per line, or the chosen
/// files with their texts, where a text fetched while resolving is kept.
pub open spec fn produced_from(url: Seq<char>, args: Arguments, info: Vec<RemotePasteFile>, chosen: Vec<RemotePasteFile>, out: Produced) -> bool {
    &&& if args.urls {
        resolves_from(url, file_views(info@))
    } else {
        raw_resolves_from(url, file_views(info@))
    }
    &&& selected(
        info@,
        info@.map_values(|f: RemotePasteFile| lower_of(f.name@)),
        args.selection.files@.map_values(|s: String| lower_of(s@)),
        args.selection,
        Ok(chosen),
    )
    &&& match out {
        Produced::Urls(s) => (args.urls || args.raw_urls)
            && s@ == join_lines(chosen@.map_values(|f: RemotePasteFile| f.url@)),
        Produced::Files(fs) => !(args.urls || args.raw_urls) && fs@.len() == chosen@.len()
            && forall|i: int| 0 <= i < fs@.len() ==> (#[trigger] fs@[i]).name@ == chosen@[i].name@
                && (chosen@[i].contents is Some ==> fs@[i].data@ == shaped(
                chosen@[i].contents->Some_0@,
                args.number_lines,
            )),
    }
}

/// Resolves the paste at `url`, selects files from it, and hands back their
/// URLs or their contents. Contents already fetched while resolving are used
/// as they are; the others are fetched from their raw URLs.
pub fn produce_raw_contents<B: ConvertUrlsToRawUrls + Downloader + UsesIndices>(bin: &B, url: &WebUrl, args: &Arguments) -> (r: Result<Produced, Error>)
    ensures
        r is Ok ==> exists|info: Vec<RemotePasteFile>, chosen: Vec<RemotePasteFile>|
            #[trigger] produced_from(url@, *args, info, chosen, r->Ok_0),
{
    let info = if args.urls {
        produce_info(bin, url)?
    } else {
        produce_raw_info(bin, url)?
    };
    let chosen = match select_files(&info, &args.selection) {
        Ok(c) => c,
        Err(e) => return Err(e),
    };
    if args.urls || args.raw_urls {
        let out = Produced::Urls(urls_text(&chosen));
        assert(produced_from(url@, *args, info, chosen, out));
        let r = Ok(out);
        assert(r->Ok_0 == out);
        assert(exists|i: Vec<RemotePasteFile>, c: Vec<RemotePasteFile>| #[trigger] produced_from(url@, *args, i, c, r->Ok_0));
        return r;
    }
    let mut texts: Vec<String> = Vec::new();
    let mut i: usize = 0;
    while i < chosen.len()
        invariant
            i <= chosen.len(),
            texts@.len() == i,
            forall|j: int| 0 <= j < i && (#[trigger] chosen@[j]).contents is Some
                ==> texts@[j]@ == chosen@[j].contents->Some_0@,
        decreases chosen.len() - i,
    {
        let text = match &chosen[i].contents {
            Some(c) => c.clone(),
            None => bin.download(&chosen[i].url)?,
        };
        texts.push(text);
        i = i + 1;
    }
    let out = Produced::Files(to_paste_files(&chosen, texts, args.number_lines));
    assert(produced_from(url@, *args, info, chosen, out));
    let r = Ok(out);
    assert(r->Ok_0 == out);
    assert(exists|i: Vec<RemotePasteFile>, c: Vec<RemotePasteFile>| #[trigger] produced_from(url@, *args, i, c, r->Ok_0));
    r
}

/// The URL that an upload's response names.
pub fn upload_response_url(body: Result<String, Error>) -> (r: Result<WebUrl, Error>)
    ensures
        match body {
            Ok(b) => match url_parse(b@) {
                Some(u) => r is Ok && r->Ok_0@ == u,
                None => r is Err && r->Err_0 is MalformedUrl,
            },
            Err(e) => r == Err::<WebUrl, Error>(e),
        },
{
    match body {
        Ok(b) => match WebUrl::parse(b.as_str()) {
            Some(u) => Ok(u),
            None => Err(Error::MalformedUrl),
        },
        Err(e) => Err(e),
    }
}

/// Uploads one file to the backend's endpoint and hands back the URL that
/// the response names.
pub fn upload_paste<B: UploadUrl + Uploader>(bin: &B, file: &PasteFile) -> (r: Result<WebUrl, Error>)
    ensures
        r is Ok ==> exists|b: Seq<char>| url_parse(b) == Some(r->Ok_0@),
{
    let target = bin.get_upload_url();
    let target = match WebUrl::parse(target.as_str()) {
        Some(u) => u,
        None => return Err(Error::MalformedUrl),
    };
    let body = bin.upload(&target, file);
    let ghost b = body;
    let r = upload_response_url(body);
    if r.is_ok() {
        assert(url_parse(b->Ok_0@) == Some(r->Ok_0@));
    }
    r
}

/// The names of some files.
pub open spec fn paste_names(files: Seq<PasteFile>) -> Seq<Seq<char>> {
    files.map_values(|f: PasteFile| f.name@)
}

/// Uploads each file on its own and builds the index of their URLs, in order.
pub fn generate_index<B: UploadUrl + Uploader + UsesIndices>(bin: &B, files: &Vec<PasteFile>) -> (r: Result<Index, Error>)
    ensures
        r is Ok ==> exists|us: Seq<Seq<char>>| us.len() == files@.len()
            && r->Ok_0@ == #[trigger] insert_all(paste_names(files@), us),
{
    let mut names: Vec<String> = Vec::new();
    let mut urls: Vec<WebUrl> = Vec::new();
    let mut i: usize = 0;
    while i < files.len()
        invariant
            i <= files.len(),
            names@.len() == urls@.len() == i,
            forall|j: int| 0 <= j < i ==> (#[trigger] names@[j])@ == files@[j].name@,
        decreases files.len() - i,
    {
        let u = upload_paste(bin, &files[i])?;
        names.push(files[i].name.clone());
        urls.push(u);
        i = i + 1;
    }
    let ghost ns = names@.map_values(|n: String| n@);
    let ghost us = urls@.map_values(|u: WebUrl| u@);
    assert(ns =~= paste_names(files@));
    Ok(Index::from_pairs(names, urls))
}

/// Uploads a paste: a single file directly; several files each on their own,
/// then their index, named `index.md`, whose URL is handed back.
pub fn upload_all<B: UploadUrl + Uploader + UsesIndices>(bin: &B, files: &Vec<PasteFile>) -> (r: Result<WebUrl, Error>)
    ensures
        r is Ok ==> exists|b: Seq<char>| url_parse(b) == Some(r->Ok_0@),
{
    if files.len() == 1 {
        return upload_paste(bin, &files[0]);
    }
    let index = generate_index(bin, files)?;
    let name = String::from_str("index.md");
    let file = PasteFile { name, data: index.to_string() };
    upload_paste(bin, &file)
}

/// Resolving a paste into its files, for every index-aware backend.
pub trait ProduceInfo {
    fn produce_info(&self, url: &WebUrl) -> (r: Result<Vec<RemotePasteFile>, Error>)
        ensures
            r is Ok ==> resolves_from(url@, file_views(r->Ok_0@)),
    ;
}

impl<T: ConvertUrlsToRawUrls + Downloader + UsesIndices> ProduceInfo for T {
    fn produce_info(&self, url: &WebUrl) -> (r: Result<Vec<RemotePasteFile>, Error>) {
        produce_info(self, url)
    }
}

/// Resolving a paste into raw-URL files, for every index-aware backend.
pub trait ProduceRawInfo {
    fn produce_raw_info(&self, url: &WebUrl) -> (r: Result<Vec<RemotePasteFile>, Error>)
        ensures
            r is Ok ==> raw_resolves_from(url@, file_views(r->Ok_0@)),
    ;
}

impl<T: ConvertUrlsToRawUrls + Downloader + UsesIndices> ProduceRawInfo for T {
    fn produce_raw_info(&self, url: &WebUrl) -> (r: Result<Vec<RemotePasteFile>, Error>) {
        produce_raw_info(self, url)
    }
}

/// Downloading the selected files of a paste, for every index-aware backend.
pub trait ProduceRawContent {
    fn produce_raw_contents(&self, url: &WebUrl, args: &Arguments) -> (r: Result<Produced, Error>)
        ensures
            r is Ok ==> exists|info: Vec<RemotePasteFile>, chosen: Vec<RemotePasteFile>|
                #[trigger] produced_from(url@, *args, info, chosen, r->Ok_0),
    ;
}

impl<T: ConvertUrlsToRawUrls + Downloader + UsesIndices> ProduceRawContent for T {
    fn produce_raw_contents(&self, url: &WebUrl, args: &Arguments) -> (r: Result<Produced, Error>) {
        produce_raw_contents(self, url, args)
    }
}

/// Uploading one file, for every backend with an upload endpoint.
pub trait UploadContent {
    fn upload_paste(&self, file: &PasteFile) -> (r: Result<WebUrl, Error>)
        ensures
            r is Ok ==> exists|b: Seq<char>| url_parse(b) == Some(r->Ok_0@),
    ;
}

impl<T: UploadUrl + Uploader> UploadContent for T {
    fn upload_paste(&self, file: &PasteFile) -> (r: Result<WebUrl, Error>) {
        upload_paste(self, file)
    }
}

/// Building the index of several uploaded files, for every index-aware backend.
pub trait GenerateIndex {
    fn generate_index(&self, files: &Vec<PasteFile>) -> (r: Result<Index, Error>)
        ensures
            r is Ok ==> exists|us: Seq<Seq<char>>| us.len() == files@.len()
                && r->Ok_0@ == #[trigger] insert_all(paste_names(files@), us),
    ;
}

impl<T: UploadUrl + Uploader + UsesIndices> GenerateIndex for T {
    fn generate_index(&self, files: &Vec<PasteFile>) -> (r: Result<Index, Error>) {
        generate_index(self, files)
    }
}

/// Uploading a whole paste, for every index-aware backend.
pub trait UploadBatchContent {
    fn upload_all(&self, files: &Vec<PasteFile>) -> (r: Result<WebUrl, Error>)
        ensures
            r is Ok ==> exists|b: Seq<char>| url_parse(b) == Some(r->Ok_0@),
    ;
}

impl<T: UploadUrl + Uploader + UsesIndices> UploadBatchContent for T {
    fn upload_all(&self, files: &Vec<PasteFile>) -> (r: Result<WebUrl, Error>) {
        upload_all(self, files)
    }
}

} // verus!
