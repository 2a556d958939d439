//! The index document: the manifest of a multi-file paste.
use vstd::prelude::*;
use linked_hash_map::LinkedHashMap;
use crate::error::Error;
use crate::files::{
    distinct_names, files_in_order, has_name, insert_file, lemma_remove_absent, linked_entries,
    new_files, put_entry,
};
use crate::text::{
    chars_of, decimal, find_first, find_from, find_sep, find_sep_in, has_no_sep, is_blank,
    is_blank_line, is_digit, is_single_line, lemma_decimal_digits, lemma_find_first_at,
    lemma_find_sep, lemma_find_sep_at, lemma_split_concat, lemma_split_single,
    push_all, push_decimal, repeat_char, sep_at, slice_of, split_lines, split_lines_of, string_of,
};
use crate::url::{is_canonical_url, url_parse, WebUrl};

verus! {

/// The line of entry number `k`: `"<k>. <name>: <url>"`.
pub open spec fn entry_line(k: nat, name: Seq<char>, url: Seq<char>) -> Seq<char> {
    decimal(k) + seq!['.', ' '] + name + seq![':', ' '] + url
}

/// The entry lines of `es`, each ended by a newline, numbered from 1.
pub open spec fn render_body(es: Seq<(Seq<char>, Seq<char>)>) -> Seq<char>
    decreases es.len(),
{
    if es.len() == 0 {
        seq![]
    } else {
        render_body(es.drop_last()) + entry_line(es.len(), es.last().0, es.last().1) + seq!['\n']
    }
}

/// The header line `"<n> files"`.
pub open spec fn header_line(n: nat) -> Seq<char> {
    decimal(n) + seq![' ', 'f', 'i', 'l', 'e', 's']
}

/// The index document of `es`: header, a separator as long as the header,
/// a blank line, then one line per entry.
pub open spec fn render(es: Seq<(Seq<char>, Seq<char>)>) -> Seq<char> {
    let h = header_line(es.len());
    h + seq!['\n'] + repeat_char('-', h.len()) + seq!['\n', '\n'] + render_body(es)
}

/// The name and URL text of an entry line: split once on `": "`, then the
/// left side loses everything up to its first space.
pub open spec fn parse_entry(line: Seq<char>) -> Option<(Seq<char>, Seq<char>)> {
    let i = find_sep(line);
    if i < 0 || i >= line.len() {
        None
    } else {
        let left = line.subrange(0, i);
        let j = find_first(left, ' ');
        if j < 0 || j >= left.len() {
            None
        } else {
            Some((left.subrange(j + 1, left.len() as int), line.subrange(i + 2, line.len() as int)))
        }
    }
}

/// The entries of the entry lines `lines`: blank lines are skipped, and any
/// other line must be an entry whose URL parses.
pub open spec fn parse_lines(lines: Seq<Seq<char>>) -> Option<Seq<(Seq<char>, Seq<char>)>>
    decreases lines.len(),
{
    if lines.len() == 0 {
        Some(seq![])
    } else {
        match parse_lines(lines.drop_last()) {
            None => None,
            Some(es) => {
                let l = lines.last();
                if is_blank(l) {
                    Some(es)
                } else {
                    match parse_entry(l) {
                        None => None,
                        Some(e) => match url_parse(e.1) {
                            None => None,
                            Some(u) => Some(put_entry(es, e.0, u)),
                        },
                    }
                }
            }
        }
    }
}

/// The entries of an index document, or none when `text` is not one: it needs
/// at least four lines, and at least one entry from the fourth line on.
pub open spec fn parse_index(text: Seq<char>) -> Option<Seq<(Seq<char>, Seq<char>)>> {
    let lines = split_lines(text);
    if lines.len() < 4 {
        None
    } else {
        match parse_lines(lines.subrange(3, lines.len() as int)) {
            None => None,
            Some(es) => if es.len() > 0 {
                Some(es)
            } else {
                None
            },
        }
    }
}

/// The manifest of a multi-file paste: file names and their URLs, in order.
pub struct Index {
    pub files: LinkedHashMap<String, WebUrl>,
}

impl View for Index {
    type V = Seq<(Seq<char>, Seq<char>)>;

    open spec fn view(&self) -> Seq<(Seq<char>, Seq<char>)> {
        linked_entries(self.files)
    }
}

/// The name and URL characters of an entry line.
fn parse_entry_of(line: &[char]) -> (r: Option<(Vec<char>, Vec<char>)>)
    ensures
        match r {
            Some(e) => parse_entry(line@) == Some((e.0@, e.1@)),
            None => parse_entry(line@) is None,
        },
{
    proof {
        lemma_find_sep(line@);
    }
    let i = find_sep_in(line);
    if i >= line.len() {
        return None;
    }
    let left = slice_of(line, 0, i);
    let right = slice_of(line, i + 2, line.len());
    let j = find_from(left.as_slice(), 0, ' ');
    assert(left@.subrange(0, left@.len() as int) =~= left@);
    if j >= left.len() {
        return None;
    }
    Some((slice_of(left.as_slice(), j + 1, left.len()), right))
}

/// A failure among the first lines is a failure of them all.
proof fn lemma_parse_lines_prefix(lines: Seq<Seq<char>>, k: int)
    requires
        0 <= k <= lines.len(),
        parse_lines(lines.subrange(0, k)) is None,
    ensures
        parse_lines(lines) is None,
    decreases lines.len(),
{
    if k == lines.len() {
        assert(lines.subrange(0, k) =~= lines);
    } else {
        assert(lines.drop_last().subrange(0, k) =~= lines.subrange(0, k));
        lemma_parse_lines_prefix(lines.drop_last(), k);
    }
}

impl Index {
    /// The index with `names[i]` mapped to `urls[i]`, inserted in order.
    pub fn from_pairs(names: Vec<String>, urls: Vec<WebUrl>) -> (r: Index)
        requires
            names.len() == urls.len(),
        ensures
            r@ == insert_all(names@.map_values(|n: String| n@), urls@.map_values(|u: WebUrl| u@)),
    {
        let ghost ns = names@.map_values(|n: String| n@);
        let ghost us = urls@.map_values(|u: WebUrl| u@);
        let mut files = new_files();
        let mut k: usize = 0;
        assert(ns.subrange(0, 0).len() == 0);
        while k < names.len()
            invariant
                k <= names.len() == urls.len() == ns.len() == us.len(),
                ns == names@.map_values(|n: String| n@),
                us == urls@.map_values(|u: WebUrl| u@),
                linked_entries(files) == insert_all(ns.subrange(0, k as int), us.subrange(0, k as int)),
            decreases names.len() - k,
        {
            insert_file(&mut files, names[k].clone(), urls[k].clone());
            proof {
                assert(ns.subrange(0, k + 1).drop_last() =~= ns.subrange(0, k as int));
                assert(us.subrange(0, k + 1).drop_last() =~= us.subrange(0, k as int));
            }
            k = k + 1;
        }
        assert(ns.subrange(0, k as int) =~= ns);
        assert(us.subrange(0, k as int) =~= us);
        Index { files }
    }

    /// Renders the index document.
    pub fn to_string(&self) -> (r: String)
        ensures
            r@ == render(self@),
    {
        let ghost es = self@;
        let entries = files_in_order(&self.files);
        let mut out: Vec<char> = Vec::new();
        push_decimal(&mut out, entries.len());
        out.push(' ');
        out.push('f');
        out.push('i');
        out.push('l');
        out.push('e');
        out.push('s');
        let ghost h = out@;
        assert(h =~= header_line(es.len()));
        let width = out.len();
        out.push('\n');
        let mut d: usize = 0;
        while d < width
            invariant
                d <= width,
                out@ == h + seq!['\n'] + repeat_char('-', d as nat),
            decreases width - d,
        {
            out.push('-');
            d = d + 1;
            assert(out@ =~= h + seq!['\n'] + repeat_char('-', d as nat));
        }
        out.push('\n');
        out.push('\n');
        let ghost top = out@;
        assert(es.subrange(0, 0) =~= Seq::<(Seq<char>, Seq<char>)>::empty());
        assert(top + render_body(es.subrange(0, 0)) =~= top);
        let mut k: usize = 0;
        while k < entries.len()
            invariant
                k <= entries.len() == es.len(),
                forall|i: int| 0 <= i < entries@.len() ==> (#[trigger] entries@[i]).0@ == es[i].0
                    && entries@[i].1@ == es[i].1,
                out@ == top + render_body(es.subrange(0, k as int)),
            decreases entries.len() - k,
        {
            let ghost before = out@;
            push_decimal(&mut out, k + 1);
            out.push('.');
            out.push(' ');
            let name = chars_of(entries[k].0.as_str());
            push_all(&mut out, name.as_slice());
            out.push(':');
            out.push(' ');
            let url = chars_of(entries[k].1.as_str());
            push_all(&mut out, url.as_slice());
            out.push('\n');
            proof {
                let sub = es.subrange(0, k + 1);
                assert(sub.drop_last() =~= es.subrange(0, k as int));
                assert(sub.last() == es[k as int]);
                assert(out@ =~= before + entry_line((k + 1) as nat, es[k as int].0, es[k as int].1)
                    + seq!['\n']);
            }
            k = k + 1;
        }
        assert(es.subrange(0, k as int) =~= es);
        assert(out@ =~= render(es));
        string_of(out.as_slice())
    }

    /// Parses an index document.
    pub fn parse(text: &str) -> (r: Result<Index, Error>)
        ensures
            match r {
                Ok(i) => parse_index(text@) == Some(i@),
                Err(e) => e is InvalidIndex && parse_index(text@) is None,
            },
    {
        let cs = chars_of(text);
        let lines = split_lines_of(cs.as_slice());
        if lines.len() < 4 {
            return Err(Error::InvalidIndex);
        }
        let ghost all = split_lines(text@);
        let ghost tail = all.subrange(3, all.len() as int);
        let mut files = new_files();
        let mut i: usize = 3;
        assert(tail.subrange(0, 0) =~= Seq::<Seq<char>>::empty());
        while i < lines.len()
            invariant
                3 <= i <= lines.len() == all.len(),
                forall|j: int| 0 <= j < lines@.len() ==> (#[trigger] lines@[j])@ == all[j],
                all == split_lines(text@),
                tail == all.subrange(3, all.len() as int),
                parse_lines(tail.subrange(0, i - 3)) == Some(linked_entries(files)),
            decreases lines.len() - i,
        {
            let ghost pre = tail.subrange(0, i - 3);
            let ghost next = tail.subrange(0, i - 2);
            assert(next.drop_last() =~= pre);
            assert(next.last() == lines@[i as int]@);
            let line = lines[i].as_slice();
            if !is_blank_line(line) {
                match parse_entry_of(line) {
                    None => {
                        proof {
                            assert(parse_lines(next) is None);
                            lemma_parse_lines_prefix(tail, i - 2);
                        }
                        return Err(Error::InvalidIndex);
                    },
                    Some(e) => {
                        let url_text = string_of(e.1.as_slice());
                        match WebUrl::parse(url_text.as_str()) {
                            None => {
                                proof {
                                    lemma_parse_lines_prefix(tail, i - 2);
                                }
                                return Err(Error::InvalidIndex);
                            },
                            Some(u) => {
                                let name = string_of(e.0.as_slice());
                                insert_file(&mut files, name, u);
                            },
                        }
                    },
                }
            }
            i = i + 1;
        }
        assert(tail.subrange(0, i - 3) =~= tail);
        let entries = files_in_order(&files);
        if entries.len() == 0 {
            return Err(Error::InvalidIndex);
        }
        Ok(Index { files })
    }
}

/// The entries made by inserting `names[i]` with `urls[i]`, in order.
pub open spec fn insert_all(names: Seq<Seq<char>>, urls: Seq<Seq<char>>) -> Seq<(Seq<char>, Seq<char>)>
    decreases names.len(),
{
    if names.len() == 0 || urls.len() == 0 {
        seq![]
    } else {
        put_entry(insert_all(names.drop_last(), urls.drop_last()), names.last(), urls.last())
    }
}

/// The entry lines of `es`, numbered from 1.
pub open spec fn entry_lines(es: Seq<(Seq<char>, Seq<char>)>) -> Seq<Seq<char>> {
    Seq::new(es.len(), |i: int| entry_line((i + 1) as nat, es[i].0, es[i].1))
}

/// Whether every entry of `es` can be written as one index line and read back:
/// names hold no newline and no `": "`, URLs hold no newline and are in the URL
/// parser's own form, and no name occurs twice.
pub open spec fn is_line_safe(es: Seq<(Seq<char>, Seq<char>)>) -> bool {
    &&& distinct_names(es)
    &&& forall|i: int| 0 <= i < es.len() ==> {
        &&& is_single_line(#[trigger] es[i].0)
        &&& has_no_sep(es[i].0)
        &&& is_single_line(es[i].1)
        &&& is_canonical_url(es[i].1)
    }
}

proof fn lemma_entry_line(k: nat, n: Seq<char>, u: Seq<char>)
    requires
        is_single_line(n),
        has_no_sep(n),
        is_single_line(u),
    ensures
        is_single_line(entry_line(k, n, u)),
        !is_blank(entry_line(k, n, u)),
        parse_entry(entry_line(k, n, u)) == Some((n, u)),
{
    let d = decimal(k);
    lemma_decimal_digits(k);
    let line = entry_line(k, n, u);
    let m = d.len() as int;
    let p = m + 2 + n.len();
    assert(line.len() == p + 2 + u.len());
    assert forall|i: int| 0 <= i < line.len() implies line[i] != '\n' by {
        if i < m {
            assert(is_digit(d[i]));
        } else if m + 2 <= i < p {
            assert(line[i] == n[i - m - 2]);
        } else if i >= p + 2 {
            assert(line[i] == u[i - p - 2]);
        }
    }
    assert(is_digit(line[0]));
    assert forall|j: int| 0 <= j < p implies !sep_at(line, j) by {
        if j < m {
            assert(is_digit(d[j]));
        } else if m + 2 <= j < p - 1 {
            assert(line[j] == n[j - m - 2]);
            assert(line[j + 1] == n[j + 1 - m - 2]);
            assert(!sep_at(n, j - m - 2));
        }
    }
    lemma_find_sep_at(line, p);
    let left = line.subrange(0, p);
    assert forall|j: int| 0 <= j < m + 1 implies left[j] != ' ' by {
        if j < m {
            assert(is_digit(d[j]));
        }
    }
    lemma_find_first_at(left, ' ', m + 1);
    assert(left.subrange(m + 2, left.len() as int) =~= n);
    assert(line.subrange(p + 2, line.len() as int) =~= u);
}

proof fn lemma_split_body(hp: Seq<char>, es: Seq<(Seq<char>, Seq<char>)>, t: Seq<char>)
    requires
        is_single_line(t),
        forall|i: int| 0 <= i < es.len() ==> {
            &&& is_single_line(#[trigger] es[i].0)
            &&& has_no_sep(es[i].0)
            &&& is_single_line(es[i].1)
        },
    ensures
        split_lines(hp + seq!['\n'] + render_body(es) + t) == split_lines(hp) + entry_lines(es) + seq![t],
    decreases es.len(),
{
    if es.len() == 0 {
        assert(hp + seq!['\n'] + render_body(es) + t =~= hp + seq!['\n'] + t);
        lemma_split_concat(hp, t);
        lemma_split_single(t);
        assert(entry_lines(es) =~= Seq::<Seq<char>>::empty());
        assert(split_lines(hp) + entry_lines(es) + seq![t] =~= split_lines(hp) + seq![t]);
    } else {
        let init = es.drop_last();
        let last = es.last();
        assert(last == es[es.len() - 1]);
        let l = entry_line(es.len(), last.0, last.1);
        lemma_entry_line(es.len(), last.0, last.1);
        assert forall|i: int| 0 <= i < init.len() implies {
            &&& is_single_line(#[trigger] init[i].0)
            &&& has_no_sep(init[i].0)
            &&& is_single_line(init[i].1)
        } by {
            assert(init[i] == es[i]);
        }
        lemma_split_body(hp, init, l);
        let x = hp + seq!['\n'] + render_body(init) + l;
        assert(hp + seq!['\n'] + render_body(es) + t =~= x + seq!['\n'] + t);
        lemma_split_concat(x, t);
        lemma_split_single(t);
        assert(entry_lines(es) =~= entry_lines(init).push(l));
        assert(split_lines(hp) + entry_lines(es) + seq![t]
            =~= split_lines(hp) + entry_lines(init) + seq![l] + seq![t]);
    }
}

proof fn lemma_parse_entry_lines(es: Seq<(Seq<char>, Seq<char>)>)
    requires
        is_line_safe(es),
    ensures
        parse_lines(entry_lines(es)) == Some(es),
    decreases es.len(),
{
    if es.len() == 0 {
        assert(entry_lines(es) =~= Seq::<Seq<char>>::empty());
        assert(es =~= Seq::<(Seq<char>, Seq<char>)>::empty());
    } else {
        let init = es.drop_last();
        let last = es.last();
        assert(last == es[es.len() - 1]);
        assert forall|i: int| 0 <= i < init.len() implies {
            &&& is_single_line(#[trigger] init[i].0)
            &&& has_no_sep(init[i].0)
            &&& is_single_line(init[i].1)
            &&& is_canonical_url(init[i].1)
        } by {
            assert(init[i] == es[i]);
        }
        assert(distinct_names(init)) by {
            assert forall|i: int, j: int| 0 <= i < j < init.len() implies init[i].0 != init[j].0 by {
                assert(init[i] == es[i] && init[j] == es[j]);
            }
        }
        lemma_parse_entry_lines(init);
        lemma_entry_line(es.len(), last.0, last.1);
        assert(entry_lines(es).drop_last() =~= entry_lines(init));
        assert(!has_name(init, last.0)) by {
            if has_name(init, last.0) {
                let i = choose|i: int| 0 <= i < init.len() && init[i].0 == last.0;
                assert(es[i].0 == es[es.len() - 1].0);
            }
        }
        lemma_remove_absent(init, last.0);
        assert(init.push(last) =~= es);
    }
}

/// Rendering an index and parsing the text gives back the same entries, in
/// the same order, whenever each entry can be written as one index line.
pub proof fn lemma_render_parse(es: Seq<(Seq<char>, Seq<char>)>)
    requires
        es.len() > 0,
        is_line_safe(es),
    ensures
        parse_index(render(es)) == Some(es),
{
    let h = header_line(es.len());
    let dashes = repeat_char('-', h.len());
    lemma_decimal_digits(es.len());
    assert(is_single_line(h)) by {
        assert forall|i: int| 0 <= i < h.len() implies h[i] != '\n' by {
            if i < decimal(es.len()).len() {
                assert(is_digit(decimal(es.len())[i]));
            }
        }
    }
    let hp = h + seq!['\n'] + dashes + seq!['\n'];
    assert(hp =~= h + seq!['\n'] + (dashes + seq!['\n'] + Seq::<char>::empty()));
    lemma_split_concat(h, dashes + seq!['\n'] + Seq::<char>::empty());
    lemma_split_concat(dashes, Seq::<char>::empty());
    lemma_split_single(h);
    lemma_split_single(dashes);
    lemma_split_single(Seq::<char>::empty());
    assert(split_lines(hp) =~= seq![h, dashes, Seq::<char>::empty()]);
    assert forall|i: int| 0 <= i < es.len() implies {
        &&& is_single_line(#[trigger] es[i].0)
        &&& has_no_sep(es[i].0)
        &&& is_single_line(es[i].1)
    } by {}
    lemma_split_body(hp, es, Seq::<char>::empty());
    assert(render(es) =~= hp + seq!['\n'] + render_body(es) + Seq::<char>::empty());
    let lines = split_lines(render(es));
    let tail = lines.subrange(3, lines.len() as int);
    assert(tail =~= entry_lines(es) + seq![Seq::<char>::empty()]);
    assert(tail.drop_last() =~= entry_lines(es));
    lemma_parse_entry_lines(es);
}

proof fn lemma_parse_blank(lines: Seq<Seq<char>>)
    requires
        forall|k: int| 0 <= k < lines.len() ==> is_blank(#[trigger] lines[k]),
    ensures
        parse_lines(lines) == Some(Seq::<(Seq<char>, Seq<char>)>::empty()),
    decreases lines.len(),
{
    if lines.len() > 0 {
        lemma_parse_blank(lines.drop_last());
        assert(is_blank(lines[lines.len() - 1]));
    }
}

/// A document is not an index when it has fewer than four lines, when one of
/// its non-blank lines from the fourth on is not an entry line, or when all
/// those lines are blank.
pub proof fn lemma_parse_rejects(text: Seq<char>)
    ensures
        split_lines(text).len() < 4 ==> parse_index(text) is None,
        (exists|k: int| 3 <= k < split_lines(text).len() && !is_blank(#[trigger] split_lines(text)[k])
            && parse_entry(split_lines(text)[k]) is None) ==> parse_index(text) is None,
        (forall|k: int| 3 <= k < split_lines(text).len() ==> is_blank(#[trigger] split_lines(text)[k]))
            ==> parse_index(text) is None,
{
    let lines = split_lines(text);
    if lines.len() >= 4 {
        let tail = lines.subrange(3, lines.len() as int);
        if exists|k: int| 3 <= k < lines.len() && !is_blank(#[trigger] lines[k]) && parse_entry(lines[k]) is None {
            let k = choose|k: int| 3 <= k < lines.len() && !is_blank(#[trigger] lines[k]) && parse_entry(lines[k]) is None;
            let pre = tail.subrange(0, k - 2);
            assert(pre.last() == lines[k]);
            assert(pre.drop_last() =~= tail.subrange(0, k - 3));
            assert(parse_lines(pre) is None);
            lemma_parse_lines_prefix(tail, k - 2);
        }
        if forall|k: int| 3 <= k < lines.len() ==> is_blank(#[trigger] lines[k]) {
            assert forall|k: int| 0 <= k < tail.len() implies is_blank(#[trigger] tail[k]) by {
                assert(tail[k] == lines[k + 3]);
            }
            lemma_parse_blank(tail);
        }
    }
}

/// Whether no element of `s` occurs twice.
pub open spec fn no_repeats(s: Seq<Seq<char>>) -> bool {
    forall|i: int, j: int| 0 <= i < j < s.len() ==> s[i] != s[j]
}

/// The pairs `(names[i], urls[i])`.
pub open spec fn zip_entries(names: Seq<Seq<char>>, urls: Seq<Seq<char>>) -> Seq<(Seq<char>, Seq<char>)> {
    Seq::new(names.len(), |i: int| (names[i], urls[i]))
}

/// Inserting distinct names one by one keeps them all, in order.
pub proof fn lemma_insert_all_distinct(names: Seq<Seq<char>>, urls: Seq<Seq<char>>)
    requires
        names.len() == urls.len(),
        no_repeats(names),
    ensures
        insert_all(names, urls) == zip_entries(names, urls),
    decreases names.len(),
{
    if names.len() > 0 {
        let ni = names.drop_last();
        let ui = urls.drop_last();
        lemma_insert_all_distinct(ni, ui);
        let z = zip_entries(ni, ui);
        assert(!has_name(z, names.last())) by {
            if has_name(z, names.last()) {
                let i = choose|i: int| 0 <= i < z.len() && z[i].0 == names.last();
                assert(names[i] == names[names.len() - 1]);
            }
        }
        lemma_remove_absent(z, names.last());
        assert(z.push((names.last(), urls.last())) =~= zip_entries(names, urls));
    }
}

/// The index built from uploads of files with distinct names reads back, from
/// its rendered text, as each name with the URL of its own upload, in order,
/// whenever each name and URL can be written as one index line.
pub proof fn lemma_uploaded_index(names: Seq<Seq<char>>, urls: Seq<Seq<char>>)
    requires
        names.len() == urls.len(),
        names.len() > 0,
        no_repeats(names),
        forall|i: int| 0 <= i < names.len() ==> {
            &&& is_single_line(#[trigger] names[i])
            &&& has_no_sep(names[i])
            &&& is_single_line(urls[i])
            &&& is_canonical_url(urls[i])
        },
    ensures
        parse_index(render(insert_all(names, urls))) == Some(zip_entries(names, urls)),
{
    lemma_insert_all_distinct(names, urls);
    let z = zip_entries(names, urls);
    assert forall|i: int| 0 <= i < z.len() implies {
        &&& is_single_line(#[trigger] z[i].0)
        &&& has_no_sep(z[i].0)
        &&& is_single_line(z[i].1)
        &&& is_canonical_url(z[i].1)
    } by {
        assert(z[i] == (names[i], urls[i]));
    }
    assert(distinct_names(z)) by {
        assert forall|i: int, j: int| 0 <= i < j < z.len() implies z[i].0 != z[j].0 by {
            assert(z[i].0 == names[i] && z[j].0 == names[j]);
        }
    }
    lemma_render_parse(z);
}

} // verus!
