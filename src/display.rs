//! Text handed back for display: numbered lines, URL lists, and several files
//! shown one after another.
use vstd::prelude::*;
use crate::select::{PasteFile, RemotePasteFile};
use crate::text::{
    chars_of, decimal, push_all, push_decimal, repeat_char, split_lines, split_lines_of, string_of,
};

verus! {

/// The lines `ls` joined with newlines.
pub open spec fn join_lines(ls: Seq<Seq<char>>) -> Seq<char>
    decreases ls.len(),
{
    if ls.len() == 0 {
        seq![]
    } else if ls.len() == 1 {
        ls[0]
    } else {
        join_lines(ls.drop_last()) + seq!['\n'] + ls.last()
    }
}

/// Line `k` of a numbered text: the number right-justified in a gutter of
/// `width` characters, two spaces, then the line.
pub open spec fn numbered_line(width: nat, k: nat, line: Seq<char>) -> Seq<char> {
    repeat_char(' ', (width - decimal(k).len()) as nat) + decimal(k) + seq![' ', ' '] + line
}

/// The gutter width for `n` lines: the number of digits of `n`.
pub open spec fn gutter_width(n: nat) -> nat {
    decimal(n).len()
}

/// `s` with every line numbered from 1.
pub open spec fn numbered(s: Seq<char>) -> Seq<char> {
    let ls = split_lines(s);
    join_lines(Seq::new(ls.len(), |i: int| numbered_line(gutter_width(ls.len()), (i + 1) as nat, ls[i])))
}

/// A number has no more digits than any larger number.
pub proof fn lemma_decimal_len_mono(a: nat, b: nat)
    requires
        a <= b,
    ensures
        decimal(a).len() <= decimal(b).len(),
    decreases b,
{
    if a >= 10 {
        lemma_decimal_len_mono(a / 10, b / 10);
    }
}

/// Numbers every line of `s` from 1, in a gutter as wide as the largest number.
pub fn number_lines(s: &str) -> (r: String)
    ensures
        r@ == numbered(s@),
{
    let cs = chars_of(s);
    let lines = split_lines_of(cs.as_slice());
    let ghost ls = split_lines(s@);
    let ghost all = Seq::new(ls.len(), |i: int| numbered_line(gutter_width(ls.len()), (i + 1) as nat, ls[i]));
    let mut digits: Vec<char> = Vec::new();
    push_decimal(&mut digits, lines.len());
    let width = digits.len();
    let mut out: Vec<char> = Vec::new();
    let mut i: usize = 0;
    assert(all.subrange(0, 0) =~= Seq::<Seq<char>>::empty());
    while i < lines.len()
        invariant
            i <= lines.len() == ls.len(),
            width == gutter_width(ls.len()),
            forall|j: int| 0 <= j < lines@.len() ==> (#[trigger] lines@[j])@ == ls[j],
            all == Seq::new(ls.len(), |j: int| numbered_line(gutter_width(ls.len()), (j + 1) as nat, ls[j])),
            out@ == join_lines(all.subrange(0, i as int)),
        decreases lines.len() - i,
    {
        let ghost before = out@;
        if i > 0 {
            out.push('\n');
        }
        let mut number: Vec<char> = Vec::new();
        push_decimal(&mut number, i + 1);
        proof {
            lemma_decimal_len_mono((i + 1) as nat, ls.len());
        }
        let pad = width - number.len();
        let mut p: usize = 0;
        while p < pad
            invariant
                p <= pad,
                out@ == (if i > 0 { before + seq!['\n'] } else { before }) + repeat_char(' ', p as nat),
            decreases pad - p,
        {
            out.push(' ');
            p = p + 1;
            assert(out@ =~= (if i > 0 { before + seq!['\n'] } else { before }) + repeat_char(' ', p as nat));
        }
        push_all(&mut out, number.as_slice());
        out.push(' ');
        out.push(' ');
        push_all(&mut out, lines[i].as_slice());
        proof {
            let line = numbered_line(gutter_width(ls.len()), (i + 1) as nat, ls[i as int]);
            assert(all[i as int] == line);
            assert(all.subrange(0, i + 1).drop_last() =~= all.subrange(0, i as int));
            if i == 0 {
                assert(before =~= Seq::<char>::empty());
                assert(out@ =~= line);
            } else {
                assert(out@ =~= before + seq!['\n'] + line);
            }
        }
        i = i + 1;
    }
    assert(all.subrange(0, i as int) =~= all);
    string_of(out.as_slice())
}

/// The URLs of `files`, one per line.
pub fn urls_text(files: &Vec<RemotePasteFile>) -> (r: String)
    ensures
        r@ == join_lines(files@.map_values(|f: RemotePasteFile| f.url@)),
{
    let ghost us = files@.map_values(|f: RemotePasteFile| f.url@);
    let mut out: Vec<char> = Vec::new();
    let mut i: usize = 0;
    assert(us.subrange(0, 0) =~= Seq::<Seq<char>>::empty());
    while i < files.len()
        invariant
            i <= files.len(),
            us == files@.map_values(|f: RemotePasteFile| f.url@),
            out@ == join_lines(us.subrange(0, i as int)),
        decreases files.len() - i,
    {
        let ghost before = out@;
        if i > 0 {
            out.push('\n');
        }
        let u = chars_of(files[i].url.as_str());
        push_all(&mut out, u.as_slice());
        proof {
            assert(us.subrange(0, i + 1).drop_last() =~= us.subrange(0, i as int));
            if i == 0 {
                assert(out@ =~= us[0]);
            } else {
                assert(out@ =~= before + seq!['\n'] + us[i as int]);
            }
        }
        i = i + 1;
    }
    assert(us.subrange(0, i as int) =~= us);
    string_of(out.as_slice())
}

/// The block that shows one of several files: `"==> <name> <==\n<data>"`.
pub open spec fn file_block(f: (Seq<char>, Seq<char>)) -> Seq<char> {
    seq!['=', '=', '>', ' '] + f.0 + seq![' ', '<', '=', '=', '\n'] + f.1
}

/// How `files` are shown together: a single file bare, several as blocks
/// separated by newlines.
pub open spec fn shown(files: Seq<(Seq<char>, Seq<char>)>) -> Seq<char> {
    if files.len() == 1 {
        files[0].1
    } else {
        join_lines(files.map_values(|f: (Seq<char>, Seq<char>)| file_block(f)))
    }
}

/// Joins files for display: a single file's data bare, several under headers.
pub fn join_files(files: &Vec<PasteFile>) -> (r: String)
    ensures
        r@ == shown(files@.map_values(|f: PasteFile| f@)),
{
    let ghost fs = files@.map_values(|f: PasteFile| f@);
    if files.len() == 1 {
        return files[0].data.clone();
    }
    let ghost bs = fs.map_values(|f: (Seq<char>, Seq<char>)| file_block(f));
    let mut out: Vec<char> = Vec::new();
    let mut i: usize = 0;
    assert(bs.subrange(0, 0) =~= Seq::<Seq<char>>::empty());
    while i < files.len()
        invariant
            i <= files.len(),
            fs == files@.map_values(|f: PasteFile| f@),
            bs == fs.map_values(|f: (Seq<char>, Seq<char>)| file_block(f)),
            out@ == join_lines(bs.subrange(0, i as int)),
        decreases files.len() - i,
    {
        let ghost before = out@;
        if i > 0 {
            out.push('\n');
        }
        out.push('=');
        out.push('=');
        out.push('>');
        out.push(' ');
        let name = chars_of(files[i].name.as_str());
        push_all(&mut out, name.as_slice());
        out.push(' ');
        out.push('<');
        out.push('=');
        out.push('=');
        out.push('\n');
        let data = chars_of(files[i].data.as_str());
        push_all(&mut out, data.as_slice());
        proof {
            assert(bs[i as int] == file_block(files@[i as int]@));
            assert(bs.subrange(0, i + 1).drop_last() =~= bs.subrange(0, i as int));
            if i == 0 {
                assert(out@ =~= bs[0]);
            } else {
                assert(out@ =~= before + seq!['\n'] + bs[i as int]);
            }
        }
        i = i + 1;
    }
    assert(bs.subrange(0, i as int) =~= bs);
    string_of(out.as_slice())
}

/// In a text of `n` lines, line `k` carries its number right-justified in a
/// gutter exactly as wide as `n` has digits, then two spaces, then the line.
pub proof fn lemma_gutter(n: nat, k: nat, line: Seq<char>)
    requires
        1 <= k <= n,
    ensures
        numbered_line(gutter_width(n), k, line).len() == gutter_width(n) + 2 + line.len(),
        numbered_line(gutter_width(n), k, line).subrange(0, gutter_width(n) as int)
            == repeat_char(' ', (gutter_width(n) - decimal(k).len()) as nat) + decimal(k),
        numbered_line(gutter_width(n), k, line).subrange(gutter_width(n) as int, gutter_width(n) + 2int)
            == seq![' ', ' '],
        numbered_line(gutter_width(n), k, line).subrange(
            gutter_width(n) + 2int,
            gutter_width(n) + 2int + line.len(),
        ) == line,
{
    lemma_decimal_len_mono(k, n);
    let w = gutter_width(n) as int;
    let l = numbered_line(gutter_width(n), k, line);
    let pad = repeat_char(' ', (gutter_width(n) - decimal(k).len()) as nat);
    assert(l.subrange(0, w) =~= pad + decimal(k));
    assert(l.subrange(w, w + 2) =~= seq![' ', ' ']);
    assert(l.subrange(w + 2, w + 2 + line.len()) =~= line);
}

} // verus!
