//! Naming the files written to an output directory.
use vstd::prelude::*;
use vstd::string::StringExecFns;
use crate::error::Error;
use crate::text::{chars_of, decimal, push_all, push_decimal, string_of};

verus! {

/// Position of the last `'.'` in `s`, or -1 when there is none.
pub open spec fn last_dot(s: Seq<char>) -> int
    decreases s.len(),
{
    if s.len() == 0 {
        -1
    } else if s.last() == '.' {
        s.len() - 1
    } else {
        last_dot(s.drop_last())
    }
}

/// The name of the `num`-th alternative to `name`: the number goes after the
/// base name and before the extension (`a.txt`, `a_1.txt`, `a_2.txt`, ...).
/// A leading dot starts no extension.
pub open spec fn numbered_name_of(name: Seq<char>, num: nat) -> Seq<char> {
    if num == 0 {
        name
    } else {
        let d = last_dot(name);
        if d <= 0 {
            name + seq!['_'] + decimal(num)
        } else {
            name.subrange(0, d) + seq!['_'] + decimal(num) + name.subrange(d, name.len() as int)
        }
    }
}

/// The `num`-th alternative name for `name` (`name` itself for 0).
pub fn numbered_name(name: &str, num: usize) -> (r: String)
    ensures
        r@ == numbered_name_of(name@, num as nat),
{
    if num == 0 {
        return String::from_str(name);
    }
    let cs = chars_of(name);
    let mut i: usize = cs.len();
    assert(cs@.subrange(0, cs.len() as int) =~= cs@);
    while i > 0 && cs[i - 1] != '.'
        invariant
            i <= cs.len(),
            last_dot(cs@) == last_dot(cs@.subrange(0, i as int)),
        decreases i,
    {
        proof {
            assert(cs@.subrange(0, i as int).drop_last() =~= cs@.subrange(0, i - 1));
        }
        i = i - 1;
    }
    proof {
        assert(cs@.subrange(0, cs.len() as int) =~= cs@);
        if i > 0 {
            let t = cs@.subrange(0, i as int);
            assert(t.last() == '.');
        } else {
            assert(cs@.subrange(0, 0).len() == 0);
        }
    }
    let mut out: Vec<char> = Vec::new();
    if i <= 1 {
        push_all(&mut out, cs.as_slice());
        out.push('_');
        push_decimal(&mut out, num);
    } else {
        let dot = i - 1;
        let mut k: usize = 0;
        while k < dot
            invariant
                k <= dot < cs.len(),
                out@ == cs@.subrange(0, k as int),
            decreases dot - k,
        {
            out.push(cs[k]);
            k = k + 1;
            assert(out@ =~= cs@.subrange(0, k as int));
        }
        out.push('_');
        push_decimal(&mut out, num);
        let ghost mid = out@;
        while k < cs.len()
            invariant
                dot <= k <= cs.len(),
                out@ == mid + cs@.subrange(dot as int, k as int),
            decreases cs.len() - k,
        {
            out.push(cs[k]);
            k = k + 1;
            assert(out@ =~= mid + cs@.subrange(dot as int, k as int));
        }
    }
    string_of(out.as_slice())
}

/// Whether `name` can be written inside a directory without leaving it: not
/// empty, not `.` or `..`, and without `/` or `\`.
pub open spec fn is_safe_name(name: Seq<char>) -> bool {
    &&& name.len() > 0
    &&& name != seq!['.']
    &&& name != seq!['.', '.']
    &&& forall|i: int| 0 <= i < name.len() ==> name[i] != '/' && name[i] != '\\'
}

/// `name` as a file name inside the output directory, or an error when it
/// would leave the directory.
pub fn safe_file_name(name: &str) -> (r: Result<String, Error>)
    ensures
        is_safe_name(name@) ==> r is Ok && r->Ok_0@ == name@,
        !is_safe_name(name@) ==> r is Err && r->Err_0 is UnsafeFileName && r->Err_0->UnsafeFileName_0@ == name@,
{
    let cs = chars_of(name);
    let mut ok = cs.len() > 0;
    if cs.len() == 1 && cs[0] == '.' {
        ok = false;
        assert(cs@ =~= seq!['.']);
    }
    if cs.len() == 2 && cs[0] == '.' && cs[1] == '.' {
        ok = false;
        assert(cs@ =~= seq!['.', '.']);
    }
    let mut i: usize = 0;
    while i < cs.len()
        invariant
            i <= cs.len(),
            ok ==> forall|j: int| 0 <= j < i ==> cs@[j] != '/' && cs@[j] != '\\',
            ok ==> cs@.len() > 0 && cs@ != seq!['.'] && cs@ != seq!['.', '.'],
            !ok ==> !is_safe_name(cs@),
        decreases cs.len() - i,
    {
        if cs[i] == '/' || cs[i] == '\\' {
            ok = false;
        }
        i = i + 1;
    }
    if ok {
        Ok(String::from_str(name))
    } else {
        Err(Error::UnsafeFileName(String::from_str(name)))
    }
}

/// The line that reports one written file: `"Wrote <name> -> <path>\n"`.
pub fn summary_line(name: &str, path: &str) -> (r: String)
    ensures
        r@ == seq!['W', 'r', 'o', 't', 'e', ' '] + name@ + seq![' ', '-', '>', ' '] + path@ + seq!['\n'],
{
    let mut out: Vec<char> = Vec::new();
    out.push('W');
    out.push('r');
    out.push('o');
    out.push('t');
    out.push('e');
    out.push(' ');
    push_all(&mut out, chars_of(name).as_slice());
    out.push(' ');
    out.push('-');
    out.push('>');
    out.push(' ');
    push_all(&mut out, chars_of(path).as_slice());
    out.push('\n');
    string_of(out.as_slice())
}

} // verus!
