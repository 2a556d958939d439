//! Choosing which files of a resolved paste to hand out, and how to show them.
use vstd::prelude::*;
use crate::error::Error;
use crate::text::{find_first, lemma_find_first, lemma_find_first_at};
use crate::url::WebUrl;

verus! {

/// What `str::to_lowercase` makes of `s`.
pub uninterp spec fn lower_of(s: Seq<char>) -> Seq<char>;

/// Relies on `str::to_lowercase`: the result depends on the characters alone.
#[verifier::external_body]
fn lowercase(s: &str) -> (r: String)
    ensures
        r@ == lower_of(s@),
{
    s.to_lowercase()
}

/// One file of a remote paste: its name, its URL and, when they were already
/// fetched, its contents.
pub struct RemotePasteFile {
    pub name: String,
    pub url: WebUrl,
    pub contents: Option<String>,
}

/// The contents of a file that may not have been fetched.
pub open spec fn contents_view(c: Option<String>) -> Option<Seq<char>> {
    match c {
        Some(s) => Some(s@),
        None => None,
    }
}

impl View for RemotePasteFile {
    type V = (Seq<char>, Seq<char>, Option<Seq<char>>);

    open spec fn view(&self) -> (Seq<char>, Seq<char>, Option<Seq<char>>) {
        (self.name@, self.url@, contents_view(self.contents))
    }
}

impl Clone for RemotePasteFile {
    fn clone(&self) -> (r: RemotePasteFile)
        ensures
            r@ == self@,
    {
        let contents = match &self.contents {
            Some(c) => Some(c.clone()),
            None => None,
        };
        RemotePasteFile { name: self.name.clone(), url: self.url.clone(), contents }
    }
}

/// A named text file, local or freshly fetched.
pub struct PasteFile {
    pub name: String,
    pub data: String,
}

impl View for PasteFile {
    type V = (Seq<char>, Seq<char>);

    open spec fn view(&self) -> (Seq<char>, Seq<char>) {
        (self.name@, self.data@)
    }
}

/// Which files to take from a paste with several.
pub struct Selection {
    /// File names, matched without regard to case; the first mode when not empty.
    pub files: Vec<String>,
    /// File numbers, counted from 1 in resolution order.
    pub range: Option<Vec<usize>>,
    /// Take every file.
    pub all: bool,
}

/// Why a selection failed, in terms of positions.
pub enum Miss {
    /// The requested name at this position matches no file.
    Name(int),
    /// The requested number at this position is no file's number.
    Number(int),
    /// Several files, and no selection mode.
    Ambiguous,
}

/// The views of some strings.
pub open spec fn views(v: Seq<String>) -> Seq<Seq<char>> {
    v.map_values(|s: String| s@)
}

/// Positions of the files whose keys match the requests, in request order,
/// or the position of the first request that matches none.
pub open spec fn pick_by_names(keys: Seq<Seq<char>>, reqs: Seq<Seq<char>>) -> Result<Seq<int>, int>
    decreases reqs.len(),
{
    if reqs.len() == 0 {
        Ok(seq![])
    } else {
        match pick_by_names(keys, reqs.drop_last()) {
            Err(k) => Err(k),
            Ok(ix) => {
                let i = find_first(keys, reqs.last());
                if i < 0 || i >= keys.len() {
                    Err(reqs.len() - 1)
                } else {
                    Ok(ix.push(i))
                }
            },
        }
    }
}

/// Positions of the files numbered `nums` (from 1, out of `n`), or the position
/// of the first number that is no file's.
pub open spec fn pick_by_numbers(n: int, nums: Seq<int>) -> Result<Seq<int>, int>
    decreases nums.len(),
{
    if nums.len() == 0 {
        Ok(seq![])
    } else {
        match pick_by_numbers(n, nums.drop_last()) {
            Err(k) => Err(k),
            Ok(ix) => if 1 <= nums.last() <= n {
                Ok(ix.push(nums.last() - 1))
            } else {
                Err(nums.len() - 1)
            },
        }
    }
}

/// The positions that a selection takes out of `n` files whose folded names
/// are `keys`, given the folded requested names `reqs`.
pub open spec fn pick(n: int, keys: Seq<Seq<char>>, reqs: Seq<Seq<char>>, range: Option<Seq<int>>, all: bool) -> Result<Seq<int>, Miss> {
    if reqs.len() > 0 {
        match pick_by_names(keys, reqs) {
            Ok(ix) => Ok(ix),
            Err(k) => Err(Miss::Name(k)),
        }
    } else if range is Some {
        match pick_by_numbers(n, range->Some_0) {
            Ok(ix) => Ok(ix),
            Err(k) => Err(Miss::Number(k)),
        }
    } else if all || n <= 1 {
        Ok(Seq::new(n as nat, |i: int| i))
    } else {
        Err(Miss::Ambiguous)
    }
}

/// The numbers of a range, as integers.
pub open spec fn range_view(r: Option<Vec<usize>>) -> Option<Seq<int>> {
    match r {
        Some(v) => Some(v@.map_values(|x: usize| x as int)),
        None => None,
    }
}

/// What a selection of `files` returns, given the folded names.
pub open spec fn selected(
    files: Seq<RemotePasteFile>,
    keys: Seq<Seq<char>>,
    reqs: Seq<Seq<char>>,
    sel: Selection,
    r: Result<Vec<RemotePasteFile>, Error>,
) -> bool {
    match pick(files.len() as int, keys, reqs, range_view(sel.range), sel.all) {
        Ok(ix) => r is Ok && r->Ok_0@.len() == ix.len() && forall|k: int|
            0 <= k < ix.len() ==> (#[trigger] r->Ok_0@[k])@ == files[ix[k]]@,
        Err(Miss::Name(k)) => r is Err && r->Err_0 is FileNotFound
            && r->Err_0->FileNotFound_0@ == sel.files@[k]@,
        Err(Miss::Number(k)) => r is Err && r->Err_0 is FileNumberNotFound
            && r->Err_0->FileNumberNotFound_0 == sel.range->Some_0@[k],
        Err(Miss::Ambiguous) => r is Err && r->Err_0 is AmbiguousSelection
            && views(r->Err_0->AmbiguousSelection_0@) == files.map_values(|f: RemotePasteFile| f.name@),
    }
}

/// Position of the first key equal to `q`, or `keys.len()`.
pub fn find_key(keys: &Vec<String>, q: &String) -> (r: usize)
    ensures
        r == find_first(views(keys@), q@),
{
    let ghost ks = views(keys@);
    let mut i: usize = 0;
    while i < keys.len() && !(keys[i] == *q)
        invariant
            i <= keys.len(),
            ks == views(keys@),
            forall|j: int| 0 <= j < i ==> ks[j] != q@,
        decreases keys.len() - i,
    {
        i = i + 1;
    }
    proof {
        lemma_find_first_at(ks, q@, i as int);
    }
    i
}

/// Selects files by folded names `keys` (one per file) and folded requested
/// names `reqs` (one per name of `sel.files`).
pub fn select_by_keys(files: &Vec<RemotePasteFile>, keys: &Vec<String>, reqs: &Vec<String>, sel: &Selection) -> (r: Result<Vec<RemotePasteFile>, Error>)
    requires
        keys.len() == files.len(),
        reqs.len() == sel.files.len(),
    ensures
        selected(files@, views(keys@), views(reqs@), *sel, r),
{
    let ghost ks = views(keys@);
    let ghost rs = views(reqs@);
    let mut out: Vec<RemotePasteFile> = Vec::new();
    if reqs.len() > 0 {
        let mut k: usize = 0;
        let ghost ix: Seq<int> = seq![];
        while k < reqs.len()
            invariant
                k <= reqs.len() == sel.files.len(),
                keys.len() == files.len(),
                ks == views(keys@),
                rs == views(reqs@),
                pick_by_names(ks, rs.subrange(0, k as int)) == Ok::<Seq<int>, int>(ix),
                out@.len() == ix.len() == k,
                forall|j: int| 0 <= j < k ==> (#[trigger] out@[j])@ == files@[ix[j]]@,
            decreases reqs.len() - k,
        {
            let i = find_key(keys, &reqs[k]);
            proof {
                lemma_find_first(ks, rs[k as int]);
                assert(rs.subrange(0, k + 1).drop_last() =~= rs.subrange(0, k as int));
            }
            if i >= keys.len() {
                proof {
                    lemma_names_prefix(ks, rs, k + 1);
                }
                return Err(Error::FileNotFound(sel.files[k].clone()));
            }
            out.push(files[i].clone());
            proof {
                ix = ix.push(i as int);
            }
            k = k + 1;
        }
        assert(rs.subrange(0, k as int) =~= rs);
        return Ok(out);
    }
    match &sel.range {
        Some(nums) => {
            let ghost ns = nums@.map_values(|x: usize| x as int);
            let mut k: usize = 0;
            let ghost ix: Seq<int> = seq![];
            while k < nums.len()
                invariant
                    k <= nums.len(),
                    ns == nums@.map_values(|x: usize| x as int),
                    sel.range is Some && sel.range->Some_0@ == nums@,
                    reqs.len() == 0,
                    rs == views(reqs@),
                    pick_by_numbers(files.len() as int, ns.subrange(0, k as int)) == Ok::<Seq<int>, int>(ix),
                    out@.len() == ix.len() == k,
                    forall|j: int| 0 <= j < k ==> (#[trigger] out@[j])@ == files@[ix[j]]@,
                decreases nums.len() - k,
            {
                let n = nums[k];
                proof {
                    assert(ns.subrange(0, k + 1).drop_last() =~= ns.subrange(0, k as int));
                }
                if n < 1 || n > files.len() {
                    proof {
                        assert(ns.subrange(0, k + 1).last() == n as int);
                        lemma_numbers_prefix(files.len() as int, ns, k + 1);
                        assert(range_view(sel.range) == Some(ns));
                    }
                    return Err(Error::FileNumberNotFound(n));
                }
                out.push(files[n - 1].clone());
                proof {
                    ix = ix.push(n - 1);
                }
                k = k + 1;
            }
            assert(ns.subrange(0, k as int) =~= ns);
            Ok(out)
        },
        None => {
            if sel.all || files.len() <= 1 {
                let mut k: usize = 0;
                while k < files.len()
                    invariant
                        k <= files.len(),
                        out@.len() == k,
                        forall|j: int| 0 <= j < k ==> (#[trigger] out@[j])@ == files@[j]@,
                    decreases files.len() - k,
                {
                    out.push(files[k].clone());
                    k = k + 1;
                }
                Ok(out)
            } else {
                let mut names: Vec<String> = Vec::new();
                let mut k: usize = 0;
                while k < files.len()
                    invariant
                        k <= files.len(),
                        names@.len() == k,
                        forall|j: int| 0 <= j < k ==> (#[trigger] names@[j])@ == files@[j].name@,
                    decreases files.len() - k,
                {
                    names.push(files[k].name.clone());
                    k = k + 1;
                }
                assert(views(names@) =~= files@.map_values(|f: RemotePasteFile| f.name@));
                Err(Error::AmbiguousSelection(names))
            }
        },
    }
}

proof fn lemma_names_prefix(keys: Seq<Seq<char>>, reqs: Seq<Seq<char>>, k: int)
    requires
        0 <= k <= reqs.len(),
        pick_by_names(keys, reqs.subrange(0, k)) == Err::<Seq<int>, int>(k - 1),
    ensures
        pick_by_names(keys, reqs) == Err::<Seq<int>, int>(k - 1),
    decreases reqs.len(),
{
    if k == reqs.len() {
        assert(reqs.subrange(0, k) =~= reqs);
    } else {
        assert(reqs.drop_last().subrange(0, k) =~= reqs.subrange(0, k));
        lemma_names_prefix(keys, reqs.drop_last(), k);
    }
}

proof fn lemma_numbers_prefix(n: int, nums: Seq<int>, k: int)
    requires
        0 <= k <= nums.len(),
        pick_by_numbers(n, nums.subrange(0, k)) == Err::<Seq<int>, int>(k - 1),
    ensures
        pick_by_numbers(n, nums) == Err::<Seq<int>, int>(k - 1),
    decreases nums.len(),
{
    if k == nums.len() {
        assert(nums.subrange(0, k) =~= nums);
    } else {
        assert(nums.drop_last().subrange(0, k) =~= nums.subrange(0, k));
        lemma_numbers_prefix(n, nums.drop_last(), k);
    }
}

/// Selects files of a resolved paste: by name (without regard to case), by
/// number, all of them, the only one, or fails listing every name.
pub fn select_files(files: &Vec<RemotePasteFile>, sel: &Selection) -> (r: Result<Vec<RemotePasteFile>, Error>)
    ensures
        selected(
            files@,
            files@.map_values(|f: RemotePasteFile| lower_of(f.name@)),
            sel.files@.map_values(|s: String| lower_of(s@)),
            *sel,
            r,
        ),
{
    let mut keys: Vec<String> = Vec::new();
    let mut k: usize = 0;
    while k < files.len()
        invariant
            k <= files.len(),
            keys@.len() == k,
            forall|j: int| 0 <= j < k ==> (#[trigger] keys@[j])@ == lower_of(files@[j].name@),
        decreases files.len() - k,
    {
        keys.push(lowercase(files[k].name.as_str()));
        k = k + 1;
    }
    let mut reqs: Vec<String> = Vec::new();
    let mut k: usize = 0;
    while k < sel.files.len()
        invariant
            k <= sel.files.len(),
            reqs@.len() == k,
            forall|j: int| 0 <= j < k ==> (#[trigger] reqs@[j])@ == lower_of(sel.files@[j]@),
        decreases sel.files.len() - k,
    {
        reqs.push(lowercase(sel.files[k].as_str()));
        k = k + 1;
    }
    assert(views(keys@) =~= files@.map_values(|f: RemotePasteFile| lower_of(f.name@)));
    assert(views(reqs@) =~= sel.files@.map_values(|s: String| lower_of(s@)));
    select_by_keys(files, &keys, &reqs, sel)
}

} // verus!
