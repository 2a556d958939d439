//! Absolute URLs, held as the serialization that the `url` crate gives them.
use vstd::prelude::*;

verus! {

/// The serialization of what `url::Url::parse` makes of `s`, or none when it refuses `s`.
pub uninterp spec fn url_parse(s: Seq<char>) -> Option<Seq<char>>;

/// The path segments of the URL that `s` parses to, or none when it cannot be a base.
pub uninterp spec fn url_path_segments(s: Seq<char>) -> Option<Seq<Seq<char>>>;

/// The last path segment of the URL `s`.
pub open spec fn last_segment_of(s: Seq<char>) -> Option<Seq<char>> {
    match url_path_segments(s) {
        Some(p) => if p.len() > 0 {
            Some(p.last())
        } else {
            None
        },
        None => None,
    }
}

/// The path segments of the URL `s` that are not empty.
pub open spec fn nonempty_segments(p: Seq<Seq<char>>) -> Seq<Seq<char>> {
    p.filter(|x: Seq<char>| x.len() > 0)
}

/// Whether `s` parses to itself: a URL in the parser's own serialization.
pub open spec fn is_canonical_url(s: Seq<char>) -> bool {
    url_parse(s) == Some(s)
}

/// Relies on `url::Url::parse` and `Url::as_str`: parses `s` as an absolute URL
/// and hands back its serialization.
#[verifier::external_body]
fn parse_url_text(s: &str) -> (r: Option<String>)
    ensures
        match r {
            Some(t) => url_parse(s@) == Some(t@),
            None => url_parse(s@) is None,
        },
{
    url::Url::parse(s).ok().map(|u| u.as_str().to_owned())
}

/// Relies on `url::Url::parse` and `Url::path_segments`: the segments of the
/// path of the URL `s`, in order.
#[verifier::external_body]
fn path_segments_text(s: &str) -> (r: Option<Vec<String>>)
    ensures
        match r {
            Some(v) => url_path_segments(s@) == Some(v@.map_values(|x: String| x@)),
            None => url_path_segments(s@) is None,
        },
{
    url::Url::parse(s).ok().and_then(|u| u.path_segments().map(|p| p.map(|x| x.to_owned()).collect()))
}

/// An absolute URL.
pub struct WebUrl {
    text: String,
}

impl View for WebUrl {
    type V = Seq<char>;

    closed spec fn view(&self) -> Seq<char> {
        self.text@
    }
}

impl Clone for WebUrl {
    fn clone(&self) -> (r: WebUrl)
        ensures
            r@ == self@,
    {
        WebUrl { text: self.text.clone() }
    }
}

impl WebUrl {
    /// Parses `s` as an absolute URL.
    pub fn parse(s: &str) -> (r: Option<WebUrl>)
        ensures
            match r {
                Some(u) => url_parse(s@) == Some(u@),
                None => url_parse(s@) is None,
            },
    {
        match parse_url_text(s) {
            Some(t) => Some(WebUrl { text: t }),
            None => None,
        }
    }

    /// The serialization of the URL.
    pub fn as_str(&self) -> (r: &str)
        ensures
            r@ == self@,
    {
        self.text.as_str()
    }

    /// The last segment of the URL's path, or none when it has no path.
    pub fn last_segment(&self) -> (r: Option<String>)
        ensures
            match r {
                Some(t) => last_segment_of(self@) == Some(t@),
                None => last_segment_of(self@) is None,
            },
    {
        match path_segments_text(self.text.as_str()) {
            Some(mut v) => {
                let ghost p = v@.map_values(|x: String| x@);
                if v.len() > 0 {
                    let t = v.pop().unwrap();
                    proof {
                        assert(p.last() == t@);
                    }
                    Some(t)
                } else {
                    None
                }
            },
            None => None,
        }
    }

    /// The segments of the URL's path that are not empty.
    pub fn segments(&self) -> (r: Vec<String>)
        ensures
            match url_path_segments(self@) {
                Some(p) => r@.map_values(|x: String| x@) == nonempty_segments(p),
                None => r@.len() == 0,
            },
    {
        let mut out: Vec<String> = Vec::new();
        match path_segments_text(self.text.as_str()) {
            Some(v) => {
                let ghost p = v@.map_values(|x: String| x@);
                let mut i: usize = 0;
                assert(p.subrange(0, 0) =~= Seq::<Seq<char>>::empty());
                while i < v.len()
                    invariant
                        i <= v.len(),
                        p == v@.map_values(|x: String| x@),
                        out@.map_values(|x: String| x@) == nonempty_segments(p.subrange(0, i as int)),
                    decreases v.len() - i,
                {
                    proof {
                        let q = p.subrange(0, i + 1);
                        assert(q.drop_last() =~= p.subrange(0, i as int));
                        assert(q.last() == v@[i as int]@);
                        reveal(Seq::filter);
                    }
                    if !v[i].as_str().is_empty() {
                        out.push(v[i].clone());
                        assert(out@.map_values(|x: String| x@) =~= nonempty_segments(p.subrange(0, i as int)).push(v@[i as int]@));
                    }
                    i = i + 1;
                }
                assert(p.subrange(0, i as int) =~= p);
            },
            None => {},
        }
        out
    }
}

} // verus!
