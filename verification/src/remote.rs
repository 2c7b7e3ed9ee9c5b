//! Remote recipe collections: a (url, ref, optional file) triple and
//! its deterministic cache-folder identity.

use vstd::prelude::*;

use crate::util;

verus! {

/// Mathematical form of a remote reference.
pub struct SpecRemote {
    pub url: Seq<char>,
    pub ref_: Seq<char>,
    pub file: Option<Seq<char>>,
}

/// An external recipe collection: where it lives, which ref to keep up
/// with, and an optional configuration file inside it.
#[derive(Debug)]
pub struct Remote {
    /// Git URL of the remote repo.
    pub url: String,
    /// Git ref to keep up with.
    pub ref_: String,
    /// Configuration file to look at inside the checkout.
    pub file: Option<String>,
}

impl View for Remote {
    type V = SpecRemote;

    open spec fn view(&self) -> SpecRemote {
        SpecRemote {
            url: self.url@,
            ref_: self.ref_@,
            file: match self.file {
                Some(f) => Some(f@),
                None => None,
            },
        }
    }
}

impl DeepView for Remote {
    type V = SpecRemote;

    open spec fn deep_view(&self) -> SpecRemote {
        self.view()
    }
}

/// The ref a remote is pinned to when none is named.
pub fn default_git_ref() -> (r: String)
    ensures
        r@ == "master"@,
{
    "master".to_owned()
}

/// What parsing a remote reference text yields.  The format is
/// `url[#[ref][/file]]`: everything before the first `#` is the url;
/// the fragment after it holds the ref and, after a `/`, the file; a
/// missing or empty ref before a file falls back to `master`, and a
/// text without `#` keeps the whole text as url with ref `master`.
pub open spec fn spec_remote_parse(s: Seq<char>) -> SpecRemote {
    let h = util::first_idx(s, '#');
    if h < 0 {
        SpecRemote { url: s, ref_: "master"@, file: None }
    } else {
        let url = s.take(h);
        let frag = s.skip(h + util::run_len(s.skip(h), '#'));
        let d = util::first_idx(frag, '/');
        if d < 0 {
            SpecRemote { url: url, ref_: frag, file: None }
        } else {
            let rf = frag.take(d);
            let file = frag.skip(d + util::run_len(frag.skip(d), '/'));
            SpecRemote {
                url: url,
                ref_: if rf.len() == 0 {
                    "master"@
                } else {
                    rf
                },
                file: Some(file),
            }
        }
    }
}

/// What rendering a remote yields: `url#ref` or `url#ref/file`.
pub open spec fn spec_remote_str(r: SpecRemote) -> Seq<char> {
    match r.file {
        Some(f) => r.url + "#"@ + r.ref_ + "/"@ + f,
        None => r.url + "#"@ + r.ref_,
    }
}

/// What the last path segment of a url is.
pub uninterp spec fn slug_of(url: Seq<char>) -> Option<Seq<char>>;

/// Relies on url::Url::parse and Url::path_segments: the last path
/// segment of the url, parsed first with an implicit `https://` scheme
/// and then as written; a function of the url text alone.
#[verifier::external_body]
fn url_last_segment(url: &str) -> (r: Option<String>)
    ensures
        match r {
            Some(s) => slug_of(url@) == Some(s@),
            None => slug_of(url@) is None,
        },
{
    let parsed = url::Url::parse(&format!("https://{}", url)).or_else(|_| url::Url::parse(url));
    match parsed {
        Ok(u) => match u.path_segments() {
            Some(mut segments) => segments.next_back().map(|x| x.to_string()),
            None => None,
        },
        Err(_) => None,
    }
}

/// The cache-folder name of a remote: a readable slug when the url has
/// one, the pinned ref, and the digest of (url, ref).
pub open spec fn spec_folder_name(r: SpecRemote) -> Seq<char> {
    let digest = util::spec_hash_url_ref(r.url, r.ref_);
    match slug_of(r.url) {
        Some(name) => name + "-"@ + r.ref_ + "-"@ + digest,
        None => "unknown-"@ + r.ref_ + "-"@ + digest,
    }
}

/// The folder identity of a remote is a function of its url and ref
/// alone: two remotes that agree on those resolve to the same cache
/// folder, whatever their file overrides.
pub proof fn lemma_remote_identity(a: SpecRemote, b: SpecRemote)
    requires
        a.url == b.url,
        a.ref_ == b.ref_,
    ensures
        spec_folder_name(a) == spec_folder_name(b),
{
}

/// Rendering a remote and parsing the text back reproduces its url,
/// ref and file, provided the fields can survive the format at all:
/// the url carries no `#`, the ref is nonempty, opens with neither `#`
/// nor `/` and carries no `/`, and the file, when there is one, does
/// not open with `/`.
pub proof fn lemma_remote_round_trip(r: SpecRemote)
    requires
        forall|i: int| 0 <= i < r.url.len() ==> r.url[i] != '#',
        r.ref_.len() > 0,
        r.ref_[0] != '#',
        forall|i: int| 0 <= i < r.ref_.len() ==> r.ref_[i] != '/',
        match r.file {
            Some(f) => f.len() == 0 || f[0] != '/',
            None => true,
        },
    ensures
        spec_remote_parse(spec_remote_str(r)) == r,
{
    reveal_strlit("#");
    reveal_strlit("/");
    reveal_strlit("master");
    let s = spec_remote_str(r);
    let tail: Seq<char> = match r.file {
        Some(f) => r.ref_ + "/"@ + f,
        None => r.ref_,
    };
    assert(s =~= r.url + seq!['#'] + tail);
    util::lemma_first_idx_concat(r.url, tail, '#');
    let h = util::first_idx(s, '#');
    assert(h == r.url.len());
    assert(s.take(h) =~= r.url);
    assert(s.skip(h) =~= seq!['#'] + tail);
    assert(s.skip(h)[0] == '#');
    assert(s.skip(h).skip(1) =~= tail);
    assert(tail[0] == r.ref_[0]);
    assert(util::run_len(tail, '#') == 0);
    assert(util::run_len(s.skip(h), '#') == 1);
    let frag = s.skip(h + 1);
    assert(frag =~= tail);
    match r.file {
        None => {
            util::lemma_first_idx_none(r.ref_, '/');
            assert(util::first_idx(frag, '/') < 0);
        },
        Some(f) => {
            assert(tail =~= r.ref_ + seq!['/'] + f);
            util::lemma_first_idx_concat(r.ref_, f, '/');
            let d = util::first_idx(frag, '/');
            assert(d == r.ref_.len());
            assert(frag.take(d) =~= r.ref_);
            assert(frag.skip(d) =~= seq!['/'] + f);
            assert(frag.skip(d)[0] == '/');
            assert(frag.skip(d).skip(1) =~= f);
            if f.len() == 0 {
                assert(util::run_len(f, '/') == 0);
            } else {
                assert(f[0] != '/');
                assert(util::run_len(f, '/') == 0);
            }
            assert(util::run_len(frag.skip(d).skip(1), '/') == 0);
            assert(util::run_len(frag.skip(d), '/') == 1);
            assert(frag.skip(d + 1) =~= f);
        },
    }
}

impl Remote {
    /// Parse a remote reference text, for example
    /// `host.com/repo.git#dev/dev.yaml`.
    pub fn parse(text: &str) -> (r: Remote)
        ensures
            r@ == spec_remote_parse(text@),
    {
        let ghost s = text@;
        let n = text.unicode_len();
        match util::find_char(text, '#') {
            None => Remote { url: text.to_owned(), ref_: default_git_ref(), file: None },
            Some(h) => {
                let url = text.substring_char(0, h).to_owned();
                let fs = util::run_end(text, h, '#');
                let frag = text.substring_char(fs, n);
                proof {
                    assert(s.skip(h as int) =~= s.subrange(h as int, n as int));
                    assert(frag@ =~= s.skip(h + util::run_len(s.skip(h as int), '#')));
                }
                match util::find_char(frag, '/') {
                    None => Remote { url: url, ref_: frag.to_owned(), file: None },
                    Some(d) => {
                        let m = frag.unicode_len();
                        let rf = frag.substring_char(0, d);
                        let fe = util::run_end(frag, d, '/');
                        let file = frag.substring_char(fe, m).to_owned();
                        proof {
                            assert(frag@.skip(d as int) =~= frag@.subrange(d as int, m as int));
                            assert(file@ =~= frag@.skip(
                                d + util::run_len(frag@.skip(d as int), '/'),
                            ));
                        }
                        let ref_ = if rf.unicode_len() == 0 {
                            default_git_ref()
                        } else {
                            rf.to_owned()
                        };
                        Remote { url: url, ref_: ref_, file: Some(file) }
                    },
                }
            },
        }
    }

    /// Render the remote as `url#ref` or `url#ref/file`.
    pub fn to_string(&self) -> (r: String)
        ensures
            r@ == spec_remote_str(self@),
    {
        let out = self.url.clone().concat("#").concat(self.ref_.as_str());
        match &self.file {
            Some(f) => out.concat("/").concat(f.as_str()),
            None => out,
        }
    }

    /// A copy with the same fields.
    pub fn duplicate(&self) -> (r: Remote)
        ensures
            r@ == self@,
    {
        Remote {
            url: self.url.clone(),
            ref_: self.ref_.clone(),
            file: match &self.file {
                Some(f) => Some(f.clone()),
                None => None,
            },
        }
    }

    /// This remote's cache folder inside `mold_dir`.
    pub fn path(&self, mold_dir: &str) -> (r: String)
        ensures
            r@ == mold_dir@ + "/"@ + spec_folder_name(self@),
    {
        let digest = util::hash_url_ref(self.url.as_str(), self.ref_.as_str());
        let folder = match url_last_segment(self.url.as_str()) {
            Some(name) => name.concat("-").concat(self.ref_.as_str()).concat("-").concat(
                digest.as_str(),
            ),
            None => "unknown-".to_owned().concat(self.ref_.as_str()).concat("-").concat(
                digest.as_str(),
            ),
        };
        mold_dir.to_owned().concat("/").concat(folder.as_str())
    }
}

} // verus!
