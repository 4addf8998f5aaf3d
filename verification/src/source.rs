use vstd::prelude::*;
use crate::error::Error;

verus! {

/// Whether `url::Url::parse` accepts a string as a well-formed URL.
/// Acceptance is a function of the string alone.
pub uninterp spec fn url_parse_accepts(s: Seq<char>) -> bool;

/// Relies on `url::Url::parse`: it deterministically accepts or rejects its
/// input string, with no inputs besides the string itself; on rejection the
/// parse error's rendering is handed back as the cause.
#[verifier::external_body]
fn check_url(s: &str) -> (r: Result<(), String>)
    ensures
        r is Ok <==> url_parse_accepts(s@),
{
    match url::Url::parse(s) {
        Ok(_) => Ok(()),
        Err(e) => Err(e.to_string()),
    }
}

/// The index of the last `/` in `u`, or `-1` if `u` holds none.
pub open spec fn last_slash(u: Seq<char>) -> int
    decreases u.len(),
{
    if u.len() == 0 {
        -1
    } else if u[u.len() - 1] == '/' {
        u.len() - 1
    } else {
        last_slash(u.drop_last())
    }
}

pub proof fn lemma_last_slash(u: Seq<char>)
    ensures
        -1 <= last_slash(u) < u.len(),
        last_slash(u) >= 0 ==> u[last_slash(u)] == '/',
        forall|j: int| last_slash(u) < j < u.len() ==> u[j] != '/',
    decreases u.len(),
{
    if u.len() == 0 {
    } else if u[u.len() - 1] == '/' {
    } else {
        lemma_last_slash(u.drop_last());
        assert forall|j: int| last_slash(u) < j < u.len() implies u[j] != '/' by {
            if j < u.len() - 1 {
                assert(u.drop_last()[j] == u[j]);
            }
        }
    }
}

/// The canonical on-disk name derived from an endpoint: its final path
/// segment. The segment must be nonempty and follow a character other than
/// `/`, so that the separator of a scheme (`//`) or a trailing `/` never
/// yields a name.
pub open spec fn file_name_of_url(u: Seq<char>) -> Option<Seq<char>> {
    let k = last_slash(u);
    if 1 <= k && k + 1 < u.len() && u[k - 1] != '/' {
        Some(u.subrange(k + 1, u.len() as int))
    } else {
        None
    }
}

/// Where an artifact comes from: one variant per supported origin kind.
#[derive(Debug, Clone)]
pub enum Source {
    /// A direct download from an absolute URL.
    Download { url: String },
}

/// The mathematical value of a [`Source`].
pub enum SourceV {
    Download { url: Seq<char> },
}

impl View for Source {
    type V = SourceV;

    open spec fn view(&self) -> SourceV {
        match self {
            Source::Download { url } => SourceV::Download { url: url@ },
        }
    }
}

/// The endpoint string a source names.
pub open spec fn spec_endpoint(s: SourceV) -> Seq<char> {
    match s {
        SourceV::Download { url } => url,
    }
}

/// The canonical file name a source yields, if any.
pub open spec fn spec_file_name(s: SourceV) -> Option<Seq<char>> {
    match s {
        SourceV::Download { url } => file_name_of_url(url),
    }
}

impl Source {
    /// The absolute endpoint this source downloads from, validated as a URL.
    pub fn resolve_url(&self) -> (r: Result<String, Error>)
        ensures
            url_parse_accepts(spec_endpoint(self@)) ==> (r matches Ok(u) && u@ == spec_endpoint(
                self@,
            )),
            !url_parse_accepts(spec_endpoint(self@)) ==> (r matches Err(e) && e matches Error::URL(
                _,
            )),
    {
        match self {
            Source::Download { url } => match check_url(url.as_str()) {
                Ok(()) => Ok(url.clone()),
                Err(cause) => Err(Error::URL(cause)),
            },
        }
    }

    /// The canonical on-disk file name for this source: the final path
    /// segment of its endpoint.
    pub fn derive_file_name(&self) -> (r: Result<String, Error>)
        ensures
            match spec_file_name(self@) {
                Some(n) => r matches Ok(f) && f@ == n,
                None => r == Err::<String, Error>(Error::InvalidSource),
            },
    {
        match self {
            Source::Download { url } => {
                let s = url.as_str();
                let n = s.unicode_len();
                let mut idx: usize = 0;
                let mut last: Option<usize> = None;
                while idx < n
                    invariant
                        idx <= n,
                        n == s@.len(),
                        match last {
                            Some(k) => k < idx && s@[k as int] == '/' && (forall|j: int|
                                k < j < idx ==> s@[j] != '/'),
                            None => forall|j: int| 0 <= j < idx ==> s@[j] != '/',
                        },
                    decreases n - idx,
                {
                    if s.get_char(idx) == '/' {
                        last = Some(idx);
                    }
                    idx += 1;
                }
                proof {
                    lemma_last_slash(s@);
                    match last {
                        Some(k) => {
                            if last_slash(s@) > k {
                                assert(s@[last_slash(s@)] != '/');
                            }
                            assert(last_slash(s@) == k);
                        },
                        None => {
                            if last_slash(s@) >= 0 {
                                assert(s@[last_slash(s@)] != '/');
                            }
                        },
                    }
                }
                match last {
                    Some(k) => {
                        if k >= 1 && k + 1 < n && s.get_char(k - 1) != '/' {
                            let seg = s.substring_char(k + 1, n);
                            Ok(seg.to_owned())
                        } else {
                            Err(Error::InvalidSource)
                        }
                    },
                    None => Err(Error::InvalidSource),
                }
            },
        }
    }
}

} // verus!
