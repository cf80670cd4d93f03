//! The GitHub URL Extractor: recovers the `(owner, repo)` pair from an
//! upstream repository URL, accepted over HTTPS or SSH transport forms.

use crate::error::{Error, ErrorV};
use crate::model::Fork;
use vstd::prelude::*;

verus! {

/// The literal `github.com` standing at position `i` of `s`.
pub open spec fn github_at(s: Seq<char>, i: int) -> bool {
    &&& 0 <= i
    &&& i + 10 <= s.len()
    &&& s[i] == 'g'
    &&& s[i + 1] == 'i'
    &&& s[i + 2] == 't'
    &&& s[i + 3] == 'h'
    &&& s[i + 4] == 'u'
    &&& s[i + 5] == 'b'
    &&& s[i + 6] == '.'
    &&& s[i + 7] == 'c'
    &&& s[i + 8] == 'o'
    &&& s[i + 9] == 'm'
}

/// The whole pattern: `github.com` at `i`, then `/` or `:`, then a
/// non-empty owner segment free of `/` ending at the `/` at position `j`,
/// then a non-empty repo segment free of `/` spanning `j + 1` up to `k`.
pub open spec fn capture_at(s: Seq<char>, i: int, j: int, k: int) -> bool {
    &&& github_at(s, i)
    &&& i + 10 < s.len()
    &&& (s[i + 10] == '/' || s[i + 10] == ':')
    &&& i + 11 < j
    &&& j < s.len()
    &&& (forall|t: int| i + 11 <= t < j ==> s[t] != '/')
    &&& s[j] == '/'
    &&& j + 1 < k
    &&& k <= s.len()
    &&& (forall|t: int| j + 1 <= t < k ==> s[t] != '/')
}

/// Some capture of the pattern starts at position `i`.
pub open spec fn match_at(s: Seq<char>, i: int) -> bool {
    exists|j: int, k: int| capture_at(s, i, j, k)
}

/// Whether `github.com` stands at position `i`.
fn github_here(s: &str, n: usize, i: usize) -> (b: bool)
    requires
        n == s@.len(),
        i < n,
    ensures
        b == github_at(s@, i as int),
{
    if n - i < 10 {
        return false;
    }
    s.get_char(i) == 'g' && s.get_char(i + 1) == 'i' && s.get_char(i + 2) == 't' && s.get_char(
        i + 3,
    ) == 'h' && s.get_char(i + 4) == 'u' && s.get_char(i + 5) == 'b' && s.get_char(i + 6) == '.'
        && s.get_char(i + 7) == 'c' && s.get_char(i + 8) == 'o' && s.get_char(i + 9) == 'm'
}

/// The position of the first `/` at or after `from`, or `n` if none.
fn find_slash(s: &str, from: usize, n: usize) -> (r: usize)
    requires
        n == s@.len(),
        from <= n,
    ensures
        from <= r <= n,
        forall|t: int| from <= t < r ==> s@[t] != '/',
        r < n ==> s@[r as int] == '/',
{
    let mut j: usize = from;
    while j < n
        invariant
            from <= j <= n,
            n == s@.len(),
            forall|t: int| from <= t < j ==> s@[t] != '/',
        decreases n - j,
    {
        if s.get_char(j) == '/' {
            return j;
        }
        j += 1;
    }
    n
}

/// Try the pattern at position `i`: the owner-ending `/` and the repo end,
/// greedily, or nothing if the pattern does not match here.
fn try_capture(s: &str, n: usize, i: usize) -> (m: Option<(usize, usize)>)
    requires
        n == s@.len(),
        i < n,
    ensures
        match m {
            Some(p) => capture_at(s@, i as int, p.0 as int, p.1 as int) && (p.1 == n || s@[
                p.1 as int
            ] == '/'),
            None => !match_at(s@, i as int),
        },
{
    if n - i < 14 {
        proof {
            if match_at(s@, i as int) {
                let (j, k) = choose|j: int, k: int| capture_at(s@, i as int, j, k);
                assert(false);
            }
        }
        return None;
    }
    if !github_here(s, n, i) {
        proof {
            if match_at(s@, i as int) {
                let (j, k) = choose|j: int, k: int| capture_at(s@, i as int, j, k);
                assert(false);
            }
        }
        return None;
    }
    let sep = s.get_char(i + 10);
    if !(sep == '/' || sep == ':') {
        proof {
            if match_at(s@, i as int) {
                let (j, k) = choose|j: int, k: int| capture_at(s@, i as int, j, k);
                assert(false);
            }
        }
        return None;
    }
    let j = find_slash(s, i + 11, n);
    if j == n || j == i + 11 {
        proof {
            if match_at(s@, i as int) {
                let (j2, k2) = choose|j2: int, k2: int| capture_at(s@, i as int, j2, k2);
                assert(s@[j2] == '/');
                assert(false);
            }
        }
        return None;
    }
    let k = find_slash(s, j + 1, n);
    if k == j + 1 {
        proof {
            if match_at(s@, i as int) {
                let (j2, k2) = choose|j2: int, k2: int| capture_at(s@, i as int, j2, k2);
                assert(s@[j2] == '/');
                assert(j2 == j);
                assert(s@[j + 1] != '/');
                assert(false);
            }
        }
        return None;
    }
    Some((j, k))
}

impl Fork {
    /// The GitHub URL Extractor: recover the `(owner, repo)` pair of the
    /// upstream URL by matching `github.com`, then `/` or `:`, then a
    /// non-`/` owner segment, `/`, and a non-`/` repo segment — the leftmost
    /// such match, each segment as long as possible. A trailing `.git` is
    /// not stripped here; that normalization belongs to the Resolver. Fails
    /// with `UrlParseError` carrying the original URL when nothing matches.
    pub fn parse_github(&self) -> (r: Result<(String, String), Error>)
        ensures
            match r {
                Ok(p) => exists|i: int, j: int, k: int|
                    {
                        &&& #[trigger] capture_at(self@.upstream.url, i, j, k)
                        &&& (k == self@.upstream.url.len() || self@.upstream.url[k] == '/')
                        &&& (forall|i2: int| 0 <= i2 < i ==> !match_at(self@.upstream.url, i2))
                        &&& p.0@ == self@.upstream.url.subrange(i + 11, j)
                        &&& p.1@ == self@.upstream.url.subrange(j + 1, k)
                    },
                Err(e) => {
                    &&& (forall|i: int| !match_at(self@.upstream.url, i))
                    &&& e@ == ErrorV::UrlParse(self@.upstream.url)
                },
            },
    {
        let s: &str = self.upstream.url.as_str();
        let n: usize = s.unicode_len();
        let mut i: usize = 0;
        while i < n
            invariant
                i <= n,
                n == s@.len(),
                s@ == self@.upstream.url,
                forall|i2: int| 0 <= i2 < i ==> !match_at(s@, i2),
            decreases n - i,
        {
            match try_capture(s, n, i) {
                Some(p) => {
                    let (j, k) = p;
                    let owner = s.substring_char(i + 11, j).to_owned();
                    let repo = s.substring_char(j + 1, k).to_owned();
                    return Ok((owner, repo));
                },
                None => {
                    i += 1;
                },
            }
        }
        proof {
            assert forall|i2: int| !match_at(s@, i2) by {
                if match_at(s@, i2) {
                    let (j2, k2) = choose|j2: int, k2: int| capture_at(s@, i2, j2, k2);
                    assert(0 <= i2 < n);
                    assert(false);
                }
            }
        }
        Err(Error::UrlParseError(self.upstream.url.clone()))
    }
}

} // verus!
