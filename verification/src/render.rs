//! The helper transform the Script Renderer exposes to its template: turning
//! a remote URL into a canonical short name usable as a git remote
//! identifier. The template engine itself runs outside the library.

use vstd::prelude::*;

verus! {

/// The characters of `s` with `p` removed when `p` is a prefix of `s`,
/// otherwise `s` unchanged.
pub open spec fn strip_prefix_spec(s: Seq<char>, p: Seq<char>) -> Seq<char> {
    if p.len() <= s.len() && s.subrange(0, p.len() as int) == p {
        s.subrange(p.len() as int, s.len() as int)
    } else {
        s
    }
}

/// Every scheme separator `:` replaced by `/`.
pub open spec fn slashed(s: Seq<char>) -> Seq<char> {
    s.map_values(|c: char| if c == ':' { '/' } else { c })
}

/// The canonical short name of a remote URL: the transport prefix
/// (`https://` or `git@`) stripped, every remaining `:` turned into `/`.
pub open spec fn remote_name_spec(s: Seq<char>) -> Seq<char> {
    slashed(strip_prefix_spec(strip_prefix_spec(s, "https://"@), "git@"@))
}

/// Whether `p` is a prefix of `s`.
fn has_prefix(s: &str, p: &str) -> (b: bool)
    ensures
        b == (p@.len() <= s@.len() && s@.subrange(0, p@.len() as int) == p@),
{
    let n: usize = s.unicode_len();
    let m: usize = p.unicode_len();
    if m > n {
        return false;
    }
    let mut i: usize = 0;
    while i < m
        invariant
            i <= m,
            m <= n,
            m == p@.len(),
            n == s@.len(),
            forall|t: int| 0 <= t < i ==> s@[t] == p@[t],
        decreases m - i,
    {
        if s.get_char(i) != p.get_char(i) {
            assert(s@.subrange(0, m as int)[i as int] == s@[i as int]);
            return false;
        }
        i += 1;
    }
    assert(s@.subrange(0, m as int) =~= p@);
    true
}

/// The slice with prefix `p` removed if present, per `strip_prefix_spec`.
fn strip_lead<'a>(s: &'a str, p: &str) -> (r: &'a str)
    ensures
        r@ == strip_prefix_spec(s@, p@),
{
    if has_prefix(s, p) {
        s.substring_char(p.unicode_len(), s.unicode_len())
    } else {
        s
    }
}

/// The transform handed to the template: strip the transport prefix
/// (`https://` or `git@`) from a remote URL and replace any remaining `:`
/// with `/`. Pure and total over any URL shape.
pub fn remote_name(value: String) -> (r: String)
    ensures
        r@ == remote_name_spec(value@),
{
    let s1 = strip_lead(value.as_str(), "https://");
    let s2 = strip_lead(s1, "git@");
    let n: usize = s2.unicode_len();
    let mut out = String::new();
    let mut i: usize = 0;
    while i < n
        invariant
            i <= n,
            n == s2@.len(),
            out@ == slashed(s2@.subrange(0, i as int)),
        decreases n - i,
    {
        let c = s2.get_char(i);
        if c == ':' {
            out.append("/");
            proof {
                reveal_strlit("/");
                assert("/"@ =~= seq!['/']);
            }
        } else {
            let piece = s2.substring_char(i, i + 1);
            out.append(piece);
        }
        proof {
            assert(s2@.subrange(0, i + 1) =~= s2@.subrange(0, i as int).push(s2@[i as int]));
            assert(slashed(s2@.subrange(0, i + 1)) =~= slashed(s2@.subrange(0, i as int)).push(
                if s2@[i as int] == ':' {
                    '/'
                } else {
                    s2@[i as int]
                },
            ));
        }
        i += 1;
    }
    proof {
        assert(s2@.subrange(0, n as int) =~= s2@);
    }
    out
}

} // verus!
