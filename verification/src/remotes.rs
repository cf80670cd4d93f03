//! The Remote Set Collector: walks the resolved model and produces the
//! deduplicated collection of every remote URL the configuration touches,
//! joined into the single string the rendered script registers.

use crate::model::{Config, ForkV, Update, UpdateV};
use vstd::prelude::*;

verus! {

/// The URLs of a list of change references, in order: the URL of every
/// resolved change. A pull-request placeholder carries no URL.
pub open spec fn change_urls(changes: Seq<UpdateV>) -> Seq<Seq<char>>
    decreases changes.len(),
{
    if changes.len() == 0 {
        Seq::empty()
    } else {
        change_urls(changes.drop_last()) + (match changes.last() {
            UpdateV::Change(c) => seq![c.url],
            UpdateV::PR(_) => Seq::<Seq<char>>::empty(),
        })
    }
}

/// The URLs one fork touches, in order: its target, its upstream, then its
/// changes.
pub open spec fn fork_urls(f: ForkV) -> Seq<Seq<char>> {
    seq![f.target.url, f.upstream.url] + change_urls(f.changes)
}

/// The URLs of the whole model, fork by fork.
pub open spec fn config_urls(forks: Seq<ForkV>) -> Seq<Seq<char>>
    decreases forks.len(),
{
    if forks.len() == 0 {
        Seq::empty()
    } else {
        config_urls(forks.drop_last()) + fork_urls(forks.last())
    }
}

/// First-occurrence deduplication: each URL kept at the position of its
/// first appearance, later duplicates dropped.
pub open spec fn dedup(s: Seq<Seq<char>>) -> Seq<Seq<char>>
    decreases s.len(),
{
    if s.len() == 0 {
        Seq::empty()
    } else {
        let rest = dedup(s.drop_last());
        if rest.contains(s.last()) {
            rest
        } else {
            rest.push(s.last())
        }
    }
}

/// The collected URLs joined with single spaces.
pub open spec fn join_spaces(s: Seq<Seq<char>>) -> Seq<char>
    decreases s.len(),
{
    if s.len() == 0 {
        Seq::empty()
    } else if s.len() == 1 {
        s[0]
    } else {
        join_spaces(s.drop_last()) + " "@ + s.last()
    }
}

/// The views of a vector of strings.
pub open spec fn views_of(s: Seq<String>) -> Seq<Seq<char>> {
    s.map_values(|x: String| x@)
}

/// How one more URL changes a deduplicated sequence.
pub proof fn lemma_dedup_push(s: Seq<Seq<char>>, u: Seq<char>)
    ensures
        dedup(s.push(u)) == (if dedup(s).contains(u) {
            dedup(s)
        } else {
            dedup(s).push(u)
        }),
{
    assert(s.push(u).drop_last() =~= s);
    assert(s.push(u).last() == u);
    assert(s.push(u).len() == s.len() + 1);
}

/// Law: deduplication loses no URL, invents none, and leaves no duplicate —
/// a URL is in the deduplicated sequence exactly when it is in the original,
/// and no two positions of the result hold the same URL.
pub proof fn lemma_dedup_set(s: Seq<Seq<char>>)
    ensures
        forall|u: Seq<char>| #[trigger] dedup(s).contains(u) <==> s.contains(u),
        forall|i: int, j: int|
            0 <= i < j < dedup(s).len() ==> dedup(s)[i] != dedup(s)[j],
    decreases s.len(),
{
    if s.len() == 0 {
    } else {
        let butlast = s.drop_last();
        lemma_dedup_set(butlast);
        assert forall|u: Seq<char>| #[trigger] dedup(s).contains(u) implies s.contains(u) by {
            if dedup(butlast).contains(u) {
                let t = choose|t: int| 0 <= t < butlast.len() && butlast[t] == u;
                assert(s[t] == u);
            } else {
                assert(u == s.last());
                assert(s[s.len() - 1] == u);
            }
        }
        assert forall|u: Seq<char>| s.contains(u) implies #[trigger] dedup(s).contains(u) by {
            let t = choose|t: int| 0 <= t < s.len() && s[t] == u;
            if t < butlast.len() {
                assert(butlast[t] == u);
                assert(dedup(butlast).contains(u));
                if !dedup(butlast).contains(s.last()) {
                    let w = choose|w: int|
                        0 <= w < dedup(butlast).len() && dedup(butlast)[w] == u;
                    assert(dedup(s)[w] == u);
                }
            } else {
                assert(u == s.last());
                if dedup(butlast).contains(u) {
                    let w = choose|w: int|
                        0 <= w < dedup(butlast).len() && dedup(butlast)[w] == u;
                    assert(dedup(s)[w] == u);
                } else {
                    assert(dedup(s)[dedup(s).len() - 1] == u);
                }
            }
        }
    }
}

/// Law: the collected remote set is exactly the set of URLs reachable from
/// the model — it contains a URL exactly when some fork's target, upstream
/// or resolved change names it, and it contains each such URL once.
pub proof fn lemma_remote_set_complete(forks: Seq<ForkV>)
    ensures
        forall|u: Seq<char>| #[trigger]
            dedup(config_urls(forks)).contains(u) <==> config_urls(forks).contains(u),
        forall|i: int, j: int|
            0 <= i < j < dedup(config_urls(forks)).len() ==> dedup(config_urls(forks))[i]
                != dedup(config_urls(forks))[j],
{
    lemma_dedup_set(config_urls(forks));
}

/// Whether some string in `v` has the same characters as `s`.
fn contains_string(v: &Vec<String>, s: &String) -> (b: bool)
    ensures
        b == views_of(v@).contains(s@),
{
    let mut j: usize = 0;
    while j < v.len()
        invariant
            j <= v@.len(),
            forall|t: int| 0 <= t < j ==> views_of(v@)[t] != s@,
        decreases v@.len() - j,
    {
        let x: &String = &v[j];
        if x.eq(s) {
            assert(views_of(v@)[j as int] == s@);
            return true;
        }
        j += 1;
    }
    assert(forall|t: int| 0 <= t < v@.len() ==> views_of(v@)[t] != s@);
    false
}

/// Append `url` unless an equal URL was already collected.
fn push_unique(acc: &mut Vec<String>, url: String)
    ensures
        views_of(final(acc)@) == (if views_of(old(acc)@).contains(url@) {
            views_of(old(acc)@)
        } else {
            views_of(old(acc)@).push(url@)
        }),
{
    let absent = !contains_string(acc, &url);
    if absent {
        let ghost prev = acc@;
        acc.push(url);
        proof {
            assert(views_of(acc@) =~= views_of(prev).push(acc@[prev.len() as int]@));
        }
    }
}

impl Config {
    /// The Remote Set Collector: every distinct remote URL referenced
    /// anywhere in the model — each fork's target URL, upstream URL, and
    /// every resolved change's URL — with duplicates removed, joined with
    /// spaces in order of first appearance.
    pub fn remotes(&self) -> (r: String)
        ensures
            r@ == join_spaces(dedup(config_urls(self@.forks))),
    {
        let mut all: Vec<String> = Vec::new();
        let mut i: usize = 0;
        while i < self.forks.len()
            invariant
                i <= self.forks@.len(),
                views_of(all@) == config_urls(self@.forks.subrange(0, i as int)),
            decreases self.forks@.len() - i,
        {
            let ghost forksv = self@.forks;
            let fork = &self.forks[i];
            proof {
                assert(fork@ == forksv[i as int]);
            }
            let ghost base = views_of(all@);
            all.push(fork.target.url.clone());
            all.push(fork.upstream.url.clone());
            proof {
                assert(views_of(all@) =~= base + seq![fork@.target.url, fork@.upstream.url]);
            }
            let mut j: usize = 0;
            while j < fork.changes.len()
                invariant
                    j <= fork.changes@.len(),
                    views_of(all@) == base + seq![fork@.target.url, fork@.upstream.url]
                        + change_urls(fork@.changes.subrange(0, j as int)),
                decreases fork.changes@.len() - j,
            {
                let ghost mid = views_of(all@);
                let ghost cv = fork@.changes;
                proof {
                    assert(cv.subrange(0, j + 1).drop_last() =~= cv.subrange(0, j as int));
                    assert(cv.subrange(0, j + 1).last() == cv[j as int]);
                }
                match &fork.changes[j] {
                    Update::Change(c) => {
                        all.push(c.url.clone());
                        proof {
                            assert(fork.changes@[j as int]@ == cv[j as int]);
                            assert(views_of(all@) =~= mid.push(c.url@));
                            assert(change_urls(cv.subrange(0, j + 1)) =~= change_urls(
                                cv.subrange(0, j as int),
                            ).push(c.url@));
                            assert(views_of(all@) =~= base + seq![
                                fork@.target.url,
                                fork@.upstream.url,
                            ] + change_urls(cv.subrange(0, j + 1)));
                        }
                    },
                    Update::PR(_) => {
                        proof {
                            assert(fork.changes@[j as int]@ == cv[j as int]);
                            assert(change_urls(cv.subrange(0, j + 1)) =~= change_urls(
                                cv.subrange(0, j as int),
                            ));
                        }
                    },
                }
                j += 1;
            }
            proof {
                assert(fork@.changes.subrange(0, fork@.changes.len() as int) =~= fork@.changes);
                assert(forksv.subrange(0, i + 1).drop_last() =~= forksv.subrange(0, i as int));
                assert(forksv.subrange(0, i + 1).last() == forksv[i as int]);
                assert(views_of(all@) =~= config_urls(forksv.subrange(0, i + 1)));
            }
            i += 1;
        }
        proof {
            assert(self@.forks.subrange(0, self@.forks.len() as int) =~= self@.forks);
        }
        let mut acc: Vec<String> = Vec::new();
        let ghost urls = views_of(all@);
        let mut k: usize = 0;
        while k < all.len()
            invariant
                k <= all@.len(),
                urls == views_of(all@),
                views_of(acc@) == dedup(urls.subrange(0, k as int)),
            decreases all@.len() - k,
        {
            let u = all[k].clone();
            proof {
                assert(u@ == urls[k as int]);
                assert(urls.subrange(0, k + 1).drop_last() =~= urls.subrange(0, k as int));
                assert(urls.subrange(0, k + 1) =~= urls.subrange(0, k as int).push(
                    urls[k as int],
                ));
                lemma_dedup_push(urls.subrange(0, k as int), urls[k as int]);
            }
            push_unique(&mut acc, u);
            k += 1;
        }
        proof {
            assert(urls.subrange(0, urls.len() as int) =~= urls);
        }
        let ghost final_set = dedup(urls);
        let mut out = String::new();
        let mut t: usize = 0;
        while t < acc.len()
            invariant
                t <= acc@.len(),
                final_set == views_of(acc@),
                out@ == join_spaces(final_set.subrange(0, t as int)),
            decreases acc@.len() - t,
        {
            if t > 0 {
                out.append(" ");
            }
            out.append(acc[t].as_str());
            proof {
                reveal_strlit(" ");
                assert(acc@[t as int]@ == final_set[t as int]);
                assert(final_set.subrange(0, t + 1).drop_last() =~= final_set.subrange(
                    0,
                    t as int,
                ));
                assert(final_set.subrange(0, t + 1).last() == final_set[t as int]);
                if t == 0 {
                    assert(out@ == join_spaces(final_set.subrange(0, 1)));
                } else {
                    assert(out@ == join_spaces(final_set.subrange(0, t + 1)));
                }
            }
            t += 1;
        }
        proof {
            assert(final_set.subrange(0, final_set.len() as int) =~= final_set);
        }
        out
    }
}

} // verus!
