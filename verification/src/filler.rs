//! The Default-Value Filler: a post-resolution pass that fills omitted
//! optional fields from sibling data. It only fills, never validates or
//! rejects.

use crate::model::{updates_view, Change, ChangeV, Fork, ForkV, RepoV, Update, UpdateV};
use vstd::prelude::*;

verus! {

/// The upstream endpoint after branch inference: an unset upstream branch
/// takes the target branch; when both are unset it stays unset (a valid
/// "track default branch" configuration).
pub open spec fn fill_upstream(upstream: RepoV, target: RepoV) -> RepoV {
    RepoV {
        url: upstream.url,
        branch: if upstream.branch is None {
            target.branch
        } else {
            upstream.branch
        },
    }
}

/// One change reference after title inference: a resolved change without a
/// title takes its own branch name as title; everything else is unchanged.
pub open spec fn fill_update(u: UpdateV) -> UpdateV {
    match u {
        UpdateV::Change(c) => UpdateV::Change(
            ChangeV {
                title: if c.title is None {
                    Some(c.branch)
                } else {
                    c.title
                },
                url: c.url,
                branch: c.branch,
            },
        ),
        UpdateV::PR(p) => UpdateV::PR(p),
    }
}

/// Title inference over a whole list of change references.
pub open spec fn fill_updates(s: Seq<UpdateV>) -> Seq<UpdateV> {
    s.map_values(|u: UpdateV| fill_update(u))
}

/// A whole fork after the filler pass.
pub open spec fn fill_fork(f: ForkV) -> ForkV {
    ForkV {
        name: f.name,
        target: f.target,
        upstream: fill_upstream(f.upstream, f.target),
        changes: fill_updates(f.changes),
    }
}

/// Title inference on one owned change reference.
fn fill_title(u: Update) -> (r: Update)
    ensures
        r@ == fill_update(u@),
{
    match u {
        Update::PR(p) => Update::PR(p),
        Update::Change(c) => {
            let title = if c.title.is_none() {
                Some(c.branch.clone())
            } else {
                c.title
            };
            Update::Change(Change { title, url: c.url, branch: c.branch })
        },
    }
}

impl Fork {
    /// The Default-Value Filler pass over this fork: copy the target branch
    /// into an unset upstream branch, and give every untitled resolved
    /// change its own branch name as title.
    pub fn fill(&mut self)
        ensures
            final(self)@ == fill_fork(old(self)@),
    {
        if self.upstream.branch.is_none() {
            if let Some(b) = self.target.branch.as_ref() {
                self.upstream.branch = Some(b.clone());
            }
        }
        let mut rest: Vec<Update> = Vec::new();
        core::mem::swap(&mut rest, &mut self.changes);
        let ghost orig: Seq<UpdateV> = old(self)@.changes;
        let ghost total: int = orig.len() as int;
        proof {
            assert(orig.subrange(0, total) =~= orig);
            assert(updates_view(Seq::<Update>::empty()) =~= fill_updates(orig.subrange(0, 0)));
        }
        while rest.len() > 0
            invariant
                rest@.len() <= total,
                total == orig.len() as int,
                updates_view(rest@) == orig.subrange(total - rest@.len(), total),
                updates_view(self.changes@) == fill_updates(
                    orig.subrange(0, total - rest@.len()),
                ),
                self.name@ == old(self)@.name,
                self.target@ == old(self)@.target,
                self.upstream@ == fill_upstream(old(self)@.upstream, old(self)@.target),
            decreases rest@.len(),
        {
            let ghost k: int = total - rest@.len();
            let ghost pre = rest@;
            let u = rest.remove(0);
            proof {
                assert(u@ == updates_view(pre)[0]);
                assert(u@ == orig.subrange(k, total)[0]);
                assert(u@ == orig[k]);
                assert(updates_view(rest@) =~= updates_view(pre).subrange(
                    1,
                    pre.len() as int,
                ));
                assert(updates_view(rest@) =~= orig.subrange(k + 1, total));
            }
            let f = fill_title(u);
            let ghost prev = self.changes@;
            self.changes.push(f);
            proof {
                assert(updates_view(prev) == fill_updates(orig.subrange(0, k)));
                assert(updates_view(prev).len() == prev.len());
                assert(fill_updates(orig.subrange(0, k)).len() == k);
                assert(prev.len() == k);
                assert(self.changes@ =~= prev.push(f));
                assert forall|i: int| 0 <= i < k + 1 implies updates_view(self.changes@)[i]
                    == fill_updates(orig.subrange(0, k + 1))[i] by {
                    assert(updates_view(self.changes@)[i] == self.changes@[i]@);
                    assert(fill_updates(orig.subrange(0, k + 1))[i] == fill_update(
                        orig.subrange(0, k + 1)[i],
                    ));
                    assert(orig.subrange(0, k + 1)[i] == orig[i]);
                    if i < k {
                        assert(self.changes@[i] == prev[i]);
                        assert(updates_view(prev)[i] == prev[i]@);
                        assert(fill_updates(orig.subrange(0, k))[i] == fill_update(
                            orig.subrange(0, k)[i],
                        ));
                        assert(orig.subrange(0, k)[i] == orig[i]);
                    } else {
                        assert(self.changes@[i] == f);
                        assert(f@ == fill_update(orig[k]));
                    }
                }
                assert(updates_view(self.changes@) =~= fill_updates(orig.subrange(0, k + 1)));
            }
        }
        proof {
            assert(orig.subrange(0, total) =~= orig);
            assert(self@.changes == fill_updates(orig));
            assert(self@ =~= fill_fork(old(self)@));
        }
    }
}

/// Law: the filler is idempotent — applying it twice to a fork yields the
/// same result as applying it once.
pub proof fn lemma_fill_idempotent(f: ForkV)
    ensures
        fill_fork(fill_fork(f)) == fill_fork(f),
{
    let f1 = fill_fork(f);
    assert(fill_upstream(f1.upstream, f1.target) == f1.upstream);
    assert forall|i: int| 0 <= i < f1.changes.len() implies #[trigger] fill_update(
        f1.changes[i],
    ) == f1.changes[i] by {
        assert(f1.changes[i] == fill_update(f.changes[i]));
    }
    assert(fill_updates(f1.changes) =~= f1.changes);
    assert(fill_fork(f1) =~= f1);
}

} // verus!
