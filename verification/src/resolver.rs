//! The Reference Resolver: turns an unresolved pull-request reference into a
//! resolved change, from the record the hosting API returns for the pull
//! request. The network call itself lives in the surrounding program; the
//! library receives the fetched record as plain data and owns every decision
//! made on it.

use crate::error::{Error, ErrorV};
use crate::filler::fill_fork;
use crate::model::{updates_view, Change, ChangeV, Config, Fork, ForkV, Update, UpdateV, PR};
use vstd::prelude::*;

verus! {

/// The source repository record of a pull request's head, as the hosting
/// API reports it: the SSH clone URL may be absent.
#[derive(PartialEq, Eq, Debug)]
pub struct PullRepo {
    pub ssh_url: Option<String>,
}

/// The head of a pull request: its branch name, and the record of its
/// source repository when that repository still exists.
#[derive(PartialEq, Eq, Debug)]
pub struct PullHead {
    pub repo: Option<PullRepo>,
    pub ref_field: String,
}

/// What the Resolver reads from the hosting API's answer for one pull
/// request: the head, and the pull request's optional title.
#[derive(PartialEq, Eq, Debug)]
pub struct Pull {
    pub head: PullHead,
    pub title: Option<String>,
}

/// Mathematical view of a `PullRepo`.
#[verifier::ext_equal]
pub ghost struct PullRepoV {
    pub ssh_url: Option<Seq<char>>,
}

/// Mathematical view of a `PullHead`.
#[verifier::ext_equal]
pub ghost struct PullHeadV {
    pub repo: Option<PullRepoV>,
    pub ref_field: Seq<char>,
}

/// Mathematical view of a `Pull`.
#[verifier::ext_equal]
pub ghost struct PullV {
    pub head: PullHeadV,
    pub title: Option<Seq<char>>,
}

impl View for PullRepo {
    type V = PullRepoV;

    open spec fn view(&self) -> PullRepoV {
        PullRepoV { ssh_url: crate::model::opt_view(self.ssh_url) }
    }
}

impl View for PullHead {
    type V = PullHeadV;

    open spec fn view(&self) -> PullHeadV {
        PullHeadV {
            repo: match self.repo {
                Option::Some(r) => Option::Some(r@),
                Option::None => Option::None,
            },
            ref_field: self.ref_field@,
        }
    }
}

impl View for Pull {
    type V = PullV;

    open spec fn view(&self) -> PullV {
        PullV { head: self.head@, title: crate::model::opt_view(self.title) }
    }
}

/// The views of a sequence of fetched pull records.
pub open spec fn pulls_view(s: Seq<Pull>) -> Seq<PullV> {
    s.map_values(|p: Pull| p@)
}

/// A trailing `.git` on `s`.
pub open spec fn ends_git(s: Seq<char>) -> bool {
    &&& s.len() >= 4
    &&& s[s.len() - 4] == '.'
    &&& s[s.len() - 3] == 'g'
    &&& s[s.len() - 2] == 'i'
    &&& s[s.len() - 1] == 't'
}

/// `s` with a trailing `.git` removed when present, the Resolver's
/// normalization of clone URLs.
pub open spec fn strip_git(s: Seq<char>) -> Seq<char> {
    if ends_git(s) {
        s.subrange(0, s.len() - 4)
    } else {
        s
    }
}

/// What resolving one fetched pull record yields: a missing head repository
/// or missing clone URL fails, otherwise the change carries the clone URL
/// with `.git` stripped, the head branch, and the pull request's title — or
/// the branch name when the title is absent.
pub open spec fn to_change_spec(p: PullV) -> Result<ChangeV, ErrorV> {
    match p.head.repo {
        Option::None => Err(ErrorV::GithubParse("Missing repo head"@)),
        Option::Some(r) => match r.ssh_url {
            Option::None => Err(ErrorV::GithubParse("Missing repo html url"@)),
            Option::Some(u) => Ok(
                ChangeV {
                    title: Some(
                        match p.title {
                            Option::Some(t) => t,
                            Option::None => p.head.ref_field,
                        },
                    ),
                    url: strip_git(u),
                    branch: p.head.ref_field,
                },
            ),
        },
    }
}

/// The view of an exec resolution result.
pub open spec fn change_result_view(r: Result<Change, Error>) -> Result<ChangeV, ErrorV> {
    match r {
        Ok(c) => Ok(c@),
        Err(e) => Err(e@),
    }
}

/// Strip a trailing `.git` from a clone URL.
fn strip_git_suffix(u: &String) -> (r: String)
    ensures
        r@ == strip_git(u@),
{
    let s = u.as_str();
    let n: usize = s.unicode_len();
    if n >= 4 && s.get_char(n - 4) == '.' && s.get_char(n - 3) == 'g' && s.get_char(n - 2) == 'i'
        && s.get_char(n - 1) == 't' {
        s.substring_char(0, n - 4).to_owned()
    } else {
        u.clone()
    }
}

impl PR {
    /// Resolve this pull-request reference from its fetched record: read the
    /// head's source repository, take its SSH clone URL with `.git`
    /// stripped, the head branch name, and the title with the branch name as
    /// fallback. Fails when the source repository or its URL is absent.
    pub fn to_change(&self, pull: &Pull) -> (r: Result<Change, Error>)
        ensures
            change_result_view(r) == to_change_spec(pull@),
    {
        match pull.head.repo.as_ref() {
            None => Err(Error::GithubParseError(String::from_str("Missing repo head"))),
            Some(repo) => match repo.ssh_url.as_ref() {
                None => Err(Error::GithubParseError(String::from_str("Missing repo html url"))),
                Some(u) => {
                    let url = strip_git_suffix(u);
                    let branch = pull.head.ref_field.clone();
                    let title = match pull.title.as_ref() {
                        Some(t) => Some(t.clone()),
                        None => Some(branch.clone()),
                    };
                    Ok(Change { title, url, branch })
                },
            },
        }
    }
}

/// The pull-request numbers still unresolved in a list of change
/// references, in order.
pub open spec fn pending_spec(changes: Seq<UpdateV>) -> Seq<u64>
    decreases changes.len(),
{
    if changes.len() == 0 {
        Seq::empty()
    } else {
        pending_spec(changes.drop_last()) + (match changes.last() {
            UpdateV::PR(p) => seq![p],
            UpdateV::Change(_) => Seq::<u64>::empty(),
        })
    }
}

impl Fork {
    /// The pull-request numbers this fork still needs resolved, in order;
    /// the surrounding program fetches each one from the hosting API.
    pub fn pending_prs(&self) -> (r: Vec<u64>)
        ensures
            r@ == pending_spec(self@.changes),
    {
        let ghost cv = self@.changes;
        let mut out: Vec<u64> = Vec::new();
        let mut i: usize = 0;
        proof {
            assert(updates_view(self.changes@) == cv);
        }
        while i < self.changes.len()
            invariant
                i <= self.changes@.len(),
                cv == self@.changes,
                cv.len() == self.changes@.len(),
                out@ == pending_spec(cv.subrange(0, i as int)),
            decreases self.changes@.len() - i,
        {
            proof {
                assert(cv.subrange(0, i + 1).drop_last() =~= cv.subrange(0, i as int));
                assert(cv.subrange(0, i + 1).last() == cv[i as int]);
                assert(self.changes@[i as int]@ == cv[i as int]);
            }
            match &self.changes[i] {
                Update::PR(p) => {
                    out.push(p.pr);
                    proof {
                        assert(out@ =~= pending_spec(cv.subrange(0, i + 1)));
                    }
                },
                Update::Change(_) => {
                    proof {
                        assert(pending_spec(cv.subrange(0, i + 1)) =~= pending_spec(
                            cv.subrange(0, i as int),
                        ));
                    }
                },
            }
            i += 1;
        }
        proof {
            assert(cv.subrange(0, cv.len() as int) =~= cv);
        }
        out
    }
}

/// Splitting a change list splits its pending numbers.
pub proof fn lemma_pending_concat(a: Seq<UpdateV>, b: Seq<UpdateV>)
    ensures
        pending_spec(a + b) == pending_spec(a) + pending_spec(b),
    decreases b.len(),
{
    if b.len() == 0 {
        assert(a + b =~= a);
        assert(pending_spec(b) =~= Seq::<u64>::empty());
        assert(pending_spec(a) + pending_spec(b) =~= pending_spec(a));
    } else {
        lemma_pending_concat(a, b.drop_last());
        assert((a + b).drop_last() =~= a + b.drop_last());
        assert((a + b).last() == b.last());
        assert(pending_spec(a + b) =~= pending_spec(a) + pending_spec(b));
    }
}

/// The number of unresolved references among the first `i` changes: the
/// index into the fetched pull data belonging to the placeholder at `i`.
pub open spec fn prs_before(changes: Seq<UpdateV>, i: int) -> int {
    pending_spec(changes.subrange(0, i)).len() as int
}

/// One more change extends the pending count by one exactly for a
/// placeholder.
pub proof fn lemma_pending_step(changes: Seq<UpdateV>, i: int)
    requires
        0 <= i < changes.len(),
    ensures
        pending_spec(changes.subrange(0, i + 1)).len() == pending_spec(
            changes.subrange(0, i),
        ).len() + (if changes[i] is PR {
            1int
        } else {
            0int
        }),
{
    assert(changes.subrange(0, i + 1).drop_last() =~= changes.subrange(0, i));
    assert(changes.subrange(0, i + 1).last() == changes[i]);
}

/// A placeholder's pull index lies below the total pending count.
pub proof fn lemma_prs_before_bound(changes: Seq<UpdateV>, i: int)
    requires
        0 <= i < changes.len(),
        changes[i] is PR,
    ensures
        prs_before(changes, i) < pending_spec(changes).len(),
        prs_before(changes, i) >= 0,
{
    lemma_pending_step(changes, i);
    assert(changes =~= changes.subrange(0, i + 1) + changes.subrange(
        i + 1,
        changes.len() as int,
    ));
    lemma_pending_concat(
        changes.subrange(0, i + 1),
        changes.subrange(i + 1, changes.len() as int),
    );
}

/// Whether resolving one fetched pull record succeeds.
pub open spec fn pull_ok(p: PullV) -> bool {
    to_change_spec(p) is Ok
}

/// The error of the first fetched record whose resolution fails, if any.
pub open spec fn first_err(pulls: Seq<PullV>) -> Option<ErrorV>
    decreases pulls.len(),
{
    if pulls.len() == 0 {
        Option::None
    } else {
        match to_change_spec(pulls.first()) {
            Err(e) => Option::Some(e),
            Ok(_) => first_err(pulls.drop_first()),
        }
    }
}

/// When every record resolves, there is no first error.
pub proof fn lemma_first_err_none(pulls: Seq<PullV>)
    requires
        forall|t: int| 0 <= t < pulls.len() ==> pull_ok(#[trigger] pulls[t]),
    ensures
        first_err(pulls) is None,
    decreases pulls.len(),
{
    if pulls.len() > 0 {
        assert(pull_ok(pulls[0]));
        assert(forall|t: int|
            0 <= t < pulls.drop_first().len() ==> pull_ok(#[trigger] pulls.drop_first()[t]));
        lemma_first_err_none(pulls.drop_first());
    }
}

/// The first failing record determines the first error.
pub proof fn lemma_first_err_at(pulls: Seq<PullV>, t: int)
    requires
        0 <= t < pulls.len(),
        forall|t2: int| 0 <= t2 < t ==> pull_ok(#[trigger] pulls[t2]),
        to_change_spec(pulls[t]) is Err,
    ensures
        first_err(pulls) == Option::Some(to_change_spec(pulls[t])->Err_0),
    decreases t,
{
    if t == 0 {
    } else {
        assert(pull_ok(pulls[0]));
        assert(forall|t2: int|
            0 <= t2 < t - 1 ==> pull_ok(#[trigger] pulls.drop_first()[t2]));
        assert(pulls.drop_first()[t - 1] == pulls[t]);
        lemma_first_err_at(pulls.drop_first(), t - 1);
    }
}

/// The change list with every placeholder replaced by the resolution of its
/// fetched record; meaningful when every resolution succeeds.
pub open spec fn resolved_changes(changes: Seq<UpdateV>, pulls: Seq<PullV>) -> Seq<UpdateV> {
    Seq::new(
        changes.len(),
        |i: int|
            match changes[i] {
                UpdateV::Change(c) => UpdateV::Change(c),
                UpdateV::PR(_) => match to_change_spec(pulls[prs_before(changes, i)]) {
                    Ok(c) => UpdateV::Change(c),
                    Err(_) => changes[i],
                },
            },
    )
}

impl Fork {
    /// Resolve every pull-request placeholder of this fork, given the
    /// fetched record of each pending pull request, in order. On success
    /// every placeholder is replaced by its resolved change; on failure the
    /// fork is left unchanged and the first failing record's resolution
    /// error is returned.
    pub fn resolve(&mut self, pulls: &Vec<Pull>) -> (r: Result<(), Error>)
        requires
            pulls@.len() == pending_spec(old(self)@.changes).len(),
        ensures
            match r {
                Ok(_) => {
                    &&& first_err(pulls_view(pulls@)) is None
                    &&& final(self)@ == ForkV {
                        changes: resolved_changes(old(self)@.changes, pulls_view(pulls@)),
                        ..old(self)@
                    }
                },
                Err(e) => {
                    &&& first_err(pulls_view(pulls@)) == Option::Some(e@)
                    &&& final(self)@ == old(self)@
                },
            },
    {
        let ghost cv = self@.changes;
        let ghost pv = pulls_view(pulls@);
        let ghost rc = resolved_changes(cv, pv);
        let np: usize = pulls.len();
        let mut resolved: Vec<Update> = Vec::new();
        let mut kp: usize = 0;
        let mut i: usize = 0;
        proof {
            assert(cv.subrange(0, 0) =~= Seq::<UpdateV>::empty());
            assert(updates_view(resolved@) =~= rc.subrange(0, 0));
        }
        while i < self.changes.len()
            invariant
                i <= self.changes@.len(),
                self@ == old(self)@,
                cv == self@.changes,
                pv == pulls_view(pulls@),
                rc == resolved_changes(cv, pv),
                cv.len() == self.changes@.len(),
                pv.len() == pulls@.len(),
                np == pulls@.len(),
                pv.len() == pending_spec(cv).len(),
                kp as int == prs_before(cv, i as int),
                kp <= pv.len(),
                forall|t: int| 0 <= t < kp ==> pull_ok(#[trigger] pv[t]),
                updates_view(resolved@) == rc.subrange(0, i as int),
            decreases self.changes@.len() - i,
        {
            let ghost k: int = kp as int;
            proof {
                assert(self.changes@[i as int]@ == cv[i as int]);
                lemma_pending_step(cv, i as int);
            }
            let ghost prevr = resolved@;
            match &self.changes[i] {
                Update::Change(c) => {
                    let title = match c.title.as_ref() {
                        Some(t) => Some(t.clone()),
                        None => None,
                    };
                    let copy = Change { title, url: c.url.clone(), branch: c.branch.clone() };
                    proof {
                        assert(cv[i as int] == UpdateV::Change(c@));
                        assert(copy@ == c@);
                    }
                    resolved.push(Update::Change(copy));
                    proof {
                        assert(updates_view(prevr).len() == prevr.len());
                        assert(rc.subrange(0, i as int).len() == i);
                        assert(prevr.len() == i);
                        assert(resolved@ =~= prevr.push(Update::Change(copy)));
                        assert(rc[i as int] == cv[i as int]);
                        assert(updates_view(resolved@) =~= rc.subrange(0, i + 1));
                    }
                },
                Update::PR(p) => {
                    proof {
                        lemma_prs_before_bound(cv, i as int);
                        assert(kp < pv.len());
                    }
                    let pull = &pulls[kp];
                    proof {
                        assert(pull@ == pv[k]);
                    }
                    match p.to_change(pull) {
                        Ok(c) => {
                            proof {
                                assert(kp < np);
                            }
                            resolved.push(Update::Change(c));
                            kp += 1;
                            proof {
                                assert(to_change_spec(pv[k]) == Ok::<ChangeV, ErrorV>(c@));
                                assert(rc[i as int] == UpdateV::Change(c@));
                                assert(updates_view(prevr).len() == prevr.len());
                                assert(rc.subrange(0, i as int).len() == i);
                                assert(prevr.len() == i);
                                assert(resolved@ =~= prevr.push(Update::Change(c)));
                                assert(updates_view(resolved@) =~= rc.subrange(0, i + 1));
                                assert(forall|t: int|
                                    0 <= t < k + 1 ==> pull_ok(#[trigger] pv[t]));
                            }
                        },
                        Err(e) => {
                            proof {
                                assert(to_change_spec(pv[k]) == Err::<ChangeV, ErrorV>(e@));
                                lemma_first_err_at(pv, k);
                            }
                            return Err(e);
                        },
                    }
                },
            }
            i += 1;
        }
        proof {
            assert(cv.subrange(0, cv.len() as int) =~= cv);
            assert(kp as int == pending_spec(cv).len());
            assert(forall|t: int| 0 <= t < pv.len() ==> pull_ok(#[trigger] pv[t]));
            lemma_first_err_none(pv);
            assert(rc.subrange(0, cv.len() as int) =~= rc);
        }
        self.changes = resolved;
        proof {
            assert(self@.changes == rc);
            assert(self@ =~= ForkV { changes: rc, ..old(self)@ });
        }
        Ok(())
    }
}

/// One fork taken through resolution and then the filler: the first failing
/// record's error, or the filled fork with every placeholder resolved.
pub open spec fn update_fork_spec(f: ForkV, pulls: Seq<PullV>) -> Result<ForkV, ErrorV> {
    match first_err(pulls) {
        Option::Some(e) => Err(e),
        Option::None => Ok(
            fill_fork(ForkV { changes: resolved_changes(f.changes, pulls), ..f }),
        ),
    }
}

impl Config {
    /// Take every fork through resolution and the filler, in order, given
    /// the fetched records of each fork's pending pull requests. The first
    /// failure stops the run: forks already processed keep their new state,
    /// the failing fork and all later ones are left unchanged, and the
    /// failing record's resolution error is returned.
    pub fn update(&mut self, pulls: &Vec<Vec<Pull>>) -> (r: Result<(), Error>)
        requires
            pulls@.len() == old(self)@.forks.len(),
            forall|i: int|
                0 <= i < pulls@.len() ==> #[trigger] pulls_view(pulls@[i]@).len()
                    == pending_spec(old(self)@.forks[i].changes).len(),
        ensures
            final(self)@.config == old(self)@.config,
            final(self)@.forks.len() == old(self)@.forks.len(),
            match r {
                Ok(_) => forall|i: int|
                    0 <= i < old(self)@.forks.len() ==> update_fork_spec(
                        old(self)@.forks[i],
                        pulls_view(pulls@[i]@),
                    ) == Ok::<ForkV, ErrorV>(#[trigger] final(self)@.forks[i]),
                Err(e) => exists|kk: int|
                    {
                        &&& 0 <= kk < old(self)@.forks.len()
                        &&& #[trigger] update_fork_spec(
                            old(self)@.forks[kk],
                            pulls_view(pulls@[kk]@),
                        ) == Err::<ForkV, ErrorV>(e@)
                        &&& (forall|i: int|
                            0 <= i < kk ==> update_fork_spec(
                                old(self)@.forks[i],
                                pulls_view(pulls@[i]@),
                            ) == Ok::<ForkV, ErrorV>(#[trigger] final(self)@.forks[i]))
                        &&& (forall|i: int|
                            kk <= i < old(self)@.forks.len() ==> final(self)@.forks[i] == old(
                                self,
                            )@.forks[i])
                    },
            },
    {
        let ghost fv = self@.forks;
        let ghost ng: int = fv.len() as int;
        let mut rest: Vec<Fork> = Vec::new();
        core::mem::swap(&mut rest, &mut self.forks);
        let nf: usize = rest.len();
        let mut i: usize = 0;
        proof {
            assert(crate::model::forks_view(rest@) == fv);
            assert(crate::model::forks_view(rest@).len() == rest@.len());
            assert(ng == nf as int);
            assert(fv.subrange(0, ng) =~= fv);
            assert(crate::model::forks_view(self.forks@) =~= Seq::<ForkV>::empty());
        }
        while rest.len() > 0
            invariant
                0 <= i,
                i as int == ng - rest@.len(),
                ng == fv.len() as int,
                ng == nf as int,
                fv == old(self)@.forks,
                fv.len() == pulls@.len(),
                forall|t: int|
                    0 <= t < pulls@.len() ==> #[trigger] pulls_view(pulls@[t]@).len()
                        == pending_spec(fv[t].changes).len(),
                self@.config == old(self)@.config,
                crate::model::forks_view(rest@) == fv.subrange(i as int, ng),
                self@.forks.len() == i as int,
                forall|t: int|
                    0 <= t < i ==> update_fork_spec(fv[t], pulls_view(pulls@[t]@))
                        == Ok::<ForkV, ErrorV>(#[trigger] self@.forks[t]),
            decreases rest@.len(),
        {
            let ghost pre = rest@;
            let mut fork = rest.remove(0);
            proof {
                assert(fork@ == crate::model::forks_view(pre)[0]);
                assert(fork@ == fv[i as int]);
                assert(crate::model::forks_view(rest@) =~= crate::model::forks_view(
                    pre,
                ).subrange(1, pre.len() as int));
                assert(crate::model::forks_view(rest@) =~= fv.subrange(i as int + 1, ng));
                assert(pulls_view(pulls@[i as int]@).len() == pending_spec(
                    fv[i as int].changes,
                ).len());
            }
            let fork_pulls = &pulls[i];
            match fork.resolve(fork_pulls) {
                Ok(_) => {
                    fork.fill();
                    proof {
                        assert(update_fork_spec(fv[i as int], pulls_view(pulls@[i as int]@))
                            == Ok::<ForkV, ErrorV>(fork@));
                    }
                    let ghost proc = self.forks@;
                    self.forks.push(fork);
                    proof {
                        assert(crate::model::forks_view(self.forks@) =~= crate::model::forks_view(
                            proc,
                        ).push(self.forks@[proc.len() as int]@));
                        assert(self@.forks.len() == i + 1);
                        assert(self@.forks[i as int] == fork@);
                        assert(forall|t: int| 0 <= t < i ==> self@.forks[t] == #[trigger] crate::model::forks_view(proc)[t]);
                    }
                    i += 1;
                },
                Err(e) => {
                    proof {
                        assert(update_fork_spec(fv[i as int], pulls_view(pulls@[i as int]@))
                            == Err::<ForkV, ErrorV>(e@));
                        assert(fork@ == fv[i as int]);
                    }
                    let ghost proc = self.forks@;
                    self.forks.push(fork);
                    let ghost rem = rest@;
                    self.forks.append(&mut rest);
                    proof {
                        assert(self.forks@ =~= proc.push(fork) + rem);
                        assert(self@.forks.len() == ng);
                        assert forall|t: int| 0 <= t < ng implies #[trigger] self@.forks[t]
                            == (if t < i as int {
                                crate::model::forks_view(proc)[t]
                            } else {
                                fv[t]
                            }) by {
                            assert(self@.forks[t] == self.forks@[t]@);
                            if t < i as int {
                                assert(self.forks@[t] == proc[t]);
                            } else if t == i as int {
                                assert(self.forks@[t] == fork);
                            } else {
                                assert(self.forks@[t] == rem[t - i - 1]);
                                assert(rem[t - i - 1]@ == crate::model::forks_view(rem)[t - i
                                    - 1]);
                                assert(crate::model::forks_view(rem)[t - i - 1] == fv[t]);
                            }
                        }
                        assert(0 <= (i as int) && (i as int) < ng);
                        assert(update_fork_spec(fv[i as int], pulls_view(pulls@[i as int]@))
                            == Err::<ForkV, ErrorV>(e@));
                    }
                    return Err(e);
                },
            }
        }
        proof {
            assert(i as int == ng);
            assert(self@.forks.len() == old(self)@.forks.len());
        }
        Ok(())
    }
}

/// Law: for a fork whose change list holds resolved changes only,
/// resolution is a no-op — nothing is pending, and taking the fork through
/// the update pass amounts to running the filler alone.
pub proof fn lemma_resolution_noop(f: ForkV)
    requires
        forall|i: int| 0 <= i < f.changes.len() ==> f.changes[i] is Change,
    ensures
        pending_spec(f.changes).len() == 0,
        update_fork_spec(f, Seq::<PullV>::empty()) == Ok::<ForkV, ErrorV>(fill_fork(f)),
{
    lemma_pending_all_resolved(f.changes);
    assert(first_err(Seq::<PullV>::empty()) is None);
    let rc = resolved_changes(f.changes, Seq::<PullV>::empty());
    assert forall|i: int| 0 <= i < f.changes.len() implies rc[i] == f.changes[i] by {
        assert(f.changes[i] is Change);
    }
    assert(rc =~= f.changes);
    assert(ForkV { changes: rc, ..f } =~= f);
}

/// A fully resolved change list has no pending pull request.
proof fn lemma_pending_all_resolved(changes: Seq<UpdateV>)
    requires
        forall|i: int| 0 <= i < changes.len() ==> changes[i] is Change,
    ensures
        pending_spec(changes).len() == 0,
    decreases changes.len(),
{
    if changes.len() > 0 {
        assert(changes[changes.len() - 1] is Change);
        assert(forall|i: int|
            0 <= i < changes.drop_last().len() ==> #[trigger] changes.drop_last()[i]
                is Change);
        lemma_pending_all_resolved(changes.drop_last());
    }
}

} // verus!
