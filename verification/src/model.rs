//! The domain model: typed records for a repository reference, a resolved
//! change, an unresolved pull-request reference, a fork and the top-level
//! configuration, together with their mathematical views.

use vstd::prelude::*;

verus! {

/// A git remote endpoint, optionally pinned to a branch.
#[derive(PartialEq, Eq, Debug)]
pub struct Repo {
    pub url: String,
    pub branch: Option<String>,
}

/// A fully specified change: a fetchable remote URL and branch, with an
/// optional human-readable title.
#[derive(PartialEq, Eq, Debug)]
pub struct Change {
    pub title: Option<String>,
    pub url: String,
    pub branch: String,
}

/// A change known only by its pull-request number in the upstream hosting
/// project, pending resolution.
#[derive(PartialEq, Eq, Debug)]
pub struct PR {
    pub pr: u64,
}

/// A change reference: either fully resolved or a bare pull-request number.
#[derive(PartialEq, Eq, Debug)]
pub enum Update {
    Change(Change),
    PR(PR),
}

/// A target repository tracked against an upstream repository, with an
/// ordered list of changes layered on top.
#[derive(PartialEq, Eq, Debug)]
pub struct Fork {
    pub name: String,
    pub target: Repo,
    pub upstream: Repo,
    pub changes: Vec<Update>,
}

/// The top-level configuration: an optional repository holding the
/// configuration itself, and the forks to manage.
#[derive(PartialEq, Eq, Debug)]
pub struct Config {
    pub config: Option<Repo>,
    pub forks: Vec<Fork>,
}

/// Mathematical view of a `Repo`.
#[verifier::ext_equal]
pub ghost struct RepoV {
    pub url: Seq<char>,
    pub branch: Option<Seq<char>>,
}

/// Mathematical view of a `Change`.
#[verifier::ext_equal]
pub ghost struct ChangeV {
    pub title: Option<Seq<char>>,
    pub url: Seq<char>,
    pub branch: Seq<char>,
}

/// Mathematical view of an `Update`.
#[verifier::ext_equal]
pub ghost enum UpdateV {
    Change(ChangeV),
    PR(u64),
}

/// Mathematical view of a `Fork`.
#[verifier::ext_equal]
pub ghost struct ForkV {
    pub name: Seq<char>,
    pub target: RepoV,
    pub upstream: RepoV,
    pub changes: Seq<UpdateV>,
}

/// Mathematical view of a `Config`.
#[verifier::ext_equal]
pub ghost struct ConfigV {
    pub config: Option<RepoV>,
    pub forks: Seq<ForkV>,
}

/// View of an optional string: the optional sequence of its characters.
pub open spec fn opt_view(o: Option<String>) -> Option<Seq<char>> {
    match o {
        Option::Some(s) => Option::Some(s@),
        Option::None => Option::None,
    }
}

/// The views of a sequence of change references.
pub open spec fn updates_view(s: Seq<Update>) -> Seq<UpdateV> {
    s.map_values(|u: Update| u@)
}

/// The views of a sequence of forks.
pub open spec fn forks_view(s: Seq<Fork>) -> Seq<ForkV> {
    s.map_values(|f: Fork| f@)
}

impl View for Repo {
    type V = RepoV;

    open spec fn view(&self) -> RepoV {
        RepoV { url: self.url@, branch: opt_view(self.branch) }
    }
}

impl View for Change {
    type V = ChangeV;

    open spec fn view(&self) -> ChangeV {
        ChangeV { title: opt_view(self.title), url: self.url@, branch: self.branch@ }
    }
}

impl View for Update {
    type V = UpdateV;

    open spec fn view(&self) -> UpdateV {
        match self {
            Update::Change(c) => UpdateV::Change(c@),
            Update::PR(p) => UpdateV::PR(p.pr),
        }
    }
}

impl View for Fork {
    type V = ForkV;

    open spec fn view(&self) -> ForkV {
        ForkV {
            name: self.name@,
            target: self.target@,
            upstream: self.upstream@,
            changes: updates_view(self.changes@),
        }
    }
}

impl View for Config {
    type V = ConfigV;

    open spec fn view(&self) -> ConfigV {
        ConfigV {
            config: match self.config {
                Option::Some(r) => Option::Some(r@),
                Option::None => Option::None,
            },
            forks: forks_view(self.forks@),
        }
    }
}

} // verus!
