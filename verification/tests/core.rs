use forkman::{Change, Config, Error, Fork, Pull, PullHead, PullRepo, Repo, Update, PR};

fn repo(url: &str, branch: Option<&str>) -> Repo {
    Repo { url: url.to_string(), branch: branch.map(|b| b.to_string()) }
}

fn change(title: Option<&str>, url: &str, branch: &str) -> Change {
    Change {
        title: title.map(|t| t.to_string()),
        url: url.to_string(),
        branch: branch.to_string(),
    }
}

fn fork(name: &str, target: Repo, upstream: Repo, changes: Vec<Update>) -> Fork {
    Fork { name: name.to_string(), target, upstream, changes }
}

fn pull(repo_ssh_url: Option<Option<&str>>, branch: &str, title: Option<&str>) -> Pull {
    Pull {
        head: PullHead {
            repo: repo_ssh_url.map(|u| PullRepo { ssh_url: u.map(|s| s.to_string()) }),
            ref_field: branch.to_string(),
        },
        title: title.map(|t| t.to_string()),
    }
}

#[test]
fn fill_copies_target_branch_to_unset_upstream() {
    let mut f = fork(
        "widgets",
        repo("https://github.com/me/widgets", Some("release-2")),
        repo("https://github.com/acme/widgets", None),
        vec![],
    );
    f.fill();
    assert_eq!(f.upstream.branch, Some("release-2".to_string()));
    assert_eq!(f.target.branch, Some("release-2".to_string()));
}

#[test]
fn fill_keeps_set_upstream_branch() {
    let mut f = fork(
        "widgets",
        repo("t", Some("main")),
        repo("u", Some("devel")),
        vec![],
    );
    f.fill();
    assert_eq!(f.upstream.branch, Some("devel".to_string()));
}

#[test]
fn fill_leaves_both_branches_unset() {
    let mut f = fork("widgets", repo("t", None), repo("u", None), vec![]);
    f.fill();
    assert_eq!(f.upstream.branch, None);
    assert_eq!(f.target.branch, None);
}

#[test]
fn fill_titles_untitled_change_with_its_branch() {
    let mut f = fork(
        "widgets",
        repo("t", None),
        repo("u", None),
        vec![Update::Change(change(None, "git@github.com:me/widgets", "feat-x"))],
    );
    f.fill();
    match &f.changes[0] {
        Update::Change(c) => assert_eq!(c.title, Some("feat-x".to_string())),
        Update::PR(_) => panic!("change variant lost"),
    }
}

#[test]
fn fill_keeps_existing_title() {
    let mut f = fork(
        "widgets",
        repo("t", None),
        repo("u", None),
        vec![Update::Change(change(Some("A title"), "url", "feat-x"))],
    );
    f.fill();
    match &f.changes[0] {
        Update::Change(c) => assert_eq!(c.title, Some("A title".to_string())),
        Update::PR(_) => panic!("change variant lost"),
    }
}

#[test]
fn fill_twice_equals_fill_once() {
    let mk = || {
        fork(
            "widgets",
            repo("t", Some("main")),
            repo("u", None),
            vec![
                Update::Change(change(None, "url-1", "feat-x")),
                Update::PR(PR { pr: 7 }),
                Update::Change(change(Some("kept"), "url-2", "feat-y")),
            ],
        )
    };
    let mut once = mk();
    once.fill();
    let mut twice = mk();
    twice.fill();
    twice.fill();
    assert_eq!(once, twice);
}

#[test]
fn parse_github_accepts_ssh_form() {
    let f = fork(
        "widgets",
        repo("t", None),
        repo("git@github.com:acme/widgets", None),
        vec![],
    );
    let (owner, name) = f.parse_github().unwrap();
    assert_eq!(owner, "acme");
    assert_eq!(name, "widgets");
}

#[test]
fn parse_github_accepts_https_form() {
    let f = fork(
        "widgets",
        repo("t", None),
        repo("https://github.com/acme/widgets", None),
        vec![],
    );
    let (owner, name) = f.parse_github().unwrap();
    assert_eq!(owner, "acme");
    assert_eq!(name, "widgets");
}

#[test]
fn parse_github_keeps_git_suffix() {
    // The extractor does not normalize `.git`; that is the Resolver's job
    // when it assembles change URLs.
    let f = fork(
        "widgets",
        repo("t", None),
        repo("git@github.com:acme/widgets.git", None),
        vec![],
    );
    let (owner, name) = f.parse_github().unwrap();
    assert_eq!(owner, "acme");
    assert_eq!(name, "widgets.git");
}

#[test]
fn parse_github_stops_segments_at_slash() {
    let f = fork(
        "widgets",
        repo("t", None),
        repo("https://github.com/acme/widgets/tree/main", None),
        vec![],
    );
    let (owner, name) = f.parse_github().unwrap();
    assert_eq!(owner, "acme");
    assert_eq!(name, "widgets");
}

#[test]
fn parse_github_rejects_other_hosts() {
    let url = "https://gitlab.com/acme/widgets";
    let f = fork("widgets", repo("t", None), repo(url, None), vec![]);
    assert_eq!(f.parse_github(), Err(Error::UrlParseError(url.to_string())));
}

#[test]
fn parse_github_rejects_incomplete_path() {
    let url = "https://github.com/acme";
    let f = fork("widgets", repo("t", None), repo(url, None), vec![]);
    assert_eq!(f.parse_github(), Err(Error::UrlParseError(url.to_string())));
}

#[test]
fn remote_name_strips_https_prefix() {
    assert_eq!(
        forkman::remote_name("https://github.com/acme/widgets".to_string()),
        "github.com/acme/widgets"
    );
}

#[test]
fn remote_name_strips_ssh_prefix_and_colon() {
    assert_eq!(
        forkman::remote_name("git@github.com:acme/widgets".to_string()),
        "github.com/acme/widgets"
    );
}

#[test]
fn remotes_deduplicates_shared_upstream() {
    let config = Config {
        config: None,
        forks: vec![
            fork(
                "one",
                repo("git@github.com:me/one", None),
                repo("https://github.com/acme/widgets", None),
                vec![],
            ),
            fork(
                "two",
                repo("git@github.com:me/two", None),
                repo("https://github.com/acme/widgets", None),
                vec![],
            ),
        ],
    };
    let remotes = config.remotes();
    assert_eq!(
        remotes,
        "git@github.com:me/one https://github.com/acme/widgets git@github.com:me/two"
    );
    assert_eq!(remotes.matches("https://github.com/acme/widgets").count(), 1);
}

#[test]
fn remotes_includes_change_urls() {
    let config = Config {
        config: None,
        forks: vec![fork(
            "one",
            repo("t", None),
            repo("u", None),
            vec![
                Update::Change(change(None, "c1", "b1")),
                Update::PR(PR { pr: 5 }),
                Update::Change(change(None, "t", "b2")),
            ],
        )],
    };
    assert_eq!(config.remotes(), "t u c1");
}

#[test]
fn remotes_of_empty_config_is_empty() {
    let config = Config { config: None, forks: vec![] };
    assert_eq!(config.remotes(), "");
}

#[test]
fn rendering_inputs_are_deterministic() {
    let mk = || Config {
        config: Some(repo("git@github.com:me/dotfiles", None)),
        forks: vec![fork(
            "one",
            repo("t", Some("main")),
            repo("u", None),
            vec![Update::Change(change(None, "c1", "b1"))],
        )],
    };
    let a = mk();
    let b = mk();
    assert_eq!(a.remotes(), b.remotes());
    assert_eq!(a.remotes(), a.remotes());
}

#[test]
fn to_change_fails_without_head_repo() {
    let p = PR { pr: 1 };
    let got = p.to_change(&pull(None, "feat", None));
    assert_eq!(
        got,
        Err(Error::GithubParseError("Missing repo head".to_string()))
    );
}

#[test]
fn to_change_fails_without_ssh_url() {
    let p = PR { pr: 1 };
    let got = p.to_change(&pull(Some(None), "feat", None));
    assert_eq!(
        got,
        Err(Error::GithubParseError("Missing repo html url".to_string()))
    );
}

#[test]
fn to_change_strips_git_suffix_and_falls_back_to_branch_title() {
    let p = PR { pr: 1 };
    let got = p.to_change(&pull(Some(Some("git@github.com:acme/widgets.git")), "feat", None));
    assert_eq!(
        got,
        Ok(change(Some("feat"), "git@github.com:acme/widgets", "feat"))
    );
}

#[test]
fn to_change_keeps_title_and_unsuffixed_url() {
    let p = PR { pr: 1 };
    let got = p.to_change(&pull(
        Some(Some("git@github.com:acme/widgets")),
        "feat",
        Some("Add widgets"),
    ));
    assert_eq!(
        got,
        Ok(change(Some("Add widgets"), "git@github.com:acme/widgets", "feat"))
    );
}

#[test]
fn pending_prs_lists_placeholders_in_order() {
    let f = fork(
        "one",
        repo("t", None),
        repo("u", None),
        vec![
            Update::PR(PR { pr: 3 }),
            Update::Change(change(None, "c", "b")),
            Update::PR(PR { pr: 9 }),
        ],
    );
    assert_eq!(f.pending_prs(), vec![3, 9]);
}

#[test]
fn resolve_replaces_placeholders_in_order() {
    let mut f = fork(
        "one",
        repo("t", None),
        repo("u", None),
        vec![
            Update::Change(change(Some("kept"), "c", "b")),
            Update::PR(PR { pr: 3 }),
        ],
    );
    let pulls = vec![pull(Some(Some("git@github.com:acme/widgets.git")), "feat", None)];
    assert_eq!(f.resolve(&pulls), Ok(()));
    assert_eq!(
        f.changes,
        vec![
            Update::Change(change(Some("kept"), "c", "b")),
            Update::Change(change(Some("feat"), "git@github.com:acme/widgets", "feat")),
        ]
    );
}

#[test]
fn resolve_failure_leaves_fork_unchanged() {
    let mut f = fork(
        "one",
        repo("t", None),
        repo("u", None),
        vec![Update::PR(PR { pr: 3 }), Update::PR(PR { pr: 4 })],
    );
    let pulls = vec![
        pull(Some(Some("git@github.com:acme/widgets")), "feat", None),
        pull(None, "feat-2", None),
    ];
    let got = f.resolve(&pulls);
    assert_eq!(
        got,
        Err(Error::GithubParseError("Missing repo head".to_string()))
    );
    assert_eq!(f.changes, vec![Update::PR(PR { pr: 3 }), Update::PR(PR { pr: 4 })]);
}

#[test]
fn update_resolves_and_fills_every_fork() {
    let mut config = Config {
        config: None,
        forks: vec![
            fork(
                "one",
                repo("t1", Some("main")),
                repo("u1", None),
                vec![Update::PR(PR { pr: 3 })],
            ),
            fork(
                "two",
                repo("t2", None),
                repo("u2", None),
                vec![Update::Change(change(None, "c2", "b2"))],
            ),
        ],
    };
    let pulls = vec![
        vec![pull(Some(Some("git@github.com:acme/widgets.git")), "feat", None)],
        vec![],
    ];
    assert_eq!(config.update(&pulls), Ok(()));
    assert_eq!(config.forks[0].upstream.branch, Some("main".to_string()));
    assert_eq!(
        config.forks[0].changes,
        vec![Update::Change(change(Some("feat"), "git@github.com:acme/widgets", "feat"))]
    );
    assert_eq!(
        config.forks[1].changes,
        vec![Update::Change(change(Some("b2"), "c2", "b2"))]
    );
}

#[test]
fn update_on_resolved_config_only_fills() {
    let mut config = Config {
        config: None,
        forks: vec![fork(
            "one",
            repo("t", None),
            repo("u", None),
            vec![Update::Change(change(Some("kept"), "c", "b"))],
        )],
    };
    let before_urls = config.remotes();
    assert_eq!(config.update(&vec![vec![]]), Ok(()));
    assert_eq!(
        config.forks[0].changes,
        vec![Update::Change(change(Some("kept"), "c", "b"))]
    );
    assert_eq!(config.remotes(), before_urls);
}

#[test]
fn error_messages_name_their_kind() {
    assert_eq!(
        Error::GithubApiError("boom".to_string()).message(),
        "github api error: boom"
    );
    assert_eq!(
        Error::UrlParseError("u".to_string()).message(),
        "cannot parse repository url: u"
    );
    assert_eq!(
        Error::ConfigReadError("f".to_string()).message(),
        "cannot read configuration: f"
    );
    assert_eq!(
        Error::GithubParseError("x".to_string()).message(),
        "cannot parse github response: x"
    );
    assert_eq!(
        Error::TemplateConfigError("y".to_string()).message(),
        "cannot configure template engine: y"
    );
    assert_eq!(
        Error::TemplateLookupError("z".to_string()).message(),
        "cannot find template: z"
    );
}
