use reposmerge::fingerprint::compute;
use reposmerge::gitx::{Fake, Logged};

#[test]
fn test_compute_parses_git_output() {
    let mut f = Logged::new(Fake::new()
        .with_response("rev-parse HEAD", "deadbeef")
        .with_response("rev-list --max-parents=0 --all", "root1\nroot2")
        .with_response("rev-list --all", "deadbeef\nc2\nc3")
        .with_response("for-each-ref --format=%(refname:short) %(objectname) refs/heads", "main deadbeef\ndev c2")
        .with_response("status --porcelain", " M a.go\n?? new.txt\n M b.go")
        .with_response("stash list", "stash@{0}: WIP")
        .with_response("rev-list --count --left-right origin/main...HEAD", "2\t3")
        .with_response("log -1 --format=%cI", "2026-06-20T10:00:00-03:00")
        .with_response("rev-parse --abbrev-ref HEAD", "main")
        .with_response("rev-parse --abbrev-ref --symbolic-full-name @{u}", "origin/main"));

    let mut c = reposmerge::model::Copy { path: "/repo".to_string(), ..Default::default() };
    compute(&mut f, &mut c).expect("compute should not error");
    let fp = &c.fp;
    assert_eq!(fp.head, "deadbeef");
    assert_eq!(fp.commit_count, 3);
    assert_eq!(fp.dirty_count, 2);
    assert_eq!(fp.untracked_count, 1);
    assert_eq!(fp.stash_count, 1);
    assert_eq!(fp.ahead, 3);
    assert_eq!(fp.behind, 2);
    assert_eq!(fp.root_commits.len(), 2);
    assert_eq!(fp.branches.len(), 2);
}

#[test]
fn compute_sorts_commits_and_reads_commit_time() {
    let mut f = Logged::new(Fake::new()
        .with_response("rev-list --max-parents=0 --all", "zz\naa")
        .with_response("rev-list --all", "c3\nc1\nc2")
        .with_response("log -1 --format=%cI", "2026-06-20T10:00:00-03:00"));
    let mut c = reposmerge::model::Copy { path: "/repo".to_string(), ..Default::default() };
    compute(&mut f, &mut c).unwrap();
    assert_eq!(c.fp.root_commits, vec!["aa".to_string(), "zz".to_string()]);
    assert_eq!(c.fp.all_commits, vec!["c1".to_string(), "c2".to_string(), "c3".to_string()]);
    // 2026-06-20T13:00:00Z
    assert_eq!(c.fp.last_commit.secs, 1_781_960_400);
    assert_eq!(c.fp.last_commit.nanos, 0);
    // no upstream: ahead and behind stay zero, the path is kept
    assert_eq!(c.fp.ahead, 0);
    assert_eq!(c.fp.behind, 0);
    assert_eq!(c.path, "/repo");
}

#[test]
fn compute_on_unreadable_repo_leaves_defaults() {
    let mut f = Logged::new(Fake::new()
        .with_error("rev-parse HEAD", "exit status 128")
        .with_error("rev-list --all", "exit status 128")
        .with_error("log -1 --format=%cI", "exit status 128"));
    let mut c = reposmerge::model::Copy { path: "/broken".to_string(), machine: "acer".to_string(), ..Default::default() };
    compute(&mut f, &mut c).unwrap();
    assert_eq!(c.fp.head, "");
    assert_eq!(c.fp.commit_count, 0);
    assert_eq!(c.fp.last_commit.secs, -62_135_596_800);
    assert_eq!(c.machine, "acer");
}

#[test]
fn compute_on_silent_runner_asks_fixed_queries() {
    let mut f = Logged::new(Fake::new());
    let mut c = reposmerge::model::Copy { path: "/repo".to_string(), ..Default::default() };
    assert!(compute(&mut f, &mut c).is_ok());
    assert_eq!(format!("{:?}", c.fp), format!("{:?}", reposmerge::model::Fingerprint::default()));
    let want: Vec<String> = vec![
        "rev-parse HEAD",
        "rev-list --max-parents=0 --all",
        "rev-list --all",
        "for-each-ref --format=%(refname:short) %(objectname) refs/heads",
        "status --porcelain",
        "stash list",
        "rev-parse --abbrev-ref --symbolic-full-name @{u}",
        "log -1 --format=%cI",
    ]
    .into_iter()
    .map(|s| s.to_string())
    .collect();
    assert_eq!(f.runner().calls(), want);
}

#[test]
fn compute_when_every_query_fails_gives_default() {
    let keys = [
        "rev-parse HEAD",
        "rev-list --max-parents=0 --all",
        "rev-list --all",
        "for-each-ref --format=%(refname:short) %(objectname) refs/heads",
        "status --porcelain",
        "stash list",
        "rev-parse --abbrev-ref --symbolic-full-name @{u}",
        "log -1 --format=%cI",
    ];
    let mut fake = Fake::new();
    for k in keys {
        fake = fake.with_error(k, "exit status 128");
    }
    let mut f = Logged::new(fake);
    let mut c = reposmerge::model::Copy {
        path: "/gone".to_string(),
        machine: "acer".to_string(),
        owner: "o".to_string(),
        ..Default::default()
    };
    assert!(compute(&mut f, &mut c).is_ok());
    assert_eq!(format!("{:?}", c.fp), format!("{:?}", reposmerge::model::Fingerprint::default()));
    assert_eq!(c.path, "/gone");
    assert_eq!(c.owner, "o");
    assert_eq!(f.runner().calls().len(), 8);
}

#[test]
fn compute_counts_status_lines() {
    let mut f = Logged::new(
        Fake::new()
            .with_response("status --porcelain", "?? a\n?? b\n M c\nD  d")
            .with_response("rev-parse --abbrev-ref --symbolic-full-name @{u}", "origin/dev")
            .with_response("rev-list --count --left-right origin/dev...HEAD", "0\t7"),
    );
    let mut c = reposmerge::model::Copy { path: "/r".to_string(), ..Default::default() };
    compute(&mut f, &mut c).unwrap();
    assert_eq!(c.fp.untracked_count, 2);
    assert_eq!(c.fp.dirty_count, 2);
    assert_eq!(c.fp.ahead, 7);
    assert_eq!(c.fp.behind, 0);
    let calls = f.runner().calls();
    assert_eq!(calls.len(), 9);
    assert_eq!(calls[7], "rev-list --count --left-right origin/dev...HEAD");
}
