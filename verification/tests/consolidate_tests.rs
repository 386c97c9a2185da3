use std::collections::{BTreeMap, BTreeSet};

use reposmerge::consolidate::{
    already_consolidated, canonical_excludes, default_excludes, disambiguate, plan_can_run, union_remotes, union_steps,
    Applier, Error, Options, Progress, Reply, Request,
};
use reposmerge::gitx::{Fake, Logged};
use reposmerge::model::{ApplyResult, Decision, Fingerprint, Group, Plan, QuarantineItem, StrategyKind, UnionRemote};
use reposmerge::treehash::{file_digest, hash_skips, prunes_dir, tree_hash_of, FileDigest};

/// A file tree held in memory: files by slash-separated path, and the
/// directories that exist.
#[derive(Default)]
struct Disk {
    files: BTreeMap<String, String>,
    dirs: BTreeSet<String>,
}

fn join(base: &str, parts: &[&str]) -> String {
    let mut s = base.to_string();
    for p in parts {
        s.push('/');
        s.push_str(p);
    }
    s
}

impl Disk {
    fn mkdir(&mut self, d: &str) {
        self.dirs.insert(d.to_string());
    }

    fn write(&mut self, path: &str, content: &str) {
        self.files.insert(path.to_string(), content.to_string());
    }

    fn has(&self, p: &str) -> bool {
        let prefix = format!("{p}/");
        self.files.contains_key(p)
            || self.dirs.contains(p)
            || self.files.keys().any(|k| k.starts_with(&prefix))
            || self.dirs.iter().any(|k| k.starts_with(&prefix))
    }

    /// The files below `root` that a walk passing by `skip` reaches, by
    /// path relative to `root`.
    fn walk(&self, root: &str, skip: &[String]) -> Vec<(String, String)> {
        let prefix = format!("{root}/");
        let mut out = Vec::new();
        'files: for (k, v) in &self.files {
            if let Some(rel) = k.strip_prefix(&prefix) {
                let parts: Vec<&str> = rel.split('/').collect();
                for dir in &parts[..parts.len() - 1] {
                    if prunes_dir(&dir.to_string(), &skip.to_vec(), false) {
                        continue 'files;
                    }
                }
                out.push((rel.to_string(), v.clone()));
            }
        }
        out
    }

    fn tree_hash(&self, root: &str, skip: &[String]) -> String {
        if !self.has(root) {
            return String::new();
        }
        let skips = hash_skips(&skip.to_vec());
        let entries: Vec<FileDigest> = self
            .walk(root, &skips)
            .into_iter()
            .map(|(rel, content)| FileDigest { rel, mode: 0o644, sha: file_digest(content.as_bytes()) })
            .collect();
        tree_hash_of(&entries)
    }

    fn copy_atomic(&mut self, src: &str, dst: &str, skip: &[String], dry_run: bool) -> Result<Vec<String>, String> {
        if !self.has(src) {
            return Err(format!("rename {dst}.reposmerge-tmp to {dst}: not found"));
        }
        if dry_run {
            return Ok(Vec::new());
        }
        let copied = self.walk(src, skip);
        let prefix = format!("{dst}/");
        self.files.retain(|k, _| !k.starts_with(&prefix));
        self.dirs.retain(|k| k != dst && !k.starts_with(&prefix));
        self.mkdir(dst);
        for (rel, content) in copied {
            self.write(&join(dst, &[&rel]), &content);
        }
        Ok(Vec::new())
    }
}

/// Runs a plan to the end, doing the work each request asks for on `disk`
/// and the union work with `fake`.
fn apply(disk: &mut Disk, fake: &mut Logged<Fake>, p: &Plan, opts: Options) -> Result<ApplyResult, Error> {
    assert!(plan_can_run(p));
    let mut prog = Applier::start(p.clone(), opts);
    loop {
        match prog {
            Progress::Finished(r) => return r,
            Progress::Pending(a, req) => {
                let reply = match req {
                    Request::Hash { src, dst, excludes } => {
                        Reply::Hashed { src_hash: disk.tree_hash(&src, &excludes), dst_hash: disk.tree_hash(&dst, &excludes) }
                    },
                    Request::Copy { src, dst, excludes, dry_run } => match disk.copy_atomic(&src, &dst, &excludes, dry_run) {
                        Ok(sk) => Reply::Copied(sk),
                        Err(m) => Reply::CopyFailed(m),
                    },
                    Request::Union { dest, remotes, dry_run } => Reply::Unioned(union_remotes(fake, &dest, &remotes, dry_run)),
                };
                prog = a.resume(reply);
            },
        }
    }
}

fn opts(dry_run: bool) -> Options {
    Options { dry_run, ..Default::default() }
}

fn copy_with_root(path: &str, machine: &str, root: &str) -> reposmerge::model::Copy {
    reposmerge::model::Copy {
        path: path.to_string(),
        machine: machine.to_string(),
        fp: Fingerprint { root_commits: vec![root.to_string()], ..Default::default() },
        ..Default::default()
    }
}

fn group(repo: &str, owner: &str) -> Group {
    Group { repo_name: repo.to_string(), owner: owner.to_string(), ..Default::default() }
}

fn canonical(path: &str) -> reposmerge::model::Copy {
    reposmerge::model::Copy { path: path.to_string(), machine: "live".to_string(), ..Default::default() }
}

#[test]
fn test_apply_unique_union_remote_names_dry_run() {
    let mut disk = Disk::default();
    disk.mkdir("/t/src");
    let dp = "/t/dest/canonical/personal/loom";
    let p = Plan {
        dest: "/t/dest/canonical".to_string(),
        decisions: vec![Decision {
            strategy: StrategyKind::B,
            canonical: canonical("/t/src"),
            dest_path: dp.to_string(),
            group: group("loom", "personal"),
            union_remotes: vec![
                UnionRemote { name: "consolidate-acer".to_string(), path: "/t/u1".to_string(), ..Default::default() },
                UnionRemote { name: "consolidate-acer".to_string(), path: "/t/u2".to_string(), ..Default::default() },
            ],
            ..Default::default()
        }],
        ..Default::default()
    };
    let mut fake = Logged::new(Fake::new());
    let res = apply(&mut disk, &mut fake, &p, opts(true)).unwrap();
    assert_eq!(res.unioned, 2, "expected 2 unioned (unique names)");
    assert!(fake.runner().calls().is_empty(), "a dry run runs no git command");
}

#[test]
fn test_apply_dry_run_writes_nothing() {
    let mut disk = Disk::default();
    disk.write("/t/src/f.txt", "x");
    let p = Plan {
        dest: "/t/dest/canonical".to_string(),
        decisions: vec![Decision {
            strategy: StrategyKind::A,
            canonical: canonical("/t/src"),
            dest_path: "/t/dest/canonical/inovacc/omni".to_string(),
            group: group("omni", "inovacc"),
            ..Default::default()
        }],
        ..Default::default()
    };
    let res = apply(&mut disk, &mut Logged::new(Fake::new()), &p, opts(true)).unwrap();
    assert_eq!(res.copied, 1, "expected 1 planned copy");
    assert!(!disk.has("/t/dest/canonical"), "dry-run must not create canonical/");
}

#[test]
fn test_apply_copies_canonical() {
    let mut disk = Disk::default();
    disk.write("/t/src/f.txt", "x");
    let dp = "/t/dest/canonical/inovacc/omni";
    let p = Plan {
        dest: "/t/dest/canonical".to_string(),
        decisions: vec![Decision {
            strategy: StrategyKind::A,
            canonical: canonical("/t/src"),
            dest_path: dp.to_string(),
            group: group("omni", "inovacc"),
            ..Default::default()
        }],
        ..Default::default()
    };
    apply(&mut disk, &mut Logged::new(Fake::new()), &p, Options::default()).unwrap();
    assert!(disk.has(&join(dp, &["f.txt"])), "canonical file not copied");
}

#[test]
fn test_apply_disambiguates_dest_collision() {
    let mut disk = Disk::default();
    disk.write("/t/a/a.txt", "A");
    disk.write("/t/b/b.txt", "B");
    let dp = "/t/dest/canonical/personal/daemon";
    let mk_dec = |src: &str, machine: &str, root: &str| Decision {
        strategy: StrategyKind::A,
        canonical: copy_with_root(src, machine, root),
        dest_path: dp.to_string(),
        group: group("daemon", "personal"),
        ..Default::default()
    };
    let p = Plan {
        dest: "/t/dest/canonical".to_string(),
        decisions: vec![mk_dec("/t/a", "live", "rootAAAAAA"), mk_dec("/t/b", "acer", "rootBBBBBB")],
        ..Default::default()
    };
    apply(&mut disk, &mut Logged::new(Fake::new()), &p, Options::default()).unwrap();
    assert!(disk.has(&join(dp, &["a.txt"])), "first canonical not at base dest");
    assert!(disk.has(&format!("{dp}-rootBBB")), "second copy not disambiguated to dp-rootBBB");
    assert!(!disk.has(&join(dp, &["b.txt"])), "second copy leaked into first canonical dest");
}

#[test]
fn test_apply_union_remote_issues_git_commands() {
    let mut disk = Disk::default();
    disk.write("/t/src/f.txt", "x");
    let dp = "/t/dest/canonical/personal/loom";
    let union_src = "/t/union";
    let p = Plan {
        dest: "/t/dest/canonical".to_string(),
        decisions: vec![Decision {
            strategy: StrategyKind::B,
            canonical: canonical("/t/src"),
            dest_path: dp.to_string(),
            group: group("loom", "personal"),
            union_remotes: vec![UnionRemote {
                name: "consolidate-acer".to_string(),
                path: union_src.to_string(),
                branches: vec!["main".to_string(), "feature-x".to_string()],
            }],
            ..Default::default()
        }],
        ..Default::default()
    };
    let mut fake = Logged::new(Fake::new());
    let res = apply(&mut disk, &mut fake, &p, opts(false)).unwrap();
    assert_eq!(res.unioned, 1, "expected Unioned=1");
    let want_calls = vec![
        "remote remove consolidate-acer".to_string(),
        format!("remote add consolidate-acer {}", union_src),
        "fetch consolidate-acer +refs/heads/*:refs/remotes/consolidate-acer/* --tags".to_string(),
        "branch --force consolidate/consolidate-acer/main consolidate-acer/main".to_string(),
        "branch --force consolidate/consolidate-acer/feature-x consolidate-acer/feature-x".to_string(),
    ];
    assert_eq!(fake.runner().calls(), want_calls);
}

#[test]
fn test_apply_union_remote_add_error_propagates() {
    let mut disk = Disk::default();
    disk.mkdir("/t/src");
    let union_src = "/t/union";
    let p = Plan {
        dest: "/t/dest/canonical".to_string(),
        decisions: vec![Decision {
            strategy: StrategyKind::B,
            canonical: canonical("/t/src"),
            dest_path: "/t/dest/canonical/personal/loom".to_string(),
            group: group("loom", "personal"),
            union_remotes: vec![UnionRemote {
                name: "consolidate-acer".to_string(),
                path: union_src.to_string(),
                branches: vec!["main".to_string()],
            }],
            ..Default::default()
        }],
        ..Default::default()
    };
    let mut fake = Logged::new(Fake::new().with_error(&format!("remote add consolidate-acer {}", union_src), "fake git failure"));
    let r = apply(&mut disk, &mut fake, &p, opts(false));
    assert!(r.is_err(), "expected error when remote add fails");
    match r {
        Err(Error::Git(e)) => {
            assert_eq!(e.cause, "add union remote consolidate-acer: fake git failure");
            assert_eq!(e.dir, "/t/dest/canonical/personal/loom");
        },
        other => panic!("expected a git error, got {other:?}"),
    }
    // the run stopped at the failure: no fetch was issued
    assert_eq!(fake.runner().calls().len(), 2);
}

#[test]
fn test_apply_quarantine_copies_files() {
    let mut disk = Disk::default();
    disk.write("/t/canon/main.go", "package main");
    disk.write("/t/q/divergent.go", "package main // divergent");
    let dp = "/t/dest/canonical/inovacc/omni";
    let qdp = join(dp, &["_quarantine", "acer"]);
    let p = Plan {
        dest: "/t/dest/canonical".to_string(),
        decisions: vec![Decision {
            strategy: StrategyKind::A,
            canonical: canonical("/t/canon"),
            dest_path: dp.to_string(),
            group: group("omni", "inovacc"),
            quarantine: vec![QuarantineItem {
                copy: reposmerge::model::Copy { path: "/t/q".to_string(), machine: "acer".to_string(), ..Default::default() },
                dest_path: qdp.clone(),
                reason: "unreachable-commits".to_string(),
                ..Default::default()
            }],
            ..Default::default()
        }],
        ..Default::default()
    };
    let res = apply(&mut disk, &mut Logged::new(Fake::new()), &p, opts(false)).unwrap();
    assert_eq!(res.quarantined, 1, "expected Quarantined=1");
    assert!(disk.has(&join(&qdp, &["divergent.go"])), "quarantine dest missing copied file");
    assert!(disk.has(&join(dp, &["main.go"])), "canonical dest missing copied file");
}

#[test]
fn test_apply_quarantine_disambiguates_dest_collision() {
    let mut disk = Disk::default();
    disk.mkdir("/t/canon");
    disk.write("/t/qa/a.txt", "A");
    disk.write("/t/qb/b.txt", "B");
    let dp = "/t/dest/canonical/inovacc/omni";
    let qdp = join(dp, &["_quarantine", "same"]);
    let p = Plan {
        dest: "/t/dest/canonical".to_string(),
        decisions: vec![Decision {
            strategy: StrategyKind::A,
            canonical: canonical("/t/canon"),
            dest_path: dp.to_string(),
            group: group("omni", "inovacc"),
            quarantine: vec![
                QuarantineItem { copy: copy_with_root("/t/qa", "acer", "rootAAAAAA"), dest_path: qdp.clone(), ..Default::default() },
                QuarantineItem { copy: copy_with_root("/t/qb", "dell", "rootBBBBBB"), dest_path: qdp.clone(), ..Default::default() },
            ],
            ..Default::default()
        }],
        ..Default::default()
    };
    let res = apply(&mut disk, &mut Logged::new(Fake::new()), &p, opts(false)).unwrap();
    assert_eq!(res.quarantined, 2, "expected Quarantined=2");
    assert!(disk.has(&join(&qdp, &["a.txt"])), "first quarantine not at base dest");
    assert!(disk.has(&format!("{qdp}-rootBBB")), "second quarantine not disambiguated to qdp-rootBBB");
}

#[test]
fn test_apply_skips_already_consolidated_canonical() {
    let mut disk = Disk::default();
    disk.write("/t/src/f.txt", "same");
    let p = Plan {
        dest: "/t/dest/canonical".to_string(),
        decisions: vec![Decision {
            strategy: StrategyKind::A,
            canonical: canonical("/t/src"),
            dest_path: "/t/dest/canonical/personal/twice".to_string(),
            group: group("twice", "personal"),
            ..Default::default()
        }],
        ..Default::default()
    };
    apply(&mut disk, &mut Logged::new(Fake::new()), &p, Options::default()).unwrap();
    let res2 = apply(&mut disk, &mut Logged::new(Fake::new()), &p, Options::default()).unwrap();
    assert_eq!(res2.skipped, 1, "expected Skipped=1 on second run");
    assert_eq!(res2.copied, 0, "expected Copied=0 on second run");
}

#[test]
fn test_apply_idempotent_with_nested_quarantine() {
    let mut disk = Disk::default();
    disk.mkdir("/t/canon");
    disk.write("/t/q/q.txt", "same");
    let dp = "/t/dest/canonical/inovacc/omni";
    let qdp = join(dp, &["_quarantine", "acer"]);
    let p = Plan {
        dest: "/t/dest/canonical".to_string(),
        decisions: vec![Decision {
            strategy: StrategyKind::A,
            canonical: canonical("/t/canon"),
            dest_path: dp.to_string(),
            group: group("omni", "inovacc"),
            quarantine: vec![QuarantineItem {
                copy: reposmerge::model::Copy { path: "/t/q".to_string(), machine: "acer".to_string(), ..Default::default() },
                dest_path: qdp.clone(),
                ..Default::default()
            }],
            ..Default::default()
        }],
        ..Default::default()
    };
    let res1 = apply(&mut disk, &mut Logged::new(Fake::new()), &p, Options::default()).unwrap();
    assert_eq!(res1.copied, 1, "first run Copied");
    assert_eq!(res1.quarantined, 1, "first run Quarantined");
    assert!(disk.has(&join(&qdp, &["q.txt"])), "quarantine file missing after first run");

    let res2 = apply(&mut disk, &mut Logged::new(Fake::new()), &p, Options::default()).unwrap();
    assert_eq!(res2.copied, 0, "second run: canonical skipped");
    assert_eq!(res2.quarantined, 0, "second run: quarantine skipped");
    assert_eq!(res2.skipped, 2, "second run Skipped=2");
    assert!(disk.has(&join(&qdp, &["q.txt"])), "quarantine file missing after second run");
}

#[test]
fn run_asks_for_canonical_then_quarantine_then_union() {
    let q = QuarantineItem { copy: copy_with_root("/t/q", "acer", "r"), dest_path: "/d/x/_quarantine/acer".to_string(), ..Default::default() };
    let p = Plan {
        decisions: vec![Decision {
            canonical: canonical("/t/c"),
            dest_path: "/d/x".to_string(),
            group: group("x", "o"),
            quarantine: vec![q],
            ..Default::default()
        }],
        ..Default::default()
    };
    let o = Options { exclude_dirs: Some(vec!["target".to_string()]), ..Default::default() };
    let Progress::Pending(a, req) = Applier::start(p, o) else { panic!("expected a request") };
    match &req {
        Request::Hash { src, dst, excludes } => {
            assert_eq!(src, "/t/c");
            assert_eq!(dst, "/d/x");
            assert_eq!(excludes, &vec!["target".to_string(), "_quarantine".to_string()]);
        },
        other => panic!("unexpected {other:?}"),
    }
    // a reply that does not answer the request asks again
    let Progress::Pending(a, again) = a.resume(Reply::Copied(vec![])) else { panic!() };
    assert!(matches!(again, Request::Hash { .. }));
    let Progress::Pending(a, req) = a.resume(Reply::Hashed { src_hash: "h".to_string(), dst_hash: String::new() }) else { panic!() };
    assert!(matches!(&req, Request::Copy { src, dst, dry_run: false, .. } if src == "/t/c" && dst == "/d/x"));
    let Progress::Pending(a, req) = a.resume(Reply::Copied(vec!["/t/c/locked".to_string()])) else { panic!() };
    match &req {
        Request::Hash { src, dst, excludes } => {
            assert_eq!(src, "/t/q");
            assert_eq!(dst, "/d/x/_quarantine/acer");
            assert_eq!(excludes, &vec!["target".to_string()]);
        },
        other => panic!("unexpected {other:?}"),
    }
    let Progress::Pending(a, req) = a.resume(Reply::Hashed { src_hash: "h".to_string(), dst_hash: "h".to_string() }) else { panic!() };
    assert!(matches!(&req, Request::Union { dest, remotes, .. } if dest == "/d/x" && remotes.is_empty()));
    let Progress::Finished(Ok(res)) = a.resume(Reply::Unioned(Ok(()))) else { panic!() };
    assert_eq!((res.copied, res.quarantined, res.skipped, res.unioned), (1, 0, 1, 0));
    assert_eq!(res.skipped_files, vec!["/t/c/locked".to_string()]);
}

#[test]
fn failures_carry_their_context() {
    let q = QuarantineItem { copy: copy_with_root("/t/q", "acer", "r"), dest_path: "/d/q".to_string(), ..Default::default() };
    let p = Plan {
        decisions: vec![Decision { canonical: canonical("/t/c"), dest_path: "/d/x".to_string(), group: group("omni", "o"), quarantine: vec![q], ..Default::default() }],
        ..Default::default()
    };
    let Progress::Pending(a, _) = Applier::start(p.clone(), Options::default()) else { panic!() };
    let Progress::Finished(Err(e)) = a.resume(Reply::HashFailed { src_side: false, message: "permission denied".to_string() }) else { panic!() };
    assert_eq!(e.message(), "check canonical omni: hash dst /d/x: permission denied");

    let Progress::Pending(a, _) = Applier::start(p.clone(), Options::default()) else { panic!() };
    let Progress::Pending(a, _) = a.resume(Reply::Hashed { src_hash: "h".to_string(), dst_hash: "h".to_string() }) else { panic!() };
    let Progress::Finished(Err(e)) = a.resume(Reply::HashFailed { src_side: true, message: "boom".to_string() }) else { panic!() };
    assert_eq!(e.message(), "check quarantine omni/acer: hash src /t/q: boom");

    let Progress::Pending(a, _) = Applier::start(p.clone(), Options::default()) else { panic!() };
    let Progress::Pending(a, _) = a.resume(Reply::Hashed { src_hash: "h".to_string(), dst_hash: String::new() }) else { panic!() };
    let Progress::Finished(Err(e)) = a.resume(Reply::CopyFailed("disk full".to_string())) else { panic!() };
    assert_eq!(e.message(), "copy canonical omni: disk full");

    let Progress::Pending(a, _) = Applier::start(p, Options::default()) else { panic!() };
    let Progress::Pending(a, _) = a.resume(Reply::Hashed { src_hash: "h".to_string(), dst_hash: "h".to_string() }) else { panic!() };
    let Progress::Pending(a, _) = a.resume(Reply::Hashed { src_hash: "h".to_string(), dst_hash: "g".to_string() }) else { panic!() };
    let Progress::Finished(Err(e)) = a.resume(Reply::CopyFailed("disk full".to_string())) else { panic!() };
    assert_eq!(e.message(), "quarantine omni/acer: disk full");
}

#[test]
fn empty_plan_finishes_at_once() {
    match Applier::start(Plan::default(), Options::default()) {
        Progress::Finished(Ok(res)) => assert_eq!((res.copied, res.quarantined, res.unioned, res.skipped), (0, 0, 0, 0)),
        _ => panic!("expected the run to finish"),
    }
}

#[test]
fn excludes_follow_the_options() {
    assert_eq!(
        default_excludes(),
        vec!["node_modules", "vendor", "dist", ".next", "build", ".gradle", "target", "__pycache__"]
    );
    assert_eq!(Options::default().excludes(), default_excludes());
    let o = Options { include_generated: true, exclude_dirs: Some(vec!["x".to_string()]), ..Default::default() };
    assert!(o.excludes().is_empty());
    let o = Options { exclude_dirs: Some(vec![]), ..Default::default() };
    assert!(o.excludes().is_empty());
    assert_eq!(canonical_excludes(&vec!["a".to_string()]), vec!["a".to_string(), "_quarantine".to_string()]);
}

#[test]
fn already_consolidated_needs_an_existing_equal_tree() {
    assert!(already_consolidated("h", "h"));
    assert!(!already_consolidated("h", "g"));
    assert!(!already_consolidated("", ""));
}

#[test]
fn disambiguation_uses_seven_bytes_of_root_or_machine() {
    let seen = vec!["/d/x".to_string()];
    let dest = "/d/x".to_string();
    assert_eq!(disambiguate(&seen, &dest, &copy_with_root("/p", "acer", "0123456789")), "/d/x-0123456");
    assert_eq!(disambiguate(&seen, &dest, &copy_with_root("/p", "acer", "0123")), "/d/x-acer");
    assert_eq!(disambiguate(&vec![], &dest, &copy_with_root("/p", "acer", "0123456789")), "/d/x");
    // a multi-byte character that ends exactly at byte seven
    assert_eq!(disambiguate(&seen, &dest, &copy_with_root("/p", "acer", "abcde\u{e9}zz")), "/d/x-abcde\u{e9}");
}

#[test]
fn plan_with_a_root_id_cut_inside_a_character_cannot_run_only_on_collision() {
    // the cut is needed only when the destination is already taken
    let alone = Plan {
        decisions: vec![Decision {
            canonical: copy_with_root("/p", "live", "abcdef\u{e9}z"),
            dest_path: "/d/x".to_string(),
            ..Default::default()
        }],
        ..Default::default()
    };
    assert!(plan_can_run(&alone));
    let colliding = Plan {
        decisions: vec![
            Decision {
                canonical: copy_with_root("/q", "acer", "0123456789"),
                dest_path: "/d/x".to_string(),
                ..Default::default()
            },
            Decision {
                canonical: copy_with_root("/p", "live", "abcdef\u{e9}z"),
                dest_path: "/d/x".to_string(),
                ..Default::default()
            },
        ],
        ..Default::default()
    };
    assert!(!plan_can_run(&colliding));
    assert!(plan_can_run(&Plan::default()));
}

#[test]
fn dry_run_of_plan_with_uncuttable_root_counts_its_copy() {
    let mut disk = Disk::default();
    disk.mkdir("/t/src");
    disk.write("/t/src/f.txt", "x");
    let p = Plan {
        decisions: vec![Decision {
            canonical: copy_with_root("/t/src", "live", "abcdef\u{e9}z"),
            dest_path: "/t/dest/personal/x".to_string(),
            group: group("x", "personal"),
            ..Default::default()
        }],
        ..Default::default()
    };
    let mut fake = Logged::new(Fake::new());
    let res = apply(&mut disk, &mut fake, &p, opts(true)).unwrap();
    assert_eq!(res.copied, 1);
    assert!(!disk.has("/t/dest/personal/x"));
    assert!(fake.runner().calls().is_empty());
}

#[test]
fn union_names_get_numbered_suffixes() {
    let us = vec![
        UnionRemote { name: "c".to_string(), path: "/a".to_string(), branches: vec![] },
        UnionRemote { name: "c".to_string(), path: "/b".to_string(), branches: vec![] },
        UnionRemote { name: "c".to_string(), path: "/c".to_string(), branches: vec!["m".to_string()] },
    ];
    let steps = union_steps(&us);
    let adds: Vec<String> = steps.iter().filter(|s| s.args[1] == "add").map(|s| s.args.join(" ")).collect();
    assert_eq!(adds, vec!["remote add c /a", "remote add c-1 /b", "remote add c-2 /c"]);
    assert_eq!(steps.len(), 3 * 3 + 1);
    assert_eq!(steps[9].args.join(" "), "branch --force consolidate/c-2/m c-2/m");
    assert_eq!(steps[10 - 1].fatal, None);
    assert_eq!(steps[1].fatal.as_deref(), Some("add union remote c"));
}

#[test]
fn a_run_asks_at_most_two_requests_per_item_and_one_per_decision() {
    let mut disk = Disk::default();
    disk.write("/t/a/f", "1");
    disk.write("/t/b/f", "2");
    disk.write("/t/q/f", "3");
    let q = QuarantineItem { copy: copy_with_root("/t/q", "acer", "r"), dest_path: "/d/a/_quarantine/acer".to_string(), ..Default::default() };
    let p = Plan {
        decisions: vec![
            Decision { canonical: canonical("/t/a"), dest_path: "/d/a".to_string(), group: group("a", "o"), quarantine: vec![q], ..Default::default() },
            Decision { canonical: canonical("/t/b"), dest_path: "/d/b".to_string(), group: group("b", "o"), ..Default::default() },
        ],
        ..Default::default()
    };
    let mut requests = 0;
    let mut prog = Applier::start(p, Options::default());
    loop {
        match prog {
            Progress::Finished(r) => {
                let r = r.unwrap();
                assert_eq!((r.copied, r.quarantined, r.skipped), (2, 1, 0));
                break;
            },
            Progress::Pending(a, req) => {
                requests += 1;
                let reply = match req {
                    Request::Hash { src, dst, excludes } => {
                        Reply::Hashed { src_hash: disk.tree_hash(&src, &excludes), dst_hash: disk.tree_hash(&dst, &excludes) }
                    },
                    Request::Copy { src, dst, excludes, dry_run } => Reply::Copied(disk.copy_atomic(&src, &dst, &excludes, dry_run).unwrap()),
                    Request::Union { .. } => Reply::Unioned(Ok(())),
                };
                prog = a.resume(reply);
            },
        }
    }
    assert_eq!(requests, (2 * 2 + 1) + (2 * 1 + 1));
}
