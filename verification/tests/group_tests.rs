use reposmerge::group::{build, group_key};
use reposmerge::model::{Fingerprint};

fn cp(name: &str, url: &str, root: &str) -> reposmerge::model::Copy {
    reposmerge::model::Copy {
        repo_name: name.to_string(),
        remote_url: url.to_string(),
        fp: Fingerprint { root_commits: vec![root.to_string()], ..Default::default() },
        ..Default::default()
    }
}

#[test]
fn test_remote_copies_group_together() {
    let gs = build(vec![cp("omni", "github.com/inovacc/omni", "r1"), cp("omni", "github.com/inovacc/omni", "r1")]);
    assert!(gs.len() == 1 && gs[0].copies.len() == 2 && gs[0].has_remote, "got {:?}", gs);
}

#[test]
fn test_same_name_different_lineage_do_not_merge() {
    let gs = build(vec![cp("daemon", "", "rootA"), cp("daemon", "", "rootB")]);
    assert_eq!(gs.len(), 2, "expected 2 groups for divergent lineage, got {}", gs.len());
}

#[test]
fn test_same_name_same_lineage_merge() {
    let gs = build(vec![cp("loom", "", "shared"), cp("loom", "", "shared")]);
    assert!(gs.len() == 1 && gs[0].copies.len() == 2, "expected 1 merged group, got {:?}", gs);
}

#[test]
fn smart_remote_and_local_same_lineage_unify() {
    let gs = build(vec![cp("proj", "github.com/inovacc/proj", "r1"), cp("proj", "", "r1")]);
    assert_eq!(gs.len(), 1, "remote + local same-lineage must unify: {gs:?}");
    assert_eq!(gs[0].copies.len(), 2);
    assert!(gs[0].has_remote, "merged group should carry the remote");
    assert_eq!(gs[0].remote_url, "github.com/inovacc/proj");
}

#[test]
fn smart_local_first_then_remote_upgrades_identity() {
    let gs = build(vec![cp("proj", "", "r1"), cp("proj", "github.com/inovacc/proj", "r1")]);
    assert_eq!(gs.len(), 1);
    assert!(gs[0].has_remote);
    assert_eq!(gs[0].remote_url, "github.com/inovacc/proj");
}

#[test]
fn smart_case_variant_remotes_unify_via_lineage() {
    let gs = build(vec![cp("casetest", "github.com/inovacc/CaseTest", "r1"), cp("casetest", "github.com/inovacc/casetest", "r1")]);
    assert_eq!(gs.len(), 1, "case-variant same-lineage must unify: {gs:?}");
    assert_eq!(gs[0].copies.len(), 2);
}

#[test]
fn smart_empty_repo_case_insensitive_remote_key() {
    let mut a = cp("x", "github.com/inovacc/X", "");
    a.fp.root_commits.clear();
    let mut b = cp("x", "github.com/inovacc/x", "");
    b.fp.root_commits.clear();
    let gs = build(vec![a, b]);
    assert_eq!(gs.len(), 1, "empty-repo case-variant remotes must unify: {gs:?}");
}

#[test]
fn smart_divergent_lineage_still_separate() {
    let gs = build(vec![cp("proj", "github.com/inovacc/proj", "rootA"), cp("proj", "github.com/inovacc/proj-fork", "rootB")]);
    assert_eq!(gs.len(), 2, "different root commits must not merge: {gs:?}");
}

#[test]
fn grouping_keeps_input_order_and_partitions() {
    let gs = build(vec![cp("a", "", "r1"), cp("b", "", "r2"), cp("a", "", "r1"), cp("b", "", "r3")]);
    assert_eq!(gs.len(), 3);
    let total: usize = gs.iter().map(|g| g.copies.len()).sum();
    assert_eq!(total, 4);
    assert_eq!(gs[0].repo_name, "a");
    assert_eq!(gs[0].copies.len(), 2);
    assert_eq!(gs[1].repo_name, "b");
    assert_eq!(gs[2].repo_name, "b");
    for g in &gs {
        for c in &g.copies {
            assert_eq!(group_key(c), g.key);
        }
    }
}

#[test]
fn group_key_prefers_lineage_then_remote_then_name() {
    let mut c = cp("X", "github.com/Inovacc/X", "");
    c.fp.root_commits = vec!["bb".to_string(), "BB".to_string(), "aa".to_string()];
    assert_eq!(group_key(&c), "lineage:BB,aa,bb");
    c.fp.root_commits.clear();
    assert_eq!(group_key(&c), "remote:github.com/inovacc/x");
    c.remote_url.clear();
    assert_eq!(group_key(&c), "noremote:x:EMPTY");
}
