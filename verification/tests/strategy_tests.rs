use reposmerge::model::{Fingerprint, Group, StrategyKind};
use reposmerge::strategy::{choose_canonical, decide, path_clean, path_join};

fn mk(machine: &str, ahead: i64, commits: &[&str]) -> reposmerge::model::Copy {
    reposmerge::model::Copy {
        machine: machine.to_string(),
        repo_name: "x".to_string(),
        path: format!("/path/{machine}"),
        fp: Fingerprint { ahead, all_commits: commits.iter().map(|s| s.to_string()).collect(), ..Default::default() },
        ..Default::default()
    }
}

fn mk_at(machine: &str, p: &str, ahead: i64, commits: &[&str]) -> reposmerge::model::Copy {
    reposmerge::model::Copy {
        machine: machine.to_string(),
        repo_name: "x".to_string(),
        path: p.to_string(),
        fp: Fingerprint { ahead, all_commits: commits.iter().map(|s| s.to_string()).collect(), ..Default::default() },
        ..Default::default()
    }
}

#[test]
fn test_remote_group_uses_strategy_a() {
    let g = Group {
        has_remote: true,
        repo_name: "omni".to_string(),
        owner: "inovacc".to_string(),
        remote_url: "github.com/inovacc/omni".to_string(),
        copies: vec![mk("live", 3, &["a", "b", "c"]), mk("acer", 0, &["a", "b"]), mk("dell", 0, &["a", "b", "z"])],
        ..Default::default()
    };
    let d = decide(&g, "canonical");
    assert_eq!(d.strategy, StrategyKind::A);
    assert_eq!(d.canonical.machine, "live");
    assert_eq!(d.quarantine.len(), 1);
    assert_eq!(d.quarantine[0].copy.machine, "dell");
    assert_eq!(d.redundant.len(), 1);
    assert_eq!(d.dest_path, "canonical/inovacc/omni");
}

#[test]
fn test_stash_only_copy_is_quarantined_not_redundant() {
    let canon = reposmerge::model::Copy {
        path: "/live".to_string(),
        machine: "live".to_string(),
        repo_name: "x".to_string(),
        fp: Fingerprint { ahead: 1, all_commits: vec!["a".to_string(), "b".to_string()], ..Default::default() },
        ..Default::default()
    };
    let stashed = reposmerge::model::Copy {
        path: "/acer".to_string(),
        machine: "acer".to_string(),
        repo_name: "x".to_string(),
        fp: Fingerprint { all_commits: vec!["a".to_string(), "b".to_string()], stash_count: 1, ..Default::default() },
        ..Default::default()
    };
    let g = Group {
        has_remote: true,
        repo_name: "x".to_string(),
        owner: "o".to_string(),
        remote_url: "github.com/o/x".to_string(),
        copies: vec![canon, stashed],
        ..Default::default()
    };
    let d = decide(&g, "canonical");
    assert_eq!(d.quarantine.len(), 1);
    assert_eq!(d.quarantine[0].copy.path, "/acer");
    assert_eq!(d.redundant.len(), 0);
}

#[test]
fn test_local_only_group_uses_strategy_b() {
    let g = Group {
        has_remote: false,
        repo_name: "auditor".to_string(),
        copies: vec![mk("live", 0, &["a", "b"]), mk("acer", 0, &["a", "c"])],
        ..Default::default()
    };
    let d = decide(&g, "canonical");
    assert_eq!(d.strategy, StrategyKind::B);
    assert_eq!(d.union_remotes.len(), 1);
    assert_eq!(d.dest_path, "canonical/personal/auditor");
}

#[test]
fn test_remote_group_same_brand_collision_gets_distinct_quarantine_labels() {
    let canon = mk_at("live", "/live/omni", 3, &["a", "b", "c"]);
    let acer1 = mk_at("acer", "/New folder/acer/projects/x", 0, &["a", "b", "z1"]);
    let acer2 = mk_at("acer", "/others/My Drive_2/acer/x", 0, &["a", "b", "z2"]);
    let g = Group {
        has_remote: true,
        repo_name: "omni".to_string(),
        owner: "inovacc".to_string(),
        remote_url: "github.com/inovacc/omni".to_string(),
        copies: vec![canon, acer1, acer2],
        ..Default::default()
    };
    let d = decide(&g, "canonical");
    assert_eq!(d.quarantine.len(), 2);
    let dest1 = &d.quarantine[0].dest_path;
    let dest2 = &d.quarantine[1].dest_path;
    assert_ne!(dest1, dest2, "colliding acer quarantine DestPaths must be distinct");
    const PREFIX: &str = "_quarantine/omni/acer-";
    for dest in [dest1, dest2] {
        assert!(
            dest.len() > PREFIX.len() && dest.starts_with(PREFIX),
            "expected quarantine DestPath to start with {PREFIX:?}, got {dest:?}"
        );
    }
}

#[test]
fn test_local_only_group_same_brand_collision_gets_distinct_union_labels() {
    let canon = mk_at("live", "/live/x", 0, &["a", "b"]);
    let acer1 = mk_at("acer", "/New folder/acer/x", 0, &["a", "b"]);
    let acer2 = mk_at("acer", "/others/My Drive_2/acer/x", 0, &["a", "b"]);
    let g = Group { has_remote: false, repo_name: "auditor".to_string(), copies: vec![canon, acer1, acer2], ..Default::default() };
    let d = decide(&g, "canonical");
    assert_eq!(d.union_remotes.len(), 2);
    let name1 = &d.union_remotes[0].name;
    let name2 = &d.union_remotes[1].name;
    assert_ne!(name1, name2, "colliding acer union remote names must be distinct");
    const PREFIX: &str = "consolidate-acer-";
    for name in [name1, name2] {
        assert!(
            name.len() > PREFIX.len() && name.starts_with(PREFIX),
            "expected union remote name to start with {PREFIX:?}, got {name:?}"
        );
    }
}

#[test]
fn test_no_collision_labels_remain_bare() {
    let canon = mk_at("live", "/live/x", 3, &["a", "b", "c"]);
    let dell = mk_at("dell", "/dell/x", 0, &["a", "b", "z"]);
    let g = Group {
        has_remote: true,
        repo_name: "omni".to_string(),
        owner: "inovacc".to_string(),
        remote_url: "github.com/inovacc/omni".to_string(),
        copies: vec![canon, dell],
        ..Default::default()
    };
    let d = decide(&g, "canonical");
    assert_eq!(d.quarantine.len(), 1);
    assert_eq!(d.quarantine[0].dest_path, "_quarantine/omni/dell");

    let g_b = Group {
        has_remote: false,
        repo_name: "auditor".to_string(),
        copies: vec![mk_at("live", "/live/x", 0, &["a", "b"]), mk_at("dell", "/dell/x", 0, &["a", "b"])],
        ..Default::default()
    };
    let d_b = decide(&g_b, "canonical");
    assert_eq!(d_b.union_remotes.len(), 1);
    assert_eq!(d_b.union_remotes[0].name, "consolidate-dell");
}

#[test]
fn canonical_is_the_highest_score_then_machine_rank() {
    let copies = vec![mk("acer", 0, &["a"]), mk("live", 0, &["a"]), mk("dell", 1, &["a"])];
    let (c, reason) = choose_canonical(&copies);
    assert_eq!(c.machine, "dell");
    assert_eq!(reason, "highest richness score; machine=dell");
    let tied = vec![mk("drive", 0, &["a"]), mk("acer", 0, &["a"]), mk("live", 0, &["a"]), mk("usb", 0, &["a"])];
    let (c, reason) = choose_canonical(&tied);
    assert_eq!(c.machine, "live");
    assert_eq!(reason, "highest richness score; machine=live");
}

#[test]
fn unreachable_lists_commits_missing_from_canonical() {
    let canon = mk("live", 0, &["a", "b"]);
    let other = mk("acer", 0, &["a", "c", "d"]);
    assert_eq!(reposmerge::strategy::unreachable(&canon, &other), vec!["c".to_string(), "d".to_string()]);
    assert!(reposmerge::strategy::unreachable(&canon, &canon).is_empty());
}

#[test]
fn path_helpers_clean_like_go() {
    assert_eq!(path_clean("a//b/./c/../d/"), "a/b/d");
    assert_eq!(path_clean(""), ".");
    assert_eq!(path_clean("/../x"), "/x");
    assert_eq!(path_join(&vec!["canonical".to_string(), "".to_string(), "omni".to_string()]), "canonical/omni");
}

fn rooted(machine: &str, ahead: i64, roots: &[&str]) -> reposmerge::model::Copy {
    let mut c = mk(machine, ahead, &["a"]);
    c.repo_name = "proj".to_string();
    c.fp.root_commits = roots.iter().map(|s| s.to_string()).collect();
    c
}

#[test]
fn local_copies_of_unrelated_lineage_use_strategy_c() {
    let g = Group {
        has_remote: false,
        repo_name: "proj".to_string(),
        copies: vec![rooted("live", 1, &["r1"]), rooted("acer", 0, &["r2"])],
        ..Default::default()
    };
    let d = decide(&g, "canonical");
    assert_eq!(d.strategy, StrategyKind::C);
    assert_eq!(d.canonical.machine, "live");
    assert!(d.union_remotes.is_empty());
    assert!(d.redundant.is_empty());
    assert_eq!(d.quarantine.len(), 1);
    assert_eq!(d.quarantine[0].copy.machine, "acer");
    assert_eq!(d.quarantine[0].reason, "different-lineage");
    assert_eq!(d.quarantine[0].dest_path, "_quarantine/proj/acer");
    assert_eq!(d.dest_path, "canonical/personal/proj");
}

#[test]
fn local_copies_sharing_roots_use_strategy_b() {
    let g = Group {
        has_remote: false,
        repo_name: "proj".to_string(),
        copies: vec![rooted("live", 1, &["r1", "r2"]), rooted("acer", 0, &["r2", "r1"]), rooted("dell", 0, &[])],
        ..Default::default()
    };
    let d = decide(&g, "canonical");
    assert_eq!(d.strategy, StrategyKind::B);
    assert_eq!(d.union_remotes.len(), 2);
    assert!(d.quarantine.is_empty());
}
