use reposmerge::digest::sha256_hex;
use reposmerge::model::{ApplyResult, Decision, Fingerprint, Group, Plan, QuarantineItem, StrategyKind, UnionRemote};
use reposmerge::report::{checksum_line, checksum_listing, divergence_markdown, go_slice_v, manifest_markdown, strategy_str, write_inventory};
use reposmerge::text::sort_strings;

fn golden_plan() -> Plan {
    Plan {
        roots: vec!["repos/root1".to_string(), "repos/root2".to_string()],
        dest: "canonical".to_string(),
        generated_at: "2026-06-24T00:00:00Z".to_string(),
        decisions: vec![
            Decision {
                group: Group {
                    key: "https://github.com/inovacc/omni.git".to_string(),
                    owner: "inovacc".to_string(),
                    repo_name: "omni".to_string(),
                    has_remote: true,
                    remote_url: "https://github.com/inovacc/omni.git".to_string(),
                    copies: vec![],
                },
                strategy: StrategyKind::A,
                canonical: reposmerge::model::Copy {
                    path: "repos/root1/inovacc/omni".to_string(),
                    root: "repos/root1".to_string(),
                    machine: "live".to_string(),
                    owner: "inovacc".to_string(),
                    repo_name: "omni".to_string(),
                    remote_url: "https://github.com/inovacc/omni.git".to_string(),
                    fp: Fingerprint { head: "aaaaaaa1111111111111111111111111111111".to_string(), ahead: 2, ..Default::default() },
                },
                canonical_reason: "most commits ahead of origin".to_string(),
                dest_path: "canonical/inovacc/omni".to_string(),
                quarantine: vec![QuarantineItem {
                    copy: reposmerge::model::Copy {
                        path: "repos/root2/inovacc/omni".to_string(),
                        root: "repos/root2".to_string(),
                        machine: "acer".to_string(),
                        owner: "inovacc".to_string(),
                        repo_name: "omni".to_string(),
                        ..Default::default()
                    },
                    dest_path: "canonical/inovacc/omni/_quarantine/acer".to_string(),
                    reason: "dirty working tree with unreachable commits".to_string(),
                    unreachable_commits: vec!["deadbeef1111111111111111111111111111111".to_string()],
                }],
                redundant: vec!["repos/root3/inovacc/omni".to_string()],
                union_remotes: Vec::new(),
            },
            Decision {
                group: Group {
                    key: "noremote:root1234567:loom".to_string(),
                    owner: "personal".to_string(),
                    repo_name: "loom".to_string(),
                    has_remote: false,
                    remote_url: String::new(),
                    copies: vec![],
                },
                strategy: StrategyKind::B,
                canonical: reposmerge::model::Copy {
                    path: "repos/root1/personal/loom".to_string(),
                    root: "repos/root1".to_string(),
                    machine: "live".to_string(),
                    owner: "personal".to_string(),
                    repo_name: "loom".to_string(),
                    ..Default::default()
                },
                canonical_reason: "richest fingerprint (shared lineage)".to_string(),
                dest_path: "canonical/personal/loom".to_string(),
                union_remotes: vec![UnionRemote {
                    name: "consolidate-acer".to_string(),
                    path: "repos/root2/personal/loom".to_string(),
                    branches: vec!["main".to_string(), "feature-x".to_string()],
                }],
                ..Default::default()
            },
        ],
        third_party: vec![],
    }
}

fn golden_apply_result() -> ApplyResult {
    ApplyResult {
        copied: 2,
        quarantined: 1,
        unioned: 1,
        skipped: 0,
        skipped_files: vec!["repos/root1/inovacc/omni/locked.txt".to_string()],
        ..Default::default()
    }
}

#[test]
fn golden_divergence_and_manifest_texts() {
    let p = golden_plan();
    let div = divergence_markdown(&p);
    assert_eq!(
        div,
        "# Divergence report\n\n\
## inovacc/omni \u{2014} strategy A-richest-quarantine\n\
- canonical: live (most commits ahead of origin)\n\
- quarantine acer: dirty working tree with unreachable commits (1 unreachable commits)\n\
\n\
## personal/loom \u{2014} strategy B-union-branches\n\
- canonical: live (richest fingerprint (shared lineage))\n\
- union consolidate-acer: branches [main feature-x]\n\
\n"
    );
    let man = manifest_markdown(&p, &golden_apply_result());
    assert_eq!(
        man,
        "# Consolidation manifest\n\n\
Generated: 2026-06-24T00:00:00Z\n\
Roots: [repos/root1 repos/root2]\n\
Dest: canonical\n\n\
Copied: 2  Quarantined: 1  Unioned: 1  Skipped: 0\n\n\
| owner | repo | strategy | canonical | quarantined | redundant |\n\
|---|---|---|---|---|---|\n\
| inovacc | omni | A-richest-quarantine | live | 1 | 1 |\n\
| personal | loom | B-union-branches | live | 0 | 0 |\n\
\n## Unreadable files skipped (1)\n\n\
- repos/root1/inovacc/omni/locked.txt\n"
    );
}

#[test]
fn divergence_skips_decisions_without_divergence() {
    let p = Plan { decisions: vec![Decision::default()], ..Default::default() };
    assert_eq!(divergence_markdown(&p), "# Divergence report\n\n");
}

#[test]
fn manifest_lists_at_most_fifty_skipped_files() {
    let files: Vec<String> = (0..53).map(|i| format!("f{i}")).collect();
    let res = ApplyResult { skipped_files: files, ..Default::default() };
    let man = manifest_markdown(&Plan::default(), &res);
    assert!(man.contains("\n## Unreadable files skipped (53)\n\n- f0\n"));
    assert!(man.contains("- f49\n- ... and 3 more\n"));
    assert!(!man.contains("- f50\n"));
    assert!(man.starts_with("# Consolidation manifest\n\nGenerated: \nRoots: []\nDest: \n\n"));
}

#[test]
fn strategy_names_and_bracket_lists() {
    assert_eq!(strategy_str(StrategyKind::A), "A-richest-quarantine");
    assert_eq!(strategy_str(StrategyKind::B), "B-union-branches");
    assert_eq!(strategy_str(StrategyKind::C), "C-snapshot");
    assert_eq!(go_slice_v(&vec![]), "[]");
    assert_eq!(go_slice_v(&vec!["a".to_string(), "b c".to_string()]), "[a b c]");
}

#[test]
fn test_write_inventory_writes_csvs() {
    let in_scope = vec![reposmerge::model::Copy {
        owner: "inovacc".to_string(),
        repo_name: "omni".to_string(),
        machine: "live".to_string(),
        remote_url: "https://github.com/inovacc/omni.git".to_string(),
        path: "repos/root1/inovacc/omni".to_string(),
        fp: Fingerprint { head: "abc123".to_string(), commit_count: 3, ahead: 1, dirty_count: 0, untracked_count: 2, ..Default::default() },
        ..Default::default()
    }];
    let third_party = vec![reposmerge::model::Copy {
        owner: String::new(),
        repo_name: "thirdlib".to_string(),
        machine: "live".to_string(),
        path: "repos/root1/vendor/thirdlib".to_string(),
        ..Default::default()
    }];
    let mut inv = Vec::new();
    let mut tp = Vec::new();
    write_inventory(&in_scope, &third_party, &mut inv, &mut tp);
    let inv = String::from_utf8(inv).unwrap();
    assert!(inv.starts_with("owner,repo,machine"), "bad header: {inv:?}");
    assert!(inv.contains("inovacc,omni,live"), "missing row: {inv:?}");
    let tp = String::from_utf8(tp).unwrap();
    assert!(tp.contains("thirdlib"), "missing row: {tp:?}");
}

#[test]
fn inventory_rows_exact_and_quoted_where_needed() {
    let c = reposmerge::model::Copy {
        owner: "o".to_string(),
        repo_name: "r,x".to_string(),
        machine: "live".to_string(),
        path: "p".to_string(),
        fp: Fingerprint { head: "h".to_string(), commit_count: -1, ahead: 12, dirty_count: 0, untracked_count: 7, ..Default::default() },
        ..Default::default()
    };
    let mut inv = b"x".to_vec();
    let mut tp = Vec::new();
    write_inventory(&vec![c], &vec![], &mut inv, &mut tp);
    assert_eq!(
        String::from_utf8(inv).unwrap(),
        "xowner,repo,machine,remote,head,commits,ahead,dirty,untracked,path\no,\"r,x\",live,,h,-1,12,0,7,p\n"
    );
    assert_eq!(String::from_utf8(tp).unwrap(), "owner,repo,machine,remote,head,commits,ahead,dirty,untracked,path\n");
}

#[test]
fn checksum_lines_sha256sum_format_sorted() {
    let rels = sort_strings(&vec!["sub/a.txt".to_string(), "b.txt".to_string()]);
    assert_eq!(rels, vec!["b.txt".to_string(), "sub/a.txt".to_string()]);
    assert_eq!(checksum_line("b.txt", b"bbb"), format!("{}  b.txt\n", sha256_hex(b"bbb")));
    assert_eq!(
        checksum_line("sub/a.txt", b"aaa"),
        "9834876dcfb05cb167a5c24953eba58c4ac89b1adf57f28f2f9d09af107ee8f0  sub/a.txt\n"
    );
}

#[test]
fn checksum_listing_joins_lines_in_order() {
    let files = vec![("b.txt".to_string(), b"bbb".to_vec()), ("sub/a.txt".to_string(), b"aaa".to_vec())];
    assert_eq!(
        checksum_listing(&files),
        format!(
            "{}  b.txt\n9834876dcfb05cb167a5c24953eba58c4ac89b1adf57f28f2f9d09af107ee8f0  sub/a.txt\n",
            sha256_hex(b"bbb")
        )
    );
    assert_eq!(checksum_listing(&Vec::new()), "");
}
