use reposmerge::config::{default_features, default_logger_config};
use reposmerge::model::{Fingerprint, Group, Plan, StrategyKind};
use reposmerge::pipeline::{can_decide, replan, scan_plan, unreadable_count, workers_for};
use reposmerge::safety::reachability_proof;

fn cp(machine: &str, path: &str, commits: &[&str], head: &str) -> reposmerge::model::Copy {
    reposmerge::model::Copy {
        machine: machine.to_string(),
        path: path.to_string(),
        repo_name: "x".to_string(),
        fp: Fingerprint {
            head: head.to_string(),
            all_commits: commits.iter().map(|s| s.to_string()).collect(),
            commit_count: commits.len() as i64,
            ..Default::default()
        },
        ..Default::default()
    }
}

#[test]
fn workers_are_twice_the_cpus_between_one_and_sixteen() {
    assert_eq!(workers_for(0), 1);
    assert_eq!(workers_for(1), 2);
    assert_eq!(workers_for(4), 8);
    assert_eq!(workers_for(8), 16);
    assert_eq!(workers_for(64), 16);
}

#[test]
fn unreadable_copies_have_no_head_and_no_commits() {
    let copies = vec![cp("a", "/a", &[], ""), cp("b", "/b", &["c1"], "c1"), cp("c", "/c", &[], "")];
    assert_eq!(unreadable_count(&copies), 2);
}

#[test]
fn scan_plan_holds_one_undecided_decision_per_group() {
    let groups = vec![
        Group { repo_name: "a".to_string(), copies: vec![cp("live", "/a", &["1"], "1")], ..Default::default() },
        Group { repo_name: "b".to_string(), ..Default::default() },
    ];
    let third = vec![cp("live", "/v/t", &[], "")];
    let p = scan_plan(
        &vec!["/r1".to_string()],
        &"./canonical".to_string(),
        "2026-06-24T00:00:00Z".to_string(),
        &groups,
        &third,
    );
    assert_eq!(p.roots, vec!["/r1".to_string()]);
    assert_eq!(p.dest, "./canonical");
    assert_eq!(p.generated_at, "2026-06-24T00:00:00Z");
    assert_eq!(p.decisions.len(), 2);
    assert_eq!(p.decisions[0].group.repo_name, "a");
    assert_eq!(p.decisions[0].group.copies.len(), 1);
    assert_eq!(p.decisions[0].strategy, StrategyKind::A);
    assert!(p.decisions[0].dest_path.is_empty());
    assert_eq!(p.decisions[1].group.repo_name, "b");
    assert_eq!(p.third_party.len(), 1);
}

#[test]
fn replan_decides_every_group_and_loses_no_commit() {
    let g1 = Group {
        has_remote: true,
        owner: "inovacc".to_string(),
        repo_name: "omni".to_string(),
        copies: vec![cp("live", "/l", &["a", "b"], "b"), cp("acer", "/c", &["a", "z"], "z")],
        ..Default::default()
    };
    let g2 = Group { repo_name: "loom".to_string(), copies: vec![cp("live", "/l2", &["q"], "q"), cp("dell", "/d2", &["r"], "r")], ..Default::default() };
    assert!(can_decide(&g1) && can_decide(&g2));
    assert!(!can_decide(&Group::default()));
    let p = scan_plan(&vec![], &"canonical".to_string(), String::new(), &vec![g1, g2], &vec![]);
    let kept = replan(p.clone(), "");
    assert_eq!(kept.dest, "canonical");
    assert_eq!(kept.decisions[0].dest_path, "canonical/inovacc/omni");
    assert_eq!(kept.decisions[0].strategy, StrategyKind::A);
    assert_eq!(kept.decisions[0].quarantine.len(), 1);
    assert_eq!(kept.decisions[1].strategy, StrategyKind::B);
    assert_eq!(kept.decisions[1].dest_path, "canonical/personal/loom");
    assert!(reachability_proof(&kept).is_empty());
    let moved = replan(p, "/elsewhere");
    assert_eq!(moved.dest, "/elsewhere");
    assert_eq!(moved.decisions[1].dest_path, "/elsewhere/personal/loom");
}

#[test]
fn default_logger_and_feature_seed_values() {
    let l = default_logger_config();
    assert_eq!(l.level, "info");
    assert_eq!(l.format, "json");
    assert!(l.redact);
    let f = default_features();
    assert!(f.logging);
    assert!(!f.observability);
    assert!(!f.daemon);
}

#[test]
fn empty_plan_replans_to_itself() {
    let p = replan(Plan::default(), "");
    assert!(p.decisions.is_empty());
    assert_eq!(p.dest, "");
}
