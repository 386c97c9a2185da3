use reposmerge::gitx::{Fake, Logged};
use reposmerge::model::{Decision, Fingerprint, Group, Plan, QuarantineItem, StrategyKind};
use reposmerge::safety::{physical_reachability, reachability_proof};

fn copy_with(path: &str, machine: &str, commits: &[&str]) -> reposmerge::model::Copy {
    reposmerge::model::Copy {
        path: path.to_string(),
        machine: machine.to_string(),
        fp: Fingerprint { all_commits: commits.iter().map(|s| s.to_string()).collect(), ..Default::default() },
        ..Default::default()
    }
}

#[test]
fn reachability_proof_passes() {
    let canon = copy_with("/live", "live", &["a", "b", "c"]);
    let other = copy_with("/acer", "acer", &["a", "b"]);
    let p = Plan {
        decisions: vec![Decision {
            group: Group { repo_name: "x".to_string(), copies: vec![canon.clone(), other], ..Default::default() },
            canonical: canon,
            ..Default::default()
        }],
        ..Default::default()
    };
    let v = reachability_proof(&p);
    assert!(v.is_empty(), "expected no violations, got {v:?}");
}

#[test]
fn reachability_proof_catches_loss() {
    let canon = copy_with("/live", "live", &["a"]);
    let other = copy_with("/acer", "acer", &["a", "z"]);
    let p = Plan {
        decisions: vec![Decision {
            group: Group { repo_name: "x".to_string(), copies: vec![canon.clone(), other], ..Default::default() },
            canonical: canon,
            ..Default::default()
        }],
        ..Default::default()
    };
    let v = reachability_proof(&p);
    assert!(v.len() == 1 && v[0].sha == "z", "expected violation for z, got {v:?}");
    assert_eq!(v[0].repo, "x");
    assert_eq!(v[0].machine, "acer");
}

#[test]
fn reachability_proof_quarantine_preserves() {
    let canon = copy_with("/live", "", &["a"]);
    let other = copy_with("/acer", "acer", &["a", "z"]);
    let p = Plan {
        decisions: vec![Decision {
            strategy: StrategyKind::A,
            group: Group { repo_name: "x".to_string(), copies: vec![canon.clone(), other.clone()], ..Default::default() },
            canonical: canon,
            quarantine: vec![QuarantineItem { copy: other, ..Default::default() }],
            ..Default::default()
        }],
        ..Default::default()
    };
    let v = reachability_proof(&p);
    assert!(v.is_empty(), "quarantined copy should preserve 'z'; got {v:?}");
}

#[test]
fn reachability_proof_strategy_b_unions_everything() {
    let canon = copy_with("/live", "live", &["a"]);
    let other = copy_with("/acer", "acer", &["a", "z"]);
    let p = Plan {
        decisions: vec![Decision {
            strategy: StrategyKind::B,
            group: Group { repo_name: "x".to_string(), copies: vec![canon.clone(), other], ..Default::default() },
            canonical: canon,
            ..Default::default()
        }],
        ..Default::default()
    };
    assert!(reachability_proof(&p).is_empty());
}

#[test]
fn physical_reachability_catches_missing() {
    let mut f = Logged::new(Fake::new().with_response("cat-file -e a^{commit}", "").with_error("cat-file -e z^{commit}", "not found"));
    let canon = copy_with("/live", "", &["a"]);
    let other = copy_with("/acer", "acer", &["a", "z"]);
    let p = Plan {
        decisions: vec![Decision {
            strategy: StrategyKind::B,
            dest_path: "/dest".to_string(),
            group: Group { repo_name: "x".to_string(), copies: vec![canon.clone(), other], ..Default::default() },
            canonical: canon,
            ..Default::default()
        }],
        ..Default::default()
    };
    let v = physical_reachability(&mut f, &p);
    assert!(v.len() == 1 && v[0].sha == "z", "expected physical violation for z, got {v:?}");
    assert_eq!(
        f.runner().calls(),
        vec!["cat-file -e a^{commit}".to_string(), "cat-file -e a^{commit}".to_string(), "cat-file -e z^{commit}".to_string()]
    );
}

#[test]
fn physical_reachability_ignores_strategy_a() {
    let mut f = Logged::new(Fake::new().with_error("cat-file -e z^{commit}", "not found"));
    let canon = copy_with("/live", "", &["z"]);
    let p = Plan {
        decisions: vec![Decision {
            strategy: StrategyKind::A,
            group: Group { repo_name: "x".to_string(), copies: vec![canon.clone()], ..Default::default() },
            canonical: canon,
            ..Default::default()
        }],
        ..Default::default()
    };
    assert!(physical_reachability(&mut f, &p).is_empty());
    assert!(f.runner().calls().is_empty());
}

#[test]
fn snapshot_decision_passes_reachability() {
    let mut live = copy_with("/live", "live", &["a", "b"]);
    live.fp.root_commits = vec!["a".to_string()];
    live.fp.ahead = 1;
    let mut acer = copy_with("/acer", "acer", &["x", "y"]);
    acer.fp.root_commits = vec!["x".to_string()];
    let g = Group { repo_name: "proj".to_string(), copies: vec![live, acer], ..Default::default() };
    let d = reposmerge::strategy::decide(&g, "canonical");
    assert_eq!(d.strategy, StrategyKind::C);
    let p = Plan { decisions: vec![d], ..Default::default() };
    assert!(reachability_proof(&p).is_empty());
}
