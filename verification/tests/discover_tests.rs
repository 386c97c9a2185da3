use std::path::MAIN_SEPARATOR;

use reposmerge::discover::{
    default_scope, infer_machine, is_third_party, normalize_url, parse_owner_repo, source_disc, walk_step, Scope,
    WalkStep,
};
use reposmerge::gitx::{Fake, Logged};
use reposmerge::pipeline::record_repo;

#[test]
fn test_normalize_url() {
    let cases = [
        ("git@github.com:inovacc/omni.git", "github.com/inovacc/omni"),
        ("https://github.com/inovacc/omni.git", "github.com/inovacc/omni"),
        ("https://github.com/inovacc/omni", "github.com/inovacc/omni"),
        ("ssh://git@github.com/lb-conn/treasury", "github.com/lb-conn/treasury"),
    ];
    for (input, want) in cases {
        assert_eq!(normalize_url(input), want, "normalize_url({input:?})");
    }
}

#[test]
fn test_parse_owner_repo() {
    let (o, r) = parse_owner_repo("github.com/inovacc/omni", "omni");
    assert_eq!((o.as_str(), r.as_str()), ("inovacc", "omni"));
    let (o, r) = parse_owner_repo("", "auditor");
    assert_eq!((o.as_str(), r.as_str()), ("", "auditor"));
}

#[test]
fn test_infer_machine() {
    let cases = [
        ("D:/weaver-sync/development/personal/projects/x", "live"),
        ("D:/weaver-sync/New folder/acer/projects/x", "acer"),
        ("D:/weaver-sync/others/My Drive_2/dell/x", "dell"),
        ("D:/weaver-sync/others/My Drive_2/acer/x", "acer"),
    ];
    for (p, want) in cases {
        assert_eq!(infer_machine(p), want, "infer_machine({p:?})");
    }
}

#[test]
fn test_source_disc_deterministic() {
    let p = "D:/weaver-sync/New folder/acer/projects/x";
    let a = source_disc(p);
    let b = source_disc(p);
    assert_eq!(a, b, "source_disc not deterministic");
    assert!(!a.is_empty(), "source_disc returned empty token");
}

#[test]
fn test_source_disc_differs_by_path() {
    let a = source_disc("D:/weaver-sync/New folder/acer/projects/x");
    let b = source_disc("D:/weaver-sync/others/My Drive_2/acer/projects/x");
    assert_ne!(a, b, "source_disc collided for distinct source paths");
}

#[test]
fn source_disc_is_six_hex_digits_of_parent_dir_digest() {
    // the parent directory of both paths is the same, so is the token
    let a = source_disc("D:/weaver-sync/acer/projects/x");
    let b = source_disc("D:/weaver-sync/acer/projects/y");
    assert_eq!(a, b);
    assert_eq!(a.len(), 6);
    assert!(a.chars().all(|c| c.is_ascii_hexdigit() && !c.is_ascii_uppercase()));
}

#[test]
fn test_is_third_party() {
    let sep = MAIN_SEPARATOR;
    let scope = Scope {
        in_scope_owners: vec!["inovacc".to_string(), "lb-conn".to_string()],
        third_party_dirs: vec![format!("{sep}public_repos{sep}")],
    };
    let third_party_path = format!("D:{sep}public_repos{sep}someupstream");
    let join = |parts: &[&str]| parts.join(&sep.to_string());
    let cases: [(&str, String, &str, bool); 5] = [
        ("path under third-party dir", third_party_path, "inovacc", true),
        ("local-only repo (no owner) is in scope", join(&["D:", "projects", "x"]), "", false),
        ("owner in scope list", join(&["D:", "projects", "omni"]), "inovacc", false),
        ("owner in scope list case-insensitive", join(&["D:", "projects", "omni"]), "INOVACC", false),
        ("owner not in scope list", join(&["D:", "projects", "other"]), "some-random-org", true),
    ];
    for (name, path, owner, want) in cases {
        assert_eq!(is_third_party(&path, owner, &scope), want, "case: {name}");
    }
}

#[test]
fn default_scope_lists_owners_and_public_repos_dir() {
    let s = default_scope();
    assert!(s.in_scope_owners.iter().any(|o| o == "inovacc"));
    let sep = MAIN_SEPARATOR;
    assert!(s.third_party_dirs.contains(&format!("{sep}public_repos{sep}")));
}

#[test]
fn walk_prunes_excluded_and_git_dirs_and_stops_at_repos() {
    let ex = vec!["node_modules".to_string()];
    assert_eq!(walk_step(false, "x", &ex, false, false), WalkStep::Continue);
    assert_eq!(walk_step(true, "node_modules", &ex, true, false), WalkStep::SkipSubtree);
    assert_eq!(walk_step(true, ".git", &ex, false, true), WalkStep::SkipSubtree);
    assert_eq!(walk_step(true, "plain", &ex, false, false), WalkStep::Continue);
    assert_eq!(walk_step(true, "repo", &ex, true, false), WalkStep::RecordAndSkip);
    assert_eq!(walk_step(true, "repo", &ex, true, true), WalkStep::RecordAndDescend);
}

#[test]
fn record_repo_asks_for_origin_and_classifies() {
    let sep = MAIN_SEPARATOR;
    let path = format!("D:{sep}projects{sep}omni");
    let mut f = Logged::new(Fake::new().with_response("config --get remote.origin.url", "git@github.com:inovacc/omni.git\n"));
    let (c, third) = record_repo(&mut f, &path, "D:", "omni", &default_scope());
    assert_eq!(c.remote_url, "github.com/inovacc/omni");
    assert_eq!(c.owner, "inovacc");
    assert_eq!(c.repo_name, "omni");
    assert_eq!(c.path, path);
    assert_eq!(c.root, "D:");
    assert!(!third);
    assert_eq!(f.runner().calls(), vec!["config --get remote.origin.url".to_string()]);

    // no origin: an unscoped local-only copy, named after its directory
    let mut g = Logged::new(Fake::new().with_error("config --get remote.origin.url", "exit status 1"));
    let (c, third) = record_repo(&mut g, &path, "D:", "omni", &default_scope());
    assert_eq!(c.remote_url, "");
    assert_eq!(c.owner, "");
    assert_eq!(c.repo_name, "omni");
    assert!(!third);
}

#[test]
fn source_disc_strips_one_trailing_slash() {
    // "/a/b//" loses one '/', giving "/a/b/", whose parent is "/a/b".
    assert_eq!(source_disc("/a/b//"), source_disc("/a/b/c"));
    assert_eq!(source_disc("/a/b/c"), "662b7b");
    // "/a/b/" loses its '/', giving "/a/b", whose parent is "/a".
    assert_eq!(source_disc("/a/b/"), "6a50dc");
    assert_ne!(source_disc("/a/b//"), source_disc("/a/b/"));
}

#[test]
fn remote_url_forms_share_one_normal_form() {
    let want = "example.org/team/tool";
    assert_eq!(normalize_url("https://example.org/team/tool.git"), want);
    assert_eq!(normalize_url("git@example.org:team/tool.git"), want);
    assert_eq!(normalize_url("ssh://git@example.org/team/tool"), want);
    assert_eq!(normalize_url("http://user@example.org/team/tool"), want);
    assert_eq!(normalize_url("  \t\n"), "");
}
