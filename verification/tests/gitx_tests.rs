use reposmerge::gitx::{exit_status_text, Fake, GitError, Runner};

#[test]
fn fake_returns_canned_output() {
    let mut f = Fake::new().with_response("rev-parse HEAD", "abc123\n");
    let got = f.run("/repo", &["rev-parse", "HEAD"]).unwrap();
    assert_eq!(got, "abc123");
    let calls = f.calls();
    assert_eq!(calls.len(), 1);
    assert_eq!(calls[0], "rev-parse HEAD");
}

#[test]
fn fake_error_path() {
    let mut f = Fake::new().with_error("boom", "x");
    let res = f.run("/repo", &["boom"]);
    assert!(res.is_err(), "expected canned error for key 'boom'");
}

#[test]
fn fake_unscripted_call_answers_empty() {
    let mut f = Fake::default();
    assert_eq!(f.run("/repo", &["status", "--porcelain"]).unwrap(), "");
    assert_eq!(f.calls(), vec!["status --porcelain".to_string()]);
}

#[test]
fn fake_error_carries_args_dir_and_cause() {
    let mut f = Fake::new().with_response("boom", "ignored").with_error("boom", "kaput");
    let e = f.run("/work", &["boom"]).unwrap_err();
    assert_eq!(e.args, vec!["boom".to_string()]);
    assert_eq!(e.dir, "/work");
    assert_eq!(e.cause, "kaput");
    assert_eq!(e.stderr, "");
}

#[test]
fn fake_later_script_replaces_earlier() {
    let mut f = Fake::new().with_response("k", "one").with_response("k", " two ");
    assert_eq!(f.run("/", &["k"]).unwrap(), "two");
}

#[test]
fn git_error_message_framing() {
    let e = GitError {
        args: vec!["rev-parse".to_string(), "--verify".to_string(), "HEAD".to_string()],
        dir: "/tmp/x".to_string(),
        cause: "exit status 128".to_string(),
        stderr: "fatal: not a git repository".to_string(),
    };
    assert_eq!(
        e.message(),
        "git rev-parse --verify HEAD (in /tmp/x): exit status 128: fatal: not a git repository"
    );
}

#[test]
fn exit_causes_name_the_code_or_the_signal() {
    assert_eq!(exit_status_text(Some(128)), "exit status 128");
    assert_eq!(exit_status_text(Some(-1)), "exit status -1");
    assert_eq!(exit_status_text(None), "signal: killed");
}
