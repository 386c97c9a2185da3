use reposmerge::clock::Timestamp;
use reposmerge::model::Fingerprint;

#[test]
fn test_score_orders_by_ahead() {
    let a = Fingerprint { ahead: 5, dirty_count: 0, ..Default::default() };
    let b = Fingerprint { ahead: 1, dirty_count: 9, ..Default::default() };
    assert!(a.score() > b.score(), "ahead=5 ({}) should outrank ahead=1 dirty=9 ({})", a.score(), b.score());
}

#[test]
fn score_formula_exact_values() {
    let fp = Fingerprint {
        ahead: 2,
        dirty_count: 3,
        untracked_count: 4,
        stash_count: 1,
        last_commit: Timestamp { secs: 86_400 * 10 + 5, nanos: 0 },
        ..Default::default()
    };
    assert_eq!(fp.score(), 2_000_000 + 100_003 + 10_004 + 1_000 + 10);
    assert_eq!(fp.score_checked(), Some(fp.score()));
    // days before 1970 round toward zero
    let old = Fingerprint { last_commit: Timestamp { secs: -86_399, nanos: 0 }, ..Default::default() };
    assert_eq!(old.score(), 0);
}

#[test]
fn score_checked_refuses_overflow() {
    let fp = Fingerprint { ahead: i64::MAX, ..Default::default() };
    assert_eq!(fp.score_checked(), None);
}

#[test]
fn default_fingerprint_is_year_one() {
    let fp = Fingerprint::default();
    assert_eq!(fp.last_commit.secs, -62_135_596_800);
    assert_eq!(fp.dir_mtime.secs, -62_135_596_800);
    assert_eq!(fp.commit_count, 0);
}

#[test]
fn untracked_file_outranks_stash() {
    let a = Fingerprint { untracked_count: 1, ..Default::default() };
    let b = Fingerprint { stash_count: 1, ..Default::default() };
    assert!(a.score() > b.score());
    assert_eq!(b.score() - Fingerprint::default().score(), 1_000);
}
