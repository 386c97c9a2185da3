use reposmerge::config::{default_features, default_logger_config, Features};

#[test]
fn seeded_logger_and_features() {
    let l = default_logger_config();
    assert_eq!(l.level, "info");
    assert_eq!(l.format, "json");
    assert!(l.redact);
    let f = default_features();
    assert_eq!(f, Features { logging: true, observability: false, daemon: false });
    assert!(f.logging);
    assert!(!f.daemon);
}
