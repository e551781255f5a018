use policy_engine::policy::{PiiConfig, PiiDetectors, PiiMode, PolicyFile, SemanticConfig};

#[test]
fn pii_detectors_default_to_false() {
    let detectors = PiiDetectors::default();
    assert!(!detectors.email);
    assert!(!detectors.phone);
    assert!(!detectors.credit_card);
    assert!(!detectors.ip);
}

#[test]
fn pii_config_defaults() {
    let pii = PiiConfig::default();
    assert!(pii.enabled);
    assert!(matches!(pii.mode, PiiMode::Redact));
    assert_eq!(pii.redaction_token, b"REDACTED".to_vec());
    assert_eq!(pii.max_bytes, 32768);
    assert!(!pii.include_findings);
}

#[test]
fn semantic_config_defaults() {
    let sem = SemanticConfig::default();
    assert!(!sem.enabled);
    assert_eq!(sem.threshold, 8800);
    assert_eq!(sem.ngram_min, Some(3));
    assert_eq!(sem.ngram_max, Some(5));
    assert!(sem.cases.is_empty());
}

#[test]
fn policy_file_default_is_empty() {
    let policy = PolicyFile::default();
    assert!(policy.rules.is_empty());
    assert!(policy.pii.enabled);
    assert!(!policy.semantic.enabled);
}
