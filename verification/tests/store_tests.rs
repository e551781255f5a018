use policy_engine::compile::CompileError;
use policy_engine::policy::{
    Action, AppliesTo, Field, MatchExpr, PiiConfig, PiiDetectors, PiiMode, PolicyFile, Rule,
    SemanticConfig, When,
};
use policy_engine::store::RuleStore;

fn bv(s: &str) -> Vec<u8> {
    s.as_bytes().to_vec()
}

fn create_test_policy() -> PolicyFile {
    PolicyFile {
        rules: vec![Rule {
            id: bv("test-rule"),
            description: Some(bv("Test")),
            applies_to: AppliesTo::Prompt,
            action: Action::Block,
            priority: 10,
            when: When {
                any: vec![MatchExpr::Exact { field: Field::Text, value: bv("test") }],
            },
        }],
        pii: PiiConfig {
            enabled: true,
            applies_to: AppliesTo::Response,
            mode: PiiMode::Redact,
            redaction_token: bv("REDACTED"),
            detectors: PiiDetectors::default(),
            max_bytes: 10000,
            include_findings: false,
        },
        semantic: SemanticConfig::default(),
    }
}

#[test]
fn load_and_get_policy() {
    let store = RuleStore::load(create_test_policy()).unwrap();
    let retrieved = store.get_policy();

    assert_eq!(retrieved.rules.len(), 1);
    assert_eq!(retrieved.rules[0].id, bv("test-rule"));
    assert!(retrieved.pii.enabled);
}

#[test]
fn apply_policy_updates_state() {
    let mut store = RuleStore::load(create_test_policy()).unwrap();

    // Apply new policy
    let mut new_policy = create_test_policy();
    new_policy.rules[0].id = bv("updated-rule");
    new_policy.pii.enabled = false;

    store.apply_policy(new_policy).unwrap();

    // Verify updated
    let retrieved = store.get_policy();
    assert_eq!(retrieved.rules[0].id, bv("updated-rule"));
    assert!(!retrieved.pii.enabled);
}

#[test]
fn compiled_snapshot_returns_sorted_rules() {
    let mut policy = create_test_policy();
    policy.rules.push(Rule {
        id: bv("high-priority"),
        description: None,
        applies_to: AppliesTo::Prompt,
        action: Action::Block,
        priority: 5, // Lower than first rule (10)
        when: When {
            any: vec![MatchExpr::Exact { field: Field::Text, value: bv("urgent") }],
        },
    });

    let store = RuleStore::load(policy).unwrap();
    let compiled = store.compiled_snapshot();

    assert_eq!(compiled.len(), 2);
    assert_eq!(compiled[0].id, bv("high-priority")); // Priority 5 comes first
    assert_eq!(compiled[1].id, bv("test-rule")); // Priority 10 comes second
}

#[test]
fn pii_config_snapshot() {
    let store = RuleStore::load(create_test_policy()).unwrap();
    let pii = store.pii_config();

    assert!(pii.enabled);
    assert_eq!(pii.redaction_token, bv("REDACTED"));
}

#[test]
fn semantic_snapshot() {
    let store = RuleStore::load(create_test_policy()).unwrap();
    let semantic = store.semantic_snapshot();

    assert!(!semantic.enabled); // Default is disabled
}

#[test]
fn equal_priorities_sort_by_id() {
    let mut policy = create_test_policy();
    policy.rules[0].priority = 5;
    policy.rules[0].id = bv("bbb");
    policy.rules.push(Rule {
        id: bv("aaa"),
        description: None,
        applies_to: AppliesTo::Prompt,
        action: Action::Allow,
        priority: 5,
        when: When {
            any: vec![MatchExpr::Exact { field: Field::Text, value: bv("x") }],
        },
    });

    let store = RuleStore::load(policy).unwrap();
    let compiled = store.compiled_snapshot();
    assert_eq!(compiled[0].id, bv("aaa"));
    assert_eq!(compiled[1].id, bv("bbb"));
}

#[test]
fn apply_with_invalid_regex_is_a_noop() {
    let mut store = RuleStore::load(create_test_policy()).unwrap();

    let mut bad = create_test_policy();
    bad.rules[0].when.any.push(MatchExpr::Regex {
        field: Field::Text,
        pattern: "[broken(".to_string(),
    });
    bad.rules[0].id = bv("bad-rule");

    let r = store.apply_policy(bad);
    assert!(matches!(r, Err(CompileError::InvalidRegex { .. })));

    // The previous policy keeps serving, untouched.
    let retrieved = store.get_policy();
    assert_eq!(retrieved.rules.len(), 1);
    assert_eq!(retrieved.rules[0].id, bv("test-rule"));
    assert_eq!(store.compiled_snapshot().len(), 1);
    assert_eq!(store.compiled_snapshot()[0].id, bv("test-rule"));
}

#[test]
fn duplicate_rule_ids_fail_to_apply() {
    let mut policy = create_test_policy();
    let mut dup = policy.rules[0].clone();
    dup.priority = 20;
    policy.rules.push(dup);

    assert!(matches!(
        RuleStore::load(policy),
        Err(CompileError::DuplicateRuleId { .. })
    ));
}

#[test]
fn empty_keyword_set_fails_to_apply() {
    let mut policy = create_test_policy();
    policy.rules[0].when.any = vec![MatchExpr::Keywords { field: Field::Text, values: vec![] }];

    assert!(matches!(
        RuleStore::load(policy),
        Err(CompileError::EmptyKeywords { .. })
    ));
}
