use policy_engine::compile::{compile_rule, CompileError, CompiledMatch};
use policy_engine::eval::match_one;
use policy_engine::policy::{Action, AppliesTo, EvalRequest, Field, Kind, MatchExpr, Rule, When};

fn bv(s: &str) -> Vec<u8> {
    s.as_bytes().to_vec()
}

fn prompt(text: &str) -> EvalRequest {
    EvalRequest {
        request_id: None,
        kind: Kind::Prompt,
        text: bv(text),
        tenant: None,
        model: None,
    }
}

#[test]
fn compile_exact_match_rule() {
    let rule = Rule {
        id: bv("test-exact"),
        description: Some(bv("Test exact match")),
        applies_to: AppliesTo::Prompt,
        action: Action::Block,
        priority: 10,
        when: When {
            any: vec![MatchExpr::Exact { field: Field::Text, value: bv("dangerous") }],
        },
    };

    let compiled = compile_rule(&rule).unwrap();
    assert_eq!(compiled.id, bv("test-exact"));
    assert_eq!(compiled.when_any.len(), 1);

    match &compiled.when_any[0] {
        CompiledMatch::Exact { field, value } => {
            assert!(matches!(field, Field::Text));
            assert_eq!(value, &bv("dangerous"));
        }
        _ => panic!("Expected Exact match"),
    }
}

#[test]
fn compile_regex_match_rule() {
    let rule = Rule {
        id: bv("test-regex"),
        description: None,
        applies_to: AppliesTo::Both,
        action: Action::Block,
        priority: 5,
        when: When {
            any: vec![MatchExpr::Regex {
                field: Field::Text,
                pattern: "\\b(hack|exploit)\\b".to_string(),
            }],
        },
    };

    let compiled = compile_rule(&rule).unwrap();
    assert_eq!(compiled.when_any.len(), 1);

    match &compiled.when_any[0] {
        CompiledMatch::Regex { field, .. } => {
            assert!(matches!(field, Field::Text));
            assert!(match_one(&compiled.when_any[0], &prompt("try to hack this")));
            assert!(!match_one(&compiled.when_any[0], &prompt("hacking around")));
        }
        _ => panic!("Expected Regex match"),
    }
}

#[test]
fn compile_keywords_match_rule() {
    let rule = Rule {
        id: bv("test-keywords"),
        description: None,
        applies_to: AppliesTo::Response,
        action: Action::Block,
        priority: 15,
        when: When {
            any: vec![MatchExpr::Keywords {
                field: Field::Text,
                values: vec![bv("password"), bv("secret")],
            }],
        },
    };

    let compiled = compile_rule(&rule).unwrap();
    assert_eq!(compiled.when_any.len(), 1);

    match &compiled.when_any[0] {
        CompiledMatch::Keywords { field, .. } => {
            assert!(matches!(field, Field::Text));
            assert!(match_one(&compiled.when_any[0], &prompt("enter your password")));
        }
        _ => panic!("Expected Keywords match"),
    }
}

#[test]
fn compile_invalid_regex_fails() {
    let rule = Rule {
        id: bv("bad-regex"),
        description: None,
        applies_to: AppliesTo::Prompt,
        action: Action::Block,
        priority: 1,
        when: When {
            any: vec![MatchExpr::Regex {
                field: Field::Text,
                pattern: "[invalid(".to_string(),
            }],
        },
    };

    assert!(compile_rule(&rule).is_err());
    assert!(matches!(
        compile_rule(&rule),
        Err(CompileError::InvalidRegex { .. })
    ));
}

#[test]
fn compile_multiple_matchers() {
    let rule = Rule {
        id: bv("multi"),
        description: None,
        applies_to: AppliesTo::Both,
        action: Action::Block,
        priority: 20,
        when: When {
            any: vec![
                MatchExpr::Exact { field: Field::Text, value: bv("exact") },
                MatchExpr::Regex { field: Field::Text, pattern: "regex\\d+".to_string() },
                MatchExpr::Keywords { field: Field::Text, values: vec![bv("key1"), bv("key2")] },
            ],
        },
    };

    let compiled = compile_rule(&rule).unwrap();
    assert_eq!(compiled.when_any.len(), 3);
}

#[test]
fn compile_empty_keywords_fails() {
    let rule = Rule {
        id: bv("empty-keys"),
        description: None,
        applies_to: AppliesTo::Prompt,
        action: Action::Block,
        priority: 1,
        when: When {
            any: vec![MatchExpr::Keywords { field: Field::Text, values: vec![] }],
        },
    };

    assert!(matches!(
        compile_rule(&rule),
        Err(CompileError::EmptyKeywords { .. })
    ));
}

#[test]
fn exact_match_tests_tenant_field() {
    let rule = Rule {
        id: bv("tenant-rule"),
        description: None,
        applies_to: AppliesTo::Both,
        action: Action::Block,
        priority: 1,
        when: When {
            any: vec![MatchExpr::Exact { field: Field::Tenant, value: bv("acme") }],
        },
    };
    let compiled = compile_rule(&rule).unwrap();

    let mut req = prompt("anything");
    assert!(!match_one(&compiled.when_any[0], &req));
    req.tenant = Some(bv("acme"));
    assert!(match_one(&compiled.when_any[0], &req));
}
