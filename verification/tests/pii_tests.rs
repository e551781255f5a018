use policy_engine::pii_regex::{
    is_valid_ipv4, luhn_valid, PiiRegexDetector, PiiType,
};

fn bv(s: &str) -> Vec<u8> {
    s.as_bytes().to_vec()
}

fn contains_sub(haystack: &[u8], needle: &[u8]) -> bool {
    if needle.is_empty() {
        return true;
    }
    if haystack.len() < needle.len() {
        return false;
    }
    for start in 0..=(haystack.len() - needle.len()) {
        if &haystack[start..start + needle.len()] == needle {
            return true;
        }
    }
    false
}

#[test]
fn masks_email_fully() {
    let det = PiiRegexDetector::new().unwrap();
    let (out, findings) = det.full_mask(&bv("contact me at eugene@example.com please"));
    assert!(contains_sub(&out, b"[EMAIL]"));
    assert!(!contains_sub(&out, b"eugene@example.com"));
    assert!(findings.iter().any(|f| f.pii_type == PiiType::Email));
}

#[test]
fn masks_ipv4_fully() {
    let det = PiiRegexDetector::new().unwrap();
    let (out, findings) = det.full_mask(&bv("ip is 192.168.45.23 ok"));
    assert!(contains_sub(&out, b"[IP]"));
    assert!(!contains_sub(&out, b"192.168.45.23"));
    assert!(findings.iter().any(|f| f.pii_type == PiiType::Ip));
}

#[test]
fn masks_credit_card_only_if_luhn_valid() {
    let det = PiiRegexDetector::new().unwrap();

    let (out1, f1) = det.full_mask(&bv("card 4111111111111111"));
    assert!(contains_sub(&out1, b"[CREDIT_CARD]"));
    assert!(f1.iter().any(|f| f.pii_type == PiiType::CreditCard));

    // invalid luhn -> should not mask as credit card
    let (out2, f2) = det.full_mask(&bv("card 4111111111111112"));
    assert!(!contains_sub(&out2, b"[CREDIT_CARD]"));
    assert!(f2.iter().all(|f| f.pii_type != PiiType::CreditCard));
}

#[test]
fn masks_multiple_types_and_preserves_text() {
    let det = PiiRegexDetector::new().unwrap();
    let input = bv("Email e@example.com IP 8.8.8.8 CC 4111-1111-1111-1111");
    let (out, _) = det.full_mask(&input);

    assert!(contains_sub(&out, b"[EMAIL]"));
    assert!(contains_sub(&out, b"[IP]"));
    assert!(contains_sub(&out, b"[CREDIT_CARD]"));
}

#[test]
fn luhn_accepts_valid_numbers() {
    assert!(luhn_valid(&bv("4111111111111111")));
    assert!(luhn_valid(&bv("79927398713")));
}

#[test]
fn luhn_rejects_invalid_numbers() {
    assert!(!luhn_valid(&bv("4111111111111112")));
    assert!(!luhn_valid(&bv("79927398710")));
}

#[test]
fn ipv4_octets_must_fit() {
    assert!(is_valid_ipv4(&bv("255.255.255.255")));
    assert!(is_valid_ipv4(&bv("0.0.0.0")));
    assert!(is_valid_ipv4(&bv("8.8.8.8")));
    assert!(!is_valid_ipv4(&bv("256.1.1.1")));
    assert!(!is_valid_ipv4(&bv("1.2.3")));
    assert!(!is_valid_ipv4(&bv("1.2.3.4.5")));
    assert!(!is_valid_ipv4(&bv("a.b.c.d")));
    assert!(!is_valid_ipv4(&bv("1..2.3")));
}

#[test]
fn tokens_have_expected_text() {
    assert_eq!(PiiType::Email.token(), "[EMAIL]");
    assert_eq!(PiiType::Ip.token(), "[IP]");
    assert_eq!(PiiType::CreditCard.token(), "[CREDIT_CARD]");
    assert_eq!(PiiType::Phone.token(), "[PHONE]");
    assert_eq!(PiiType::Email.token_bytes(), bv("[EMAIL]"));
    assert_eq!(PiiType::Phone.token_bytes(), bv("[PHONE]"));
}

#[test]
fn detected_spans_are_sorted_and_disjoint() {
    let det = PiiRegexDetector::new().unwrap();
    let input = bv("a@b.io then 10.0.0.1 then +12 345 678 901 and c@d.org");
    let findings = det.detect(&input);
    assert!(findings.len() >= 2);
    for w in findings.windows(2) {
        assert!(w[0].end <= w[1].start);
        assert!(w[0].start < w[1].start);
    }
    for f in &findings {
        assert!(f.start < f.end && f.end <= input.len());
        assert_eq!(f.text, input[f.start..f.end].to_vec());
    }
}

#[test]
fn credit_card_findings_are_luhn_valid_and_ips_in_range() {
    let det = PiiRegexDetector::new().unwrap();
    let input = bv("cc 5500-0000-0000-0004 addr 300.1.2.3 and 8.8.4.4");
    let findings = det.detect(&input);
    assert!(findings.iter().any(|f| f.pii_type == PiiType::CreditCard));
    for f in &findings {
        if f.pii_type == PiiType::CreditCard {
            let digits: Vec<u8> = f.text.iter().copied().filter(|b| b.is_ascii_digit()).collect();
            assert!((13..=19).contains(&digits.len()));
            assert!(luhn_valid(&digits));
        }
        if f.pii_type == PiiType::Ip {
            assert!(is_valid_ipv4(&f.text));
        }
    }
}

#[test]
fn full_mask_without_findings_keeps_text() {
    let det = PiiRegexDetector::new().unwrap();
    let input = bv("nothing sensitive here");
    let (out, findings) = det.full_mask(&input);
    assert!(findings.is_empty());
    assert_eq!(out, input);
}

#[test]
fn masked_length_matches_replacement_deltas() {
    let det = PiiRegexDetector::new().unwrap();
    let input = bv("mail x@y.de ip 1.2.3.4");
    let (out, findings) = det.full_mask(&input);
    let mut expected: i64 = input.len() as i64;
    for f in &findings {
        expected += f.pii_type.token_bytes().len() as i64 - (f.end - f.start) as i64;
    }
    assert_eq!(out.len() as i64, expected);
}
