//! The two-stage evaluator. Stage 1 walks the compiled rules in stored
//! order and the first match wins: a block returns immediately with no
//! output text and no findings, an allow is remembered as an explicit
//! allowlist hit. A payload guard then caps the text size. Stage 1.5
//! (optional) blocks on a near-duplicate semantic match. Stage 2
//! (optional) detects PII, keeps the findings of the enabled detectors,
//! and redacts each with the configured token.

use vstd::prelude::*;
use crate::bytes::{bytes_eq, clone_bytes};
use crate::compile::{CompiledMatch, CompiledRule};
use crate::patterns::{ac_is_match, contains_any, regex_found, regex_is_match};
use crate::pii_regex::{
    all_validated, disjoint_from, spec_detect, spec_redact, Finding, FindingV, PiiRegexDetector,
    PiiType,
};
use crate::policy::{
    applies, spec_applies, Action, EvalRequest, EvalRequestV, EvalResponse, EvalResponseV, Field,
    MatchV, PiiConfig, PiiConfigV, PiiDetectors, PiiEntity, PiiMode, RuleV,
};
use crate::semantic::{evaluate as semantic_evaluate, spec_evaluate, CompiledSemantic};

verus! {

/// Why evaluation was refused.
#[derive(Debug, Clone, PartialEq, Eq)]
pub enum EvalError {
    /// The text is longer than the policy's `max_bytes` cap.
    PayloadTooLarge,
}

/// The request field a match expression reads; an absent optional field
/// reads as empty.
pub open spec fn spec_field_value(f: Field, req: EvalRequestV) -> Seq<u8> {
    match f {
        Field::Text => req.text,
        Field::Tenant => match req.tenant {
            Some(t) => t,
            None => Seq::empty(),
        },
        Field::Model => match req.model {
            Some(m) => m,
            None => Seq::empty(),
        },
    }
}

/// Reads the field a match expression tests.
pub fn field_value(field: &Field, req: &EvalRequest) -> (r: Vec<u8>)
    ensures
        r@ == spec_field_value(*field, req@),
{
    match field {
        Field::Text => clone_bytes(&req.text),
        Field::Tenant => match &req.tenant {
            Some(t) => clone_bytes(t),
            None => Vec::new(),
        },
        Field::Model => match &req.model {
            Some(m) => clone_bytes(m),
            None => Vec::new(),
        },
    }
}

/// Whether one match expression holds of the request: byte equality for
/// `exact`, substring search for `regex` and `keywords`.
pub open spec fn spec_match_expr(m: MatchV, req: EvalRequestV) -> bool {
    match m {
        MatchV::Exact { field, value } => value == spec_field_value(field, req),
        MatchV::Regex { field, pattern } => regex_found(pattern, spec_field_value(field, req)),
        MatchV::Keywords { field, values } => contains_any(values, spec_field_value(field, req)),
    }
}

/// Tests one compiled match expression against the request.
pub fn match_one(m: &CompiledMatch, req: &EvalRequest) -> (r: bool)
    requires
        m.wf(),
    ensures
        r == spec_match_expr(m@, req@),
{
    match m {
        CompiledMatch::Exact { field, value } => {
            let fv = field_value(field, req);
            bytes_eq(value, &fv)
        },
        CompiledMatch::Regex { field, re, .. } => {
            let fv = field_value(field, req);
            regex_is_match(re, &fv)
        },
        CompiledMatch::Keywords { field, ac, .. } => {
            let fv = field_value(field, req);
            ac_is_match(ac, &fv)
        },
    }
}

/// Whether a rule matches the request: it applies to the direction and
/// any of its expressions holds.
pub open spec fn spec_rule_matches(r: RuleV, req: EvalRequestV) -> bool {
    spec_applies(r.applies_to, req.kind) && exists|k: int|
        0 <= k < r.when.len() && spec_match_expr(#[trigger] r.when[k], req)
}

/// The default reason, the ASCII bytes of `matched`.
pub open spec fn matched_reason() -> Seq<u8> {
    seq![109u8, 97u8, 116u8, 99u8, 104u8, 101u8, 100u8]
}

/// Builds the default reason, `matched`.
pub fn matched_reason_bytes() -> (r: Vec<u8>)
    ensures
        r@ == matched_reason(),
{
    let mut v: Vec<u8> = Vec::new();
    v.push(109u8);
    v.push(97u8);
    v.push(116u8);
    v.push(99u8);
    v.push(104u8);
    v.push(101u8);
    v.push(100u8);
    proof {
        assert(v@ =~= matched_reason());
    }
    v
}

/// The reason a matching rule reports: its description, or `matched`.
pub open spec fn spec_rule_reason(r: RuleV) -> Seq<u8> {
    match r.description {
        Some(d) => d,
        None => matched_reason(),
    }
}

/// What stage 1 decides: the first matching rule's action, identifier and
/// reason; `None` when no rule matches.
pub open spec fn spec_stage1(rules: Seq<RuleV>, req: EvalRequestV) -> Option<
    (Action, Seq<u8>, Seq<u8>),
>
    decreases rules.len(),
{
    if rules.len() == 0 {
        None
    } else if spec_rule_matches(rules[0], req) {
        Some((rules[0].action, rules[0].id, spec_rule_reason(rules[0])))
    } else {
        spec_stage1(rules.drop_first(), req)
    }
}

/// Rules that do not match can be skipped without changing the verdict.
proof fn lemma_stage1_skip(rules: Seq<RuleV>, req: EvalRequestV, i: int)
    requires
        0 <= i <= rules.len(),
        forall|j: int| 0 <= j < i ==> !spec_rule_matches(#[trigger] rules[j], req),
    ensures
        spec_stage1(rules, req) == spec_stage1(rules.skip(i), req),
    decreases i,
{
    if i > 0 {
        lemma_stage1_skip(rules, req, i - 1);
        let s = rules.skip(i - 1);
        assert(s[0] == rules[i - 1]);
        assert(!spec_rule_matches(s[0], req));
        assert(s.drop_first() =~= rules.skip(i));
        assert(spec_stage1(s, req) == spec_stage1(s.drop_first(), req));
        assert(spec_stage1(s.drop_first(), req) == spec_stage1(rules.skip(i), req));
    } else {
        assert(rules.skip(0) =~= rules);
    }
}

/// The mathematical shape of a stage-1 verdict.
pub open spec fn stage1_view(r: Option<(Action, Vec<u8>, Vec<u8>)>) -> Option<
    (Action, Seq<u8>, Seq<u8>),
> {
    match r {
        Some((a, id, reason)) => Some((a, id@, reason@)),
        None => None,
    }
}

/// Walks the rules in stored order and returns the first match's action,
/// rule identifier and reason.
pub fn evaluate_stage1(rules: &Vec<CompiledRule>, req: &EvalRequest) -> (r: Option<
    (Action, Vec<u8>, Vec<u8>),
>)
    requires
        forall|k: int| 0 <= k < rules@.len() ==> (#[trigger] rules@[k]).wf(),
    ensures
        stage1_view(r) == spec_stage1(rules@.map_values(|c: CompiledRule| c@), req@),
{
    let ghost rv = rules@.map_values(|c: CompiledRule| c@);
    let mut i: usize = 0;
    while i < rules.len()
        invariant
            i <= rules@.len(),
            rv == rules@.map_values(|c: CompiledRule| c@),
            forall|k: int| 0 <= k < rules@.len() ==> (#[trigger] rules@[k]).wf(),
            forall|j: int| 0 <= j < i ==> !spec_rule_matches(#[trigger] rv[j], req@),
        decreases rules@.len() - i,
    {
        let rule = &rules[i];
        if applies(&rule.applies_to, &req.kind) {
            let mut hit = false;
            let mut k: usize = 0;
            while k < rule.when_any.len()
                invariant_except_break
                    !hit,
                    k <= rule.when_any@.len(),
                    rule == &rules@[i as int],
                    i < rules@.len(),
                    forall|kk: int| 0 <= kk < rules@.len() ==> (#[trigger] rules@[kk]).wf(),
                    forall|j: int|
                        0 <= j < k ==> !spec_match_expr(#[trigger] rule@.when[j], req@),
                ensures
                    hit == exists|j: int|
                        0 <= j < rule@.when.len() && spec_match_expr(#[trigger] rule@.when[j], req@),
                decreases rule.when_any@.len() - k,
            {
                proof {
                    assert(rules@[i as int].wf());
                    assert(rule.when_any@[k as int].wf());
                    assert(rule@.when[k as int] == rule.when_any@[k as int]@);
                }
                if match_one(&rule.when_any[k], req) {
                    hit = true;
                    break;
                }
                k += 1;
            }
            if hit {
                proof {
                    lemma_stage1_skip(rv, req@, i as int);
                    assert(rv.skip(i as int)[0] == rv[i as int]);
                    assert(spec_rule_matches(rv[i as int], req@));
                }
                let reason = match &rule.description {
                    Some(d) => clone_bytes(d),
                    None => matched_reason_bytes(),
                };
                return Some((rule.action, clone_bytes(&rule.id), reason));
            }
        }
        proof {
            assert(!spec_rule_matches(rv[i as int], req@));
        }
        i += 1;
    }
    proof {
        lemma_stage1_skip(rv, req@, rv.len() as int);
        assert(rv.skip(rv.len() as int) =~= Seq::<RuleV>::empty());
    }
    None
}

/// Whether the detector of this type is enabled.
pub open spec fn detector_on(d: PiiDetectors, t: PiiType) -> bool {
    match t {
        PiiType::Email => d.email,
        PiiType::Ip => d.ip,
        PiiType::CreditCard => d.credit_card,
        PiiType::Phone => d.phone,
    }
}

/// The findings whose detector the policy enabled, in order.
pub open spec fn spec_filter_enabled(fs: Seq<FindingV>, d: PiiDetectors) -> Seq<FindingV>
    decreases fs.len(),
{
    if fs.len() == 0 {
        Seq::empty()
    } else {
        let rest = spec_filter_enabled(fs.drop_last(), d);
        if detector_on(d, fs.last().pii_type) {
            rest.push(fs.last())
        } else {
            rest
        }
    }
}

/// Every kept finding occurs in the original list.
proof fn lemma_filter_keeps(fs: Seq<FindingV>, d: PiiDetectors)
    ensures
        forall|k: int|
            0 <= k < spec_filter_enabled(fs, d).len() ==> exists|j: int|
                0 <= j < fs.len() && #[trigger] spec_filter_enabled(fs, d)[k] == fs[j],
    decreases fs.len(),
{
    if fs.len() > 0 {
        lemma_filter_keeps(fs.drop_last(), d);
        let rest = spec_filter_enabled(fs.drop_last(), d);
        assert forall|k: int| 0 <= k < spec_filter_enabled(fs, d).len() implies exists|j: int|
            0 <= j < fs.len() && #[trigger] spec_filter_enabled(fs, d)[k] == fs[j] by {
            if k < rest.len() {
                assert(exists|j: int|
                    0 <= j < fs.drop_last().len() && #[trigger] rest[k] == fs.drop_last()[j]);
                let j = choose|j: int|
                    0 <= j < fs.drop_last().len() && #[trigger] rest[k] == fs.drop_last()[j];
                assert(spec_filter_enabled(fs, d)[k] == fs[j]);
            } else {
                assert(spec_filter_enabled(fs, d)[k] == fs[fs.len() - 1]);
            }
        }
    }
}

/// Spans inside the text, each one ending at or before every later one's
/// start.
pub open spec fn spans_pairwise(fs: Seq<FindingV>, len: int) -> bool {
    &&& forall|k: int| 0 <= k < fs.len() ==> 0 <= (#[trigger] fs[k]).start <= fs[k].end <= len
    &&& forall|a: int, b: int|
        0 <= a < b < fs.len() ==> (#[trigger] fs[a]).end <= (#[trigger] fs[b]).start
}

/// Validated, disjoint findings are pairwise ordered.
proof fn lemma_detect_pairwise(fs: Seq<FindingV>, text: Seq<u8>)
    requires
        all_validated(fs, text),
        disjoint_from(fs, 0),
    ensures
        spans_pairwise(fs, text.len() as int),
{
    assert(forall|k: int|
        0 <= k < fs.len() ==> 0 <= (#[trigger] fs[k]).start <= fs[k].end <= text.len());
    assert forall|a: int, b: int| 0 <= a < b < fs.len() implies (#[trigger] fs[a]).end
        <= (#[trigger] fs[b]).start by {
        lemma_detect_pairwise_step(fs, a, b);
    }
}

/// Chains the consecutive non-overlap facts from `a` up to `b`.
proof fn lemma_detect_pairwise_step(fs: Seq<FindingV>, a: int, b: int)
    requires
        disjoint_from(fs, 0),
        forall|k: int| 0 <= k < fs.len() ==> (#[trigger] fs[k]).start <= fs[k].end,
        0 <= a < b < fs.len(),
    ensures
        fs[a].end <= fs[b].start,
    decreases b - a,
{
    if a + 1 < b {
        lemma_detect_pairwise_step(fs, a + 1, b);
        assert(fs[a].end <= fs[a + 1].start);
        assert(fs[a + 1].start <= fs[a + 1].end);
    } else {
        assert(fs[a].end <= fs[a + 1].start);
    }
}

/// Filtering keeps the pairwise ordering.
proof fn lemma_filter_pairwise(fs: Seq<FindingV>, d: PiiDetectors, len: int)
    requires
        spans_pairwise(fs, len),
    ensures
        spans_pairwise(spec_filter_enabled(fs, d), len),
    decreases fs.len(),
{
    if fs.len() > 0 {
        assert(spans_pairwise(fs.drop_last(), len)) by {
            assert(forall|k: int|
                0 <= k < fs.drop_last().len() ==> #[trigger] fs.drop_last()[k] == fs[k]);
        }
        lemma_filter_pairwise(fs.drop_last(), d, len);
        lemma_filter_keeps(fs.drop_last(), d);
        let rest = spec_filter_enabled(fs.drop_last(), d);
        if detector_on(d, fs.last().pii_type) {
            let m = rest.push(fs.last());
            assert forall|a: int, b: int| 0 <= a < b < m.len() implies (#[trigger] m[a]).end
                <= (#[trigger] m[b]).start by {
                if b == m.len() - 1 {
                    let j = choose|j: int|
                        0 <= j < fs.drop_last().len() && #[trigger] rest[a] == fs.drop_last()[j];
                    assert(m[a] == fs[j]);
                    assert(fs[j].end <= fs[fs.len() - 1].start);
                }
            }
        }
    }
}

/// Filtering keeps every finding validated.
proof fn lemma_filter_validated(fs: Seq<FindingV>, d: PiiDetectors, text: Seq<u8>)
    requires
        all_validated(fs, text),
    ensures
        all_validated(spec_filter_enabled(fs, d), text),
    decreases fs.len(),
{
    if fs.len() > 0 {
        assert(all_validated(fs.drop_last(), text)) by {
            assert(forall|k: int|
                0 <= k < fs.drop_last().len() ==> #[trigger] fs.drop_last()[k] == fs[k]);
        }
        lemma_filter_validated(fs.drop_last(), d, text);
    }
}

/// Every kept finding's detector is enabled.
pub proof fn lemma_filter_on(fs: Seq<FindingV>, d: PiiDetectors)
    ensures
        forall|k: int|
            0 <= k < spec_filter_enabled(fs, d).len() ==> detector_on(
                d,
                (#[trigger] spec_filter_enabled(fs, d)[k]).pii_type,
            ),
    decreases fs.len(),
{
    if fs.len() > 0 {
        lemma_filter_on(fs.drop_last(), d);
    }
}

/// Keeps the findings whose detector the policy enabled.
fn filter_enabled(findings: &Vec<Finding>, d: &PiiDetectors) -> (r: Vec<Finding>)
    ensures
        r@.map_values(|f: Finding| f@) == spec_filter_enabled(
            findings@.map_values(|f: Finding| f@),
            *d,
        ),
{
    let ghost fsv = findings@.map_values(|f: Finding| f@);
    let mut out: Vec<Finding> = Vec::new();
    let mut i: usize = 0;
    proof {
        assert(fsv.subrange(0, 0) =~= Seq::<FindingV>::empty());
        assert(out@.map_values(|f: Finding| f@) =~= spec_filter_enabled(fsv.subrange(0, 0), *d));
    }
    while i < findings.len()
        invariant
            i <= findings@.len(),
            fsv == findings@.map_values(|f: Finding| f@),
            out@.map_values(|f: Finding| f@) == spec_filter_enabled(fsv.subrange(0, i as int), *d),
        decreases findings@.len() - i,
    {
        let f = &findings[i];
        let on = match f.pii_type {
            PiiType::Email => d.email,
            PiiType::Ip => d.ip,
            PiiType::CreditCard => d.credit_card,
            PiiType::Phone => d.phone,
        };
        let ghost pre = out@.map_values(|ff: Finding| ff@);
        proof {
            assert(fsv.subrange(0, i as int + 1).drop_last() =~= fsv.subrange(0, i as int));
            assert(fsv.subrange(0, i as int + 1).last() == fsv[i as int]);
            assert(on == detector_on(*d, fsv[i as int].pii_type));
        }
        if on {
            out.push(crate::pii_regex::clone_finding(f));
            proof {
                assert(out@.map_values(|ff: Finding| ff@) =~= pre.push(fsv[i as int]));
            }
        }
        i += 1;
    }
    proof {
        assert(fsv.subrange(0, fsv.len() as int) =~= fsv);
    }
    out
}

/// Relies on `uuid::Uuid::new_v4` for a random version-4 request
/// identifier; nothing is promised of the value. The call aborts only if
/// the operating system's entropy source fails, an environmental fault
/// independent of any input.
#[verifier::external_body]
fn fresh_request_id() -> u128 {
    uuid::Uuid::new_v4().as_u128()
}

/// Whether the PII stage runs at all for this request.
pub open spec fn spec_pii_runs(pii: PiiConfigV, req: EvalRequestV) -> bool {
    pii.enabled && spec_applies(pii.applies_to, req.kind) && pii.mode is Redact
}

/// The findings the response reports: what detection emits, restricted to
/// the enabled detectors.
pub open spec fn spec_stage2_findings(pii: PiiConfigV, req: EvalRequestV) -> Seq<FindingV> {
    spec_filter_enabled(spec_detect(req.text), pii.detectors)
}

/// What an allow verdict must look like: the remembered stage-1 data, and
/// the redaction outcome when the PII stage ran and found something.
pub open spec fn spec_allow_response(
    pii: PiiConfigV,
    req: EvalRequestV,
    mrule: Option<Seq<u8>>,
    reason: Option<Seq<u8>>,
    r: EvalResponseV,
) -> bool {
    &&& r.action is Allow
    &&& r.matched_rule == mrule
    &&& r.reason == reason
    &&& if spec_pii_runs(pii, req) && spec_stage2_findings(pii, req).len() > 0 {
        &&& r.output_text == Some(
            spec_redact(req.text, spec_stage2_findings(pii, req), Some(pii.redaction_token)),
        )
        &&& r.pii == if pii.include_findings {
            Some(spec_stage2_findings(pii, req))
        } else {
            None::<Seq<FindingV>>
        }
    } else {
        r.output_text is None && r.pii is None
    }
}

/// What the verdict must look like after stage 1 did not block: the
/// payload guard, then the optional semantic block, then the allow shape.
pub open spec fn spec_post_stage1(
    pii: PiiConfigV,
    sem: crate::policy::SemanticConfigV,
    req: EvalRequestV,
    mrule: Option<Seq<u8>>,
    reason: Option<Seq<u8>>,
    r: Result<EvalResponseV, EvalError>,
) -> bool {
    if req.text.len() > pii.max_bytes {
        r == Err::<EvalResponseV, EvalError>(EvalError::PayloadTooLarge)
    } else {
        match spec_evaluate(sem, req.kind, req.text) {
            Some((cid, ex)) => if sem.action is Block {
                &&& r is Ok
                &&& r->Ok_0.action is Block
                &&& r->Ok_0.matched_rule == Some(cid)
                &&& r->Ok_0.reason == Some(ex)
                &&& r->Ok_0.output_text is None
                &&& r->Ok_0.pii is None
            } else {
                r is Ok && spec_allow_response(pii, req, mrule, reason, r->Ok_0)
            },
            None => r is Ok && spec_allow_response(pii, req, mrule, reason, r->Ok_0),
        }
    }
}

/// The full contract of evaluation. Everything but the request identifier
/// is a function of the policy snapshot and the request.
pub open spec fn eval_post(
    rules: Seq<RuleV>,
    pii: PiiConfigV,
    sem: crate::policy::SemanticConfigV,
    req: EvalRequestV,
    r: Result<EvalResponseV, EvalError>,
) -> bool {
    &&& (r is Ok && req.request_id is Some ==> r->Ok_0.request_id == req.request_id->0)
    &&& match spec_stage1(rules, req) {
        Some((a, id, rsn)) => if a is Block {
            &&& r is Ok
            &&& r->Ok_0.action is Block
            &&& r->Ok_0.matched_rule == Some(id)
            &&& r->Ok_0.reason == Some(rsn)
            &&& r->Ok_0.output_text is None
            &&& r->Ok_0.pii is None
        } else {
            spec_post_stage1(pii, sem, req, Some(id), Some(rsn), r)
        },
        None => spec_post_stage1(pii, sem, req, None, None, r),
    }
}

/// The findings a response reports are validated excerpts of the text
/// (credit-card findings Luhn-valid, IPv4 findings valid dotted quads)
/// and their detectors are enabled.
pub proof fn lemma_stage2_findings_validated(pii: PiiConfigV, req: EvalRequestV)
    ensures
        all_validated(spec_stage2_findings(pii, req), req.text),
        forall|k: int|
            0 <= k < spec_stage2_findings(pii, req).len() ==> detector_on(
                pii.detectors,
                (#[trigger] spec_stage2_findings(pii, req)[k]).pii_type,
            ),
{
    let text = req.text;
    let all = spec_detect(text);
    crate::pii_regex::lemma_detect_validated(text);
    lemma_filter_validated(all, pii.detectors, text);
    lemma_filter_on(all, pii.detectors);
}

/// Validated, disjoint findings stay pairwise ordered after filtering.
proof fn lemma_filtered_pairwise(all: Seq<FindingV>, d: PiiDetectors, text: Seq<u8>)
    requires
        all_validated(all, text),
        disjoint_from(all, 0),
    ensures
        spans_pairwise(spec_filter_enabled(all, d), text.len() as int),
{
    lemma_detect_pairwise(all, text);
    lemma_filter_pairwise(all, d, text.len() as int);
}

/// The spans a response reports are non-overlapping: each finding's end
/// is at or before every later finding's start. With
/// `lemma_stage2_findings_validated` and `lemma_validated_pairwise_strict`
/// this also gives strictly increasing starts.
pub proof fn lemma_stage2_findings_ordered(pii: PiiConfigV, req: EvalRequestV)
    ensures
        spans_pairwise(spec_stage2_findings(pii, req), req.text.len() as int),
{
    crate::pii_regex::lemma_detect_validated(req.text);
    crate::pii_regex::lemma_detect_disjoint(req.text);
    lemma_filtered_pairwise(spec_detect(req.text), pii.detectors, req.text);
}

/// Validated, pairwise-ordered spans have strictly increasing starts.
pub proof fn lemma_validated_pairwise_strict(fs: Seq<FindingV>, text: Seq<u8>)
    requires
        all_validated(fs, text),
        spans_pairwise(fs, text.len() as int),
    ensures
        forall|a: int, b: int|
            0 <= a < b < fs.len() ==> (#[trigger] fs[a]).start < (#[trigger] fs[b]).start,
{
    assert forall|a: int, b: int| 0 <= a < b < fs.len() implies (#[trigger] fs[a]).start
        < (#[trigger] fs[b]).start by {
        assert(fs[a].start < fs[a].end);
        assert(fs[a].end <= fs[b].start);
    }
}

/// Turns findings into reported entities.
fn to_entities(findings: &Vec<Finding>) -> (r: Vec<PiiEntity>)
    ensures
        r@.map_values(|e: PiiEntity| e@) == findings@.map_values(|f: Finding| f@),
{
    let mut out: Vec<PiiEntity> = Vec::new();
    let mut i: usize = 0;
    while i < findings.len()
        invariant
            i <= findings@.len(),
            out@.map_values(|e: PiiEntity| e@) == findings@.map_values(|f: Finding| f@).subrange(
                0,
                i as int,
            ),
        decreases findings@.len() - i,
    {
        let f = &findings[i];
        let ghost pre = out@.map_values(|e: PiiEntity| e@);
        out.push(
            PiiEntity {
                entity_type: f.pii_type,
                start: f.start,
                end: f.end,
                text: clone_bytes(&f.text),
            },
        );
        proof {
            let ghost full = findings@.map_values(|ff: Finding| ff@);
            assert(out@.map_values(|e: PiiEntity| e@) =~= pre.push(full[i as int]));
            assert(pre.push(full[i as int]) =~= full.subrange(0, i as int + 1));
        }
        i += 1;
    }
    proof {
        let ghost full = findings@.map_values(|ff: Finding| ff@);
        assert(full.subrange(0, full.len() as int) =~= full);
    }
    out
}

/// Evaluates one request against a policy snapshot: stage-1 rules, the
/// payload guard, the optional semantic stage, and the optional PII
/// stage. The verdict is pinned by `eval_post`; only a caller-omitted
/// request identifier is drawn fresh.
pub fn eval(
    rules: &Vec<CompiledRule>,
    pii_cfg: &PiiConfig,
    sem: &CompiledSemantic,
    det: &PiiRegexDetector,
    req: &EvalRequest,
) -> (r: Result<EvalResponse, EvalError>)
    requires
        forall|k: int| 0 <= k < rules@.len() ==> (#[trigger] rules@[k]).wf(),
        sem.wf(),
        det.wf(),
    ensures
        eval_post(
            rules@.map_values(|c: CompiledRule| c@),
            pii_cfg@,
            sem@,
            req@,
            match r {
                Ok(resp) => Ok(resp@),
                Err(e) => Err(e),
            },
        ),
{
    let request_id: u128 = match req.request_id {
        Some(id) => id,
        None => fresh_request_id(),
    };
    // Stage 1: deterministic rules, first match wins.
    let stage1 = evaluate_stage1(rules, req);
    let mut matched_rule: Option<Vec<u8>> = None;
    let mut reason: Option<Vec<u8>> = None;
    match stage1 {
        Some((action, id, rsn)) => {
            match action {
                Action::Block => {
                    return Ok(
                        EvalResponse {
                            request_id,
                            action: Action::Block,
                            matched_rule: Some(id),
                            reason: Some(rsn),
                            output_text: None,
                            pii: None,
                        },
                    );
                },
                Action::Allow => {
                    matched_rule = Some(id);
                    reason = Some(rsn);
                },
            }
        },
        None => {},
    }
    // Payload guard.
    if req.text.len() > pii_cfg.max_bytes {
        return Err(EvalError::PayloadTooLarge);
    }
    // Stage 1.5: semantic near-duplicate matching.
    match semantic_evaluate(sem, &req.kind, &req.text) {
        Some(hit) => {
            match sem.action {
                Action::Block => {
                    return Ok(
                        EvalResponse {
                            request_id,
                            action: Action::Block,
                            matched_rule: Some(hit.case_id),
                            reason: Some(hit.example),
                            output_text: None,
                            pii: None,
                        },
                    );
                },
                Action::Allow => {},
            }
        },
        None => {},
    }
    // Stage 2: PII detection and redaction.
    let mut output_text: Option<Vec<u8>> = None;
    let mut pii_out: Option<Vec<PiiEntity>> = None;
    let run = pii_cfg.enabled && applies(&pii_cfg.applies_to, &req.kind) && match pii_cfg.mode {
        PiiMode::Redact => true,
        PiiMode::Off => false,
    };
    if run {
        let all = det.detect(&req.text);
        let findings = filter_enabled(&all, &pii_cfg.detectors);
        proof {
            let ghost allv = all@.map_values(|f: Finding| f@);
            let ghost fsv = findings@.map_values(|f: Finding| f@);
            lemma_detect_pairwise(allv, req.text@);
            lemma_filter_pairwise(allv, pii_cfg.detectors, req.text@.len() as int);
            assert(crate::pii_regex::spans_chained(fsv, req.text@.len() as int));
        }
        if findings.len() > 0 {
            let masked = crate::pii_regex::redact_with_token(
                &req.text,
                &findings,
                &pii_cfg.redaction_token,
            );
            output_text = Some(masked);
            if pii_cfg.include_findings {
                pii_out = Some(to_entities(&findings));
            }
        }
    }
    Ok(
        EvalResponse {
            request_id,
            action: Action::Allow,
            matched_rule,
            reason,
            output_text,
            pii: pii_out,
        },
    )
}

/// Evaluating the same request twice under the same snapshot yields
/// identical verdicts except for the request identifier.
pub proof fn lemma_eval_deterministic(
    rules: Seq<RuleV>,
    pii: PiiConfigV,
    sem: crate::policy::SemanticConfigV,
    req: EvalRequestV,
    r1: Result<EvalResponseV, EvalError>,
    r2: Result<EvalResponseV, EvalError>,
)
    requires
        eval_post(rules, pii, sem, req, r1),
        eval_post(rules, pii, sem, req, r2),
    ensures
        r1 is Ok <==> r2 is Ok,
        r1 is Err ==> r1 == r2,
        r1 is Ok ==> {
            &&& r1->Ok_0.action == r2->Ok_0.action
            &&& r1->Ok_0.matched_rule == r2->Ok_0.matched_rule
            &&& r1->Ok_0.reason == r2->Ok_0.reason
            &&& r1->Ok_0.output_text == r2->Ok_0.output_text
            &&& r1->Ok_0.pii == r2->Ok_0.pii
        },
{
}

/// A blocking verdict never carries output text or findings.
pub proof fn lemma_block_response_bare(
    rules: Seq<RuleV>,
    pii: PiiConfigV,
    sem: crate::policy::SemanticConfigV,
    req: EvalRequestV,
    r: Result<EvalResponseV, EvalError>,
)
    requires
        eval_post(rules, pii, sem, req, r),
        r is Ok,
        r->Ok_0.action is Block,
    ensures
        r->Ok_0.output_text is None,
        r->Ok_0.pii is None,
{
}

} // verus!