//! Declarative policy model: rules with match expressions, the PII stage
//! configuration, and the semantic-similarity stage configuration, together
//! with the request / response shapes of the evaluator.
//!
//! Every piece of text is carried as raw bytes (`Vec<u8>`); only regular
//! expression patterns are kept as `String`, since they are opaque source
//! text for the pattern compiler.

use vstd::prelude::*;

verus! {

/// Which traffic direction a rule or stage applies to.
#[derive(Debug, Clone, Copy, PartialEq, Eq, Structural)]
pub enum AppliesTo {
    Prompt,
    Response,
    Both,
}

/// The decision a rule or the semantic stage produces.
#[derive(Debug, Clone, Copy, PartialEq, Eq, Structural)]
pub enum Action {
    Allow,
    Block,
}

/// The request field a match expression reads.
#[derive(Debug, Clone, Copy, PartialEq, Eq, Structural)]
pub enum Field {
    Text,
    Tenant,
    Model,
}

/// Direction label of the text under evaluation.
#[derive(Debug, Clone, Copy, PartialEq, Eq, Structural)]
pub enum Kind {
    Prompt,
    Response,
}

/// What the PII stage does when it applies.
#[derive(Debug, Clone, Copy, PartialEq, Eq, Structural)]
pub enum PiiMode {
    Redact,
    Off,
}

/// Whether a rule or stage configured for `applies_to` runs on a request of
/// direction `k`.
pub open spec fn spec_applies(a: AppliesTo, k: Kind) -> bool {
    match a {
        AppliesTo::Both => true,
        AppliesTo::Prompt => k is Prompt,
        AppliesTo::Response => k is Response,
    }
}

/// Runtime test matching `spec_applies`.
pub fn applies(applies_to: &AppliesTo, kind: &Kind) -> (r: bool)
    ensures
        r == spec_applies(*applies_to, *kind),
{
    match (applies_to, kind) {
        (AppliesTo::Both, _) => true,
        (AppliesTo::Prompt, Kind::Prompt) => true,
        (AppliesTo::Response, Kind::Response) => true,
        _ => false,
    }
}

/// One declarative pattern test over a request field.
#[derive(Debug, Clone, PartialEq, Eq)]
pub enum MatchExpr {
    /// Byte-for-byte equality of the whole field.
    Exact { field: Field, value: Vec<u8> },
    /// Unanchored substring search with a regular expression.
    Regex { field: Field, pattern: String },
    /// Multi-pattern substring search: any of `values` occurring anywhere.
    Keywords { field: Field, values: Vec<Vec<u8>> },
}

/// Mathematical shape of a match expression.
pub enum MatchV {
    Exact { field: Field, value: Seq<u8> },
    Regex { field: Field, pattern: Seq<char> },
    Keywords { field: Field, values: Seq<Seq<u8>> },
}

impl View for MatchExpr {
    type V = MatchV;

    open spec fn view(&self) -> MatchV {
        match self {
            MatchExpr::Exact { field, value } => MatchV::Exact { field: *field, value: value@ },
            MatchExpr::Regex { field, pattern } => MatchV::Regex {
                field: *field,
                pattern: pattern@,
            },
            MatchExpr::Keywords { field, values } => MatchV::Keywords {
                field: *field,
                values: crate::bytes::views_of(values@),
            },
        }
    }
}

/// Disjunction of match expressions: the rule matches when any one matches.
#[derive(Debug, Clone, PartialEq, Eq)]
pub struct When {
    pub any: Vec<MatchExpr>,
}

impl View for When {
    type V = Seq<MatchV>;

    open spec fn view(&self) -> Seq<MatchV> {
        self.any@.map_values(|m: MatchExpr| m@)
    }
}

/// One deterministic rule of the policy.
#[derive(Debug, Clone, PartialEq, Eq)]
pub struct Rule {
    pub id: Vec<u8>,
    pub description: Option<Vec<u8>>,
    pub applies_to: AppliesTo,
    pub action: Action,
    /// Lower value means the rule is evaluated earlier.
    pub priority: u32,
    pub when: When,
}

/// Mathematical shape of a rule.
pub struct RuleV {
    pub id: Seq<u8>,
    pub description: Option<Seq<u8>>,
    pub applies_to: AppliesTo,
    pub action: Action,
    pub priority: u32,
    pub when: Seq<MatchV>,
}

impl View for Rule {
    type V = RuleV;

    open spec fn view(&self) -> RuleV {
        RuleV {
            id: self.id@,
            description: crate::bytes::view_opt_bytes(self.description),
            applies_to: self.applies_to,
            action: self.action,
            priority: self.priority,
            when: self.when@,
        }
    }
}

/// Which PII detectors run. All default to off; a policy enables each one
/// it wants.
#[derive(Debug, Clone, Copy, PartialEq, Eq, Structural)]
pub struct PiiDetectors {
    pub email: bool,
    pub ip: bool,
    pub credit_card: bool,
    pub phone: bool,
}

impl Default for PiiDetectors {
    /// Every detector starts disabled.
    fn default() -> (r: Self)
        ensures
            !r.email && !r.ip && !r.credit_card && !r.phone,
    {
        PiiDetectors { email: false, ip: false, credit_card: false, phone: false }
    }
}

/// Configuration of the PII detection and redaction stage.
#[derive(Debug, Clone, PartialEq, Eq)]
pub struct PiiConfig {
    pub enabled: bool,
    pub applies_to: AppliesTo,
    pub mode: PiiMode,
    pub redaction_token: Vec<u8>,
    pub detectors: PiiDetectors,
    /// Request payload size cap in bytes.
    pub max_bytes: usize,
    /// Whether responses expose the raw matched substrings.
    pub include_findings: bool,
}

/// Mathematical shape of the PII configuration.
pub struct PiiConfigV {
    pub enabled: bool,
    pub applies_to: AppliesTo,
    pub mode: PiiMode,
    pub redaction_token: Seq<u8>,
    pub detectors: PiiDetectors,
    pub max_bytes: usize,
    pub include_findings: bool,
}

impl View for PiiConfig {
    type V = PiiConfigV;

    open spec fn view(&self) -> PiiConfigV {
        PiiConfigV {
            enabled: self.enabled,
            applies_to: self.applies_to,
            mode: self.mode,
            redaction_token: self.redaction_token@,
            detectors: self.detectors,
            max_bytes: self.max_bytes,
            include_findings: self.include_findings,
        }
    }
}

/// The default redaction token, the ASCII bytes of `REDACTED`.
pub open spec fn spec_default_redaction_token() -> Seq<u8> {
    seq![82u8, 69u8, 68u8, 65u8, 67u8, 84u8, 69u8, 68u8]
}

/// Builds the default redaction token, `REDACTED`.
pub fn default_redaction_token() -> (r: Vec<u8>)
    ensures
        r@ == spec_default_redaction_token(),
{
    let mut v: Vec<u8> = Vec::new();
    v.push(82u8);
    v.push(69u8);
    v.push(68u8);
    v.push(65u8);
    v.push(67u8);
    v.push(84u8);
    v.push(69u8);
    v.push(68u8);
    proof {
        assert(v@ =~= spec_default_redaction_token());
    }
    v
}

impl Default for PiiConfig {
    /// Stage enabled, both directions, redacting with `REDACTED`, no
    /// detectors on, 32 KiB payload cap, raw findings not exposed.
    fn default() -> (r: Self)
        ensures
            r.enabled,
            r.applies_to is Both,
            r.mode is Redact,
            r.redaction_token@ == spec_default_redaction_token(),
            !r.detectors.email && !r.detectors.ip && !r.detectors.credit_card
                && !r.detectors.phone,
            r.max_bytes == 32768,
            !r.include_findings,
    {
        PiiConfig {
            enabled: true,
            applies_to: AppliesTo::Both,
            mode: PiiMode::Redact,
            redaction_token: default_redaction_token(),
            detectors: PiiDetectors::default(),
            max_bytes: 32768,
            include_findings: false,
        }
    }
}

impl Default for PiiMode {
    fn default() -> (r: Self)
        ensures
            r is Redact,
    {
        PiiMode::Redact
    }
}

/// One example text of a semantic case.
#[derive(Debug, Clone, PartialEq, Eq)]
pub struct SemanticExample {
    pub text: Vec<u8>,
}

/// One semantic case: an identifier and the example texts that stand for it.
#[derive(Debug, Clone, PartialEq, Eq)]
pub struct SemanticCase {
    pub id: Vec<u8>,
    pub description: Option<Vec<u8>>,
    pub examples: Vec<SemanticExample>,
}

/// Mathematical shape of a semantic case.
pub struct SemanticCaseV {
    pub id: Seq<u8>,
    pub description: Option<Seq<u8>>,
    pub examples: Seq<Seq<u8>>,
}

impl View for SemanticCase {
    type V = SemanticCaseV;

    open spec fn view(&self) -> SemanticCaseV {
        SemanticCaseV {
            id: self.id@,
            description: crate::bytes::view_opt_bytes(self.description),
            examples: self.examples@.map_values(|e: SemanticExample| e.text@),
        }
    }
}

/// Denominator of the similarity threshold: thresholds are expressed in
/// ten-thousandths, so `8800` stands for a cosine similarity of 0.88.
pub const THRESHOLD_SCALE: u32 = 10000;

/// Configuration of the semantic-similarity stage.
#[derive(Debug, Clone, PartialEq, Eq)]
pub struct SemanticConfig {
    pub enabled: bool,
    pub applies_to: AppliesTo,
    pub action: Action,
    /// Similarity threshold in ten-thousandths of cosine similarity,
    /// clamped to `THRESHOLD_SCALE` when the stage is compiled.
    pub threshold: u32,
    pub cases: Vec<SemanticCase>,
    /// Smallest n-gram length; absent means 3. Values below 1 are raised
    /// to 1 when the stage is compiled.
    pub ngram_min: Option<usize>,
    /// Largest n-gram length; absent means 5. Values below the effective
    /// minimum are raised to it when the stage is compiled.
    pub ngram_max: Option<usize>,
}

/// Mathematical shape of the semantic configuration.
pub struct SemanticConfigV {
    pub enabled: bool,
    pub applies_to: AppliesTo,
    pub action: Action,
    pub threshold: u32,
    pub cases: Seq<SemanticCaseV>,
    pub ngram_min: Option<usize>,
    pub ngram_max: Option<usize>,
}

impl View for SemanticConfig {
    type V = SemanticConfigV;

    open spec fn view(&self) -> SemanticConfigV {
        SemanticConfigV {
            enabled: self.enabled,
            applies_to: self.applies_to,
            action: self.action,
            threshold: self.threshold,
            cases: self.cases@.map_values(|c: SemanticCase| c@),
            ngram_min: self.ngram_min,
            ngram_max: self.ngram_max,
        }
    }
}

impl Default for SemanticConfig {
    /// Stage disabled, prompts only, blocking, threshold 0.88, no cases,
    /// n-grams of length 3 through 5.
    fn default() -> (r: Self)
        ensures
            !r.enabled,
            r.applies_to is Prompt,
            r.action is Block,
            r.threshold == 8800,
            r.cases@.len() == 0,
            r.ngram_min == Some(3usize),
            r.ngram_max == Some(5usize),
    {
        SemanticConfig {
            enabled: false,
            applies_to: AppliesTo::Prompt,
            action: Action::Block,
            threshold: 8800,
            cases: Vec::new(),
            ngram_min: Some(3),
            ngram_max: Some(5),
        }
    }
}

/// The whole policy document: rules, PII stage, semantic stage.
#[derive(Debug, Clone, PartialEq, Eq)]
pub struct PolicyFile {
    pub rules: Vec<Rule>,
    pub pii: PiiConfig,
    pub semantic: SemanticConfig,
}

/// Mathematical shape of a policy document.
pub struct PolicyFileV {
    pub rules: Seq<RuleV>,
    pub pii: PiiConfigV,
    pub semantic: SemanticConfigV,
}

impl View for PolicyFile {
    type V = PolicyFileV;

    open spec fn view(&self) -> PolicyFileV {
        PolicyFileV {
            rules: self.rules@.map_values(|r: Rule| r@),
            pii: self.pii@,
            semantic: self.semantic@,
        }
    }
}

impl Default for PolicyFile {
    /// No rules, default PII stage, default semantic stage.
    fn default() -> (r: Self)
        ensures
            r.rules@.len() == 0,
            r.pii.enabled,
            !r.semantic.enabled,
    {
        PolicyFile {
            rules: Vec::new(),
            pii: PiiConfig::default(),
            semantic: SemanticConfig::default(),
        }
    }
}

/// One reported PII finding: its type, byte offsets into the original
/// text, and the matched bytes. Detection is deterministic, so no score
/// accompanies it.
#[derive(Debug, Clone, PartialEq, Eq)]
pub struct PiiEntity {
    pub entity_type: crate::pii_regex::PiiType,
    pub start: usize,
    pub end: usize,
    pub text: Vec<u8>,
}

impl View for PiiEntity {
    type V = crate::pii_regex::FindingV;

    open spec fn view(&self) -> crate::pii_regex::FindingV {
        crate::pii_regex::FindingV {
            pii_type: self.entity_type,
            start: self.start as int,
            end: self.end as int,
            text: self.text@,
        }
    }
}

/// The evaluator's verdict on one request.
#[derive(Debug, Clone, PartialEq, Eq)]
pub struct EvalResponse {
    pub request_id: u128,
    pub action: Action,
    pub matched_rule: Option<Vec<u8>>,
    pub reason: Option<Vec<u8>>,
    /// The redacted text; absent when nothing was redacted.
    pub output_text: Option<Vec<u8>>,
    /// The findings; present only when the policy exposes them.
    pub pii: Option<Vec<PiiEntity>>,
}

/// Mathematical shape of a response.
pub struct EvalResponseV {
    pub request_id: u128,
    pub action: Action,
    pub matched_rule: Option<Seq<u8>>,
    pub reason: Option<Seq<u8>>,
    pub output_text: Option<Seq<u8>>,
    pub pii: Option<Seq<crate::pii_regex::FindingV>>,
}

impl View for EvalResponse {
    type V = EvalResponseV;

    open spec fn view(&self) -> EvalResponseV {
        EvalResponseV {
            request_id: self.request_id,
            action: self.action,
            matched_rule: crate::bytes::view_opt_bytes(self.matched_rule),
            reason: crate::bytes::view_opt_bytes(self.reason),
            output_text: crate::bytes::view_opt_bytes(self.output_text),
            pii: match self.pii {
                Some(v) => Some(v@.map_values(|e: PiiEntity| e@)),
                None => None,
            },
        }
    }
}

/// What applications hand the evaluator. The request identifier is a
/// 128-bit value (the wire form is a UUID).
#[derive(Debug, Clone, PartialEq, Eq)]
pub struct EvalRequest {
    pub request_id: Option<u128>,
    pub kind: Kind,
    pub text: Vec<u8>,
    pub tenant: Option<Vec<u8>>,
    pub model: Option<Vec<u8>>,
}

/// Mathematical shape of a request.
pub struct EvalRequestV {
    pub request_id: Option<u128>,
    pub kind: Kind,
    pub text: Seq<u8>,
    pub tenant: Option<Seq<u8>>,
    pub model: Option<Seq<u8>>,
}

impl View for EvalRequest {
    type V = EvalRequestV;

    open spec fn view(&self) -> EvalRequestV {
        EvalRequestV {
            request_id: self.request_id,
            kind: self.kind,
            text: self.text@,
            tenant: crate::bytes::view_opt_bytes(self.tenant),
            model: crate::bytes::view_opt_bytes(self.model),
        }
    }
}

} // verus!
