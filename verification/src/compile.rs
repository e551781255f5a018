//! The rule compiler: turns declarative match expressions into executable
//! matchers (literal equality, compiled regular expressions, multi-pattern
//! automata), rejecting malformed patterns, empty keyword sets and
//! duplicate rule identifiers, and orders the compiled rules by
//! `(priority ascending, id ascending)`.

use vstd::prelude::*;
use vstd::multiset::Multiset;
use vstd::seq_lib::lemma_multiset_commutative;
use crate::bytes::{
    bytes_eq, clone_byte_vecs, clone_bytes, clone_opt_bytes, lemma_lex_le_total,
    lemma_lex_le_trans, lex_le, lex_le_bytes, views_of,
};
use crate::patterns::{ac_accepts, ac_new, ac_pats, regex_accepts, regex_new, regex_pat};
use crate::policy::{Action, AppliesTo, Field, MatchExpr, MatchV, Rule, RuleV};

verus! {

/// Why a policy failed to compile.
#[derive(Debug, PartialEq, Eq)]
pub enum CompileError {
    /// A regular-expression pattern was rejected.
    InvalidRegex { rule_id: Vec<u8>, message: String },
    /// A keywords expression carried no values.
    EmptyKeywords { rule_id: Vec<u8> },
    /// Two rules share an identifier.
    DuplicateRuleId { rule_id: Vec<u8> },
    /// The multi-pattern automaton could not be built.
    MatcherBuild { rule_id: Vec<u8>, message: String },
}

/// One compiled match expression. The raw pattern data is kept beside the
/// executable matcher.
pub enum CompiledMatch {
    Exact { field: Field, value: Vec<u8> },
    Regex { field: Field, re: regex::bytes::Regex, raw: String },
    Keywords { field: Field, ac: aho_corasick::AhoCorasick, raw: Vec<Vec<u8>> },
}

impl View for CompiledMatch {
    type V = MatchV;

    open spec fn view(&self) -> MatchV {
        match self {
            CompiledMatch::Exact { field, value } => MatchV::Exact {
                field: *field,
                value: value@,
            },
            CompiledMatch::Regex { field, re, raw } => MatchV::Regex {
                field: *field,
                pattern: raw@,
            },
            CompiledMatch::Keywords { field, ac, raw } => MatchV::Keywords {
                field: *field,
                values: views_of(raw@),
            },
        }
    }
}

impl CompiledMatch {
    /// The executable matcher was built from exactly the recorded raw
    /// pattern, and a keyword set is never empty.
    pub open spec fn wf(&self) -> bool {
        match self {
            CompiledMatch::Exact { .. } => true,
            CompiledMatch::Regex { re, raw, .. } => regex_pat(*re) == raw@,
            CompiledMatch::Keywords { ac, raw, .. } => ac_pats(*ac) == views_of(raw@) && raw@.len()
                > 0,
        }
    }
}

/// A rule with every match expression compiled.
pub struct CompiledRule {
    pub id: Vec<u8>,
    pub description: Option<Vec<u8>>,
    pub applies_to: AppliesTo,
    pub action: Action,
    pub priority: u32,
    pub when_any: Vec<CompiledMatch>,
}

impl View for CompiledRule {
    type V = RuleV;

    open spec fn view(&self) -> RuleV {
        RuleV {
            id: self.id@,
            description: crate::bytes::view_opt_bytes(self.description),
            applies_to: self.applies_to,
            action: self.action,
            priority: self.priority,
            when: self.when_any@.map_values(|m: CompiledMatch| m@),
        }
    }
}

impl CompiledRule {
    /// Every compiled expression of the rule is well-formed.
    pub open spec fn wf(&self) -> bool {
        forall|k: int| 0 <= k < self.when_any@.len() ==> (#[trigger] self.when_any@[k]).wf()
    }
}

/// Whether the pattern backends accept a match expression: regex patterns
/// must compile and keyword sets must be non-empty.
pub open spec fn expr_compilable(m: MatchV) -> bool {
    match m {
        MatchV::Exact { .. } => true,
        MatchV::Regex { pattern, .. } => regex_accepts(pattern),
        MatchV::Keywords { values, .. } => values.len() > 0,
    }
}

/// Every expression of the rule is compilable.
pub open spec fn rule_compilable(r: RuleV) -> bool {
    forall|k: int| 0 <= k < r.when.len() ==> expr_compilable(#[trigger] r.when[k])
}

/// Whether the pattern backends can actually build the matcher for an
/// expression: `expr_compilable`, and for keywords also that the
/// multi-pattern backend accepts the set (its internal limits are a
/// function of the patterns).
pub open spec fn expr_buildable(m: MatchV) -> bool {
    match m {
        MatchV::Exact { .. } => true,
        MatchV::Regex { pattern, .. } => regex_accepts(pattern),
        MatchV::Keywords { values, .. } => values.len() > 0 && ac_accepts(values),
    }
}

/// Every expression of the rule can be built.
pub open spec fn rule_buildable(r: RuleV) -> bool {
    forall|k: int| 0 <= k < r.when.len() ==> expr_buildable(#[trigger] r.when[k])
}

/// Compiles one rule. Succeeds if and only if every expression can be
/// built: an invalid regex, an empty keyword set, or a keyword set the
/// multi-pattern backend refuses fails the rule.
pub fn compile_rule(rule: &Rule) -> (r: Result<CompiledRule, CompileError>)
    ensures
        r is Ok <==> rule_buildable(rule@),
        r is Ok ==> r->Ok_0.wf() && r->Ok_0@ == rule@,
        r is Ok ==> rule_compilable(rule@),
{
    let mut compiled: Vec<CompiledMatch> = Vec::new();
    let mut i: usize = 0;
    proof {
        assert(compiled@.map_values(|m: CompiledMatch| m@) =~= rule@.when.subrange(0, 0));
    }
    while i < rule.when.any.len()
        invariant
            i <= rule.when.any@.len(),
            rule@.when.len() == rule.when.any@.len(),
            compiled@.map_values(|m: CompiledMatch| m@) == rule@.when.subrange(0, i as int),
            forall|k: int| 0 <= k < compiled@.len() ==> (#[trigger] compiled@[k]).wf(),
            forall|k: int| 0 <= k < i ==> expr_buildable(#[trigger] rule@.when[k]),
            forall|k: int| 0 <= k < i ==> expr_compilable(#[trigger] rule@.when[k]),
        decreases rule.when.any@.len() - i,
    {
        let ghost pre = compiled@.map_values(|m: CompiledMatch| m@);
        proof {
            assert(rule@.when[i as int] == rule.when.any@[i as int]@);
        }
        let c = match &rule.when.any[i] {
            MatchExpr::Exact { field, value } => CompiledMatch::Exact {
                field: *field,
                value: clone_bytes(value),
            },
            MatchExpr::Regex { field, pattern } => {
                match regex_new(pattern.as_str()) {
                    Ok(re) => CompiledMatch::Regex { field: *field, re, raw: pattern.clone() },
                    Err(e) => {
                        proof {
                            assert(!expr_buildable(rule@.when[i as int]));
                        }
                        return Err(
                            CompileError::InvalidRegex { rule_id: clone_bytes(&rule.id), message: e },
                        );
                    },
                }
            },
            MatchExpr::Keywords { field, values } => {
                if values.len() == 0 {
                    proof {
                        assert(!expr_buildable(rule@.when[i as int]));
                    }
                    return Err(CompileError::EmptyKeywords { rule_id: clone_bytes(&rule.id) });
                }
                match ac_new(values) {
                    Ok(ac) => CompiledMatch::Keywords {
                        field: *field,
                        ac,
                        raw: clone_byte_vecs(values),
                    },
                    Err(e) => {
                        proof {
                            assert(!expr_buildable(rule@.when[i as int]));
                        }
                        return Err(
                            CompileError::MatcherBuild { rule_id: clone_bytes(&rule.id), message: e },
                        );
                    },
                }
            },
        };
        proof {
            assert(c@ == rule@.when[i as int]);
            assert(c.wf());
            assert(expr_buildable(rule@.when[i as int]));
        }
        compiled.push(c);
        proof {
            assert(compiled@.map_values(|m: CompiledMatch| m@) =~= pre.push(rule@.when[i as int]));
            assert(pre.push(rule@.when[i as int]) =~= rule@.when.subrange(0, i as int + 1));
        }
        i += 1;
    }
    proof {
        assert(rule@.when.subrange(0, rule@.when.len() as int) =~= rule@.when);
    }
    let out = CompiledRule {
        id: clone_bytes(&rule.id),
        description: clone_opt_bytes(&rule.description),
        applies_to: rule.applies_to,
        action: rule.action,
        priority: rule.priority,
        when_any: compiled,
    };
    proof {
        assert(out@ == rule@);
    }
    Ok(out)
}

/// The evaluation order of compiled rules: lower priority first, and at
/// equal priority the lexicographically smaller identifier first.
pub open spec fn rule_le(a: RuleV, b: RuleV) -> bool {
    a.priority < b.priority || (a.priority == b.priority && lex_le(a.id, b.id))
}

/// `rule_le` is total.
pub proof fn lemma_rule_le_total(a: RuleV, b: RuleV)
    ensures
        rule_le(a, b) || rule_le(b, a),
{
    lemma_lex_le_total(a.id, b.id);
}

/// `rule_le` is transitive.
pub proof fn lemma_rule_le_trans(a: RuleV, b: RuleV, c: RuleV)
    requires
        rule_le(a, b),
        rule_le(b, c),
    ensures
        rule_le(a, c),
{
    if a.priority == b.priority && b.priority == c.priority && lex_le(a.id, b.id) && lex_le(
        b.id,
        c.id,
    ) {
        lemma_lex_le_trans(a.id, b.id, c.id);
    }
}

/// Insertion into a sorted rule list: the new rule goes after every rule
/// ordering at-or-before it.
pub open spec fn spec_insert_rule(s: Seq<RuleV>, x: RuleV) -> Seq<RuleV>
    decreases s.len(),
{
    if s.len() == 0 {
        seq![x]
    } else if rule_le(s[0], x) {
        seq![s[0]] + spec_insert_rule(s.drop_first(), x)
    } else {
        seq![x] + s
    }
}

/// Insertion sort of rules by `rule_le`.
pub open spec fn spec_sort_rules(s: Seq<RuleV>) -> Seq<RuleV>
    decreases s.len(),
{
    if s.len() == 0 {
        Seq::empty()
    } else {
        spec_insert_rule(spec_sort_rules(s.drop_last()), s.last())
    }
}

/// The list is ordered pairwise by `rule_le`.
pub open spec fn rules_sorted(s: Seq<RuleV>) -> bool {
    forall|a: int, b: int| 0 <= a < b < s.len() ==> rule_le(#[trigger] s[a], #[trigger] s[b])
}

/// Inserting at the first position whose rule does not order before the
/// new rule realises `spec_insert_rule`.
proof fn lemma_insert_rule_at(s: Seq<RuleV>, x: RuleV, pos: int)
    requires
        0 <= pos <= s.len(),
        forall|j: int| 0 <= j < pos ==> rule_le(#[trigger] s[j], x),
        pos < s.len() ==> !rule_le(s[pos], x),
    ensures
        spec_insert_rule(s, x) == s.insert(pos, x),
    decreases s.len(),
{
    if s.len() == 0 {
        assert(s.insert(0, x) =~= seq![x]);
    } else if pos == 0 {
        assert(seq![x] + s =~= s.insert(0, x));
    } else {
        lemma_insert_rule_at(s.drop_first(), x, pos - 1);
        assert(seq![s[0]] + s.drop_first().insert(pos - 1, x) =~= s.insert(pos, x));
    }
}

/// Insertion keeps a rule list sorted.
proof fn lemma_insert_rule_sorted(s: Seq<RuleV>, x: RuleV)
    requires
        rules_sorted(s),
    ensures
        rules_sorted(spec_insert_rule(s, x)),
    decreases s.len(),
{
    if s.len() == 0 {
    } else if rule_le(s[0], x) {
        assert(rules_sorted(s.drop_first())) by {
            assert(forall|j: int|
                0 <= j < s.drop_first().len() ==> #[trigger] s.drop_first()[j] == s[j + 1]);
        }
        lemma_insert_rule_sorted(s.drop_first(), x);
        let rec = spec_insert_rule(s.drop_first(), x);
        let m = seq![s[0]] + rec;
        assert forall|a: int, b: int| 0 <= a < b < m.len() implies rule_le(
            #[trigger] m[a],
            #[trigger] m[b],
        ) by {
            if a == 0 {
                lemma_insert_rule_elems(s.drop_first(), x, b - 1);
                // m[b] is either x or an element of s.drop_first()
                if rec[b - 1] == x {
                    assert(rule_le(s[0], x));
                } else {
                    assert(rule_le(m[a], m[b]));
                }
            } else {
                assert(m[a] == rec[a - 1] && m[b] == rec[b - 1]);
            }
        }
    } else {
        lemma_rule_le_total(s[0], x);
        let m = seq![x] + s;
        assert forall|a: int, b: int| 0 <= a < b < m.len() implies rule_le(
            #[trigger] m[a],
            #[trigger] m[b],
        ) by {
            if a == 0 {
                if b > 1 {
                    lemma_rule_le_trans(x, s[0], s[b - 1]);
                }
            } else {
                assert(m[a] == s[a - 1] && m[b] == s[b - 1]);
            }
        }
    }
}

/// Every element of an insertion's result is the inserted rule or one of
/// the originals at-or-before it ordering-wise.
proof fn lemma_insert_rule_elems(s: Seq<RuleV>, x: RuleV, k: int)
    requires
        0 <= k < spec_insert_rule(s, x).len(),
    ensures
        spec_insert_rule(s, x)[k] == x || s.contains(spec_insert_rule(s, x)[k]),
    decreases s.len(),
{
    if s.len() == 0 {
    } else if rule_le(s[0], x) {
        if k > 0 {
            lemma_insert_rule_elems(s.drop_first(), x, k - 1);
            if s.drop_first().contains(spec_insert_rule(s, x)[k]) {
                let w = choose|w: int|
                    0 <= w < s.drop_first().len() && s.drop_first()[w] == spec_insert_rule(s, x)[k];
                assert(s[w + 1] == spec_insert_rule(s, x)[k]);
            }
        }
    }
}

/// The sorted list keeps exactly the original rules; sortedness of the
/// insertion sort.
pub proof fn lemma_sort_rules_sorted(s: Seq<RuleV>)
    ensures
        rules_sorted(spec_sort_rules(s)),
    decreases s.len(),
{
    if s.len() > 0 {
        lemma_sort_rules_sorted(s.drop_last());
        lemma_insert_rule_sorted(spec_sort_rules(s.drop_last()), s.last());
    }
}

/// Insertion adds exactly the new rule to the multiset of rules.
proof fn lemma_insert_rule_multiset(s: Seq<RuleV>, x: RuleV)
    ensures
        spec_insert_rule(s, x).to_multiset() == s.to_multiset().insert(x),
    decreases s.len(),
{
    broadcast use vstd::seq_lib::group_to_multiset_ensures;
    broadcast use vstd::multiset::group_multiset_axioms;

    assert(Seq::<RuleV>::empty().to_multiset() =~= Multiset::<RuleV>::empty());
    if s.len() == 0 {
        assert(seq![x] =~= Seq::<RuleV>::empty().push(x));
        assert(spec_insert_rule(s, x).to_multiset() =~= s.to_multiset().insert(x));
    } else if rule_le(s[0], x) {
        lemma_insert_rule_multiset(s.drop_first(), x);
        let rec = spec_insert_rule(s.drop_first(), x);
        lemma_multiset_commutative(seq![s[0]], rec);
        lemma_multiset_commutative(seq![s[0]], s.drop_first());
        assert(s =~= seq![s[0]] + s.drop_first());
        assert(seq![s[0]] =~= Seq::<RuleV>::empty().push(s[0]));
        assert((seq![s[0]] + rec).to_multiset() =~= s.to_multiset().insert(x));
    } else {
        lemma_multiset_commutative(seq![x], s);
        assert(seq![x] =~= Seq::<RuleV>::empty().push(x));
        assert((seq![x] + s).to_multiset() =~= s.to_multiset().insert(x));
    }
}

/// Sorting permutes: the multiset of rules is unchanged.
pub proof fn lemma_sort_rules_permutes(s: Seq<RuleV>)
    ensures
        spec_sort_rules(s).to_multiset() == s.to_multiset(),
    decreases s.len(),
{
    broadcast use vstd::seq_lib::group_to_multiset_ensures;

    if s.len() > 0 {
        lemma_sort_rules_permutes(s.drop_last());
        lemma_insert_rule_multiset(spec_sort_rules(s.drop_last()), s.last());
        assert(s =~= s.drop_last().push(s.last()));
        assert(s.to_multiset() =~= s.drop_last().to_multiset().insert(s.last()));
    }
}

/// Runtime comparison matching `rule_le`.
fn rule_le_exec(a: &CompiledRule, b: &CompiledRule) -> (r: bool)
    ensures
        r == rule_le(a@, b@),
{
    a.priority < b.priority || (a.priority == b.priority && lex_le_bytes(&a.id, &b.id))
}

/// Every rule of the list is compilable.
pub open spec fn all_compilable(rs: Seq<RuleV>) -> bool {
    forall|k: int| 0 <= k < rs.len() ==> rule_compilable(#[trigger] rs[k])
}

/// Every rule of the list can be built.
pub open spec fn all_buildable(rs: Seq<RuleV>) -> bool {
    forall|k: int| 0 <= k < rs.len() ==> rule_buildable(#[trigger] rs[k])
}

/// No two rules share an identifier.
pub open spec fn ids_unique(rs: Seq<RuleV>) -> bool {
    forall|a: int, b: int| 0 <= a < b < rs.len() ==> (#[trigger] rs[a]).id != (#[trigger] rs[b]).id
}

/// Compiles every rule, rejects duplicate identifiers, and sorts the
/// result by `(priority ascending, id ascending)`. All-or-nothing: the
/// batch succeeds if and only if the identifiers are unique and every
/// rule can be built.
pub fn compile_all(rules: &Vec<Rule>) -> (r: Result<Vec<CompiledRule>, CompileError>)
    ensures
        r is Ok <==> ids_unique(rules@.map_values(|x: Rule| x@)) && all_buildable(
            rules@.map_values(|x: Rule| x@),
        ),
        r is Ok ==> {
            let out = r->Ok_0;
            &&& forall|k: int| 0 <= k < out@.len() ==> (#[trigger] out@[k]).wf()
            &&& out@.map_values(|c: CompiledRule| c@) == spec_sort_rules(
                rules@.map_values(|x: Rule| x@),
            )
            &&& rules_sorted(out@.map_values(|c: CompiledRule| c@))
            &&& all_compilable(rules@.map_values(|x: Rule| x@))
        },
        !ids_unique(rules@.map_values(|x: Rule| x@)) ==> r is Err && r->Err_0 is DuplicateRuleId,
{
    let ghost rv = rules@.map_values(|x: Rule| x@);
    // Reject duplicate identifiers first: a policy with duplicates never
    // compiles.
    let mut a: usize = 0;
    while a < rules.len()
        invariant
            a <= rules@.len(),
            rv == rules@.map_values(|x: Rule| x@),
            forall|p: int, q: int| 0 <= p < q < rules@.len() && p < a ==> rv[p].id != rv[q].id,
        decreases rules@.len() - a,
    {
        let mut b: usize = a + 1;
        while b < rules.len()
            invariant
                a < b <= rules@.len() || (a as int + 1 == b && b >= rules@.len()),
                a < rules@.len(),
                rv == rules@.map_values(|x: Rule| x@),
                forall|q: int| a < q < b ==> rv[a as int].id != rv[q].id,
            decreases rules@.len() - b,
        {
            if bytes_eq(&rules[a].id, &rules[b].id) {
                proof {
                    assert(rv[a as int].id == rv[b as int].id);
                    assert(!ids_unique(rv));
                }
                return Err(CompileError::DuplicateRuleId { rule_id: clone_bytes(&rules[b].id) });
            }
            b += 1;
        }
        a += 1;
    }
    // Compile every rule, in order.
    let mut compiled: Vec<CompiledRule> = Vec::new();
    let mut i: usize = 0;
    proof {
        assert(ids_unique(rv));
        assert(compiled@.map_values(|c: CompiledRule| c@) =~= rv.subrange(0, 0));
    }
    while i < rules.len()
        invariant
            i <= rules@.len(),
            ids_unique(rv),
            rv == rules@.map_values(|x: Rule| x@),
            compiled@.map_values(|c: CompiledRule| c@) == rv.subrange(0, i as int),
            forall|k: int| 0 <= k < compiled@.len() ==> (#[trigger] compiled@[k]).wf(),
            forall|k: int| 0 <= k < i ==> rule_buildable(#[trigger] rv[k]),
            forall|k: int| 0 <= k < i ==> rule_compilable(#[trigger] rv[k]),
        decreases rules@.len() - i,
    {
        let ghost pre = compiled@.map_values(|c: CompiledRule| c@);
        let c = match compile_rule(&rules[i]) {
            Ok(c) => c,
            Err(e) => {
                proof {
                    assert(!rule_buildable(rv[i as int]));
                    assert(!all_buildable(rv));
                }
                return Err(e);
            },
        };
        compiled.push(c);
        proof {
            assert(compiled@.map_values(|cc: CompiledRule| cc@) =~= pre.push(rv[i as int]));
            assert(pre.push(rv[i as int]) =~= rv.subrange(0, i as int + 1));
        }
        i += 1;
    }
    proof {
        assert(rv.subrange(0, rv.len() as int) =~= rv);
    }
    // Sort by (priority ascending, id ascending).
    let mut out: Vec<CompiledRule> = Vec::new();
    let mut taken: usize = 0;
    let total: usize = rules.len();
    let ghost n = rv.len();
    proof {
        assert(rv.subrange(0, 0) =~= Seq::<RuleV>::empty());
    }
    while compiled.len() > 0
        invariant
            n == rv.len(),
            n == total as int,
            taken <= n,
            compiled@.len() == n - taken,
            compiled@.map_values(|c: CompiledRule| c@) == rv.skip(taken as int),
            forall|k: int| 0 <= k < compiled@.len() ==> (#[trigger] compiled@[k]).wf(),
            out@.map_values(|c: CompiledRule| c@) == spec_sort_rules(rv.subrange(0, taken as int)),
            forall|k: int| 0 <= k < out@.len() ==> (#[trigger] out@[k]).wf(),
        decreases compiled@.len(),
    {
        let ghost cm = compiled@.map_values(|c: CompiledRule| c@);
        proof {
            assert(taken < n);
            assert(cm[0] == compiled@[0]@);
            assert(rv.skip(taken as int)[0] == rv[taken as int]);
        }
        let x = compiled.remove(0);
        proof {
            assert(x@ == cm[0]);
            assert(x@ == rv[taken as int]);
            assert(compiled@.map_values(|c: CompiledRule| c@) =~= cm.drop_first());
            assert(cm.drop_first() =~= rv.skip(taken as int + 1));
        }
        let ghost outm = out@.map_values(|c: CompiledRule| c@);
        let mut pos: usize = 0;
        while pos < out.len() && rule_le_exec(&out[pos], &x)
            invariant
                pos <= out@.len(),
                outm == out@.map_values(|c: CompiledRule| c@),
                forall|j: int| 0 <= j < pos ==> rule_le(#[trigger] outm[j], x@),
            decreases out@.len() - pos,
        {
            pos += 1;
        }
        proof {
            lemma_insert_rule_at(outm, x@, pos as int);
            assert(rv.subrange(0, taken as int + 1).drop_last() =~= rv.subrange(0, taken as int));
            assert(rv.subrange(0, taken as int + 1).last() == rv[taken as int]);
        }
        out.insert(pos, x);
        proof {
            let ghost xt = rv[taken as int];
            assert(out@.map_values(|c: CompiledRule| c@) =~= outm.insert(pos as int, xt));
        }
        taken += 1;
    }
    proof {
        assert(rv.subrange(0, n as int) =~= rv);
        lemma_sort_rules_sorted(rv);
        assert(all_buildable(rv));
    }
    Ok(out)
}

} // verus!