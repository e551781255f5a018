//! The rule store: the active policy document together with its compiled
//! artifacts, replaced atomically by `apply_policy` with
//! validate-then-swap semantics. Concurrency and persistence live with the
//! caller: a server wraps the store in a reader-writer lock and writes the
//! document out after a successful apply, so that readers observe either
//! the whole old or the whole new state.

use vstd::prelude::*;
use crate::compile::{
    all_buildable, all_compilable, compile_all, ids_unique, rules_sorted, spec_sort_rules,
    CompileError, CompiledRule,
};
use crate::policy::{PiiConfig, PolicyFile, Rule, RuleV};
use crate::semantic::{
    compile_semantic, spec_clamp_threshold, spec_eff_nmax, spec_eff_nmin, CompiledSemantic,
};

verus! {

/// The active policy and its compiled artifacts.
pub struct RuleStore {
    pub policy: PolicyFile,
    pub compiled: Vec<CompiledRule>,
    pub semantic: CompiledSemantic,
}

impl RuleStore {
    /// The compiled artifacts are exactly what compiling the held policy
    /// yields: well-formed rules sorted by `(priority, id)` with unique
    /// identifiers, and the semantic stage compiled from the held
    /// configuration.
    pub open spec fn wf(&self) -> bool {
        &&& forall|k: int| 0 <= k < self.compiled@.len() ==> (#[trigger] self.compiled@[k]).wf()
        &&& self.compiled@.map_values(|c: CompiledRule| c@) == spec_sort_rules(
            self.policy.rules@.map_values(|x: Rule| x@),
        )
        &&& rules_sorted(self.compiled@.map_values(|c: CompiledRule| c@))
        &&& ids_unique(self.policy.rules@.map_values(|x: Rule| x@))
        &&& all_compilable(self.policy.rules@.map_values(|x: Rule| x@))
        &&& self.semantic.wf()
        &&& self.semantic.enabled == self.policy.semantic.enabled
        &&& self.semantic.applies_to == self.policy.semantic.applies_to
        &&& self.semantic.action == self.policy.semantic.action
        &&& self.semantic.threshold == spec_clamp_threshold(self.policy.semantic.threshold)
        &&& self.semantic.ngram_min as int == spec_eff_nmin(self.policy.semantic@)
        &&& self.semantic.ngram_max as int == spec_eff_nmax(self.policy.semantic@)
        &&& self.semantic@.cases == self.policy.semantic@.cases
    }

    /// Builds a store from a parsed policy document: compiles and
    /// validates every rule and the semantic stage, all or nothing. It
    /// succeeds if and only if the rule identifiers are unique and every
    /// rule can be built; the document is kept exactly as handed in.
    pub fn load(policy: PolicyFile) -> (r: Result<RuleStore, CompileError>)
        ensures
            r is Ok <==> ids_unique(policy.rules@.map_values(|x: Rule| x@)) && all_buildable(
                policy.rules@.map_values(|x: Rule| x@),
            ),
            r is Ok ==> r->Ok_0.wf() && r->Ok_0.policy == policy,
    {
        let compiled = match compile_all(&policy.rules) {
            Ok(c) => c,
            Err(e) => {
                return Err(e);
            },
        };
        let semantic = compile_semantic(&policy.semantic);
        Ok(RuleStore { policy, compiled, semantic })
    }

    /// The currently active policy document. Together with
    /// `apply_policy`'s contract: after a successful apply this returns
    /// the applied document.
    pub fn get_policy(&self) -> (r: &PolicyFile)
        ensures
            r == &self.policy,
    {
        &self.policy
    }

    /// Replaces the policy, all or nothing: the new document is compiled
    /// first, and only on success is the state swapped. It succeeds if
    /// and only if the new policy's rule identifiers are unique and every
    /// rule can be built; on any failure the store is exactly what it was
    /// — applying a policy that does not compile is a no-op.
    pub fn apply_policy(&mut self, policy: PolicyFile) -> (r: Result<(), CompileError>)
        requires
            old(self).wf(),
        ensures
            r is Ok <==> ids_unique(policy.rules@.map_values(|x: Rule| x@)) && all_buildable(
                policy.rules@.map_values(|x: Rule| x@),
            ),
            final(self).wf(),
            r is Ok ==> final(self).policy == policy,
            r is Err ==> *final(self) == *old(self),
    {
        let compiled = match compile_all(&policy.rules) {
            Ok(c) => c,
            Err(e) => {
                return Err(e);
            },
        };
        let semantic = compile_semantic(&policy.semantic);
        self.policy = policy;
        self.compiled = compiled;
        self.semantic = semantic;
        Ok(())
    }

    /// The compiled rules, sorted by `(priority ascending, id ascending)`.
    pub fn compiled_snapshot(&self) -> (r: &Vec<CompiledRule>)
        ensures
            r == &self.compiled,
    {
        &self.compiled
    }

    /// The active PII stage configuration.
    pub fn pii_config(&self) -> (r: &PiiConfig)
        ensures
            r == &self.policy.pii,
    {
        &self.policy.pii
    }

    /// The compiled semantic stage.
    pub fn semantic_snapshot(&self) -> (r: &CompiledSemantic)
        ensures
            r == &self.semantic,
    {
        &self.semantic
    }
}

} // verus!