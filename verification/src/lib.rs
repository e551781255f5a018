//! Policy-evaluation gateway core: a declarative policy model, a rule
//! compiler, a PII detector with overlap resolution and redaction, a
//! character-n-gram similarity matcher, a hot-swappable rule store, and a
//! two-stage evaluator over them.
//!
//! All text is handled as raw bytes; offsets in findings are byte offsets
//! into the original text.

pub mod bytes;
pub mod compile;
pub mod eval;
pub mod patterns;
pub mod pii_regex;
pub mod semantic;
pub mod store;
pub mod policy;
