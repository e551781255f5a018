//! Near-duplicate text matching by hashed character n-grams.
//!
//! Example texts are normalized (ASCII lowercase, whitespace runs
//! collapsed, trimmed), their n-grams hashed with an FNV-style mixer and
//! counted into 128 buckets. An input scores against an example by cosine
//! similarity of the two bucket vectors. All arithmetic here is exact:
//! cosine comparisons are carried out on integers by cross-multiplying
//! squares, and thresholds are expressed in ten-thousandths, so no
//! floating point is involved. Bucket counts saturate at `COUNT_CAP`,
//! which keeps every comparison inside 128-bit arithmetic.

use vstd::prelude::*;
use vstd::arithmetic::mul::lemma_mul_upper_bound;
use crate::bytes::clone_bytes;
use crate::policy::{
    applies, spec_applies, Action, AppliesTo, Kind, SemanticCaseV, SemanticConfig, SemanticConfigV,
};

verus! {

/// Saturation bound of a bucket count.
pub const COUNT_CAP: u64 = 131071;

/// Largest possible dot product of two bucket vectors:
/// `128 * COUNT_CAP * COUNT_CAP`.
pub const DOT_MAX: u128 = 2198989701248;

/// `b` is an ASCII whitespace byte: space, tab, line feed, vertical tab,
/// form feed, or carriage return.
pub open spec fn is_ws(b: u8) -> bool {
    b == 32 || b == 9 || b == 10 || b == 11 || b == 12 || b == 13
}

/// ASCII lowercasing of one byte.
pub open spec fn to_lower(b: u8) -> u8 {
    if 65 <= b <= 90 {
        (b + 32) as u8
    } else {
        b
    }
}

/// The text from position `i` on, lowercased, with every whitespace run
/// collapsed to a single space; `last_ws` tells whether a run is open.
pub open spec fn collapse_from(s: Seq<u8>, i: int, last_ws: bool) -> Seq<u8>
    decreases s.len() - i,
{
    if i < 0 || i >= s.len() {
        Seq::empty()
    } else if is_ws(s[i]) {
        if last_ws {
            collapse_from(s, i + 1, true)
        } else {
            seq![32u8] + collapse_from(s, i + 1, true)
        }
    } else {
        seq![to_lower(s[i])] + collapse_from(s, i + 1, false)
    }
}

/// Removes the at most one leading and one trailing space a collapsed
/// text can have.
pub open spec fn spec_trim(t: Seq<u8>) -> Seq<u8> {
    let t1 = if t.len() > 0 && t[0] == 32 {
        t.drop_first()
    } else {
        t
    };
    if t1.len() > 0 && t1.last() == 32 {
        t1.drop_last()
    } else {
        t1
    }
}

/// Normalization: lowercase, collapse whitespace runs to single spaces,
/// trim the ends.
pub open spec fn spec_normalize(s: Seq<u8>) -> Seq<u8> {
    spec_trim(collapse_from(s, 0, false))
}

/// Lowercases and collapses whitespace, then trims.
pub fn normalize_text(s: &Vec<u8>) -> (r: Vec<u8>)
    ensures
        r@ == spec_normalize(s@),
{
    let mut out: Vec<u8> = Vec::new();
    let mut last_ws = false;
    let mut i: usize = 0;
    proof {
        assert(out@ + collapse_from(s@, 0, false) =~= collapse_from(s@, 0, false));
    }
    while i < s.len()
        invariant
            i <= s@.len(),
            collapse_from(s@, 0, false) == out@ + collapse_from(s@, i as int, last_ws),
        decreases s@.len() - i,
    {
        let ghost pre = out@;
        let b = s[i];
        let lb = if b >= 65 && b <= 90 {
            b + 32
        } else {
            b
        };
        if lb == 32 || lb == 9 || lb == 10 || lb == 11 || lb == 12 || lb == 13 {
            if !last_ws {
                out.push(32);
                last_ws = true;
                proof {
                    assert(pre + (seq![32u8] + collapse_from(s@, i as int + 1, true)) =~= out@
                        + collapse_from(s@, i as int + 1, true));
                }
            }
        } else {
            out.push(lb);
            last_ws = false;
            proof {
                assert(lb == to_lower(s@[i as int]));
                assert(pre + (seq![to_lower(s@[i as int])] + collapse_from(s@, i as int + 1, false))
                    =~= out@ + collapse_from(s@, i as int + 1, false));
            }
        }
        i += 1;
    }
    proof {
        assert(collapse_from(s@, s@.len() as int, last_ws) =~= Seq::<u8>::empty());
        assert(out@ + Seq::<u8>::empty() =~= out@);
    }
    // Trim the single possible leading and trailing space.
    let start: usize = if out.len() > 0 && out[0] == 32 {
        1
    } else {
        0
    };
    let end: usize = if out.len() > start && out[out.len() - 1] == 32 {
        out.len() - 1
    } else {
        out.len()
    };
    let r = crate::bytes::subvec(&out, start, end);
    proof {
        let t = out@;
        let t1 = if t.len() > 0 && t[0] == 32 {
            t.drop_first()
        } else {
            t
        };
        if start == 1 {
            assert(t1 =~= t.subrange(1, t.len() as int));
        }
        if t1.len() > 0 && t1.last() == 32 {
            assert(spec_trim(t) =~= t.subrange(start as int, end as int));
        } else {
            assert(spec_trim(t) =~= t.subrange(start as int, end as int));
        }
    }
    r
}

/// The FNV-style offset basis.
pub const FNV_OFFSET: u64 = 14695981039346656037;

/// The FNV-style multiplier.
pub const FNV_PRIME: u64 = 1099511628211;

/// One hash-mixing step: fold a byte in, then multiply (wrapping).
pub open spec fn fnv_step(h: u64, b: u8) -> u64 {
    (h ^ (b as u64)).wrapping_mul(FNV_PRIME)
}

/// The hash of the bytes `s[i..j)`, folded left to right from the offset
/// basis.
pub open spec fn ngram_hash_upto(s: Seq<u8>, i: int, j: int) -> u64
    decreases j - i,
{
    if j <= i {
        FNV_OFFSET
    } else {
        fnv_step(ngram_hash_upto(s, i, j - 1), s[j - 1])
    }
}

/// Hashes the window of `n` bytes starting at `i`.
fn ngram_hash(s: &Vec<u8>, i: usize, n: usize) -> (h: u64)
    requires
        i + n <= s@.len(),
    ensures
        h == ngram_hash_upto(s@, i as int, i as int + n as int),
{
    let l = s.len();
    let mut h: u64 = FNV_OFFSET;
    let mut j: usize = 0;
    while j < n
        invariant
            j <= n,
            i + n <= s@.len(),
            s@.len() == l,
            h == ngram_hash_upto(s@, i as int, i as int + j as int),
        decreases n - j,
    {
        h = (h ^ (s[i + j] as u64)).wrapping_mul(FNV_PRIME);
        j += 1;
    }
    h
}

/// The all-zero bucket vector.
pub open spec fn zero_buckets() -> Seq<u64> {
    Seq::new(128, |k: int| 0u64)
}

/// A count bumped by one, saturating at `COUNT_CAP`.
pub open spec fn sat_inc(c: u64) -> u64 {
    if c >= COUNT_CAP {
        c
    } else {
        (c + 1) as u64
    }
}

/// The bucket vector with the count of bucket `b` bumped.
pub open spec fn bump(v: Seq<u64>, b: int) -> Seq<u64> {
    v.update(b, sat_inc(v[b]))
}

/// Buckets after counting the first `w` windows of length `n` of `s` on
/// top of `v0`.
pub open spec fn buckets_for_n(v0: Seq<u64>, s: Seq<u8>, n: int, w: int) -> Seq<u64>
    decreases w,
{
    if w <= 0 {
        v0
    } else {
        let prev = buckets_for_n(v0, s, n, w - 1);
        bump(prev, (ngram_hash_upto(s, w - 1, w - 1 + n) as int) % 128)
    }
}

/// How many windows of length `n` a text of length `len` has.
pub open spec fn window_count(len: int, n: int) -> int {
    if len >= n {
        len - n + 1
    } else {
        0
    }
}

/// Buckets after counting every n-gram length from `nmin` through `n`.
pub open spec fn buckets_upto(s: Seq<u8>, nmin: int, n: int) -> Seq<u64>
    decreases n - nmin + 1,
{
    if n < nmin {
        zero_buckets()
    } else {
        buckets_for_n(buckets_upto(s, nmin, n - 1), s, n, window_count(s.len() as int, n))
    }
}

/// The bucket vector of a text: normalize, then count every hashed
/// n-gram of lengths `nmin` through `nmax`.
pub open spec fn spec_vectorize(text: Seq<u8>, nmin: int, nmax: int) -> Seq<u64> {
    buckets_upto(spec_normalize(text), nmin, nmax)
}

/// All counts are at most `COUNT_CAP` and the vector has 128 buckets.
pub open spec fn buckets_wf(v: Seq<u64>) -> bool {
    v.len() == 128 && forall|k: int| 0 <= k < 128 ==> #[trigger] v[k] <= COUNT_CAP
}

/// Bumping keeps a vector well-formed.
proof fn lemma_bump_wf(v: Seq<u64>, b: int)
    requires
        buckets_wf(v),
        0 <= b < 128,
    ensures
        buckets_wf(bump(v, b)),
{
}

/// Window counting keeps a vector well-formed.
proof fn lemma_buckets_for_n_wf(v0: Seq<u64>, s: Seq<u8>, n: int, w: int)
    requires
        buckets_wf(v0),
    ensures
        buckets_wf(buckets_for_n(v0, s, n, w)),
    decreases w,
{
    if w > 0 {
        lemma_buckets_for_n_wf(v0, s, n, w - 1);
        lemma_bump_wf(buckets_for_n(v0, s, n, w - 1), (ngram_hash_upto(s, w - 1, w - 1 + n) as int)
            % 128);
    }
}

/// Every bucket vector the counting produces is well-formed.
pub proof fn lemma_buckets_upto_wf(s: Seq<u8>, nmin: int, n: int)
    ensures
        buckets_wf(buckets_upto(s, nmin, n)),
    decreases n - nmin + 1,
{
    if n < nmin {
        assert(buckets_wf(zero_buckets()));
    } else {
        lemma_buckets_upto_wf(s, nmin, n - 1);
        lemma_buckets_for_n_wf(
            buckets_upto(s, nmin, n - 1),
            s,
            n,
            window_count(s.len() as int, n),
        );
    }
}

/// Counts the hashed n-grams of the normalized text into 128 buckets,
/// saturating each count at `COUNT_CAP`.
pub fn vectorize_char_ngrams(text: &Vec<u8>, nmin: usize, nmax: usize) -> (r: Vec<u64>)
    requires
        1 <= nmin <= nmax,
    ensures
        r@ == spec_vectorize(text@, nmin as int, nmax as int),
        buckets_wf(r@),
{
    let normed = normalize_text(text);
    let mut v: Vec<u64> = Vec::new();
    let mut z: usize = 0;
    while z < 128
        invariant
            z <= 128,
            v@.len() == z,
            forall|k: int| 0 <= k < z ==> #[trigger] v@[k] == 0u64,
        decreases 128 - z,
    {
        v.push(0);
        z += 1;
    }
    proof {
        assert(v@ =~= zero_buckets());
        assert(v@ == buckets_upto(normed@, nmin as int, nmin as int - 1));
    }
    let mut n: usize = nmin;
    loop
        invariant_except_break
            1 <= nmin <= n <= nmax,
            normed@ == spec_normalize(text@),
            v@ == buckets_upto(normed@, nmin as int, n as int - 1),
            buckets_wf(v@),
        ensures
            v@ == buckets_upto(normed@, nmin as int, nmax as int),
            buckets_wf(v@),
        decreases nmax - n,
    {
        let len = normed.len();
        if len >= n {
            let wmax = len - n + 1;
            let mut w: usize = 0;
            while w < wmax
                invariant
                    w <= wmax,
                    n >= 1,
                    wmax == normed@.len() - n + 1,
                    normed@.len() >= n,
                    v@ == buckets_for_n(
                        buckets_upto(normed@, nmin as int, n as int - 1),
                        normed@,
                        n as int,
                        w as int,
                    ),
                    buckets_wf(v@),
                decreases wmax - w,
            {
                let h = ngram_hash(&normed, w, n);
                let idx = (h % 128) as usize;
                let ghost prev = v@;
                let c = v[idx];
                let nc = if c >= COUNT_CAP {
                    c
                } else {
                    c + 1
                };
                v.set(idx, nc);
                proof {
                    assert(v@ =~= bump(prev, (h as int) % 128));
                }
                w += 1;
            }
            proof {
                assert(window_count(normed@.len() as int, n as int) == wmax as int);
            }
        } else {
            proof {
                assert(window_count(normed@.len() as int, n as int) == 0);
                assert(buckets_for_n(
                    buckets_upto(normed@, nmin as int, n as int - 1),
                    normed@,
                    n as int,
                    0,
                ) == buckets_upto(normed@, nmin as int, n as int - 1));
            }
        }
        proof {
            assert(buckets_upto(normed@, nmin as int, n as int) == buckets_for_n(
                buckets_upto(normed@, nmin as int, n as int - 1),
                normed@,
                n as int,
                window_count(normed@.len() as int, n as int),
            ));
        }
        if n == nmax {
            break;
        }
        n += 1;
    }
    v
}

/// The dot product of the first `k` buckets.
pub open spec fn dot_upto(a: Seq<u64>, b: Seq<u64>, k: int) -> int
    decreases k,
{
    if k <= 0 {
        0
    } else {
        dot_upto(a, b, k - 1) + a[k - 1] as int * b[k - 1] as int
    }
}

/// The dot product of two bucket vectors.
pub open spec fn spec_dot(a: Seq<u64>, b: Seq<u64>) -> int {
    dot_upto(a, b, 128)
}

/// The squared Euclidean norm of a bucket vector.
pub open spec fn spec_norm_sq(a: Seq<u64>) -> int {
    spec_dot(a, a)
}

/// A dot product of well-formed vectors stays below `DOT_MAX`.
pub proof fn lemma_dot_bound(a: Seq<u64>, b: Seq<u64>, k: int)
    requires
        buckets_wf(a),
        buckets_wf(b),
        0 <= k <= 128,
    ensures
        0 <= dot_upto(a, b, k) <= k * 17179607041,
    decreases k,
{
    if k > 0 {
        lemma_dot_bound(a, b, k - 1);
        lemma_mul_upper_bound(a[k - 1] as int, COUNT_CAP as int, b[k - 1] as int, COUNT_CAP as int);
    }
}

/// Computes the dot product of two bucket vectors.
pub fn dot(a: &Vec<u64>, b: &Vec<u64>) -> (r: u128)
    requires
        buckets_wf(a@),
        buckets_wf(b@),
    ensures
        r == spec_dot(a@, b@),
        r <= DOT_MAX,
{
    let mut r: u128 = 0;
    let mut k: usize = 0;
    while k < 128
        invariant
            k <= 128,
            buckets_wf(a@),
            buckets_wf(b@),
            r == dot_upto(a@, b@, k as int),
            r <= k * 17179607041,
        decreases 128 - k,
    {
        proof {
            lemma_mul_upper_bound(
                a@[k as int] as int,
                COUNT_CAP as int,
                b@[k as int] as int,
                COUNT_CAP as int,
            );
        }
        r = r + (a[k] as u128) * (b[k] as u128);
        k += 1;
    }
    proof {
        lemma_dot_bound(a@, b@, 128);
    }
    r
}

/// Whether `dot / sqrt(sa * sb) >= t / 10000`, decided exactly by
/// cross-multiplying squares; a zero norm means the score is zero.
pub open spec fn spec_meets_threshold(dot: int, sa: int, sb: int, t: int) -> bool {
    if sa == 0 || sb == 0 {
        t <= 0
    } else {
        dot * dot * 100000000 >= t * t * sa * sb
    }
}

/// Whether the candidate score `dot1 / sqrt(sa * sb1)` strictly exceeds
/// the held score `dot2 / sqrt(sa * sb2)`; zero norms score zero.
pub open spec fn spec_score_gt(dot1: int, sb1: int, dot2: int, sb2: int, sa: int) -> bool {
    if sa == 0 || sb1 == 0 {
        false
    } else if sb2 == 0 {
        dot1 > 0
    } else {
        dot1 * dot1 * sb2 > dot2 * dot2 * sb1
    }
}

/// Decides `spec_meets_threshold` at runtime.
pub fn meets_threshold(dot: u128, sa: u128, sb: u128, t: u32) -> (r: bool)
    requires
        dot <= DOT_MAX,
        sa <= DOT_MAX,
        sb <= DOT_MAX,
        t <= 10000,
    ensures
        r == spec_meets_threshold(dot as int, sa as int, sb as int, t as int),
{
    if sa == 0 || sb == 0 {
        t == 0
    } else {
        proof {
            lemma_mul_upper_bound(dot as int, DOT_MAX as int, dot as int, DOT_MAX as int);
            lemma_mul_upper_bound(
                (dot * dot) as int,
                (DOT_MAX * DOT_MAX) as int,
                100000000,
                100000000,
            );
            lemma_mul_upper_bound(t as int, 10000, t as int, 10000);
            lemma_mul_upper_bound((t * t) as int, 100000000, sa as int, DOT_MAX as int);
            lemma_mul_upper_bound(
                (t * t * sa) as int,
                100000000 * DOT_MAX as int,
                sb as int,
                DOT_MAX as int,
            );
        }
        let lhs = dot * dot * 100000000;
        let rhs = (t as u128) * (t as u128) * sa * sb;
        lhs >= rhs
    }
}

/// Decides `spec_score_gt` at runtime.
pub fn score_gt(dot1: u128, sb1: u128, dot2: u128, sb2: u128, sa: u128) -> (r: bool)
    requires
        dot1 <= DOT_MAX,
        sb1 <= DOT_MAX,
        dot2 <= DOT_MAX,
        sb2 <= DOT_MAX,
        sa <= DOT_MAX,
    ensures
        r == spec_score_gt(dot1 as int, sb1 as int, dot2 as int, sb2 as int, sa as int),
{
    if sa == 0 || sb1 == 0 {
        false
    } else if sb2 == 0 {
        dot1 > 0
    } else {
        proof {
            lemma_mul_upper_bound(dot1 as int, DOT_MAX as int, dot1 as int, DOT_MAX as int);
            lemma_mul_upper_bound(
                (dot1 * dot1) as int,
                (DOT_MAX * DOT_MAX) as int,
                sb2 as int,
                DOT_MAX as int,
            );
            lemma_mul_upper_bound(dot2 as int, DOT_MAX as int, dot2 as int, DOT_MAX as int);
            lemma_mul_upper_bound(
                (dot2 * dot2) as int,
                (DOT_MAX * DOT_MAX) as int,
                sb1 as int,
                DOT_MAX as int,
            );
        }
        dot1 * dot1 * sb2 > dot2 * dot2 * sb1
    }
}

/// The effective smallest n-gram length: the configured value or 3,
/// raised to at least 1.
pub open spec fn spec_eff_nmin(c: SemanticConfigV) -> int {
    let m = match c.ngram_min {
        Some(v) => v as int,
        None => 3,
    };
    if m < 1 {
        1
    } else {
        m
    }
}

/// The effective largest n-gram length: the configured value or 5, raised
/// to at least the effective minimum.
pub open spec fn spec_eff_nmax(c: SemanticConfigV) -> int {
    let m = match c.ngram_max {
        Some(v) => v as int,
        None => 5,
    };
    let lo = spec_eff_nmin(c);
    if m < lo {
        lo
    } else {
        m
    }
}

/// The threshold clamped to the ten-thousandths scale.
pub open spec fn spec_clamp_threshold(t: u32) -> u32 {
    if t > 10000 {
        10000
    } else {
        t
    }
}

/// One example compiled: its text, its bucket vector, and the vector's
/// squared norm.
pub struct CompiledExample {
    pub text: Vec<u8>,
    pub buckets: Vec<u64>,
    pub norm_sq: u128,
}

impl CompiledExample {
    /// The buckets are exactly the text's vector and the squared norm
    /// matches them.
    pub open spec fn wf(&self, nmin: int, nmax: int) -> bool {
        &&& self.buckets@ == spec_vectorize(self.text@, nmin, nmax)
        &&& buckets_wf(self.buckets@)
        &&& self.norm_sq == spec_norm_sq(self.buckets@)
        &&& self.norm_sq <= DOT_MAX
    }
}

/// One semantic case compiled: its identifier and compiled examples.
pub struct CompiledSemanticCase {
    pub id: Vec<u8>,
    pub description: Option<Vec<u8>>,
    pub examples: Vec<CompiledExample>,
}

impl CompiledSemanticCase {
    /// Every example of the case is well-formed.
    pub open spec fn wf(&self, nmin: int, nmax: int) -> bool {
        forall|j: int|
            0 <= j < self.examples@.len() ==> (#[trigger] self.examples@[j]).wf(nmin, nmax)
    }
}

impl View for CompiledSemanticCase {
    type V = SemanticCaseV;

    open spec fn view(&self) -> SemanticCaseV {
        SemanticCaseV {
            id: self.id@,
            description: crate::bytes::view_opt_bytes(self.description),
            examples: self.examples@.map_values(|e: CompiledExample| e.text@),
        }
    }
}

/// The semantic stage compiled: configuration with the threshold clamped,
/// the n-gram range made effective, and every example vectorized.
pub struct CompiledSemantic {
    pub enabled: bool,
    pub applies_to: AppliesTo,
    pub action: Action,
    /// Threshold in ten-thousandths, at most 10000.
    pub threshold: u32,
    pub ngram_min: usize,
    pub ngram_max: usize,
    pub cases: Vec<CompiledSemanticCase>,
}

impl CompiledSemantic {
    /// Threshold and n-gram range are in their effective ranges and every
    /// case is well-formed.
    pub open spec fn wf(&self) -> bool {
        &&& self.threshold <= 10000
        &&& 1 <= self.ngram_min <= self.ngram_max
        &&& forall|i: int|
            0 <= i < self.cases@.len() ==> (#[trigger] self.cases@[i]).wf(
                self.ngram_min as int,
                self.ngram_max as int,
            )
    }
}

impl View for CompiledSemantic {
    type V = SemanticConfigV;

    open spec fn view(&self) -> SemanticConfigV {
        SemanticConfigV {
            enabled: self.enabled,
            applies_to: self.applies_to,
            action: self.action,
            threshold: self.threshold,
            cases: self.cases@.map_values(|c: CompiledSemanticCase| c@),
            ngram_min: Some(self.ngram_min),
            ngram_max: Some(self.ngram_max),
        }
    }
}

/// Compiles the semantic configuration: resolves the n-gram range and
/// threshold and vectorizes every example text.
pub fn compile_semantic(cfg: &SemanticConfig) -> (r: CompiledSemantic)
    ensures
        r.wf(),
        r.enabled == cfg.enabled,
        r.applies_to == cfg.applies_to,
        r.action == cfg.action,
        r.threshold == spec_clamp_threshold(cfg.threshold),
        r.ngram_min as int == spec_eff_nmin(cfg@),
        r.ngram_max as int == spec_eff_nmax(cfg@),
        r@.cases == cfg@.cases,
{
    let nmin: usize = match cfg.ngram_min {
        Some(v) => if v < 1 {
            1
        } else {
            v
        },
        None => 3,
    };
    let nmax0: usize = match cfg.ngram_max {
        Some(v) => v,
        None => 5,
    };
    let nmax: usize = if nmax0 < nmin {
        nmin
    } else {
        nmax0
    };
    let threshold: u32 = if cfg.threshold > 10000 {
        10000
    } else {
        cfg.threshold
    };
    let mut cases: Vec<CompiledSemanticCase> = Vec::new();
    let mut i: usize = 0;
    proof {
        assert(cases@.map_values(|c: CompiledSemanticCase| c@) =~= cfg@.cases.subrange(0, 0));
    }
    while i < cfg.cases.len()
        invariant
            i <= cfg.cases@.len(),
            1 <= nmin <= nmax,
            cases@.map_values(|c: CompiledSemanticCase| c@) == cfg@.cases.subrange(0, i as int),
            forall|k: int|
                0 <= k < cases@.len() ==> (#[trigger] cases@[k]).wf(nmin as int, nmax as int),
        decreases cfg.cases@.len() - i,
    {
        let c = &cfg.cases[i];
        let mut examples: Vec<CompiledExample> = Vec::new();
        let mut j: usize = 0;
        proof {
            assert(examples@.map_values(|e: CompiledExample| e.text@) =~= c@.examples.subrange(
                0,
                0,
            ));
        }
        while j < c.examples.len()
            invariant
                j <= c.examples@.len(),
                1 <= nmin <= nmax,
                examples@.map_values(|e: CompiledExample| e.text@) == c@.examples.subrange(
                    0,
                    j as int,
                ),
                forall|k: int|
                    0 <= k < examples@.len() ==> (#[trigger] examples@[k]).wf(
                        nmin as int,
                        nmax as int,
                    ),
            decreases c.examples@.len() - j,
        {
            let ghost pre = examples@.map_values(|e: CompiledExample| e.text@);
            let text = clone_bytes(&c.examples[j].text);
            let buckets = vectorize_char_ngrams(&text, nmin, nmax);
            let norm_sq = dot(&buckets, &buckets);
            proof {
                lemma_dot_bound(buckets@, buckets@, 128);
            }
            examples.push(CompiledExample { text, buckets, norm_sq });
            proof {
                assert(examples@.map_values(|e: CompiledExample| e.text@) =~= pre.push(
                    c@.examples[j as int],
                ));
                assert(pre.push(c@.examples[j as int]) =~= c@.examples.subrange(0, j as int + 1));
            }
            j += 1;
        }
        proof {
            assert(c@.examples.subrange(0, c@.examples.len() as int) =~= c@.examples);
        }
        let desc: Option<Vec<u8>> = match &c.description {
            Some(d) => Some(clone_bytes(d)),
            None => None,
        };
        let ghost prec = cases@.map_values(|cc: CompiledSemanticCase| cc@);
        let compiled_case = CompiledSemanticCase { id: clone_bytes(&c.id), description: desc, examples };
        proof {
            assert(compiled_case@.id == c@.id);
            assert(compiled_case@.description == c@.description);
            assert(compiled_case@.examples == c@.examples);
            assert(compiled_case@ == cfg@.cases[i as int]);
        }
        cases.push(compiled_case);
        proof {
            assert(cases@.map_values(|cc: CompiledSemanticCase| cc@) =~= prec.push(
                cfg@.cases[i as int],
            ));
            assert(prec.push(cfg@.cases[i as int]) =~= cfg@.cases.subrange(0, i as int + 1));
        }
        i += 1;
    }
    proof {
        assert(cfg@.cases.subrange(0, cfg@.cases.len() as int) =~= cfg@.cases);
    }
    let r = CompiledSemantic {
        enabled: cfg.enabled,
        applies_to: cfg.applies_to,
        action: cfg.action,
        threshold,
        ngram_min: nmin,
        ngram_max: nmax,
        cases,
    };
    proof {
        assert(r@.cases =~= cfg@.cases);
    }
    r
}

/// The best example seen so far: where it came from, its dot product
/// against the input, and its squared norm.
pub struct BestV {
    pub case_id: Seq<u8>,
    pub example: Seq<u8>,
    pub dot: int,
    pub norm_sq: int,
}

/// Scans the examples of one case from index `j` on, keeping the best.
/// Only a strictly better score displaces the held one, so the earliest
/// of equals wins.
pub open spec fn scan_examples(
    cid: Seq<u8>,
    exs: Seq<Seq<u8>>,
    j: int,
    input: Seq<u64>,
    sa: int,
    nmin: int,
    nmax: int,
    best: Option<BestV>,
) -> Option<BestV>
    decreases exs.len() - j,
{
    if j < 0 || j >= exs.len() {
        best
    } else {
        let ebuckets = spec_vectorize(exs[j], nmin, nmax);
        let d = spec_dot(input, ebuckets);
        let sb = spec_norm_sq(ebuckets);
        let take = match best {
            None => true,
            Some(b) => spec_score_gt(d, sb, b.dot, b.norm_sq, sa),
        };
        let nb = if take {
            Some(BestV { case_id: cid, example: exs[j], dot: d, norm_sq: sb })
        } else {
            best
        };
        scan_examples(cid, exs, j + 1, input, sa, nmin, nmax, nb)
    }
}

/// Scans the cases from index `i` on, keeping the best example.
pub open spec fn scan_cases(
    cases: Seq<SemanticCaseV>,
    i: int,
    input: Seq<u64>,
    sa: int,
    nmin: int,
    nmax: int,
    best: Option<BestV>,
) -> Option<BestV>
    decreases cases.len() - i,
{
    if i < 0 || i >= cases.len() {
        best
    } else {
        scan_cases(
            cases,
            i + 1,
            input,
            sa,
            nmin,
            nmax,
            scan_examples(cases[i].id, cases[i].examples, 0, input, sa, nmin, nmax, best),
        )
    }
}

/// The best example over all cases against the input vector.
pub open spec fn spec_best_match(
    cases: Seq<SemanticCaseV>,
    input: Seq<u64>,
    nmin: int,
    nmax: int,
) -> Option<BestV> {
    scan_cases(cases, 0, input, spec_norm_sq(input), nmin, nmax, None)
}

/// What the semantic stage decides: the winning case and example text,
/// when the stage applies and the best score reaches the threshold.
pub open spec fn spec_evaluate(c: SemanticConfigV, kind: Kind, text: Seq<u8>) -> Option<
    (Seq<u8>, Seq<u8>),
> {
    if !c.enabled || !spec_applies(c.applies_to, kind) {
        None
    } else {
        let nmin = spec_eff_nmin(c);
        let nmax = spec_eff_nmax(c);
        let input = spec_vectorize(text, nmin, nmax);
        match spec_best_match(c.cases, input, nmin, nmax) {
            None => None,
            Some(b) => if spec_meets_threshold(
                b.dot,
                spec_norm_sq(input),
                b.norm_sq,
                spec_clamp_threshold(c.threshold) as int,
            ) {
                Some((b.case_id, b.example))
            } else {
                None
            },
        }
    }
}

/// A semantic match: the winning case and the example that scored best.
#[derive(Debug, Clone, PartialEq, Eq)]
pub struct SemanticHit {
    pub case_id: Vec<u8>,
    pub example: Vec<u8>,
}

/// The mathematical shape of an optional hit.
pub open spec fn hit_view(r: Option<SemanticHit>) -> Option<(Seq<u8>, Seq<u8>)> {
    match r {
        Some(h) => Some((h.case_id@, h.example@)),
        None => None,
    }
}

/// Evaluates the text against every compiled example and returns the best
/// match when it reaches the threshold.
pub fn evaluate(compiled: &CompiledSemantic, kind: &Kind, text: &Vec<u8>) -> (r: Option<
    SemanticHit,
>)
    requires
        compiled.wf(),
    ensures
        hit_view(r) == spec_evaluate(compiled@, *kind, text@),
{
    let ghost cv = compiled@.cases;
    let ghost nmin_i = compiled.ngram_min as int;
    let ghost nmax_i = compiled.ngram_max as int;
    proof {
        assert(spec_eff_nmin(compiled@) == nmin_i);
        assert(spec_eff_nmax(compiled@) == nmax_i);
        assert(spec_clamp_threshold(compiled@.threshold) == compiled.threshold);
    }
    if !compiled.enabled {
        return None;
    }
    if !applies(&compiled.applies_to, kind) {
        return None;
    }
    let input = vectorize_char_ngrams(text, compiled.ngram_min, compiled.ngram_max);
    let sa = dot(&input, &input);
    let ghost sav = spec_norm_sq(input@);
    let mut has_best = false;
    let mut bci: usize = 0;
    let mut bej: usize = 0;
    let mut bdot: u128 = 0;
    let mut bns: u128 = 0;
    let ghost mut gbest: Option<BestV> = None;
    let mut i: usize = 0;
    while i < compiled.cases.len()
        invariant
            i <= compiled.cases@.len(),
            compiled.wf(),
            nmin_i == compiled.ngram_min as int,
            nmax_i == compiled.ngram_max as int,
            cv == compiled@.cases,
            input@ == spec_vectorize(text@, nmin_i, nmax_i),
            buckets_wf(input@),
            sa == sav,
            sa <= DOT_MAX,
            spec_best_match(cv, input@, nmin_i, nmax_i) == scan_cases(
                cv,
                i as int,
                input@,
                sav,
                nmin_i,
                nmax_i,
                gbest,
            ),
            has_best == (gbest is Some),
            has_best ==> {
                &&& 0 <= bci < compiled.cases@.len()
                &&& 0 <= bej < compiled.cases@[bci as int].examples@.len()
                &&& gbest == Some(
                    BestV {
                        case_id: cv[bci as int].id,
                        example: cv[bci as int].examples[bej as int],
                        dot: bdot as int,
                        norm_sq: bns as int,
                    },
                )
                &&& bdot <= DOT_MAX
                &&& bns <= DOT_MAX
            },
        decreases compiled.cases@.len() - i,
    {
        let case = &compiled.cases[i];
        let ghost case_entry_best = gbest;
        let mut j: usize = 0;
        proof {
            assert(cv[i as int].id == case.id@);
            assert(cv[i as int].examples == case.examples@.map_values(
                |e: CompiledExample| e.text@,
            ));
        }
        while j < case.examples.len()
            invariant
                j <= case.examples@.len(),
                i < compiled.cases@.len(),
                compiled.wf(),
                nmin_i == compiled.ngram_min as int,
                nmax_i == compiled.ngram_max as int,
                cv == compiled@.cases,
                case == &compiled.cases[i as int],
                cv[i as int].id == case.id@,
                cv[i as int].examples == case.examples@.map_values(
                    |e: CompiledExample| e.text@,
                ),
                input@ == spec_vectorize(text@, nmin_i, nmax_i),
                buckets_wf(input@),
                sa == sav,
                sa <= DOT_MAX,
                scan_cases(cv, i as int, input@, sav, nmin_i, nmax_i, case_entry_best)
                    == scan_cases(
                    cv,
                    i as int + 1,
                    input@,
                    sav,
                    nmin_i,
                    nmax_i,
                    scan_examples(
                        cv[i as int].id,
                        cv[i as int].examples,
                        j as int,
                        input@,
                        sav,
                        nmin_i,
                        nmax_i,
                        gbest,
                    ),
                ),
                spec_best_match(cv, input@, nmin_i, nmax_i) == scan_cases(
                    cv,
                    i as int,
                    input@,
                    sav,
                    nmin_i,
                    nmax_i,
                    case_entry_best,
                ),
                has_best == (gbest is Some),
                has_best ==> {
                    &&& 0 <= bci < compiled.cases@.len()
                    &&& 0 <= bej < compiled.cases@[bci as int].examples@.len()
                    &&& gbest == Some(
                        BestV {
                            case_id: cv[bci as int].id,
                            example: cv[bci as int].examples[bej as int],
                            dot: bdot as int,
                            norm_sq: bns as int,
                        },
                    )
                    &&& bdot <= DOT_MAX
                    &&& bns <= DOT_MAX
                },
            decreases case.examples@.len() - j,
        {
            let ex = &case.examples[j];
            proof {
                assert(compiled.cases@[i as int].wf(nmin_i, nmax_i));
                assert(compiled.cases@[i as int].examples@[j as int].wf(nmin_i, nmax_i));
                assert(case@.examples[j as int] == ex.text@);
                assert(ex.wf(nmin_i, nmax_i));
            }
            let d = dot(&input, &ex.buckets);
            let take = if !has_best {
                true
            } else {
                score_gt(d, ex.norm_sq, bdot, bns, sa)
            };
            if take {
                has_best = true;
                bci = i;
                bej = j;
                bdot = d;
                bns = ex.norm_sq;
                proof {
                    gbest = Some(
                        BestV {
                            case_id: cv[i as int].id,
                            example: cv[i as int].examples[j as int],
                            dot: d as int,
                            norm_sq: ex.norm_sq as int,
                        },
                    );
                }
            }
            j += 1;
        }
        proof {
            assert(scan_examples(
                cv[i as int].id,
                cv[i as int].examples,
                case.examples@.len() as int,
                input@,
                sav,
                nmin_i,
                nmax_i,
                gbest,
            ) == gbest);
        }
        i += 1;
    }
    if has_best {
        if meets_threshold(bdot, sa, bns, compiled.threshold) {
            let case = &compiled.cases[bci];
            let hit = SemanticHit {
                case_id: clone_bytes(&case.id),
                example: clone_bytes(&case.examples[bej].text),
            };
            proof {
                assert(cv[bci as int].id == case.id@);
                assert(cv[bci as int].examples[bej as int] == case.examples@[bej as int].text@);
            }
            return Some(hit);
        }
        return None;
    }
    None
}

} // verus!
