//! PII detection and redaction: anchored regular expressions locate
//! candidate spans for each type, structural validators (Luhn for card
//! numbers, octet ranges for IPv4 addresses, digit counts for phone
//! numbers) confirm them, and an overlap-resolution sweep turns the union
//! into a sorted, non-overlapping span list. Redaction replaces each span
//! right-to-left, preserving every byte outside the spans.

use vstd::prelude::*;
use crate::bytes::{subvec, views_of};
use crate::patterns::{
    regex_accepts, regex_find_spans, regex_new, regex_pat, regex_spans,
};

verus! {

/// The kinds of personally identifiable information the detector knows.
#[derive(Debug, Clone, Copy, PartialEq, Eq, Structural)]
pub enum PiiType {
    Email,
    Ip,
    CreditCard,
    Phone,
}

/// The fixed mask text for each type, as character sequences.
pub open spec fn spec_token_str(t: PiiType) -> Seq<char> {
    match t {
        PiiType::Email => "[EMAIL]"@,
        PiiType::Ip => "[IP]"@,
        PiiType::CreditCard => "[CREDIT_CARD]"@,
        PiiType::Phone => "[PHONE]"@,
    }
}

/// The fixed mask text for each type, as ASCII bytes.
pub open spec fn spec_token_bytes(t: PiiType) -> Seq<u8> {
    match t {
        // [EMAIL]
        PiiType::Email => seq![91u8, 69u8, 77u8, 65u8, 73u8, 76u8, 93u8],
        // [IP]
        PiiType::Ip => seq![91u8, 73u8, 80u8, 93u8],
        // [CREDIT_CARD]
        PiiType::CreditCard => seq![
            91u8, 67u8, 82u8, 69u8, 68u8, 73u8, 84u8, 95u8, 67u8, 65u8, 82u8, 68u8, 93u8,
        ],
        // [PHONE]
        PiiType::Phone => seq![91u8, 80u8, 72u8, 79u8, 78u8, 69u8, 93u8],
    }
}

impl PiiType {
    /// The mask written over findings of this type.
    pub fn token(&self) -> (r: &'static str)
        ensures
            r@ == spec_token_str(*self),
    {
        match self {
            PiiType::Email => "[EMAIL]",
            PiiType::Ip => "[IP]",
            PiiType::CreditCard => "[CREDIT_CARD]",
            PiiType::Phone => "[PHONE]",
        }
    }

    /// The mask written over findings of this type, as bytes.
    pub fn token_bytes(&self) -> (r: Vec<u8>)
        ensures
            r@ == spec_token_bytes(*self),
    {
        let mut v: Vec<u8> = Vec::new();
        match self {
            PiiType::Email => {
                v.push(91u8);
                v.push(69u8);
                v.push(77u8);
                v.push(65u8);
                v.push(73u8);
                v.push(76u8);
                v.push(93u8);
            },
            PiiType::Ip => {
                v.push(91u8);
                v.push(73u8);
                v.push(80u8);
                v.push(93u8);
            },
            PiiType::CreditCard => {
                v.push(91u8);
                v.push(67u8);
                v.push(82u8);
                v.push(69u8);
                v.push(68u8);
                v.push(73u8);
                v.push(84u8);
                v.push(95u8);
                v.push(67u8);
                v.push(65u8);
                v.push(82u8);
                v.push(68u8);
                v.push(93u8);
            },
            PiiType::Phone => {
                v.push(91u8);
                v.push(80u8);
                v.push(72u8);
                v.push(79u8);
                v.push(78u8);
                v.push(69u8);
                v.push(93u8);
            },
        }
        proof {
            assert(v@ =~= spec_token_bytes(*self));
        }
        v
    }
}

/// A detected PII span: its type, byte offsets into the original text, and
/// the matched bytes.
#[derive(Debug, Clone, PartialEq, Eq)]
pub struct Finding {
    pub pii_type: PiiType,
    pub start: usize,
    pub end: usize,
    pub text: Vec<u8>,
}

/// Mathematical shape of a finding.
pub struct FindingV {
    pub pii_type: PiiType,
    pub start: int,
    pub end: int,
    pub text: Seq<u8>,
}

impl View for Finding {
    type V = FindingV;

    open spec fn view(&self) -> FindingV {
        FindingV {
            pii_type: self.pii_type,
            start: self.start as int,
            end: self.end as int,
            text: self.text@,
        }
    }
}

/// `b` is an ASCII decimal digit.
pub open spec fn is_digit(b: u8) -> bool {
    48 <= b <= 57
}

/// The digits of `s`, in order, everything else dropped.
pub open spec fn spec_digits(s: Seq<u8>) -> Seq<u8>
    decreases s.len(),
{
    if s.len() == 0 {
        Seq::empty()
    } else if is_digit(s.last()) {
        spec_digits(s.drop_last()).push(s.last())
    } else {
        spec_digits(s.drop_last())
    }
}

/// Extracts the digits of `s`, in order.
pub fn digits_of(s: &Vec<u8>) -> (r: Vec<u8>)
    ensures
        r@ == spec_digits(s@),
        forall|j: int| 0 <= j < r@.len() ==> is_digit(#[trigger] r@[j]),
{
    let mut out: Vec<u8> = Vec::new();
    let mut i: usize = 0;
    while i < s.len()
        invariant
            i <= s@.len(),
            out@ == spec_digits(s@.subrange(0, i as int)),
            forall|j: int| 0 <= j < out@.len() ==> is_digit(#[trigger] out@[j]),
        decreases s@.len() - i,
    {
        let b = s[i];
        proof {
            assert(s@.subrange(0, i as int + 1).drop_last() =~= s@.subrange(0, i as int));
            assert(s@.subrange(0, i as int + 1).last() == s@[i as int]);
        }
        if b >= 48 && b <= 57 {
            out.push(b);
        }
        i += 1;
    }
    proof {
        assert(s@.subrange(0, s@.len() as int) =~= s@);
    }
    out
}

/// The Luhn contribution of the ASCII digit byte at position `k`, where
/// every second digit counted from the right is doubled (and reduced by 9
/// when the double exceeds 9).
pub open spec fn luhn_digit(b: u8, doubled: bool) -> int {
    let v = b as int - 48;
    if doubled {
        if 2 * v > 9 {
            2 * v - 9
        } else {
            2 * v
        }
    } else {
        v
    }
}

/// The Luhn checksum of the digit bytes `s[k..]`, the last digit
/// undoubled.
pub open spec fn luhn_from(s: Seq<u8>, k: int) -> int
    decreases s.len() - k,
{
    if k < 0 || k >= s.len() {
        0
    } else {
        luhn_digit(s[k], (s.len() - 1 - k) % 2 == 1) + luhn_from(s, k + 1)
    }
}

/// The digit string passes the Luhn check.
pub open spec fn spec_luhn_valid(s: Seq<u8>) -> bool {
    luhn_from(s, 0) % 10 == 0
}

/// The Luhn checksum over a suffix is bounded by 18 per digit.
proof fn lemma_luhn_from_bound(s: Seq<u8>, k: int)
    requires
        forall|j: int| 0 <= j < s.len() ==> is_digit(#[trigger] s[j]),
        0 <= k <= s.len(),
    ensures
        0 <= luhn_from(s, k) <= 18 * (s.len() - k),
    decreases s.len() - k,
{
    if k < s.len() {
        lemma_luhn_from_bound(s, k + 1);
    }
}

/// Runs the Luhn check over a string of ASCII digit bytes.
pub fn luhn_valid(digits: &Vec<u8>) -> (r: bool)
    requires
        forall|j: int| 0 <= j < digits@.len() ==> is_digit(#[trigger] digits@[j]),
    ensures
        r == spec_luhn_valid(digits@),
{
    let mut sum: u128 = 0;
    let mut double = false;
    let mut k = digits.len();
    proof {
        lemma_luhn_from_bound(digits@, 0);
    }
    while k > 0
        invariant
            k <= digits@.len() <= usize::MAX,
            forall|j: int| 0 <= j < digits@.len() ==> is_digit(#[trigger] digits@[j]),
            sum == luhn_from(digits@, k as int),
            double == ((digits@.len() - k) % 2 == 1),
            sum <= 18 * (digits@.len() - k),
        decreases k,
    {
        k = k - 1;
        let b = digits[k];
        let mut d: u128 = (b - 48) as u128;
        if double {
            d = d * 2;
            if d > 9 {
                d = d - 9;
            }
        }
        proof {
            lemma_luhn_from_bound(digits@, k as int);
            assert(d == luhn_digit(digits@[k as int], double));
        }
        sum = sum + d;
        double = !double;
    }
    sum % 10 == 0
}

/// Splits `s` at every occurrence of `sep`. The result always has one
/// part more than there are separators; empty parts are kept.
pub open spec fn spec_split(s: Seq<u8>, sep: u8) -> Seq<Seq<u8>>
    decreases s.len(),
{
    if s.len() == 0 {
        seq![Seq::<u8>::empty()]
    } else if s[0] == sep {
        seq![Seq::<u8>::empty()] + spec_split(s.drop_first(), sep)
    } else {
        let rest = spec_split(s.drop_first(), sep);
        seq![seq![s[0]] + rest[0]] + rest.drop_first()
    }
}

/// A split always yields at least one part.
pub proof fn lemma_split_nonempty(s: Seq<u8>, sep: u8)
    ensures
        spec_split(s, sep).len() >= 1,
    decreases s.len(),
{
    if s.len() != 0 {
        lemma_split_nonempty(s.drop_first(), sep);
    }
}

/// Glues `head` onto the first part of an existing split.
pub open spec fn prepend_first(head: Seq<u8>, parts: Seq<Seq<u8>>) -> Seq<Seq<u8>> {
    seq![head + parts[0]] + parts.drop_first()
}

/// Splits a byte vector at every occurrence of `sep`.
pub fn split_bytes(s: &Vec<u8>, sep: u8) -> (r: Vec<Vec<u8>>)
    ensures
        views_of(r@) == spec_split(s@, sep),
{
    let mut parts: Vec<Vec<u8>> = Vec::new();
    let mut cur: Vec<u8> = Vec::new();
    let mut i: usize = 0;
    proof {
        lemma_split_nonempty(s@, sep);
        assert(s@.skip(0) =~= s@);
        assert(views_of(parts@) + prepend_first(cur@, spec_split(s@, sep)) =~~= spec_split(
            s@,
            sep,
        ));
    }
    while i < s.len()
        invariant
            i <= s@.len(),
            spec_split(s@, sep) == views_of(parts@) + prepend_first(
                cur@,
                spec_split(s@.skip(i as int), sep),
            ),
        decreases s@.len() - i,
    {
        let ghost suffix = s@.skip(i as int);
        let ghost rest = spec_split(s@.skip(i as int + 1), sep);
        proof {
            lemma_split_nonempty(s@.skip(i as int + 1), sep);
            assert(suffix.len() > 0);
            assert(suffix[0] == s@[i as int]);
            assert(suffix.drop_first() =~= s@.skip(i as int + 1));
        }
        if s[i] == sep {
            let ghost p0 = views_of(parts@);
            let ghost c0 = cur@;
            parts.push(cur);
            cur = Vec::new();
            proof {
                assert(views_of(parts@) =~= p0.push(c0));
                assert(spec_split(suffix, sep) == seq![Seq::<u8>::empty()] + rest);
                assert(prepend_first(c0, spec_split(suffix, sep)) =~~= seq![c0] + rest);
                assert(prepend_first(cur@, rest) =~~= rest);
                assert(p0 + prepend_first(c0, spec_split(suffix, sep)) =~~= views_of(parts@)
                    + prepend_first(cur@, rest));
            }
        } else {
            let ghost c0 = cur@;
            let b = s[i];
            cur.push(b);
            proof {
                assert(spec_split(suffix, sep) == seq![seq![suffix[0]] + rest[0]]
                    + rest.drop_first());
                assert(c0 + (seq![s@[i as int]] + rest[0]) =~= cur@ + rest[0]);
                assert(prepend_first(c0, spec_split(suffix, sep)) =~~= prepend_first(cur@, rest));
            }
        }
        i += 1;
    }
    let ghost p0 = views_of(parts@);
    let ghost c0 = cur@;
    proof {
        assert(s@.skip(s@.len() as int) =~= Seq::<u8>::empty());
        assert(prepend_first(c0, spec_split(Seq::<u8>::empty(), sep)) =~~= seq![c0]);
    }
    parts.push(cur);
    proof {
        assert(views_of(parts@) =~= p0.push(c0));
        assert(p0.push(c0) =~= p0 + seq![c0]);
        assert(views_of(parts@) =~~= spec_split(s@, sep));
    }
    parts
}

/// The numeric value of an ASCII digit string, most significant first.
pub open spec fn octet_val(p: Seq<u8>) -> int
    decreases p.len(),
{
    if p.len() == 0 {
        0
    } else {
        octet_val(p.drop_last()) * 10 + (p.last() as int - 48)
    }
}

/// A dotted-quad group: one to three digits with value at most 255.
pub open spec fn octet_ok(p: Seq<u8>) -> bool {
    &&& 1 <= p.len() <= 3
    &&& forall|j: int| 0 <= j < p.len() ==> is_digit(#[trigger] p[j])
    &&& octet_val(p) <= 255
}

/// Four dot-separated groups, each a valid octet.
pub open spec fn spec_ipv4_valid(s: Seq<u8>) -> bool {
    let parts = spec_split(s, 46);
    parts.len() == 4 && forall|i: int| 0 <= i < 4 ==> octet_ok(#[trigger] parts[i])
}

/// Checks one split part for octet validity.
fn octet_check(p: &Vec<u8>) -> (r: bool)
    ensures
        r == octet_ok(p@),
{
    if p.len() < 1 || p.len() > 3 {
        return false;
    }
    let mut val: u32 = 0;
    let mut j: usize = 0;
    while j < p.len()
        invariant
            j <= p@.len(),
            p@.len() <= 3,
            forall|k: int| 0 <= k < j ==> is_digit(#[trigger] p@[k]),
            val == octet_val(p@.subrange(0, j as int)),
            val <= 999,
        decreases p@.len() - j,
    {
        let b = p[j];
        if b < 48 || b > 57 {
            return false;
        }
        proof {
            assert(p@.subrange(0, j as int + 1).drop_last() =~= p@.subrange(0, j as int));
            assert(p@.subrange(0, j as int + 1).last() == p@[j as int]);
            assert(octet_val(p@.subrange(0, j as int)) <= 99) by {
                lemma_octet_val_bound(p@.subrange(0, j as int));
            }
        }
        val = val * 10 + ((b - 48) as u32);
        j += 1;
    }
    proof {
        assert(p@.subrange(0, p@.len() as int) =~= p@);
    }
    val <= 255
}

/// The value of a digit string of length at most two is below 100.
proof fn lemma_octet_val_bound(p: Seq<u8>)
    requires
        p.len() <= 2,
        forall|k: int| 0 <= k < p.len() ==> is_digit(#[trigger] p[k]),
    ensures
        0 <= octet_val(p) <= 99,
{
    assert(octet_val(Seq::<u8>::empty()) == 0);
    if p.len() == 1 {
        assert(p.drop_last() =~= Seq::<u8>::empty());
        assert(octet_val(p) == 0 * 10 + (p.last() as int - 48));
    } else if p.len() == 2 {
        let q = p.drop_last();
        assert(q.drop_last() =~= Seq::<u8>::empty());
        assert(q.last() == p[0]);
        assert(octet_val(q) == 0 * 10 + (q.last() as int - 48));
        assert(octet_val(p) == octet_val(q) * 10 + (p.last() as int - 48));
    }
}

/// Whether the bytes form a valid dotted-quad IPv4 address.
pub fn is_valid_ipv4(s: &Vec<u8>) -> (r: bool)
    ensures
        r == spec_ipv4_valid(s@),
{
    let parts = split_bytes(s, 46);
    proof {
        lemma_split_nonempty(s@, 46);
        assert(parts@.len() == views_of(parts@).len());
    }
    if parts.len() != 4 {
        return false;
    }
    let mut i: usize = 0;
    while i < 4
        invariant
            i <= 4,
            parts@.len() == 4,
            views_of(parts@) == spec_split(s@, 46),
            forall|k: int| 0 <= k < i ==> octet_ok(#[trigger] views_of(parts@)[k]),
        decreases 4 - i,
    {
        proof {
            assert(views_of(parts@)[i as int] == parts@[i as int]@);
        }
        if !octet_check(&parts[i]) {
            return false;
        }
        i += 1;
    }
    true
}

/// A candidate span is usable when it is non-empty and inside the text.
pub open spec fn span_ok(s: int, e: int, len: int) -> bool {
    0 <= s < e <= len
}

/// The structural post-filter each type applies to a candidate's bytes.
pub open spec fn keep_candidate(t: PiiType, sub: Seq<u8>) -> bool {
    match t {
        PiiType::Email => true,
        PiiType::Ip => spec_ipv4_valid(sub),
        PiiType::CreditCard => {
            let d = spec_digits(sub);
            13 <= d.len() <= 19 && spec_luhn_valid(d)
        },
        PiiType::Phone => {
            let d = spec_digits(sub);
            8 <= d.len() <= 15
        },
    }
}

/// The findings of one type: the candidate spans that are inside the text,
/// non-empty, and survive the type's post-filter, each carrying the
/// matched bytes.
pub open spec fn findings_from(t: PiiType, spans: Seq<(int, int)>, text: Seq<u8>) -> Seq<FindingV>
    decreases spans.len(),
{
    if spans.len() == 0 {
        Seq::empty()
    } else {
        let rest = findings_from(t, spans.drop_last(), text);
        let s = spans.last().0;
        let e = spans.last().1;
        if span_ok(s, e, text.len() as int) && keep_candidate(t, text.subrange(s, e)) {
            rest.push(FindingV { pii_type: t, start: s, end: e, text: text.subrange(s, e) })
        } else {
            rest
        }
    }
}

/// A finding is a validated excerpt of the text.
pub open spec fn finding_validated(f: FindingV, text: Seq<u8>) -> bool {
    &&& span_ok(f.start, f.end, text.len() as int)
    &&& f.text == text.subrange(f.start, f.end)
    &&& keep_candidate(f.pii_type, f.text)
}

/// Every finding in the list is a validated excerpt of the text.
pub open spec fn all_validated(s: Seq<FindingV>, text: Seq<u8>) -> bool {
    forall|j: int| 0 <= j < s.len() ==> finding_validated(#[trigger] s[j], text)
}

/// Whatever spans a pattern produced, `findings_from` emits only
/// validated excerpts.
proof fn lemma_findings_from_validated(t: PiiType, spans: Seq<(int, int)>, text: Seq<u8>)
    ensures
        all_validated(findings_from(t, spans, text), text),
    decreases spans.len(),
{
    if spans.len() > 0 {
        lemma_findings_from_validated(t, spans.drop_last(), text);
    }
}

/// Runtime form of the per-type post-filter.
fn keep_check(t: PiiType, sub: &Vec<u8>) -> (r: bool)
    ensures
        r == keep_candidate(t, sub@),
{
    match t {
        PiiType::Email => true,
        PiiType::Ip => is_valid_ipv4(sub),
        PiiType::CreditCard => {
            let d = digits_of(sub);
            d.len() >= 13 && d.len() <= 19 && luhn_valid(&d)
        },
        PiiType::Phone => {
            let d = digits_of(sub);
            d.len() >= 8 && d.len() <= 15
        },
    }
}

/// Collects the validated findings of one type from the matcher's spans.
fn findings_for(t: PiiType, re: &regex::bytes::Regex, text: &Vec<u8>) -> (r: Vec<Finding>)
    ensures
        r@.map_values(|f: Finding| f@) == findings_from(
            t,
            regex_spans(regex_pat(*re), text@),
            text@,
        ),
{
    let spans = regex_find_spans(re, text);
    let ghost sspans = regex_spans(regex_pat(*re), text@);
    let mut out: Vec<Finding> = Vec::new();
    let mut i: usize = 0;
    proof {
        assert(sspans.subrange(0, 0) =~= Seq::<(int, int)>::empty());
        assert(out@.map_values(|f: Finding| f@) =~= Seq::<FindingV>::empty());
    }
    while i < spans.len()
        invariant
            i <= spans@.len(),
            spans@.map_values(|p: (usize, usize)| (p.0 as int, p.1 as int)) == sspans,
            forall|k: int|
                0 <= k < spans@.len() ==> (#[trigger] spans@[k]).0 <= spans@[k].1 && spans@[k].1
                    <= text@.len(),
            out@.map_values(|f: Finding| f@) == findings_from(
                t,
                sspans.subrange(0, i as int),
                text@,
            ),
        decreases spans@.len() - i,
    {
        let p = spans[i];
        let s = p.0;
        let e = p.1;
        let ghost pre = out@.map_values(|f: Finding| f@);
        let ghost prefix1 = sspans.subrange(0, i as int + 1);
        proof {
            assert(prefix1.drop_last() =~= sspans.subrange(0, i as int));
            assert(prefix1.last() == sspans[i as int]);
            assert(sspans[i as int] == (s as int, e as int));
        }
        if s < e {
            let sub = subvec(text, s, e);
            if keep_check(t, &sub) {
                out.push(Finding { pii_type: t, start: s, end: e, text: sub });
                proof {
                    assert(out@.map_values(|f: Finding| f@) =~= pre.push(
                        FindingV {
                            pii_type: t,
                            start: s as int,
                            end: e as int,
                            text: text@.subrange(s as int, e as int),
                        },
                    ));
                }
            }
        }
        i += 1;
    }
    proof {
        assert(sspans.subrange(0, sspans.len() as int) =~= sspans);
    }
    out
}

/// Candidate resolution order: earlier start first; at the same start the
/// longer match first.
pub open spec fn finding_le(a: FindingV, b: FindingV) -> bool {
    a.start < b.start || (a.start == b.start && a.end >= b.end)
}

/// Insertion into a sorted finding list: the new finding goes after every
/// element ordering at-or-before it, so equal keys keep arrival order.
pub open spec fn spec_insert_finding(s: Seq<FindingV>, f: FindingV) -> Seq<FindingV>
    decreases s.len(),
{
    if s.len() == 0 {
        seq![f]
    } else if finding_le(s[0], f) {
        seq![s[0]] + spec_insert_finding(s.drop_first(), f)
    } else {
        seq![f] + s
    }
}

/// Stable insertion sort of findings by `finding_le`.
pub open spec fn spec_sort_findings(s: Seq<FindingV>) -> Seq<FindingV>
    decreases s.len(),
{
    if s.len() == 0 {
        Seq::empty()
    } else {
        spec_insert_finding(spec_sort_findings(s.drop_last()), s.last())
    }
}

/// Inserting at the first position whose element does not order before
/// the new finding realises `spec_insert_finding`.
proof fn lemma_insert_at(s: Seq<FindingV>, f: FindingV, pos: int)
    requires
        0 <= pos <= s.len(),
        forall|j: int| 0 <= j < pos ==> finding_le(#[trigger] s[j], f),
        pos < s.len() ==> !finding_le(s[pos], f),
    ensures
        spec_insert_finding(s, f) == s.insert(pos, f),
    decreases s.len(),
{
    if s.len() == 0 {
        assert(s.insert(0, f) =~= seq![f]);
    } else if pos == 0 {
        assert(seq![f] + s =~= s.insert(0, f));
    } else {
        lemma_insert_at(s.drop_first(), f, pos - 1);
        assert(seq![s[0]] + s.drop_first().insert(pos - 1, f) =~= s.insert(pos, f));
    }
}

/// Insertion keeps every element validated.
proof fn lemma_insert_validated(s: Seq<FindingV>, f: FindingV, text: Seq<u8>)
    requires
        all_validated(s, text),
        finding_validated(f, text),
    ensures
        all_validated(spec_insert_finding(s, f), text),
    decreases s.len(),
{
    if s.len() > 0 && finding_le(s[0], f) {
        assert(all_validated(s.drop_first(), text)) by {
            assert(forall|j: int|
                0 <= j < s.drop_first().len() ==> #[trigger] s.drop_first()[j] == s[j + 1]);
        }
        lemma_insert_validated(s.drop_first(), f, text);
    }
}

/// Sorting keeps every element validated.
proof fn lemma_sort_validated(s: Seq<FindingV>, text: Seq<u8>)
    requires
        all_validated(s, text),
    ensures
        all_validated(spec_sort_findings(s), text),
    decreases s.len(),
{
    if s.len() > 0 {
        assert(all_validated(s.drop_last(), text)) by {
            assert(forall|j: int|
                0 <= j < s.drop_last().len() ==> #[trigger] s.drop_last()[j] == s[j]);
        }
        lemma_sort_validated(s.drop_last(), text);
        lemma_insert_validated(spec_sort_findings(s.drop_last()), s.last(), text);
    }
}

/// Copies a finding.
pub fn clone_finding(f: &Finding) -> (r: Finding)
    ensures
        r@ == f@,
{
    Finding {
        pii_type: f.pii_type,
        start: f.start,
        end: f.end,
        text: crate::bytes::clone_bytes(&f.text),
    }
}

/// Runtime comparison matching `finding_le`.
fn finding_le_exec(a: &Finding, b: &Finding) -> (r: bool)
    ensures
        r == finding_le(a@, b@),
{
    a.start < b.start || (a.start == b.start && a.end >= b.end)
}

/// Stable insertion sort of findings by `(start ascending, end
/// descending)`.
pub fn sort_findings(v: &Vec<Finding>) -> (r: Vec<Finding>)
    ensures
        r@.map_values(|f: Finding| f@) == spec_sort_findings(v@.map_values(|f: Finding| f@)),
{
    let ghost origm = v@.map_values(|f: Finding| f@);
    let mut out: Vec<Finding> = Vec::new();
    let mut i: usize = 0;
    proof {
        assert(origm.subrange(0, 0) =~= Seq::<FindingV>::empty());
        assert(out@.map_values(|f: Finding| f@) =~= Seq::<FindingV>::empty());
    }
    while i < v.len()
        invariant
            i <= v@.len(),
            origm == v@.map_values(|f: Finding| f@),
            out@.map_values(|f: Finding| f@) == spec_sort_findings(origm.subrange(0, i as int)),
        decreases v@.len() - i,
    {
        let f = clone_finding(&v[i]);
        let ghost outm = out@.map_values(|ff: Finding| ff@);
        let mut pos: usize = 0;
        while pos < out.len() && finding_le_exec(&out[pos], &f)
            invariant
                pos <= out@.len(),
                outm == out@.map_values(|ff: Finding| ff@),
                f@ == origm[i as int],
                forall|j: int| 0 <= j < pos ==> finding_le(#[trigger] outm[j], f@),
            decreases out@.len() - pos,
        {
            pos += 1;
        }
        proof {
            lemma_insert_at(outm, f@, pos as int);
            assert(origm.subrange(0, i as int + 1).drop_last() =~= origm.subrange(0, i as int));
            assert(origm.subrange(0, i as int + 1).last() == origm[i as int]);
        }
        out.insert(pos, f);
        proof {
            assert(out@.map_values(|ff: Finding| ff@) =~= outm.insert(pos as int, origm[i as int]));
        }
        i += 1;
    }
    proof {
        assert(origm.subrange(0, origm.len() as int) =~= origm);
    }
    out
}

/// The overlap-resolution sweep over `s[i..]`: keep a finding when it
/// starts at or after the end of the last kept one.
pub open spec fn merge_from(s: Seq<FindingV>, i: int, last_end: int) -> Seq<FindingV>
    decreases s.len() - i,
{
    if i < 0 || i >= s.len() {
        Seq::empty()
    } else if s[i].start < last_end {
        merge_from(s, i + 1, last_end)
    } else {
        seq![s[i]] + merge_from(s, i + 1, s[i].end)
    }
}

/// Overlap resolution of a whole candidate list.
pub open spec fn spec_merge(s: Seq<FindingV>) -> Seq<FindingV> {
    merge_from(s, 0, 0)
}

/// A finding list whose spans never overlap: consecutive ends and starts
/// are in order, and the first finding starts at or after `last_end`.
pub open spec fn disjoint_from(m: Seq<FindingV>, last_end: int) -> bool {
    &&& forall|k: int| #![trigger m[k], m[k + 1]] 0 <= k < m.len() - 1 ==> m[k].end <= m[k + 1].start
    &&& m.len() > 0 ==> m[0].start >= last_end
}

/// The sweep's output never overlaps.
proof fn lemma_merge_disjoint(s: Seq<FindingV>, i: int, last_end: int)
    ensures
        disjoint_from(merge_from(s, i, last_end), last_end),
    decreases s.len() - i,
{
    if i >= 0 && i < s.len() {
        if s[i].start < last_end {
            lemma_merge_disjoint(s, i + 1, last_end);
        } else {
            lemma_merge_disjoint(s, i + 1, s[i].end);
            let m = merge_from(s, i, last_end);
            let rec = merge_from(s, i + 1, s[i].end);
            assert(m == seq![s[i]] + rec);
            assert(forall|k: int| 0 <= k < rec.len() ==> #[trigger] rec[k] == m[k + 1]);
            assert forall|k: int| 0 <= k < m.len() - 1 implies (#[trigger] m[k]).end <= m[k
                + 1].start by {
                if k == 0 {
                    assert(m[0] == s[i]);
                    assert(rec.len() > 0 ==> rec[0].start >= s[i].end);
                } else {
                    assert(m[k] == rec[k - 1]);
                    assert(m[k + 1] == rec[k]);
                }
            }
        }
    }
}

/// The sweep keeps every element validated.
proof fn lemma_merge_validated(s: Seq<FindingV>, i: int, last_end: int, text: Seq<u8>)
    requires
        all_validated(s, text),
    ensures
        all_validated(merge_from(s, i, last_end), text),
    decreases s.len() - i,
{
    if i >= 0 && i < s.len() {
        if s[i].start < last_end {
            lemma_merge_validated(s, i + 1, last_end, text);
        } else {
            lemma_merge_validated(s, i + 1, s[i].end, text);
        }
    }
}

/// Overlap resolution: keeps the first finding of each overlapping run,
/// dropping any candidate that starts before the last kept end.
pub fn merge_overlaps(sorted: &Vec<Finding>) -> (r: Vec<Finding>)
    ensures
        r@.map_values(|f: Finding| f@) == spec_merge(sorted@.map_values(|f: Finding| f@)),
{
    let ghost inm = sorted@.map_values(|f: Finding| f@);
    let mut out: Vec<Finding> = Vec::new();
    let mut last_end: usize = 0;
    let mut i: usize = 0;
    proof {
        assert(out@.map_values(|f: Finding| f@) =~= Seq::<FindingV>::empty());
    }
    while i < sorted.len()
        invariant
            i <= sorted@.len(),
            inm == sorted@.map_values(|f: Finding| f@),
            spec_merge(inm) == out@.map_values(|f: Finding| f@) + merge_from(
                inm,
                i as int,
                last_end as int,
            ),
        decreases sorted@.len() - i,
    {
        let ghost outm = out@.map_values(|f: Finding| f@);
        let f = &sorted[i];
        if f.start >= last_end {
            let kept = clone_finding(f);
            let new_end = kept.end;
            out.push(kept);
            last_end = new_end;
            proof {
                assert(out@.map_values(|ff: Finding| ff@) =~= outm.push(inm[i as int]));
                assert(outm.push(inm[i as int]) =~= outm + seq![inm[i as int]]);
            }
        }
        i += 1;
    }
    out
}

/// The pattern that locates email candidates.
pub open spec fn email_pattern() -> Seq<char> {
    "(?i)\\b[A-Z0-9._%+-]+@[A-Z0-9.-]+\\.[A-Z]{2,}\\b"@
}

/// The pattern that locates dotted-quad IPv4 candidates; octet ranges are
/// validated afterwards.
pub open spec fn ipv4_pattern() -> Seq<char> {
    "\\b(\\d{1,3}\\.){3}\\d{1,3}\\b"@
}

/// The pattern that locates card-number candidates: 13 to 19 digits with
/// optional spaces or dashes; the digits are Luhn-checked afterwards.
pub open spec fn cc_pattern() -> Seq<char> {
    "\\b(?:\\d[ -]?){13,19}\\b"@
}

/// The pattern that locates phone-number candidates; the digit count is
/// validated afterwards.
pub open spec fn phone_pattern() -> Seq<char> {
    "\\b(?:\\+?\\d[\\d -]{7,}\\d)\\b"@
}

/// The candidate findings of all four types, in detector order.
pub open spec fn spec_candidates(text: Seq<u8>) -> Seq<FindingV> {
    findings_from(PiiType::Email, regex_spans(email_pattern(), text), text) + findings_from(
        PiiType::Ip,
        regex_spans(ipv4_pattern(), text),
        text,
    ) + findings_from(PiiType::CreditCard, regex_spans(cc_pattern(), text), text) + findings_from(
        PiiType::Phone,
        regex_spans(phone_pattern(), text),
        text,
    )
}

/// What detection emits: the candidates of all types, sorted by
/// `(start ascending, end descending)`, with overlaps resolved in favour
/// of the earliest start and, at ties, the longest match.
pub open spec fn spec_detect(text: Seq<u8>) -> Seq<FindingV> {
    spec_merge(spec_sort_findings(spec_candidates(text)))
}

/// Every candidate is a validated excerpt of the text.
proof fn lemma_candidates_validated(text: Seq<u8>)
    ensures
        all_validated(spec_candidates(text), text),
{
    lemma_findings_from_validated(PiiType::Email, regex_spans(email_pattern(), text), text);
    lemma_findings_from_validated(PiiType::Ip, regex_spans(ipv4_pattern(), text), text);
    lemma_findings_from_validated(PiiType::CreditCard, regex_spans(cc_pattern(), text), text);
    lemma_findings_from_validated(PiiType::Phone, regex_spans(phone_pattern(), text), text);
}

/// Every emitted finding is a validated excerpt: it lies inside the text,
/// is non-empty, carries exactly the matched bytes, and passed its type's
/// structural check. In particular credit-card findings are Luhn-valid
/// with 13 to 19 digits, and IPv4 findings are valid dotted quads.
pub proof fn lemma_detect_validated(text: Seq<u8>)
    ensures
        all_validated(spec_detect(text), text),
{
    lemma_candidates_validated(text);
    lemma_sort_validated(spec_candidates(text), text);
    lemma_merge_validated(spec_sort_findings(spec_candidates(text)), 0, 0, text);
}

/// What detection emits never overlaps: each finding ends at or before
/// the next one begins.
pub proof fn lemma_detect_disjoint(text: Seq<u8>)
    ensures
        disjoint_from(spec_detect(text), 0),
{
    lemma_merge_disjoint(spec_sort_findings(spec_candidates(text)), 0, 0);
}

/// The emitted spans are non-overlapping and strictly increasing in
/// start: each finding ends at or before the next begins, and every span
/// is non-empty.
pub proof fn lemma_detect_spans_ordered(text: Seq<u8>)
    ensures
        disjoint_from(spec_detect(text), 0),
        forall|k: int|
            0 <= k < spec_detect(text).len() - 1 ==> (#[trigger] spec_detect(text)[k]).start
                < spec_detect(text)[k + 1].start,
{
    lemma_detect_validated(text);
    lemma_merge_disjoint(spec_sort_findings(spec_candidates(text)), 0, 0);
}

/// The regex-backed PII detector: one compiled pattern per type.
pub struct PiiRegexDetector {
    re_email: regex::bytes::Regex,
    re_ipv4: regex::bytes::Regex,
    re_cc_digits: regex::bytes::Regex,
    re_phone: regex::bytes::Regex,
}

impl PiiRegexDetector {
    /// The detector holds matchers compiled from exactly the four
    /// candidate patterns.
    pub closed spec fn wf(&self) -> bool {
        &&& regex_pat(self.re_email) == email_pattern()
        &&& regex_pat(self.re_ipv4) == ipv4_pattern()
        &&& regex_pat(self.re_cc_digits) == cc_pattern()
        &&& regex_pat(self.re_phone) == phone_pattern()
    }

    /// Compiles the four candidate patterns.
    pub fn new() -> (r: Result<Self, String>)
        ensures
            r is Ok <==> regex_accepts(email_pattern()) && regex_accepts(ipv4_pattern())
                && regex_accepts(cc_pattern()) && regex_accepts(phone_pattern()),
            r is Ok ==> r->Ok_0.wf(),
    {
        let re_email = match regex_new("(?i)\\b[A-Z0-9._%+-]+@[A-Z0-9.-]+\\.[A-Z]{2,}\\b") {
            Ok(re) => re,
            Err(e) => {
                return Err(e);
            },
        };
        let re_ipv4 = match regex_new("\\b(\\d{1,3}\\.){3}\\d{1,3}\\b") {
            Ok(re) => re,
            Err(e) => {
                return Err(e);
            },
        };
        let re_cc_digits = match regex_new("\\b(?:\\d[ -]?){13,19}\\b") {
            Ok(re) => re,
            Err(e) => {
                return Err(e);
            },
        };
        let re_phone = match regex_new("\\b(?:\\+?\\d[\\d -]{7,}\\d)\\b") {
            Ok(re) => re,
            Err(e) => {
                return Err(e);
            },
        };
        Ok(PiiRegexDetector { re_email, re_ipv4, re_cc_digits, re_phone })
    }

    /// Finds the validated PII spans of every type, resolves overlaps,
    /// and returns them sorted by start.
    pub fn detect(&self, text: &Vec<u8>) -> (r: Vec<Finding>)
        requires
            self.wf(),
        ensures
            r@.map_values(|f: Finding| f@) == spec_detect(text@),
            all_validated(r@.map_values(|f: Finding| f@), text@),
            disjoint_from(r@.map_values(|f: Finding| f@), 0),
    {
        let mut all = findings_for(PiiType::Email, &self.re_email, text);
        let mut v_ip = findings_for(PiiType::Ip, &self.re_ipv4, text);
        let mut v_cc = findings_for(PiiType::CreditCard, &self.re_cc_digits, text);
        let mut v_ph = findings_for(PiiType::Phone, &self.re_phone, text);
        let ghost m_e = all@.map_values(|f: Finding| f@);
        let ghost m_ip = v_ip@.map_values(|f: Finding| f@);
        let ghost m_cc = v_cc@.map_values(|f: Finding| f@);
        let ghost m_ph = v_ph@.map_values(|f: Finding| f@);
        all.append(&mut v_ip);
        proof {
            assert(all@.map_values(|f: Finding| f@) =~= m_e + m_ip);
        }
        all.append(&mut v_cc);
        proof {
            assert(all@.map_values(|f: Finding| f@) =~= (m_e + m_ip) + m_cc);
        }
        all.append(&mut v_ph);
        proof {
            assert(all@.map_values(|f: Finding| f@) =~= ((m_e + m_ip) + m_cc) + m_ph);
            assert(all@.map_values(|f: Finding| f@) =~= spec_candidates(text@));
        }
        let sorted = sort_findings(&all);
        let merged = merge_overlaps(&sorted);
        proof {
            lemma_detect_validated(text@);
            lemma_detect_spans_ordered(text@);
        }
        merged
    }

    /// Detects every PII type and masks each finding with its own token.
    pub fn full_mask(&self, text: &Vec<u8>) -> (r: (Vec<u8>, Vec<Finding>))
        requires
            self.wf(),
        ensures
            r.1@.map_values(|f: Finding| f@) == spec_detect(text@),
            r.0@ == spec_redact(text@, spec_detect(text@), None),
    {
        let findings = self.detect(text);
        proof {
            lemma_chained_of_detect(findings@.map_values(|f: Finding| f@), text@);
        }
        let masked = apply_replacements(text, &findings);
        (masked, findings)
    }
}

/// Findings with spans inside the text, each ending before the next
/// starts: the shape redaction needs.
pub open spec fn spans_chained(fs: Seq<FindingV>, len: int) -> bool {
    &&& forall|k: int|
        0 <= k < fs.len() ==> 0 <= (#[trigger] fs[k]).start <= fs[k].end <= len
    &&& forall|k: int|
        #![trigger fs[k], fs[k + 1]]
        0 <= k < fs.len() - 1 ==> fs[k].end <= fs[k + 1].start
}

/// A validated, disjoint finding list is chained.
pub proof fn lemma_chained_of_detect(fs: Seq<FindingV>, text: Seq<u8>)
    requires
        all_validated(fs, text),
        disjoint_from(fs, 0),
    ensures
        spans_chained(fs, text.len() as int),
{
}

/// The replacement written over a finding: the stage token when one is
/// configured, else the finding type's own mask.
pub open spec fn rep_token(f: FindingV, stage_token: Option<Seq<u8>>) -> Seq<u8> {
    match stage_token {
        Some(t) => t,
        None => spec_token_bytes(f.pii_type),
    }
}

/// The text from byte `from` on, with each finding from index `i` on
/// replaced by its token.
pub open spec fn spec_redact_from(
    text: Seq<u8>,
    fs: Seq<FindingV>,
    i: int,
    from: int,
    stage_token: Option<Seq<u8>>,
) -> Seq<u8>
    decreases fs.len() - i,
{
    if i < 0 || i >= fs.len() {
        text.subrange(from, text.len() as int)
    } else {
        text.subrange(from, fs[i].start) + rep_token(fs[i], stage_token) + spec_redact_from(
            text,
            fs,
            i + 1,
            fs[i].end,
            stage_token,
        )
    }
}

/// The whole text with every finding replaced by its token. All bytes
/// outside the spans are preserved.
pub open spec fn spec_redact(text: Seq<u8>, fs: Seq<FindingV>, stage_token: Option<Seq<u8>>) -> Seq<
    u8,
> {
    spec_redact_from(text, fs, 0, 0, stage_token)
}

/// The view of an optional stage token.
pub open spec fn opt_token_view(o: Option<&Vec<u8>>) -> Option<Seq<u8>> {
    match o {
        Some(t) => Some(t@),
        None => None,
    }
}

/// Appends all of `piece` to `out`.
fn push_all(out: &mut Vec<u8>, piece: &Vec<u8>)
    ensures
        final(out)@ == old(out)@ + piece@,
{
    let mut i: usize = 0;
    proof {
        assert(out@ =~= old(out)@ + piece@.subrange(0, 0));
    }
    while i < piece.len()
        invariant
            i <= piece@.len(),
            out@ == old(out)@ + piece@.subrange(0, i as int),
        decreases piece@.len() - i,
    {
        out.push(piece[i]);
        proof {
            assert(old(out)@ + piece@.subrange(0, i as int + 1) =~= (old(out)@ + piece@.subrange(
                0,
                i as int,
            )).push(piece@[i as int]));
        }
        i += 1;
    }
    proof {
        assert(piece@.subrange(0, piece@.len() as int) =~= piece@);
    }
}

/// Builds the redacted text left to right, replacing each finding's span
/// with its token.
fn replace_all(input: &Vec<u8>, findings: &Vec<Finding>, stage_token: Option<&Vec<u8>>) -> (r: Vec<
    u8,
>)
    requires
        spans_chained(findings@.map_values(|f: Finding| f@), input@.len() as int),
    ensures
        r@ == spec_redact(
            input@,
            findings@.map_values(|f: Finding| f@),
            opt_token_view(stage_token),
        ),
{
    let ghost fsv = findings@.map_values(|f: Finding| f@);
    let ghost tokv = opt_token_view(stage_token);
    let mut out: Vec<u8> = Vec::new();
    let mut cur: usize = 0;
    let mut i: usize = 0;
    proof {
        assert(out@ + spec_redact_from(input@, fsv, 0, 0, tokv) =~= spec_redact(
            input@,
            fsv,
            tokv,
        ));
    }
    while i < findings.len()
        invariant
            i <= findings@.len(),
            fsv == findings@.map_values(|f: Finding| f@),
            tokv == opt_token_view(stage_token),
            spans_chained(fsv, input@.len() as int),
            cur <= input@.len(),
            i < fsv.len() ==> cur <= fsv[i as int].start,
            spec_redact(input@, fsv, tokv) == out@ + spec_redact_from(
                input@,
                fsv,
                i as int,
                cur as int,
                tokv,
            ),
        decreases findings@.len() - i,
    {
        let start = findings[i].start;
        let end = findings[i].end;
        let ghost pre = out@;
        let ghost sub = input@.subrange(cur as int, fsv[i as int].start);
        let ghost tk = rep_token(fsv[i as int], tokv);
        let ghost rec = spec_redact_from(input@, fsv, i as int + 1, fsv[i as int].end, tokv);
        let piece = subvec(input, cur, start);
        push_all(&mut out, &piece);
        let tok = match stage_token {
            Some(t) => crate::bytes::clone_bytes(t),
            None => findings[i].pii_type.token_bytes(),
        };
        push_all(&mut out, &tok);
        proof {
            assert(spec_redact_from(input@, fsv, i as int, cur as int, tokv) == (sub + tk) + rec);
            assert(out@ =~= (pre + sub) + tk);
            assert(out@ + rec =~= pre + ((sub + tk) + rec));
        }
        cur = end;
        i += 1;
    }
    let tail = subvec(input, cur, input.len());
    push_all(&mut out, &tail);
    out
}

/// Masks each finding with its own type token; spans must be chained.
pub fn apply_replacements(input: &Vec<u8>, findings: &Vec<Finding>) -> (r: Vec<u8>)
    requires
        spans_chained(findings@.map_values(|f: Finding| f@), input@.len() as int),
    ensures
        r@ == spec_redact(input@, findings@.map_values(|f: Finding| f@), None),
{
    replace_all(input, findings, None)
}

/// Masks every finding with the single configured token; spans must be
/// chained.
pub fn redact_with_token(input: &Vec<u8>, findings: &Vec<Finding>, token: &Vec<u8>) -> (r: Vec<u8>)
    requires
        spans_chained(findings@.map_values(|f: Finding| f@), input@.len() as int),
    ensures
        r@ == spec_redact(input@, findings@.map_values(|f: Finding| f@), Some(token@)),
{
    replace_all(input, findings, Some(token))
}

/// The total length change of redaction: token length minus span length,
/// summed over the findings from index `i` on.
pub open spec fn redact_delta(fs: Seq<FindingV>, i: int, stage_token: Option<Seq<u8>>) -> int
    decreases fs.len() - i,
{
    if i < 0 || i >= fs.len() {
        0
    } else {
        (rep_token(fs[i], stage_token).len() - (fs[i].end - fs[i].start)) + redact_delta(
            fs,
            i + 1,
            stage_token,
        )
    }
}

/// Length of a partial redaction: the remaining text plus the summed
/// length changes.
proof fn lemma_redact_from_len(
    text: Seq<u8>,
    fs: Seq<FindingV>,
    i: int,
    from: int,
    stage_token: Option<Seq<u8>>,
)
    requires
        0 <= from <= text.len(),
        spans_chained(fs, text.len() as int),
        i >= 0,
        i < fs.len() ==> from <= fs[i].start,
    ensures
        spec_redact_from(text, fs, i, from, stage_token).len() == (text.len() - from)
            + redact_delta(fs, i, stage_token),
    decreases fs.len() - i,
{
    if i < fs.len() {
        lemma_redact_from_len(text, fs, i + 1, fs[i].end, stage_token);
    }
}

/// The redacted text's length is the original length plus, for every
/// finding, the token length minus the span length.
pub proof fn lemma_redact_total_len(text: Seq<u8>, fs: Seq<FindingV>, stage_token: Option<Seq<u8>>)
    requires
        spans_chained(fs, text.len() as int),
    ensures
        spec_redact(text, fs, stage_token).len() == text.len() + redact_delta(fs, 0, stage_token),
{
    lemma_redact_from_len(text, fs, 0, 0, stage_token);
}

} // verus!
