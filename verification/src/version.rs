//! Package version comparison.
//!
//! Versions are compared the way the platform's package tools compare them:
//! a version string is split into an optional numeric epoch (before `:`), a
//! version part and an optional release part (after the last `-`).  Each part
//! is compared segment-wise: runs of digits are compared numerically, runs of
//! letters lexically, and the separators between them are compared by their
//! length; a remaining letter segment never beats an empty rest.

use crate::bytes::copy_range;
use vstd::prelude::*;

verus! {

/// Outcome of a version comparison.
#[derive(Clone, Copy, Debug, PartialEq, Eq, Structural)]
pub enum VerOrder {
    Lt,
    Eq,
    Gt,
}

pub open spec fn is_digit(c: u8) -> bool {
    48 <= c <= 57
}

pub open spec fn is_alpha(c: u8) -> bool {
    (65 <= c <= 90) || (97 <= c <= 122)
}

pub open spec fn is_alnum(c: u8) -> bool {
    is_digit(c) || is_alpha(c)
}

/// `s` with its leading run of separators (non-alphanumeric bytes) removed.
pub open spec fn skip_sep(s: Seq<u8>) -> Seq<u8>
    decreases s.len(),
{
    if s.len() == 0 || is_alnum(s[0]) {
        s
    } else {
        skip_sep(s.drop_first())
    }
}

/// Length of the leading run of digits (`digits` true) or letters (`digits`
/// false) of `s`.
pub open spec fn run_len(s: Seq<u8>, digits: bool) -> nat
    decreases s.len(),
{
    if s.len() == 0 {
        0
    } else if (digits && is_digit(s[0])) || (!digits && is_alpha(s[0])) {
        1 + run_len(s.drop_first(), digits)
    } else {
        0
    }
}

/// `s` with its leading zero bytes removed.
pub open spec fn skip_zeros(s: Seq<u8>) -> Seq<u8>
    decreases s.len(),
{
    if s.len() > 0 && s[0] == 48 {
        skip_zeros(s.drop_first())
    } else {
        s
    }
}

/// Lexical byte comparison; a proper prefix is smaller.
pub open spec fn lex_cmp(a: Seq<u8>, b: Seq<u8>) -> VerOrder
    decreases a.len(),
{
    if a.len() == 0 && b.len() == 0 {
        VerOrder::Eq
    } else if a.len() == 0 {
        VerOrder::Lt
    } else if b.len() == 0 {
        VerOrder::Gt
    } else if a[0] < b[0] {
        VerOrder::Lt
    } else if a[0] > b[0] {
        VerOrder::Gt
    } else {
        lex_cmp(a.drop_first(), b.drop_first())
    }
}

/// Numeric comparison of two digit segments: leading zeros are ignored, a
/// longer remaining number is larger, equal lengths compare lexically.
pub open spec fn num_cmp(a: Seq<u8>, b: Seq<u8>) -> VerOrder {
    let a0 = skip_zeros(a);
    let b0 = skip_zeros(b);
    if a0.len() < b0.len() {
        VerOrder::Lt
    } else if a0.len() > b0.len() {
        VerOrder::Gt
    } else {
        lex_cmp(a0, b0)
    }
}

/// Comparison once at least one side has run out: equal if both are done; a
/// remaining letter segment loses, anything else wins.
pub open spec fn tail_cmp(a: Seq<u8>, b: Seq<u8>) -> VerOrder {
    if a.len() == 0 && b.len() == 0 {
        VerOrder::Eq
    } else if (a.len() == 0 && !(b.len() > 0 && is_alpha(b[0]))) || (a.len() > 0 && is_alpha(
        a[0],
    )) {
        VerOrder::Lt
    } else {
        VerOrder::Gt
    }
}

proof fn lemma_skip_sep_len_le(s: Seq<u8>)
    ensures
        skip_sep(s).len() <= s.len(),
    decreases s.len(),
{
    if s.len() > 0 && !is_alnum(s[0]) {
        lemma_skip_sep_len_le(s.drop_first());
    }
}

proof fn lemma_skip_sep_head(s: Seq<u8>)
    ensures
        skip_sep(s).len() > 0 ==> is_alnum(skip_sep(s)[0]),
    decreases s.len(),
{
    if s.len() > 0 && !is_alnum(s[0]) {
        lemma_skip_sep_head(s.drop_first());
    }
}

proof fn lemma_run_len_le(s: Seq<u8>, digits: bool)
    ensures
        run_len(s, digits) <= s.len(),
    decreases s.len(),
{
    if s.len() > 0 && ((digits && is_digit(s[0])) || (!digits && is_alpha(s[0]))) {
        lemma_run_len_le(s.drop_first(), digits);
    }
}

/// Segment-wise comparison of one version part.
pub open spec fn rpm_cmp(a: Seq<u8>, b: Seq<u8>) -> VerOrder
    decreases a.len() + b.len(),
    via rpm_cmp_decreases
{
    if a.len() == 0 || b.len() == 0 {
        tail_cmp(a, b)
    } else {
        let a1 = skip_sep(a);
        let b1 = skip_sep(b);
        if a1.len() == 0 || b1.len() == 0 {
            tail_cmp(a1, b1)
        } else if a.len() - a1.len() != b.len() - b1.len() {
            if a.len() - a1.len() < b.len() - b1.len() {
                VerOrder::Lt
            } else {
                VerOrder::Gt
            }
        } else if is_digit(a1[0]) {
            let la = run_len(a1, true);
            let lb = run_len(b1, true);
            if lb == 0 {
                VerOrder::Gt
            } else {
                let c = num_cmp(a1.take(la as int), b1.take(lb as int));
                if c == VerOrder::Eq {
                    rpm_cmp(a1.skip(la as int), b1.skip(lb as int))
                } else {
                    c
                }
            }
        } else {
            let la = run_len(a1, false);
            let lb = run_len(b1, false);
            if lb == 0 {
                VerOrder::Lt
            } else {
                let c = lex_cmp(a1.take(la as int), b1.take(lb as int));
                if c == VerOrder::Eq {
                    rpm_cmp(a1.skip(la as int), b1.skip(lb as int))
                } else {
                    c
                }
            }
        }
    }
}

#[via_fn]
proof fn rpm_cmp_decreases(a: Seq<u8>, b: Seq<u8>) {
    lemma_skip_sep_len_le(a);
    lemma_skip_sep_len_le(b);
    lemma_run_len_le(skip_sep(a), true);
    lemma_run_len_le(skip_sep(b), true);
    lemma_run_len_le(skip_sep(a), false);
    lemma_run_len_le(skip_sep(b), false);
}

/// The epoch of a full version string (`"0"` when none is written) and the
/// rest after the epoch separator.
pub open spec fn epoch_split(s: Seq<u8>) -> (Seq<u8>, Seq<u8>) {
    let d = run_len(s, true);
    if d < s.len() && s[d as int] == 58 {
        (if d == 0 {
            seq![48u8]
        } else {
            s.take(d as int)
        }, s.skip(d as int + 1))
    } else {
        (seq![48u8], s)
    }
}

/// Index of the last `-` in `s`, if any.
pub open spec fn last_dash(s: Seq<u8>) -> Option<int>
    decreases s.len(),
{
    if s.len() == 0 {
        None
    } else if s.last() == 45 {
        Some(s.len() - 1)
    } else {
        last_dash(s.drop_last())
    }
}

/// The version part before the last `-` and, if one is written, the release
/// part after it.
pub open spec fn rel_split(s: Seq<u8>) -> (Seq<u8>, Option<Seq<u8>>) {
    match last_dash(s) {
        Some(i) => (s.take(i), Some(s.skip(i + 1))),
        None => (s, None),
    }
}

/// Full comparison of two version strings: epoch first, then version, then —
/// only when both carry one — the release.
pub open spec fn version_cmp(a: Seq<u8>, b: Seq<u8>) -> VerOrder {
    let ea = epoch_split(a);
    let eb = epoch_split(b);
    let ec = rpm_cmp(ea.0, eb.0);
    if ec != VerOrder::Eq {
        ec
    } else {
        let ra = rel_split(ea.1);
        let rb = rel_split(eb.1);
        let vc = rpm_cmp(ra.0, rb.0);
        if vc != VerOrder::Eq {
            vc
        } else {
            match (ra.1, rb.1) {
                (Some(x), Some(y)) => rpm_cmp(x, y),
                _ => VerOrder::Eq,
            }
        }
    }
}

// ---------------------------------------------------------------------------
// Executable implementation
// ---------------------------------------------------------------------------

proof fn lemma_skip_sep_range(s: Seq<u8>, i: int, j: int)
    requires
        0 <= i <= j <= s.len(),
        forall|k: int| i <= k < j ==> !is_alnum(#[trigger] s[k]),
        j == s.len() || is_alnum(s[j]),
    ensures
        skip_sep(s.skip(i)) =~= s.skip(j),
    decreases j - i,
{
    if i == j {
        if j < s.len() {
            assert(s.skip(i)[0] == s[i]);
        }
    } else {
        assert(s.skip(i)[0] == s[i]);
        assert(s.skip(i).drop_first() =~= s.skip(i + 1));
        lemma_skip_sep_range(s, i + 1, j);
    }
}

proof fn lemma_run_range(s: Seq<u8>, i: int, j: int, digits: bool)
    requires
        0 <= i <= j <= s.len(),
        forall|k: int|
            i <= k < j ==> if digits {
                is_digit(#[trigger] s[k])
            } else {
                is_alpha(#[trigger] s[k])
            },
        j == s.len() || (if digits {
            !is_digit(s[j])
        } else {
            !is_alpha(s[j])
        }),
    ensures
        run_len(s.skip(i), digits) == j - i,
    decreases j - i,
{
    if i == j {
        if j < s.len() {
            assert(s.skip(i)[0] == s[i]);
        }
    } else {
        assert(s.skip(i)[0] == s[i]);
        assert(s.skip(i).drop_first() =~= s.skip(i + 1));
        lemma_run_range(s, i + 1, j, digits);
    }
}

proof fn lemma_skip_zeros_range(s: Seq<u8>, m: int)
    requires
        0 <= m <= s.len(),
        forall|k: int| 0 <= k < m ==> #[trigger] s[k] == 48,
        m == s.len() || s[m] != 48,
    ensures
        skip_zeros(s) =~= s.skip(m),
    decreases m,
{
    if m == 0 {
        assert(s.skip(0) =~= s);
    } else {
        assert(s[0] == 48);
        assert(s.drop_first() =~= s.skip(1));
        lemma_skip_zeros_range(s.skip(1), m - 1);
        assert(s.skip(1).skip(m - 1) =~= s.skip(m));
    }
}

/// Scans past the separator run that starts at `start`.
fn scan_sep(s: &[u8], start: usize) -> (j: usize)
    requires
        start <= s@.len(),
    ensures
        start <= j <= s@.len(),
        forall|k: int| start <= k < j ==> !is_alnum(#[trigger] s@[k]),
        j == s@.len() || is_alnum(s@[j as int]),
{
    let mut j: usize = start;
    while j < s.len() && !((s[j] >= 48 && s[j] <= 57) || (s[j] >= 65 && s[j] <= 90) || (s[j] >= 97
        && s[j] <= 122))
        invariant
            start <= j <= s@.len(),
            forall|k: int| start <= k < j ==> !is_alnum(#[trigger] s@[k]),
        decreases s@.len() - j,
    {
        j = j + 1;
    }
    j
}

/// Scans past the digit run that starts at `start`.
fn scan_digits(s: &[u8], start: usize) -> (j: usize)
    requires
        start <= s@.len(),
    ensures
        start <= j <= s@.len(),
        forall|k: int| start <= k < j ==> is_digit(#[trigger] s@[k]),
        j == s@.len() || !is_digit(s@[j as int]),
{
    let mut j: usize = start;
    while j < s.len() && s[j] >= 48 && s[j] <= 57
        invariant
            start <= j <= s@.len(),
            forall|k: int| start <= k < j ==> is_digit(#[trigger] s@[k]),
        decreases s@.len() - j,
    {
        j = j + 1;
    }
    j
}

/// Scans past the letter run that starts at `start`.
fn scan_alpha(s: &[u8], start: usize) -> (j: usize)
    requires
        start <= s@.len(),
    ensures
        start <= j <= s@.len(),
        forall|k: int| start <= k < j ==> is_alpha(#[trigger] s@[k]),
        j == s@.len() || !is_alpha(s@[j as int]),
{
    let mut j: usize = start;
    while j < s.len() && ((s[j] >= 65 && s[j] <= 90) || (s[j] >= 97 && s[j] <= 122))
        invariant
            start <= j <= s@.len(),
            forall|k: int| start <= k < j ==> is_alpha(#[trigger] s@[k]),
        decreases s@.len() - j,
    {
        j = j + 1;
    }
    j
}

/// Lexical comparison of `a[i..j]` against `b[k..l]`.
fn lex_cmp_range(a: &[u8], i: usize, j: usize, b: &[u8], k: usize, l: usize) -> (r: VerOrder)
    requires
        i <= j <= a@.len(),
        k <= l <= b@.len(),
    ensures
        r == lex_cmp(a@.subrange(i as int, j as int), b@.subrange(k as int, l as int)),
{
    let na: usize = j - i;
    let nb: usize = l - k;
    let m: usize = if na < nb {
        na
    } else {
        nb
    };
    let mut x: usize = 0;
    while x < m
        invariant
            x <= m,
            m == if na < nb {
                na
            } else {
                nb
            },
            na == j - i,
            nb == l - k,
            i <= j <= a@.len(),
            k <= l <= b@.len(),
            lex_cmp(a@.subrange(i as int, j as int), b@.subrange(k as int, l as int)) == lex_cmp(
                a@.subrange(i + x, j as int),
                b@.subrange(k + x, l as int),
            ),
        decreases m - x,
    {
        let ca = a[i + x];
        let cb = b[k + x];
        proof {
            assert(a@.subrange(i + x, j as int)[0] == a@[i + x]);
            assert(b@.subrange(k + x, l as int)[0] == b@[k + x]);
        }
        if ca < cb {
            return VerOrder::Lt;
        }
        if ca > cb {
            return VerOrder::Gt;
        }
        proof {
            assert(a@.subrange(i + x, j as int).drop_first() =~= a@.subrange(i + x + 1, j as int));
            assert(b@.subrange(k + x, l as int).drop_first() =~= b@.subrange(k + x + 1, l as int));
        }
        x = x + 1;
    }
    if na == nb {
        VerOrder::Eq
    } else if na < nb {
        VerOrder::Lt
    } else {
        VerOrder::Gt
    }
}

/// Numeric comparison of the digit segments `a[i..j]` and `b[k..l]`.
fn num_cmp_range(a: &[u8], i: usize, j: usize, b: &[u8], k: usize, l: usize) -> (r: VerOrder)
    requires
        i <= j <= a@.len(),
        k <= l <= b@.len(),
    ensures
        r == num_cmp(a@.subrange(i as int, j as int), b@.subrange(k as int, l as int)),
{
    let mut i0: usize = i;
    while i0 < j && a[i0] == 48
        invariant
            i <= i0 <= j,
            j <= a@.len(),
            forall|k2: int| i <= k2 < i0 ==> a@[k2] == 48,
        decreases j - i0,
    {
        i0 = i0 + 1;
    }
    let mut k0: usize = k;
    while k0 < l && b[k0] == 48
        invariant
            k <= k0 <= l,
            l <= b@.len(),
            forall|k2: int| k <= k2 < k0 ==> b@[k2] == 48,
        decreases l - k0,
    {
        k0 = k0 + 1;
    }
    proof {
        lemma_skip_zeros_range(a@.subrange(i as int, j as int), i0 - i);
        assert(a@.subrange(i as int, j as int).skip(i0 - i) =~= a@.subrange(i0 as int, j as int));
        lemma_skip_zeros_range(b@.subrange(k as int, l as int), k0 - k);
        assert(b@.subrange(k as int, l as int).skip(k0 - k) =~= b@.subrange(k0 as int, l as int));
    }
    let na: usize = j - i0;
    let nb: usize = l - k0;
    if na < nb {
        VerOrder::Lt
    } else if na > nb {
        VerOrder::Gt
    } else {
        lex_cmp_range(a, i0, j, b, k0, l)
    }
}

/// Tail comparison of `a[ai..]` against `b[bi..]`.
fn tail_cmp_range(a: &[u8], ai: usize, b: &[u8], bi: usize) -> (r: VerOrder)
    requires
        ai <= a@.len(),
        bi <= b@.len(),
    ensures
        r == tail_cmp(a@.skip(ai as int), b@.skip(bi as int)),
{
    let a_empty = ai == a.len();
    let b_empty = bi == b.len();
    if a_empty && b_empty {
        VerOrder::Eq
    } else {
        let a_alpha = !a_empty && ((a[ai] >= 65 && a[ai] <= 90) || (a[ai] >= 97 && a[ai] <= 122));
        let b_alpha = !b_empty && ((b[bi] >= 65 && b[bi] <= 90) || (b[bi] >= 97 && b[bi] <= 122));
        proof {
            if !a_empty {
                assert(a@.skip(ai as int)[0] == a@[ai as int]);
            }
            if !b_empty {
                assert(b@.skip(bi as int)[0] == b@[bi as int]);
            }
        }
        if (a_empty && !b_alpha) || a_alpha {
            VerOrder::Lt
        } else {
            VerOrder::Gt
        }
    }
}

/// Segment-wise comparison of `a[ai..]` against `b[bi..]`.
fn rpm_cmp_range(a: &[u8], ai: usize, b: &[u8], bi: usize) -> (r: VerOrder)
    requires
        ai <= a@.len(),
        bi <= b@.len(),
    ensures
        r == rpm_cmp(a@.skip(ai as int), b@.skip(bi as int)),
    decreases a@.len() - ai + b@.len() - bi,
{
    if ai == a.len() || bi == b.len() {
        return tail_cmp_range(a, ai, b, bi);
    }
    let aj = scan_sep(a, ai);
    let bj = scan_sep(b, bi);
    proof {
        lemma_skip_sep_range_on_skip(a@, ai as int, aj as int);
        lemma_skip_sep_range_on_skip(b@, bi as int, bj as int);
    }
    if aj == a.len() || bj == b.len() {
        return tail_cmp_range(a, aj, b, bj);
    }
    if aj - ai != bj - bi {
        if aj - ai < bj - bi {
            return VerOrder::Lt;
        } else {
            return VerOrder::Gt;
        }
    }
    let head = a[aj];
    if head >= 48 && head <= 57 {
        let ae = scan_digits(a, aj);
        let be = scan_digits(b, bj);
        proof {
            lemma_run_range_on_skip(a@, aj as int, ae as int, true);
            lemma_run_range_on_skip(b@, bj as int, be as int, true);
            assert(a@.skip(aj as int)[0] == a@[aj as int]);
            assert(b@.skip(bj as int)[0] == b@[bj as int]);
        }
        if be == bj {
            return VerOrder::Gt;
        }
        proof {
            assert(a@.skip(aj as int).take(ae - aj) =~= a@.subrange(aj as int, ae as int));
            assert(b@.skip(bj as int).take(be - bj) =~= b@.subrange(bj as int, be as int));
            assert(a@.skip(aj as int).skip(ae - aj) =~= a@.skip(ae as int));
            assert(b@.skip(bj as int).skip(be - bj) =~= b@.skip(be as int));
        }
        let c = num_cmp_range(a, aj, ae, b, bj, be);
        if matches!(c, VerOrder::Eq) {
            rpm_cmp_range(a, ae, b, be)
        } else {
            c
        }
    } else {
        let ae = scan_alpha(a, aj);
        let be = scan_alpha(b, bj);
        proof {
            lemma_run_range_on_skip(a@, aj as int, ae as int, false);
            lemma_run_range_on_skip(b@, bj as int, be as int, false);
            assert(a@.skip(aj as int)[0] == a@[aj as int]);
            assert(b@.skip(bj as int)[0] == b@[bj as int]);
        }
        if be == bj {
            return VerOrder::Lt;
        }
        proof {
            assert(a@.skip(aj as int).take(ae - aj) =~= a@.subrange(aj as int, ae as int));
            assert(b@.skip(bj as int).take(be - bj) =~= b@.subrange(bj as int, be as int));
            assert(a@.skip(aj as int).skip(ae - aj) =~= a@.skip(ae as int));
            assert(b@.skip(bj as int).skip(be - bj) =~= b@.skip(be as int));
        }
        let c = lex_cmp_range(a, aj, ae, b, bj, be);
        if matches!(c, VerOrder::Eq) {
            rpm_cmp_range(a, ae, b, be)
        } else {
            c
        }
    }
}

proof fn lemma_skip_sep_range_on_skip(s: Seq<u8>, i: int, j: int)
    requires
        0 <= i <= j <= s.len(),
        forall|k: int| i <= k < j ==> !is_alnum(#[trigger] s[k]),
        j == s.len() || is_alnum(s[j]),
    ensures
        skip_sep(s.skip(i)) =~= s.skip(j),
        skip_sep(s.skip(i)).len() == s.len() - j,
{
    lemma_skip_sep_range(s, i, j);
}

proof fn lemma_run_range_on_skip(s: Seq<u8>, i: int, j: int, digits: bool)
    requires
        0 <= i <= j <= s.len(),
        forall|k: int|
            i <= k < j ==> if digits {
                is_digit(#[trigger] s[k])
            } else {
                is_alpha(#[trigger] s[k])
            },
        j == s.len() || (if digits {
            !is_digit(s[j])
        } else {
            !is_alpha(s[j])
        }),
    ensures
        run_len(s.skip(i), digits) == j - i,
{
    lemma_run_range(s, i, j, digits);
}

/// Index of the last `-` in `s`, if any.
fn find_last_dash(s: &[u8]) -> (r: Option<usize>)
    ensures
        match r {
            Some(i) => i < s@.len() && last_dash(s@) == Some(i as int),
            None => last_dash(s@) is None,
        },
{
    let mut i: usize = s.len();
    proof {
        assert(s@.take(s@.len() as int) =~= s@);
    }
    while i > 0
        invariant
            i <= s@.len(),
            last_dash(s@) == last_dash(s@.take(i as int)),
        decreases i,
    {
        proof {
            assert(s@.take(i as int).drop_last() =~= s@.take(i - 1));
            assert(s@.take(i as int).last() == s@[i - 1]);
        }
        if s[i - 1] == 45 {
            return Some(i - 1);
        }
        i = i - 1;
    }
    None
}

/// Splits off epoch and rest of a full version string.
fn split_epoch(s: &[u8]) -> (r: (Vec<u8>, Vec<u8>))
    ensures
        r.0@ == epoch_split(s@).0,
        r.1@ == epoch_split(s@).1,
{
    let d = scan_digits(s, 0);
    proof {
        lemma_run_range_on_skip(s@, 0, d as int, true);
        assert(s@.skip(0) =~= s@);
    }
    if d < s.len() && s[d] == 58 {
        let epoch = if d == 0 {
            let mut v: Vec<u8> = Vec::new();
            v.push(48u8);
            proof {
                assert(v@ =~= seq![48u8]);
            }
            v
        } else {
            copy_range(s, 0, d)
        };
        let rest = copy_range(s, d + 1, s.len());
        proof {
            assert(s@.subrange(0, d as int) =~= s@.take(d as int));
            assert(s@.subrange(d + 1, s@.len() as int) =~= s@.skip(d + 1));
        }
        (epoch, rest)
    } else {
        let mut zero: Vec<u8> = Vec::new();
        zero.push(48u8);
        proof {
            assert(zero@ =~= seq![48u8]);
        }
        let rest = copy_range(s, 0, s.len());
        proof {
            assert(s@.subrange(0, s@.len() as int) =~= s@);
        }
        (zero, rest)
    }
}

/// Splits off the version part and, if present, the release part.
fn split_rel(s: &[u8]) -> (r: (Vec<u8>, Option<Vec<u8>>))
    ensures
        r.0@ == rel_split(s@).0,
        match r.1 {
            Some(v) => rel_split(s@).1 == Some(v@),
            None => rel_split(s@).1 is None,
        },
{
    match find_last_dash(s) {
        Some(i) => {
            let n = s.len();
            assert(i < n);
            let ver = copy_range(s, 0, i);
            let rel = copy_range(s, i + 1, n);
            proof {
                assert(s@.subrange(0, i as int) =~= s@.take(i as int));
                assert(s@.subrange(i + 1, s@.len() as int) =~= s@.skip(i + 1));
            }
            (ver, Some(rel))
        },
        None => (copy_range(s, 0, s.len()), None),
    }
}

/// Compares two full version strings under the package version rule.
pub fn vercmp(a: &[u8], b: &[u8]) -> (r: VerOrder)
    ensures
        r == version_cmp(a@, b@),
{
    let (ea, ra) = split_epoch(a);
    let (eb, rb) = split_epoch(b);
    proof {
        assert(a@.subrange(0, a@.len() as int) =~= a@);
    }
    let ec = rpm_cmp_range(ea.as_slice(), 0, eb.as_slice(), 0);
    proof {
        assert(ea@.skip(0) =~= ea@);
        assert(eb@.skip(0) =~= eb@);
    }
    if !matches!(ec, VerOrder::Eq) {
        return ec;
    }
    let (va, rela) = split_rel(ra.as_slice());
    let (vb, relb) = split_rel(rb.as_slice());
    let vc = rpm_cmp_range(va.as_slice(), 0, vb.as_slice(), 0);
    proof {
        assert(va@.skip(0) =~= va@);
        assert(vb@.skip(0) =~= vb@);
    }
    if !matches!(vc, VerOrder::Eq) {
        return vc;
    }
    match (rela, relb) {
        (Some(x), Some(y)) => {
            let rc = rpm_cmp_range(x.as_slice(), 0, y.as_slice(), 0);
            proof {
                assert(x@.skip(0) =~= x@);
                assert(y@.skip(0) =~= y@);
            }
            rc
        },
        _ => VerOrder::Eq,
    }
}

// ---------------------------------------------------------------------------
// Reflexivity: a version is never an update of itself
// ---------------------------------------------------------------------------

proof fn lemma_lex_cmp_refl(s: Seq<u8>)
    ensures
        lex_cmp(s, s) == VerOrder::Eq,
    decreases s.len(),
{
    if s.len() > 0 {
        lemma_lex_cmp_refl(s.drop_first());
    }
}

proof fn lemma_rpm_cmp_refl(a: Seq<u8>)
    ensures
        rpm_cmp(a, a) == VerOrder::Eq,
    decreases a.len(),
{
    if a.len() == 0 {
    } else {
        let a1 = skip_sep(a);
        lemma_skip_sep_len_le(a);
        lemma_skip_sep_head(a);
        if a1.len() == 0 {
        } else if is_digit(a1[0]) {
            let la = run_len(a1, true);
            lemma_run_len_le(a1, true);
            assert(la > 0);
            lemma_lex_cmp_refl(skip_zeros(a1.take(la as int)));
            assert(num_cmp(a1.take(la as int), a1.take(la as int)) == VerOrder::Eq);
            lemma_rpm_cmp_refl(a1.skip(la as int));
        } else {
            let la = run_len(a1, false);
            lemma_run_len_le(a1, false);
            assert(is_alpha(a1[0]));
            assert(la > 0);
            lemma_lex_cmp_refl(a1.take(la as int));
            lemma_rpm_cmp_refl(a1.skip(la as int));
        }
    }
}

/// A version never compares strictly against itself: the update set built
/// from strict comparison can never contain a package whose repository
/// version equals the upstream version.
pub proof fn lemma_version_cmp_refl(a: Seq<u8>)
    ensures
        version_cmp(a, a) == VerOrder::Eq,
{
    let e = epoch_split(a);
    lemma_rpm_cmp_refl(e.0);
    let r = rel_split(e.1);
    lemma_rpm_cmp_refl(r.0);
    match r.1 {
        Some(x) => {
            lemma_rpm_cmp_refl(x);
        },
        None => {},
    }
}

} // verus!
