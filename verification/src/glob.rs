//! File-name pattern matching.
//!
//! Patterns hold literal bytes and `*`, which matches any run of bytes that
//! contains no path separator `/`.  This is the pattern language used for
//! version-agnostic package-file lookups and for the clean-up passes.

use vstd::prelude::*;

verus! {

/// `t` matches pattern `p`; `*` (byte 42) matches any `/`-free run.
pub open spec fn glob_match(p: Seq<u8>, t: Seq<u8>) -> bool
    decreases p.len() + t.len(),
{
    if p.len() == 0 {
        t.len() == 0
    } else if p[0] == 42 {
        glob_match(p.drop_first(), t) || (t.len() > 0 && t[0] != 47 && glob_match(
            p,
            t.drop_first(),
        ))
    } else {
        t.len() > 0 && t[0] == p[0] && glob_match(p.drop_first(), t.drop_first())
    }
}

fn glob_match_at(p: &[u8], pi: usize, t: &[u8], ti: usize) -> (r: bool)
    requires
        pi <= p@.len(),
        ti <= t@.len(),
    ensures
        r == glob_match(p@.skip(pi as int), t@.skip(ti as int)),
    decreases p@.len() - pi + t@.len() - ti,
{
    proof {
        if pi < p@.len() {
            assert(p@.skip(pi as int)[0] == p@[pi as int]);
            assert(p@.skip(pi as int).drop_first() =~= p@.skip(pi + 1));
        }
        if ti < t@.len() {
            assert(t@.skip(ti as int)[0] == t@[ti as int]);
            assert(t@.skip(ti as int).drop_first() =~= t@.skip(ti + 1));
        }
    }
    if pi == p.len() {
        ti == t.len()
    } else if p[pi] == 42 {
        if glob_match_at(p, pi + 1, t, ti) {
            true
        } else if ti < t.len() && t[ti] != 47 {
            glob_match_at(p, pi, t, ti + 1)
        } else {
            false
        }
    } else {
        ti < t.len() && t[ti] == p[pi] && glob_match_at(p, pi + 1, t, ti + 1)
    }
}

/// Whether `t` matches the pattern `p`.
pub fn glob_matches(p: &[u8], t: &[u8]) -> (r: bool)
    ensures
        r == glob_match(p@, t@),
{
    let r = glob_match_at(p, 0, t, 0);
    proof {
        assert(p@.skip(0) =~= p@);
        assert(t@.skip(0) =~= t@);
    }
    r
}

/// A pattern without `*` matches itself.
pub proof fn lemma_glob_refl(l: Seq<u8>)
    requires
        forall|i: int| 0 <= i < l.len() ==> #[trigger] l[i] != 42,
    ensures
        glob_match(l, l),
    decreases l.len(),
{
    if l.len() > 0 {
        lemma_glob_refl(l.drop_first());
    }
}

/// A literal (star-free) prefix common to pattern and text can be peeled off.
pub proof fn lemma_glob_literal_prefix(l: Seq<u8>, p: Seq<u8>, t: Seq<u8>)
    requires
        forall|i: int| 0 <= i < l.len() ==> #[trigger] l[i] != 42,
        glob_match(p, t),
    ensures
        glob_match(l + p, l + t),
    decreases l.len(),
{
    if l.len() == 0 {
        assert(l + p =~= p);
        assert(l + t =~= t);
    } else {
        lemma_glob_literal_prefix(l.drop_first(), p, t);
        assert((l + p)[0] == l[0]);
        assert((l + t)[0] == l[0]);
        assert((l + p).drop_first() =~= l.drop_first() + p);
        assert((l + t).drop_first() =~= l.drop_first() + t);
    }
}

/// A `*` absorbs any `/`-free run at the front of the text.
pub proof fn lemma_glob_star(p: Seq<u8>, s: Seq<u8>, t: Seq<u8>)
    requires
        forall|i: int| 0 <= i < s.len() ==> #[trigger] s[i] != 47,
        glob_match(p, t),
    ensures
        glob_match(seq![42u8] + p, s + t),
    decreases s.len(),
{
    let pat = seq![42u8] + p;
    assert(pat[0] == 42);
    assert(pat.drop_first() =~= p);
    if s.len() == 0 {
        assert(s + t =~= t);
    } else {
        lemma_glob_star(p, s.drop_first(), t);
        assert((s + t)[0] == s[0]);
        assert((s + t).drop_first() =~= s.drop_first() + t);
    }
}

} // verus!
