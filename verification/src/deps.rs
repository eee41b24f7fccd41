//! The reverse dependency index.
//!
//! Built once from the database snapshot: under each dependency name it
//! records the packages that declare it as a run-time, build-time or
//! check-time dependency.  The index only advises the caller before a
//! removal; it never blocks one.

use crate::bytes::copy_range;
use crate::db::{all_deps, DbPkg};
use vstd::prelude::*;

verus! {

/// The names of the packages that depend on one package, in snapshot
/// order.
pub struct DepPkgs(pub Vec<Vec<u8>>);

impl View for DepPkgs {
    type V = Seq<Seq<u8>>;

    open spec fn view(&self) -> Seq<Seq<u8>> {
        self.0.deep_view()
    }
}

/// The rendering of a dependent list: names joined by `", "`.
pub open spec fn join_spec(xs: Seq<Seq<u8>>) -> Seq<u8>
    decreases xs.len(),
{
    if xs.len() == 0 {
        Seq::empty()
    } else if xs.len() == 1 {
        xs[0]
    } else {
        join_spec(xs.drop_last()) + seq![44u8, 32u8] + xs.last()
    }
}

impl DepPkgs {
    /// Renders the list as one comma-separated byte string.
    pub fn join(&self) -> (r: Vec<u8>)
        ensures
            r@ == join_spec(self@),
    {
        let mut v: Vec<u8> = Vec::new();
        let mut i: usize = 0;
        while i < self.0.len()
            invariant
                i <= self.0@.len(),
                v@ =~= join_spec(self@.take(i as int)),
            decreases self.0@.len() - i,
        {
            proof {
                assert(self@.take(i + 1).drop_last() =~= self@.take(i as int));
                assert(self@.take(i + 1).last() == self@[i as int]);
                assert(self@[i as int] =~= self.0@[i as int]@);
                if i == 0 {
                    assert(self@.take(1)[0] == self@[0]);
                }
            }
            if i > 0 {
                v.push(44u8);
                v.push(32u8);
            }
            crate::bytes::append_bytes(&mut v, self.0[i].as_slice());
            i = i + 1;
        }
        proof {
            assert(self@.take(self@.len() as int) =~= self@);
            assert(self@.len() == self.0@.len());
        }
        v
    }
}

/// The (dependency, dependent) pairs one record declares, in declaration
/// order.
pub open spec fn pairs_of(p: DbPkg) -> Seq<(Seq<u8>, Seq<u8>)> {
    all_deps(p).map_values(|d: Seq<u8>| (d, p.name@))
}

/// The pairs of a whole snapshot, record by record.
pub open spec fn dep_pairs(pkgs: Seq<DbPkg>) -> Seq<(Seq<u8>, Seq<u8>)>
    decreases pkgs.len(),
{
    if pkgs.len() == 0 {
        Seq::empty()
    } else {
        dep_pairs(pkgs.drop_last()) + pairs_of(pkgs.last())
    }
}

/// The dependents recorded under `d`, in pair order.
pub open spec fn dependents_in(pairs: Seq<(Seq<u8>, Seq<u8>)>, d: Seq<u8>) -> Seq<Seq<u8>>
    decreases pairs.len(),
{
    if pairs.len() == 0 {
        Seq::empty()
    } else {
        dependents_in(pairs.drop_last(), d) + if pairs.last().0 == d {
            seq![pairs.last().1]
        } else {
            Seq::empty()
        }
    }
}

/// Some pair bears the key `d` exactly when dependents are recorded for it.
pub proof fn lemma_dependents_nonempty(pairs: Seq<(Seq<u8>, Seq<u8>)>, d: Seq<u8>)
    ensures
        dependents_in(pairs, d).len() > 0 <==> exists|i: int|
            0 <= i < pairs.len() && (#[trigger] pairs[i]).0 == d,
    decreases pairs.len(),
{
    if pairs.len() > 0 {
        lemma_dependents_nonempty(pairs.drop_last(), d);
        if dependents_in(pairs, d).len() > 0 {
            if pairs.last().0 == d {
                assert(pairs[pairs.len() - 1].0 == d);
            } else {
                let i = choose|i: int|
                    0 <= i < pairs.drop_last().len() && (#[trigger] pairs.drop_last()[i]).0 == d;
                assert(pairs[i].0 == d);
            }
        }
        if exists|i: int| 0 <= i < pairs.len() && (#[trigger] pairs[i]).0 == d {
            let i = choose|i: int| 0 <= i < pairs.len() && (#[trigger] pairs[i]).0 == d;
            if i < pairs.len() - 1 {
                assert(pairs.drop_last()[i].0 == d);
            }
        }
    }
}

/// The reverse dependency index: every (dependency, dependent) pair of the
/// snapshot, in declaration order.
pub struct Deps {
    pub pairs: Vec<(Vec<u8>, Vec<u8>)>,
}

/// The pairs as byte-string views.
pub open spec fn pair_views(ps: Seq<(Vec<u8>, Vec<u8>)>) -> Seq<(Seq<u8>, Seq<u8>)> {
    ps.map_values(|p: (Vec<u8>, Vec<u8>)| (p.0@, p.1@))
}

impl View for Deps {
    type V = Seq<(Seq<u8>, Seq<u8>)>;

    open spec fn view(&self) -> Seq<(Seq<u8>, Seq<u8>)> {
        pair_views(self.pairs@)
    }
}

/// Appends the pairs of one dependency group of one record.
fn push_group(pairs: &mut Vec<(Vec<u8>, Vec<u8>)>, name: &Vec<u8>, group: &Vec<Vec<u8>>)
    ensures
        pair_views(final(pairs)@) == pair_views(old(pairs)@) + group@.map_values(
            |v: Vec<u8>| (v@, name@),
        ),
{
    let ghost base = pair_views(old(pairs)@);
    let mut k: usize = 0;
    while k < group.len()
        invariant
            k <= group@.len(),
            pair_views(pairs@) =~= base + group@.take(k as int).map_values(
                |v: Vec<u8>| (v@, name@),
            ),
        decreases group@.len() - k,
    {
        let d = copy_range(group[k].as_slice(), 0, group[k].len());
        let n = copy_range(name.as_slice(), 0, name.len());
        proof {
            assert(d@ =~= group@[k as int]@);
            assert(n@ =~= name@);
        }
        let ghost old_pairs = pairs@;
        pairs.push((d, n));
        proof {
            let target = base + group@.take(k + 1).map_values(|v: Vec<u8>| (v@, name@));
            assert(pair_views(old_pairs).len() == old_pairs.len());
            assert(old_pairs.len() == base.len() + k);
            assert forall|x: int| 0 <= x < pairs@.len() implies pair_views(pairs@)[x]
                == target[x] by {
                assert(pair_views(pairs@)[x] == (pairs@[x].0@, pairs@[x].1@));
                if x < old_pairs.len() {
                    assert(pairs@[x] == old_pairs[x]);
                    assert(pair_views(old_pairs)[x] == (old_pairs[x].0@, old_pairs[x].1@));
                    if x >= base.len() {
                        assert(group@.take(k as int).map_values(|v: Vec<u8>| (v@, name@))[x
                            - base.len()] == (group@.take(k as int)[x - base.len()]@, name@));
                        assert(group@.take(k + 1).map_values(|v: Vec<u8>| (v@, name@))[x
                            - base.len()] == (group@.take(k + 1)[x - base.len()]@, name@));
                        assert(group@.take(k as int)[x - base.len()] == group@[x - base.len()]);
                        assert(group@.take(k + 1)[x - base.len()] == group@[x - base.len()]);
                    }
                } else {
                    assert(pairs@[x] == (d, n));
                    assert(group@.take(k + 1)[x - base.len()] == group@[k as int]);
                    assert(group@.take(k + 1).map_values(|v: Vec<u8>| (v@, name@))[x - base.len()]
                        == (group@[k as int]@, name@));
                }
            }
            assert(pair_views(pairs@) =~= target);
        }
        k = k + 1;
    }
    proof {
        assert(group@.take(group@.len() as int) =~= group@);
    }
}

impl Deps {
    /// Builds the index from the database snapshot.
    pub fn new(pkgs: &Vec<DbPkg>) -> (r: Deps)
        ensures
            r@ == dep_pairs(pkgs@),
    {
        let mut pairs: Vec<(Vec<u8>, Vec<u8>)> = Vec::new();
        let mut i: usize = 0;
        while i < pkgs.len()
            invariant
                i <= pkgs@.len(),
                pair_views(pairs@) =~= dep_pairs(pkgs@.take(i as int)),
            decreases pkgs@.len() - i,
        {
            let p = &pkgs[i];
            proof {
                assert(pkgs@.take(i + 1).drop_last() =~= pkgs@.take(i as int));
                assert(pkgs@.take(i + 1).last() == pkgs@[i as int]);
            }
            push_group(&mut pairs, &p.name, &p.deps);
            push_group(&mut pairs, &p.name, &p.make_deps);
            push_group(&mut pairs, &p.name, &p.check_deps);
            proof {
                let pk = pkgs@[i as int];
                assert(pairs_of(pk) =~= pk.deps@.map_values(|v: Vec<u8>| (v@, pk.name@))
                    + pk.make_deps@.map_values(|v: Vec<u8>| (v@, pk.name@))
                    + pk.check_deps@.map_values(|v: Vec<u8>| (v@, pk.name@)));
                assert(pair_views(pairs@) =~= dep_pairs(pkgs@.take(i + 1)));
            }
            i = i + 1;
        }
        proof {
            assert(pkgs@.take(pkgs@.len() as int) =~= pkgs@);
        }
        Deps { pairs }
    }

    /// Whether anything depends on `dep`.
    pub fn contains_key(&self, dep: &[u8]) -> (r: bool)
        ensures
            r <==> dependents_in(self@, dep@).len() > 0,
    {
        let mut i: usize = 0;
        while i < self.pairs.len()
            invariant
                i <= self.pairs@.len(),
                forall|j: int| 0 <= j < i ==> (#[trigger] pair_views(self.pairs@)[j]).0 != dep@,
            decreases self.pairs@.len() - i,
        {
            proof {
                assert(pair_views(self.pairs@)[i as int].0 == self.pairs@[i as int].0@);
            }
            if crate::bytes::bytes_eq(self.pairs[i].0.as_slice(), dep) {
                proof {
                    lemma_dependents_nonempty(self@, dep@);
                }
                return true;
            }
            i = i + 1;
        }
        proof {
            lemma_dependents_nonempty(self@, dep@);
            if dependents_in(self@, dep@).len() > 0 {
                let j = choose|j: int| 0 <= j < self@.len() && (#[trigger] self@[j]).0 == dep@;
                assert(false);
            }
        }
        false
    }

    /// The packages depending on `pkg_name`, when there are any.
    pub fn get(&self, pkg_name: &[u8]) -> (r: Option<DepPkgs>)
        ensures
            match r {
                Some(dp) => dependents_in(self@, pkg_name@).len() > 0 && dp@ == dependents_in(
                    self@,
                    pkg_name@,
                ),
                None => dependents_in(self@, pkg_name@).len() == 0,
            },
    {
        let mut out: Vec<Vec<u8>> = Vec::new();
        let mut i: usize = 0;
        while i < self.pairs.len()
            invariant
                i <= self.pairs@.len(),
                out.deep_view() =~= dependents_in(pair_views(self.pairs@).take(i as int), pkg_name@),
            decreases self.pairs@.len() - i,
        {
            let ghost pv = pair_views(self.pairs@);
            let ghost old_deep = out.deep_view();
            proof {
                assert(pv.take(i + 1).drop_last() =~= pv.take(i as int));
                assert(pv.take(i + 1).last() == pv[i as int]);
                assert(pv[i as int].0 == self.pairs@[i as int].0@);
                assert(pv[i as int].1 == self.pairs@[i as int].1@);
            }
            if crate::bytes::bytes_eq(self.pairs[i].0.as_slice(), pkg_name) {
                let n = copy_range(self.pairs[i].1.as_slice(), 0, self.pairs[i].1.len());
                proof {
                    assert(n@ =~= pair_views(self.pairs@)[i as int].1);
                }
                out.push(n);
                proof {
                    assert forall|x: int|
                        0 <= x < out@.len() implies out.deep_view()[x] == old_deep.push(
                        pv[i as int].1,
                    )[x] by {
                        assert(out.deep_view()[x] == out@[x].deep_view());
                        assert(out@[x].deep_view() =~= out@[x]@);
                        if x < old_deep.len() {
                            assert(old_deep[x] == out@[x].deep_view());
                        }
                    }
                    assert(out.deep_view() =~= old_deep.push(pv[i as int].1));
                }
            }
            i = i + 1;
        }
        proof {
            assert(pair_views(self.pairs@).take(self.pairs@.len() as int) =~= pair_views(
                self.pairs@,
            ));
        }
        if out.len() == 0 {
            proof {
                assert(dependents_in(self@, pkg_name@).len() == out.deep_view().len());
            }
            None
        } else {
            Some(DepPkgs(out))
        }
    }
}

} // verus!
