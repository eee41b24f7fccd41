//! Repository database records.
//!
//! One record per package, as loaded from the repository database once per
//! invocation; the engine only ever reads this snapshot.

use vstd::prelude::*;

verus! {

/// One package record of the repository database.
pub struct DbPkg {
    /// Package name, the database key.
    pub name: Vec<u8>,
    /// Full version `VERSION-RELEASE`.
    pub version: Vec<u8>,
    /// Architecture.
    pub arch: Vec<u8>,
    /// Run-time dependencies, by package name.
    pub deps: Vec<Vec<u8>>,
    /// Build-time dependencies, by package name.
    pub make_deps: Vec<Vec<u8>>,
    /// Check-time dependencies, by package name.
    pub check_deps: Vec<Vec<u8>>,
}

/// The names of the database records, in order.
pub open spec fn db_names(pkgs: Seq<DbPkg>) -> Seq<Seq<u8>> {
    pkgs.map_values(|p: DbPkg| p.name@)
}

/// All dependency names one record declares, in declaration order.
pub open spec fn all_deps(p: DbPkg) -> Seq<Seq<u8>> {
    p.deps@.map_values(|v: Vec<u8>| v@) + p.make_deps@.map_values(|v: Vec<u8>| v@)
        + p.check_deps@.map_values(|v: Vec<u8>| v@)
}

/// The names of the database records as owned values.
pub fn names_of(pkgs: &Vec<DbPkg>) -> (r: Vec<Vec<u8>>)
    ensures
        r.deep_view() == db_names(pkgs@),
{
    let mut r: Vec<Vec<u8>> = Vec::new();
    let mut i: usize = 0;
    while i < pkgs.len()
        invariant
            i <= pkgs.len(),
            r@.len() == i,
            forall|j: int| 0 <= j < i ==> r@[j]@ == pkgs@[j].name@,
        decreases pkgs.len() - i,
    {
        let nm = crate::bytes::copy_range(pkgs[i].name.as_slice(), 0, pkgs[i].name.len());
        proof {
            assert(nm@ =~= pkgs@[i as int].name@);
        }
        r.push(nm);
        i = i + 1;
    }
    proof {
        assert forall|j: int| 0 <= j < r@.len() implies r.deep_view()[j] == db_names(pkgs@)[j] by {
            assert(r.deep_view()[j] == r@[j].deep_view());
            assert(r@[j].deep_view() =~= r@[j]@);
        }
        assert(r.deep_view() =~= db_names(pkgs@));
    }
    r
}

} // verus!
