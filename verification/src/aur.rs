//! Upstream (AUR) update resolution.
//!
//! One batched upstream query per invocation yields rows of package name,
//! package base and latest version.  From those this module builds the
//! name→base association and the per-base records, and computes the update
//! set: a package is proposed for update exactly when its recorded version
//! compares strictly below the upstream one.  Split packages share a base;
//! builds are triggered once per base.

use crate::bytes::{append_bytes, bytes_eq, copy_range, ends_with, has_elem, suffix_of};
use crate::db::{db_names, DbPkg};
use crate::version::{vercmp, version_cmp, VerOrder};
use vstd::prelude::*;

verus! {

/// One row of the upstream index response.
pub struct AurItem {
    /// Package name.
    pub name: Vec<u8>,
    /// The base the package is built from.
    pub pkg_base: Vec<u8>,
    /// Latest upstream version of that base.
    pub version: Vec<u8>,
    /// Upstream flags the package as out of date (warning only).
    pub out_of_date: bool,
}

/// One name→base association.
pub struct NameToBase {
    pub name: Vec<u8>,
    pub pkg_base: Vec<u8>,
}

/// Per-base record: the base and its latest upstream version.
pub struct AurRecord {
    pub pkg_base: Vec<u8>,
    pub version: Vec<u8>,
}

/// One proposed update, reported per package name.
pub struct PkgUpd {
    pub name: Vec<u8>,
    pub old_version: Vec<u8>,
    pub new_version: Vec<u8>,
    pub pkg_base: Vec<u8>,
}

/// What one upstream query returned: the name→base association (one entry
/// per package name) and one record per base.
pub struct AurData {
    pub pkg_name2base: Vec<NameToBase>,
    pub pkg_infos: Vec<AurRecord>,
}

/// The names of an association list, in order.
pub open spec fn n2b_names(xs: Seq<NameToBase>) -> Seq<Seq<u8>> {
    xs.map_values(|e: NameToBase| e.name@)
}

/// The bases of a record list, in order.
pub open spec fn rec_bases(xs: Seq<AurRecord>) -> Seq<Seq<u8>> {
    xs.map_values(|r: AurRecord| r.pkg_base@)
}

/// No byte string occurs twice.
pub open spec fn uniq(xs: Seq<Seq<u8>>) -> bool {
    forall|i: int, j: int| 0 <= i < j < xs.len() ==> xs[i] != xs[j]
}

/// The name→base map of an association list; a later entry overrides an
/// earlier one of the same name.
pub open spec fn n2b_map(xs: Seq<NameToBase>) -> Map<Seq<u8>, Seq<u8>>
    decreases xs.len(),
{
    if xs.len() == 0 {
        Map::empty()
    } else {
        n2b_map(xs.drop_last()).insert(xs.last().name@, xs.last().pkg_base@)
    }
}

/// The base→version map of a record list; a later record overrides.
pub open spec fn infos_map(xs: Seq<AurRecord>) -> Map<Seq<u8>, Seq<u8>>
    decreases xs.len(),
{
    if xs.len() == 0 {
        Map::empty()
    } else {
        infos_map(xs.drop_last()).insert(xs.last().pkg_base@, xs.last().version@)
    }
}

/// The name→base map of the whole response; when a name repeats, the later
/// row wins.
pub open spec fn items_n2b(items: Seq<AurItem>) -> Map<Seq<u8>, Seq<u8>>
    decreases items.len(),
{
    if items.len() == 0 {
        Map::empty()
    } else {
        items_n2b(items.drop_last()).insert(items.last().name@, items.last().pkg_base@)
    }
}

/// The base→version map of the whole response; the first row of a base
/// wins, as only the first sighting of a base records its version.
pub open spec fn items_infos(items: Seq<AurItem>) -> Map<Seq<u8>, Seq<u8>>
    decreases items.len(),
{
    if items.len() == 0 {
        Map::empty()
    } else {
        let m = items_infos(items.drop_last());
        if m.dom().contains(items.last().pkg_base@) {
            m
        } else {
            m.insert(items.last().pkg_base@, items.last().version@)
        }
    }
}

/// Well-formed resolver data: names and bases are unique, and every base an
/// association names has a record.
pub open spec fn aur_wf(d: AurData) -> bool {
    &&& uniq(n2b_names(d.pkg_name2base@))
    &&& uniq(rec_bases(d.pkg_infos@))
    &&& forall|j: int|
        0 <= j < d.pkg_name2base@.len() ==> has_elem(
            rec_bases(d.pkg_infos@),
            #[trigger] d.pkg_name2base@[j].pkg_base@,
        )
}

/// With unique names, the map of an association list reads off its entries.
proof fn lemma_n2b_char(xs: Seq<NameToBase>)
    requires
        uniq(n2b_names(xs)),
    ensures
        forall|i: int|
            0 <= i < xs.len() ==> n2b_map(xs).dom().contains(#[trigger] xs[i].name@) && n2b_map(
                xs,
            )[xs[i].name@] == xs[i].pkg_base@,
        forall|n: Seq<u8>|
            n2b_map(xs).dom().contains(n) ==> exists|i: int|
                0 <= i < xs.len() && #[trigger] xs[i].name@ == n,
    decreases xs.len(),
{
    if xs.len() > 0 {
        assert forall|i: int, j: int|
            0 <= i < j < xs.drop_last().len() implies n2b_names(xs.drop_last())[i] != n2b_names(
            xs.drop_last(),
        )[j] by {
            assert(n2b_names(xs)[i] == n2b_names(xs.drop_last())[i]);
            assert(n2b_names(xs)[j] == n2b_names(xs.drop_last())[j]);
        }
        lemma_n2b_char(xs.drop_last());
        assert forall|i: int| 0 <= i < xs.len() implies n2b_map(xs).dom().contains(
            #[trigger] xs[i].name@,
        ) && n2b_map(xs)[xs[i].name@] == xs[i].pkg_base@ by {
            if i < xs.len() - 1 {
                assert(xs.drop_last()[i] == xs[i]);
                assert(n2b_names(xs)[i] == xs[i].name@);
                assert(n2b_names(xs)[xs.len() - 1] == xs.last().name@);
                assert(xs[i].name@ != xs.last().name@);
            }
        }
        assert forall|n: Seq<u8>| n2b_map(xs).dom().contains(n) implies exists|i: int|
            0 <= i < xs.len() && #[trigger] xs[i].name@ == n by {
            if n == xs.last().name@ {
                assert(xs[xs.len() - 1].name@ == n);
            } else {
                assert(n2b_map(xs.drop_last()).dom().contains(n));
                let i = choose|i: int|
                    0 <= i < xs.drop_last().len() && #[trigger] xs.drop_last()[i].name@ == n;
                assert(xs[i].name@ == n);
            }
        }
    }
}

/// With unique bases, the map of a record list reads off its entries.
proof fn lemma_infos_char(xs: Seq<AurRecord>)
    requires
        uniq(rec_bases(xs)),
    ensures
        forall|i: int|
            0 <= i < xs.len() ==> infos_map(xs).dom().contains(#[trigger] xs[i].pkg_base@)
                && infos_map(xs)[xs[i].pkg_base@] == xs[i].version@,
        forall|b: Seq<u8>|
            infos_map(xs).dom().contains(b) ==> exists|i: int|
                0 <= i < xs.len() && #[trigger] xs[i].pkg_base@ == b,
    decreases xs.len(),
{
    if xs.len() > 0 {
        assert forall|i: int, j: int|
            0 <= i < j < xs.drop_last().len() implies rec_bases(xs.drop_last())[i] != rec_bases(
            xs.drop_last(),
        )[j] by {
            assert(rec_bases(xs)[i] == rec_bases(xs.drop_last())[i]);
            assert(rec_bases(xs)[j] == rec_bases(xs.drop_last())[j]);
        }
        lemma_infos_char(xs.drop_last());
        assert forall|i: int| 0 <= i < xs.len() implies infos_map(xs).dom().contains(
            #[trigger] xs[i].pkg_base@,
        ) && infos_map(xs)[xs[i].pkg_base@] == xs[i].version@ by {
            if i < xs.len() - 1 {
                assert(xs.drop_last()[i] == xs[i]);
                assert(rec_bases(xs)[i] == xs[i].pkg_base@);
                assert(rec_bases(xs)[xs.len() - 1] == xs.last().pkg_base@);
                assert(xs[i].pkg_base@ != xs.last().pkg_base@);
            }
        }
        assert forall|b: Seq<u8>| infos_map(xs).dom().contains(b) implies exists|i: int|
            0 <= i < xs.len() && #[trigger] xs[i].pkg_base@ == b by {
            if b == xs.last().pkg_base@ {
                assert(xs[xs.len() - 1].pkg_base@ == b);
            } else {
                assert(infos_map(xs.drop_last()).dom().contains(b));
                let i = choose|i: int|
                    0 <= i < xs.drop_last().len() && #[trigger] xs.drop_last()[i].pkg_base@ == b;
                assert(xs[i].pkg_base@ == b);
            }
        }
    }
}

/// Overwriting the entry of an existing name updates the map in place.
proof fn lemma_n2b_set(xs: Seq<NameToBase>, idx: int, e: NameToBase)
    requires
        uniq(n2b_names(xs)),
        0 <= idx < xs.len(),
        e.name@ == xs[idx].name@,
    ensures
        uniq(n2b_names(xs.update(idx, e))),
        n2b_map(xs.update(idx, e)) == n2b_map(xs).insert(e.name@, e.pkg_base@),
{
    let ys = xs.update(idx, e);
    assert(n2b_names(ys) =~= n2b_names(xs));
    lemma_n2b_char(xs);
    lemma_n2b_char(ys);
    let target = n2b_map(xs).insert(e.name@, e.pkg_base@);
    assert forall|n: Seq<u8>| #[trigger] n2b_map(ys).dom().contains(n) implies target.dom().contains(
        n,
    ) && n2b_map(ys)[n] == target[n] by {
        let i = choose|i: int| 0 <= i < ys.len() && #[trigger] ys[i].name@ == n;
        if i == idx {
            assert(n2b_map(ys)[n] == ys[idx].pkg_base@);
        } else {
            assert(n2b_names(xs)[i] == xs[i].name@);
            assert(n2b_names(xs)[idx] == xs[idx].name@);
            assert(xs[i].name@ != xs[idx].name@);
            assert(n2b_map(ys)[n] == ys[i].pkg_base@);
            assert(n2b_map(xs)[n] == xs[i].pkg_base@);
        }
    }
    assert forall|n: Seq<u8>| #[trigger] target.dom().contains(n) implies n2b_map(
        ys,
    ).dom().contains(n) by {
        if n == e.name@ {
            assert(ys[idx].name@ == n);
            assert(n2b_map(ys).dom().contains(ys[idx].name@));
        } else {
            assert(n2b_map(xs).dom().contains(n));
            let i = choose|i: int| 0 <= i < xs.len() && #[trigger] xs[i].name@ == n;
            assert(ys[i].name@ == n);
            assert(n2b_map(ys).dom().contains(ys[i].name@));
        }
    }
    assert(n2b_map(ys) =~= target);
}

/// Copies a byte vector.
fn copy_vec(v: &Vec<u8>) -> (r: Vec<u8>)
    ensures
        r@ == v@,
{
    let r = copy_range(v.as_slice(), 0, v.len());
    proof {
        assert(r@ =~= v@);
    }
    r
}

/// Position of `x` among the names of `xs`, if present.
fn find_name(xs: &Vec<NameToBase>, x: &[u8]) -> (r: Option<usize>)
    ensures
        match r {
            Some(i) => i < xs@.len() && xs@[i as int].name@ == x@,
            None => forall|j: int| 0 <= j < xs@.len() ==> xs@[j].name@ != x@,
        },
{
    let mut i: usize = 0;
    while i < xs.len()
        invariant
            i <= xs.len(),
            forall|j: int| 0 <= j < i ==> xs@[j].name@ != x@,
        decreases xs.len() - i,
    {
        if bytes_eq(xs[i].name.as_slice(), x) {
            return Some(i);
        }
        i = i + 1;
    }
    None
}

/// Position of `x` among the bases of `xs`, if present.
fn find_base(xs: &Vec<AurRecord>, x: &[u8]) -> (r: Option<usize>)
    ensures
        match r {
            Some(i) => i < xs@.len() && xs@[i as int].pkg_base@ == x@,
            None => forall|j: int| 0 <= j < xs@.len() ==> xs@[j].pkg_base@ != x@,
        },
{
    let mut i: usize = 0;
    while i < xs.len()
        invariant
            i <= xs.len(),
            forall|j: int| 0 <= j < i ==> xs@[j].pkg_base@ != x@,
        decreases xs.len() - i,
    {
        if bytes_eq(xs[i].pkg_base.as_slice(), x) {
            return Some(i);
        }
        i = i + 1;
    }
    None
}

impl AurData {
    /// Builds the resolver data from the rows of one upstream query: the
    /// name→base association with one entry per name, and one record per
    /// base holding the version under which the base was first reported.
    pub fn new(items: &Vec<AurItem>) -> (d: AurData)
        ensures
            aur_wf(d),
            n2b_map(d.pkg_name2base@) == items_n2b(items@),
            infos_map(d.pkg_infos@) == items_infos(items@),
    {
        let mut n2b: Vec<NameToBase> = Vec::new();
        let mut infos: Vec<AurRecord> = Vec::new();
        let mut i: usize = 0;
        while i < items.len()
            invariant
                i <= items.len(),
                uniq(n2b_names(n2b@)),
                uniq(rec_bases(infos@)),
                n2b_map(n2b@) == items_n2b(items@.take(i as int)),
                infos_map(infos@) == items_infos(items@.take(i as int)),
                forall|j: int|
                    0 <= j < n2b@.len() ==> has_elem(
                        rec_bases(infos@),
                        #[trigger] n2b@[j].pkg_base@,
                    ),
            decreases items.len() - i,
        {
            let it = &items[i];
            let entry = NameToBase { name: copy_vec(&it.name), pkg_base: copy_vec(&it.pkg_base) };
            proof {
                assert(items@.take(i + 1).drop_last() =~= items@.take(i as int));
                assert(items@.take(i + 1).last() == items@[i as int]);
            }
            let ghost old_n2b = n2b@;
            match find_name(&n2b, it.name.as_slice()) {
                Some(idx) => {
                    proof {
                        lemma_n2b_set(old_n2b, idx as int, entry);
                    }
                    n2b.set(idx, entry);
                },
                None => {
                    n2b.push(entry);
                    proof {
                        assert(n2b@.drop_last() =~= old_n2b);
                        assert forall|a: int, b: int|
                            0 <= a < b < n2b@.len() implies n2b_names(n2b@)[a] != n2b_names(
                            n2b@,
                        )[b] by {
                            assert(n2b_names(n2b@)[a] == n2b@[a].name@);
                            assert(n2b_names(n2b@)[b] == n2b@[b].name@);
                            if b < n2b@.len() - 1 {
                                assert(n2b_names(old_n2b)[a] == old_n2b[a].name@);
                                assert(n2b_names(old_n2b)[b] == old_n2b[b].name@);
                            }
                        }
                    }
                },
            }
            let ghost old_infos = infos@;
            match find_base(&infos, it.pkg_base.as_slice()) {
                Some(k) => {
                    proof {
                        lemma_infos_char(old_infos);
                        assert(rec_bases(infos@)[k as int] == infos@[k as int].pkg_base@);
                        assert(has_elem(rec_bases(infos@), items@[i as int].pkg_base@));
                        assert(items_infos(items@.take(i + 1)) == infos_map(infos@));
                    }
                },
                None => {
                    let rec = AurRecord {
                        pkg_base: copy_vec(&it.pkg_base),
                        version: copy_vec(&it.version),
                    };
                    infos.push(rec);
                    proof {
                        lemma_infos_char(old_infos);
                        assert(infos@.drop_last() =~= old_infos);
                        assert forall|a: int, b: int|
                            0 <= a < b < infos@.len() implies rec_bases(infos@)[a] != rec_bases(
                            infos@,
                        )[b] by {
                            assert(rec_bases(infos@)[a] == infos@[a].pkg_base@);
                            assert(rec_bases(infos@)[b] == infos@[b].pkg_base@);
                            if b < infos@.len() - 1 {
                                assert(rec_bases(old_infos)[a] == old_infos[a].pkg_base@);
                                assert(rec_bases(old_infos)[b] == old_infos[b].pkg_base@);
                            }
                        }
                        assert(rec_bases(infos@)[infos@.len() - 1] == items@[i as int].pkg_base@);
                        assert(has_elem(rec_bases(infos@), items@[i as int].pkg_base@));
                        if items_infos(items@.take(i as int)).dom().contains(
                            items@[i as int].pkg_base@,
                        ) {
                            let w = choose|w: int|
                                0 <= w < old_infos.len() && #[trigger] old_infos[w].pkg_base@
                                    == items@[i as int].pkg_base@;
                            assert(false);
                        }
                    }
                },
            }
            proof {
                assert forall|j: int| 0 <= j < n2b@.len() implies has_elem(
                    rec_bases(infos@),
                    #[trigger] n2b@[j].pkg_base@,
                ) by {
                    if j < old_n2b.len() && n2b@[j] == old_n2b[j] {
                        assert(has_elem(rec_bases(old_infos), old_n2b[j].pkg_base@));
                        let k = choose|k: int|
                            0 <= k < rec_bases(old_infos).len() && #[trigger] rec_bases(
                                old_infos,
                            )[k] == old_n2b[j].pkg_base@;
                        assert(infos@[k] == old_infos[k]);
                        assert(rec_bases(infos@)[k] == infos@[k].pkg_base@);
                        assert(rec_bases(old_infos)[k] == old_infos[k].pkg_base@);
                    } else {
                        assert(n2b@[j].pkg_base@ == items@[i as int].pkg_base@);
                    }
                }
            }
            i = i + 1;
        }
        proof {
            assert(items@.take(items@.len() as int) =~= items@);
        }
        AurData { pkg_name2base: n2b, pkg_infos: infos }
    }
}

/// The version a database snapshot records for `n`; the first record of
/// that name decides.
pub open spec fn db_version_of(db: Seq<DbPkg>, n: Seq<u8>) -> Seq<u8>
    decreases db.len(),
{
    if db.len() == 0 {
        Seq::empty()
    } else if db.first().name@ == n {
        db.first().version@
    } else {
        db_version_of(db.drop_first(), n)
    }
}

/// The recorded version of `n`, when the snapshot holds it.
fn db_version(db: &Vec<DbPkg>, n: &[u8]) -> (r: Option<Vec<u8>>)
    ensures
        match r {
            Some(v) => has_elem(db_names(db@), n@) && v@ == db_version_of(db@, n@),
            None => !has_elem(db_names(db@), n@),
        },
{
    let mut i: usize = 0;
    proof {
        assert(db@.skip(0) =~= db@);
    }
    while i < db.len()
        invariant
            i <= db.len(),
            forall|j: int| 0 <= j < i ==> db@[j].name@ != n@,
            db_version_of(db@, n@) == db_version_of(db@.skip(i as int), n@),
        decreases db.len() - i,
    {
        proof {
            assert(db@.skip(i as int).first() == db@[i as int]);
            assert(db@.skip(i as int).drop_first() =~= db@.skip(i + 1));
        }
        if bytes_eq(db[i].name.as_slice(), n) {
            let v = copy_vec(&db[i].version);
            proof {
                assert(db_names(db@)[i as int] == db@[i as int].name@);
                assert(has_elem(db_names(db@), n@));
            }
            return Some(v);
        }
        i = i + 1;
    }
    proof {
        if has_elem(db_names(db@), n@) {
            let j = choose|j: int| 0 <= j < db_names(db@).len() && db_names(db@)[j] == n@;
            assert(db_names(db@)[j] == db@[j].name@);
            assert(false);
        }
    }
    None
}

/// Whether an association is due an update against the snapshot.
pub open spec fn upd_due(e: NameToBase, infos: Map<Seq<u8>, Seq<u8>>, db: Seq<DbPkg>) -> bool {
    version_cmp(db_version_of(db, e.name@), infos[e.pkg_base@]) == VerOrder::Lt
}

/// The update rows for an association list, in order: name, recorded
/// version, upstream version, base.  A row appears exactly when the
/// recorded version is strictly older than the upstream one.
pub open spec fn updates_spec(
    n2b: Seq<NameToBase>,
    infos: Map<Seq<u8>, Seq<u8>>,
    db: Seq<DbPkg>,
) -> Seq<(Seq<u8>, Seq<u8>, Seq<u8>, Seq<u8>)>
    decreases n2b.len(),
{
    if n2b.len() == 0 {
        Seq::empty()
    } else {
        updates_spec(n2b.drop_last(), infos, db) + if upd_due(n2b.last(), infos, db) {
            seq![
                (
                    n2b.last().name@,
                    db_version_of(db, n2b.last().name@),
                    infos[n2b.last().pkg_base@],
                    n2b.last().pkg_base@,
                ),
            ]
        } else {
            Seq::empty()
        }
    }
}

/// The rows of a list of proposed updates.
pub open spec fn upd_rows(us: Seq<PkgUpd>) -> Seq<(Seq<u8>, Seq<u8>, Seq<u8>, Seq<u8>)> {
    us.map_values(|u: PkgUpd| (u.name@, u.old_version@, u.new_version@, u.pkg_base@))
}

/// The bases of a list of proposed updates, in order.
pub open spec fn upd_bases(us: Seq<PkgUpd>) -> Seq<Seq<u8>> {
    us.map_values(|u: PkgUpd| u.pkg_base@)
}

impl AurData {
    /// Computes the updates due against a database snapshot: one row per
    /// associated name whose recorded version compares strictly below the
    /// upstream version of its base.  Every associated name must have a
    /// record in the snapshot.
    pub fn pkg_updates(&self, db: &Vec<DbPkg>) -> (r: Vec<PkgUpd>)
        requires
            aur_wf(*self),
            forall|j: int|
                0 <= j < self.pkg_name2base@.len() ==> has_elem(
                    db_names(db@),
                    #[trigger] self.pkg_name2base@[j].name@,
                ),
        ensures
            upd_rows(r@) == updates_spec(self.pkg_name2base@, infos_map(self.pkg_infos@), db@),
    {
        let ghost infos = infos_map(self.pkg_infos@);
        let mut r: Vec<PkgUpd> = Vec::new();
        let mut j: usize = 0;
        while j < self.pkg_name2base.len()
            invariant
                j <= self.pkg_name2base@.len(),
                aur_wf(*self),
                forall|x: int|
                    0 <= x < self.pkg_name2base@.len() ==> has_elem(
                        db_names(db@),
                        #[trigger] self.pkg_name2base@[x].name@,
                    ),
                infos == infos_map(self.pkg_infos@),
                upd_rows(r@) =~= updates_spec(self.pkg_name2base@.take(j as int), infos, db@),
            decreases self.pkg_name2base@.len() - j,
        {
            let e = &self.pkg_name2base[j];
            proof {
                assert(self.pkg_name2base@.take(j + 1).drop_last() =~= self.pkg_name2base@.take(
                    j as int,
                ));
                assert(self.pkg_name2base@.take(j + 1).last() == self.pkg_name2base@[j as int]);
            }
            let old_version = match db_version(db, e.name.as_slice()) {
                Some(v) => v,
                None => {
                    proof {
                        assert(false);
                    }
                    return r;
                },
            };
            let new_version = match find_base(&self.pkg_infos, e.pkg_base.as_slice()) {
                Some(k) => {
                    proof {
                        lemma_infos_char(self.pkg_infos@);
                    }
                    copy_vec(&self.pkg_infos[k].version)
                },
                None => {
                    proof {
                        assert(has_elem(
                            rec_bases(self.pkg_infos@),
                            self.pkg_name2base@[j as int].pkg_base@,
                        ));
                        let k = choose|k: int|
                            0 <= k < rec_bases(self.pkg_infos@).len() && #[trigger] rec_bases(
                                self.pkg_infos@,
                            )[k] == self.pkg_name2base@[j as int].pkg_base@;
                        assert(rec_bases(self.pkg_infos@)[k] == self.pkg_infos@[k].pkg_base@);
                        assert(false);
                    }
                    return r;
                },
            };
            let due = vercmp(old_version.as_slice(), new_version.as_slice());
            if matches!(due, VerOrder::Lt) {
                let upd = PkgUpd {
                    name: copy_vec(&e.name),
                    old_version,
                    new_version,
                    pkg_base: copy_vec(&e.pkg_base),
                };
                r.push(upd);
                proof {
                    assert(upd_rows(r@) =~= updates_spec(
                        self.pkg_name2base@.take(j + 1),
                        infos,
                        db@,
                    ));
                }
            } else {
                proof {
                    assert(updates_spec(self.pkg_name2base@.take(j + 1), infos, db@)
                        =~= updates_spec(self.pkg_name2base@.take(j as int), infos, db@));
                }
            }
            j = j + 1;
        }
        proof {
            assert(self.pkg_name2base@.take(self.pkg_name2base@.len() as int)
                =~= self.pkg_name2base@);
        }
        r
    }

    /// Which upstream repositories to clone: the requested names that have
    /// a base record, or every base when nothing specific was requested.
    pub fn clone_candidates(&self, pkg_names: Option<&Vec<Vec<u8>>>) -> (r: Vec<Vec<u8>>)
        ensures
            match pkg_names {
                Some(ns) => r.deep_view() == clone_filter(
                    ns@.map_values(|v: Vec<u8>| v@),
                    rec_bases(self.pkg_infos@),
                ),
                None => r.deep_view() == rec_bases(self.pkg_infos@),
            },
    {
        let mut r: Vec<Vec<u8>> = Vec::new();
        match pkg_names {
            Some(ns) => {
                let mut i: usize = 0;
                while i < ns.len()
                    invariant
                        i <= ns@.len(),
                        r@.len() == clone_filter(
                            ns@.take(i as int).map_values(|v: Vec<u8>| v@),
                            rec_bases(self.pkg_infos@),
                        ).len(),
                        forall|x: int|
                            0 <= x < r@.len() ==> r@[x]@ == clone_filter(
                                ns@.take(i as int).map_values(|v: Vec<u8>| v@),
                                rec_bases(self.pkg_infos@),
                            )[x],
                    decreases ns@.len() - i,
                {
                    let ghost pre = ns@.take(i as int).map_values(|v: Vec<u8>| v@);
                    let ghost cur = ns@.take(i + 1).map_values(|v: Vec<u8>| v@);
                    proof {
                        assert(cur.drop_last() =~= pre);
                        assert(cur.last() == ns@[i as int]@);
                    }
                    match find_base(&self.pkg_infos, ns[i].as_slice()) {
                        Some(k) => {
                            proof {
                                assert(rec_bases(self.pkg_infos@)[k as int]
                                    == self.pkg_infos@[k as int].pkg_base@);
                                assert(has_elem(rec_bases(self.pkg_infos@), ns@[i as int]@));
                            }
                            r.push(copy_vec(&ns[i]));
                        },
                        None => {
                            proof {
                                if has_elem(rec_bases(self.pkg_infos@), ns@[i as int]@) {
                                    let k = choose|k: int|
                                        0 <= k < rec_bases(self.pkg_infos@).len()
                                            && #[trigger] rec_bases(self.pkg_infos@)[k]
                                            == ns@[i as int]@;
                                    assert(rec_bases(self.pkg_infos@)[k]
                                        == self.pkg_infos@[k].pkg_base@);
                                    assert(false);
                                }
                            }
                        },
                    }
                    i = i + 1;
                }
                proof {
                    assert(ns@.take(ns@.len() as int) =~= ns@);
                    assert forall|x: int|
                        0 <= x < r@.len() implies r.deep_view()[x] == clone_filter(
                        ns@.map_values(|v: Vec<u8>| v@),
                        rec_bases(self.pkg_infos@),
                    )[x] by {
                        assert(r.deep_view()[x] == r@[x].deep_view());
                        assert(r@[x].deep_view() =~= r@[x]@);
                    }
                    assert(r.deep_view() =~= clone_filter(
                        ns@.map_values(|v: Vec<u8>| v@),
                        rec_bases(self.pkg_infos@),
                    ));
                }
            },
            None => {
                let mut i: usize = 0;
                while i < self.pkg_infos.len()
                    invariant
                        i <= self.pkg_infos@.len(),
                        r@.len() == i,
                        forall|x: int| 0 <= x < i ==> r@[x]@ == self.pkg_infos@[x].pkg_base@,
                    decreases self.pkg_infos@.len() - i,
                {
                    r.push(copy_vec(&self.pkg_infos[i].pkg_base));
                    i = i + 1;
                }
                proof {
                    assert forall|x: int|
                        0 <= x < r@.len() implies r.deep_view()[x] == rec_bases(
                        self.pkg_infos@,
                    )[x] by {
                        assert(r.deep_view()[x] == r@[x].deep_view());
                        assert(r@[x].deep_view() =~= r@[x]@);
                    }
                    assert(r.deep_view() =~= rec_bases(self.pkg_infos@));
                }
            },
        }
        r
    }

    /// The requested names the upstream response did not know; the caller
    /// reports them when it asked for specific packages.
    pub fn missing_names(&self, requested: &Vec<Vec<u8>>) -> (r: Vec<Vec<u8>>)
        ensures
            r.deep_view() == missing_filter(
                requested@.map_values(|v: Vec<u8>| v@),
                n2b_names(self.pkg_name2base@),
            ),
    {
        let mut r: Vec<Vec<u8>> = Vec::new();
        let mut i: usize = 0;
        while i < requested.len()
            invariant
                i <= requested@.len(),
                r@.len() == missing_filter(
                    requested@.take(i as int).map_values(|v: Vec<u8>| v@),
                    n2b_names(self.pkg_name2base@),
                ).len(),
                forall|x: int|
                    0 <= x < r@.len() ==> r@[x]@ == missing_filter(
                        requested@.take(i as int).map_values(|v: Vec<u8>| v@),
                        n2b_names(self.pkg_name2base@),
                    )[x],
            decreases requested@.len() - i,
        {
            let ghost pre = requested@.take(i as int).map_values(|v: Vec<u8>| v@);
            let ghost cur = requested@.take(i + 1).map_values(|v: Vec<u8>| v@);
            proof {
                assert(cur.drop_last() =~= pre);
                assert(cur.last() == requested@[i as int]@);
            }
            match find_name(&self.pkg_name2base, requested[i].as_slice()) {
                Some(k) => {
                    proof {
                        assert(n2b_names(self.pkg_name2base@)[k as int]
                            == self.pkg_name2base@[k as int].name@);
                        assert(has_elem(n2b_names(self.pkg_name2base@), requested@[i as int]@));
                    }
                },
                None => {
                    proof {
                        if has_elem(n2b_names(self.pkg_name2base@), requested@[i as int]@) {
                            let k = choose|k: int|
                                0 <= k < n2b_names(self.pkg_name2base@).len()
                                    && #[trigger] n2b_names(self.pkg_name2base@)[k]
                                    == requested@[i as int]@;
                            assert(n2b_names(self.pkg_name2base@)[k]
                                == self.pkg_name2base@[k].name@);
                            assert(false);
                        }
                    }
                    r.push(copy_vec(&requested[i]));
                },
            }
            i = i + 1;
        }
        proof {
            assert(requested@.take(requested@.len() as int) =~= requested@);
            assert forall|x: int| 0 <= x < r@.len() implies r.deep_view()[x] == missing_filter(
                requested@.map_values(|v: Vec<u8>| v@),
                n2b_names(self.pkg_name2base@),
            )[x] by {
                assert(r.deep_view()[x] == r@[x].deep_view());
                assert(r@[x].deep_view() =~= r@[x]@);
            }
            assert(r.deep_view() =~= missing_filter(
                requested@.map_values(|v: Vec<u8>| v@),
                n2b_names(self.pkg_name2base@),
            ));
        }
        r
    }
}

/// The requested names kept when they have a record among `bases`.
pub open spec fn clone_filter(ns: Seq<Seq<u8>>, bases: Seq<Seq<u8>>) -> Seq<Seq<u8>>
    decreases ns.len(),
{
    if ns.len() == 0 {
        Seq::empty()
    } else {
        clone_filter(ns.drop_last(), bases) + if has_elem(bases, ns.last()) {
            seq![ns.last()]
        } else {
            Seq::empty()
        }
    }
}

/// The requested names kept when they are absent from `known`.
pub open spec fn missing_filter(ns: Seq<Seq<u8>>, known: Seq<Seq<u8>>) -> Seq<Seq<u8>>
    decreases ns.len(),
{
    if ns.len() == 0 {
        Seq::empty()
    } else {
        missing_filter(ns.drop_last(), known) + if has_elem(known, ns.last()) {
            Seq::empty()
        } else {
            seq![ns.last()]
        }
    }
}

/// The bases of the proposed updates, in first-occurrence order and
/// without repetition: builds are triggered once per base.
pub fn update_bases(upds: &Vec<PkgUpd>) -> (r: Vec<Vec<u8>>)
    ensures
        uniq(r.deep_view()),
        forall|b: Seq<u8>| #[trigger] has_elem(r.deep_view(), b) <==> has_elem(
            upd_bases(upds@),
            b,
        ),
{
    let mut r: Vec<Vec<u8>> = Vec::new();
    let mut i: usize = 0;
    while i < upds.len()
        invariant
            i <= upds@.len(),
            uniq(r.deep_view()),
            forall|b: Seq<u8>| #[trigger] has_elem(r.deep_view(), b) <==> has_elem(
                upd_bases(upds@.take(i as int)),
                b,
            ),
        decreases upds@.len() - i,
    {
        let ghost old_deep = r.deep_view();
        proof {
            assert(upd_bases(upds@.take(i + 1)) =~= upd_bases(upds@.take(i as int)).push(
                upds@[i as int].pkg_base@,
            ));
        }
        if !crate::bytes::contains_bytes(&r, upds[i].pkg_base.as_slice()) {
            let b = copy_vec(&upds[i].pkg_base);
            r.push(b);
            proof {
                assert forall|x: int| 0 <= x < r@.len() implies r.deep_view()[x] == old_deep.push(
                    upds@[i as int].pkg_base@,
                )[x] by {
                    assert(r.deep_view()[x] == r@[x].deep_view());
                    assert(r@[x].deep_view() =~= r@[x]@);
                    if x < old_deep.len() {
                        assert(old_deep[x] == r@[x].deep_view());
                    }
                }
                assert(r.deep_view() =~= old_deep.push(upds@[i as int].pkg_base@));
                assert forall|a: int, c: int|
                    0 <= a < c < r.deep_view().len() implies r.deep_view()[a]
                    != r.deep_view()[c] by {
                    if c == r.deep_view().len() - 1 {
                        assert(has_elem(old_deep, old_deep[a]));
                    }
                }
                assert forall|b2: Seq<u8>| #[trigger] has_elem(r.deep_view(), b2) implies has_elem(
                    upd_bases(upds@.take(i + 1)),
                    b2,
                ) by {
                    crate::bytes::lemma_has_elem_push(old_deep, upds@[i as int].pkg_base@, b2);
                    crate::bytes::lemma_has_elem_push(
                        upd_bases(upds@.take(i as int)),
                        upds@[i as int].pkg_base@,
                        b2,
                    );
                }
                assert forall|b2: Seq<u8>| #[trigger] has_elem(
                    upd_bases(upds@.take(i + 1)),
                    b2,
                ) implies has_elem(r.deep_view(), b2) by {
                    crate::bytes::lemma_has_elem_push(old_deep, upds@[i as int].pkg_base@, b2);
                    crate::bytes::lemma_has_elem_push(
                        upd_bases(upds@.take(i as int)),
                        upds@[i as int].pkg_base@,
                        b2,
                    );
                }
            }
        } else {
            proof {
                assert forall|b2: Seq<u8>| #[trigger] has_elem(
                    upd_bases(upds@.take(i + 1)),
                    b2,
                ) implies has_elem(r.deep_view(), b2) by {
                    crate::bytes::lemma_has_elem_push(
                        upd_bases(upds@.take(i as int)),
                        upds@[i as int].pkg_base@,
                        b2,
                    );
                }
                assert forall|b2: Seq<u8>| #[trigger] has_elem(r.deep_view(), b2) implies has_elem(
                    upd_bases(upds@.take(i + 1)),
                    b2,
                ) by {
                    crate::bytes::lemma_has_elem_push(
                        upd_bases(upds@.take(i as int)),
                        upds@[i as int].pkg_base@,
                        b2,
                    );
                }
            }
        }
        i = i + 1;
    }
    proof {
        assert(upds@.take(upds@.len() as int) =~= upds@);
    }
    r
}

/// Every update row bears the name of an association that is due an
/// update, and every association due an update contributes a row.
proof fn lemma_rows_entries(n2b: Seq<NameToBase>, infos: Map<Seq<u8>, Seq<u8>>, db: Seq<DbPkg>)
    ensures
        forall|k: int|
            0 <= k < updates_spec(n2b, infos, db).len() ==> exists|j: int|
                0 <= j < n2b.len() && #[trigger] updates_spec(n2b, infos, db)[k].0
                    == n2b[j].name@ && upd_due(n2b[j], infos, db),
    decreases n2b.len(),
{
    if n2b.len() > 0 {
        lemma_rows_entries(n2b.drop_last(), infos, db);
        let full = updates_spec(n2b, infos, db);
        let pre = updates_spec(n2b.drop_last(), infos, db);
        assert forall|k: int| 0 <= k < full.len() implies exists|j: int|
            0 <= j < n2b.len() && #[trigger] full[k].0 == n2b[j].name@ && upd_due(
                n2b[j],
                infos,
                db,
            ) by {
            if k < pre.len() {
                let j = choose|j: int|
                    0 <= j < n2b.drop_last().len() && #[trigger] pre[k].0
                        == n2b.drop_last()[j].name@ && upd_due(n2b.drop_last()[j], infos, db);
                assert(full[k] == pre[k]);
                assert(n2b[j] == n2b.drop_last()[j]);
                assert(full[k].0 == n2b[j].name@ && upd_due(n2b[j], infos, db));
            } else {
                assert(upd_due(n2b.last(), infos, db));
                assert(full[k].0 == n2b[n2b.len() - 1].name@ && upd_due(
                    n2b[n2b.len() - 1],
                    infos,
                    db,
                ));
            }
        }
    }
}

proof fn lemma_due_has_row(n2b: Seq<NameToBase>, infos: Map<Seq<u8>, Seq<u8>>, db: Seq<DbPkg>, i: int)
    requires
        0 <= i < n2b.len(),
        upd_due(n2b[i], infos, db),
    ensures
        exists|k: int|
            0 <= k < updates_spec(n2b, infos, db).len() && #[trigger] updates_spec(
                n2b,
                infos,
                db,
            )[k].0 == n2b[i].name@,
    decreases n2b.len(),
{
    let full = updates_spec(n2b, infos, db);
    let pre = updates_spec(n2b.drop_last(), infos, db);
    if i == n2b.len() - 1 {
        assert(full[pre.len() as int].0 == n2b[i].name@);
    } else {
        assert(n2b.drop_last()[i] == n2b[i]);
        lemma_due_has_row(n2b.drop_last(), infos, db, i);
        let k = choose|k: int|
            0 <= k < pre.len() && #[trigger] pre[k].0 == n2b.drop_last()[i].name@;
        assert(full[k] == pre[k]);
        assert(full[k].0 == n2b[i].name@);
    }
}

/// A name is proposed for update exactly when its recorded version
/// compares strictly below the upstream version of its base.
pub proof fn lemma_update_iff_strictly_older(
    n2b: Seq<NameToBase>,
    infos: Map<Seq<u8>, Seq<u8>>,
    db: Seq<DbPkg>,
    i: int,
)
    requires
        0 <= i < n2b.len(),
        uniq(n2b_names(n2b)),
    ensures
        (exists|k: int|
            0 <= k < updates_spec(n2b, infos, db).len() && #[trigger] updates_spec(
                n2b,
                infos,
                db,
            )[k].0 == n2b[i].name@) <==> version_cmp(
            db_version_of(db, n2b[i].name@),
            infos[n2b[i].pkg_base@],
        ) == VerOrder::Lt,
{
    let us = updates_spec(n2b, infos, db);
    if exists|k: int| 0 <= k < us.len() && #[trigger] us[k].0 == n2b[i].name@ {
        let k = choose|k: int| 0 <= k < us.len() && #[trigger] us[k].0 == n2b[i].name@;
        lemma_rows_entries(n2b, infos, db);
        let j = choose|j: int|
            0 <= j < n2b.len() && #[trigger] updates_spec(n2b, infos, db)[k].0 == n2b[j].name@
                && upd_due(n2b[j], infos, db);
        assert(n2b_names(n2b)[i] == n2b[i].name@);
        assert(n2b_names(n2b)[j] == n2b[j].name@);
        if i != j {
            assert(false);
        }
    }
    if upd_due(n2b[i], infos, db) {
        lemma_due_has_row(n2b, infos, db, i);
    }
}

/// Equal recorded and upstream versions never yield an update row.
pub proof fn lemma_equal_version_no_update(
    n2b: Seq<NameToBase>,
    infos: Map<Seq<u8>, Seq<u8>>,
    db: Seq<DbPkg>,
    i: int,
)
    requires
        0 <= i < n2b.len(),
        uniq(n2b_names(n2b)),
        db_version_of(db, n2b[i].name@) == infos[n2b[i].pkg_base@],
    ensures
        !(exists|k: int|
            0 <= k < updates_spec(n2b, infos, db).len() && #[trigger] updates_spec(
                n2b,
                infos,
                db,
            )[k].0 == n2b[i].name@),
{
    crate::version::lemma_version_cmp_refl(db_version_of(db, n2b[i].name@));
    lemma_update_iff_strictly_older(n2b, infos, db, i);
}

/// One build per base: when every proposed update names the same base, a
/// base list that holds exactly the updates' bases without repetition is
/// that single base alone.
pub proof fn lemma_single_base(bases: Seq<Seq<u8>>, us: Seq<PkgUpd>, b: Seq<u8>)
    requires
        uniq(bases),
        forall|x: Seq<u8>| #[trigger] has_elem(bases, x) <==> has_elem(upd_bases(us), x),
        us.len() > 0,
        forall|k: int| 0 <= k < us.len() ==> #[trigger] us[k].pkg_base@ == b,
    ensures
        bases.len() == 1,
        bases[0] == b,
{
    assert(upd_bases(us)[0] == us[0].pkg_base@);
    assert(has_elem(upd_bases(us), b));
    assert(has_elem(bases, b));
    assert forall|j: int| 0 <= j < bases.len() implies bases[j] == b by {
        assert(has_elem(bases, bases[j]));
        assert(has_elem(upd_bases(us), bases[j]));
        let k = choose|k: int| 0 <= k < upd_bases(us).len() && upd_bases(us)[k] == bases[j];
        assert(upd_bases(us)[k] == us[k].pkg_base@);
    }
    let w = choose|w: int| 0 <= w < bases.len() && bases[w] == b;
    if bases.len() > 1 {
        assert(bases[0] == b && bases[1] == b);
        assert(false);
    }
}

/// A name is version-independent when it ends in `-` plus one of the
/// configured suffixes.
pub open spec fn vcs_name(n: Seq<u8>, sfx: Seq<Seq<u8>>) -> bool {
    exists|k: int| 0 <= k < sfx.len() && suffix_of(seq![45u8] + sfx[k], n)
}

/// The name→base pairs of an association list.
pub open spec fn n2b_pairs(xs: Seq<NameToBase>) -> Seq<(Seq<u8>, Seq<u8>)> {
    xs.map_values(|e: NameToBase| (e.name@, e.pkg_base@))
}

/// The associations whose names are version-independent, in order.
pub open spec fn vcs_filter(xs: Seq<NameToBase>, sfx: Seq<Seq<u8>>) -> Seq<(Seq<u8>, Seq<u8>)>
    decreases xs.len(),
{
    if xs.len() == 0 {
        Seq::empty()
    } else {
        vcs_filter(xs.drop_last(), sfx) + if vcs_name(xs.last().name@, sfx) {
            seq![(xs.last().name@, xs.last().pkg_base@)]
        } else {
            Seq::empty()
        }
    }
}

/// Whether `n` ends in `-` plus one of the suffixes.
fn is_vcs_name(n: &[u8], sfx: &Vec<Vec<u8>>) -> (r: bool)
    ensures
        r == vcs_name(n@, sfx.deep_view()),
{
    let mut k: usize = 0;
    while k < sfx.len()
        invariant
            k <= sfx@.len(),
            forall|x: int| 0 <= x < k ==> !suffix_of(seq![45u8] + sfx.deep_view()[x], n@),
        decreases sfx@.len() - k,
    {
        let mut dashed: Vec<u8> = Vec::new();
        dashed.push(45u8);
        append_bytes(&mut dashed, sfx[k].as_slice());
        proof {
            assert(sfx.deep_view()[k as int] =~= sfx@[k as int]@);
            assert(dashed@ =~= seq![45u8] + sfx.deep_view()[k as int]);
        }
        if ends_with(n, dashed.as_slice()) {
            return true;
        }
        k = k + 1;
    }
    proof {
        if vcs_name(n@, sfx.deep_view()) {
            let x = choose|x: int|
                0 <= x < sfx.deep_view().len() && suffix_of(seq![45u8] + sfx.deep_view()[x], n@);
            assert(false);
        }
    }
    false
}

impl AurData {
    /// The associations whose package is not tied to a version: its name
    /// ends in `-` plus one of the configured suffixes, so it tracks a
    /// moving upstream head and is rebuilt on demand, never by version.
    pub fn pkg_name2base_no_version(&self, vcs_suffixes: &Vec<Vec<u8>>) -> (r: Vec<NameToBase>)
        ensures
            n2b_pairs(r@) == vcs_filter(self.pkg_name2base@, vcs_suffixes.deep_view()),
    {
        let mut r: Vec<NameToBase> = Vec::new();
        let mut i: usize = 0;
        while i < self.pkg_name2base.len()
            invariant
                i <= self.pkg_name2base@.len(),
                n2b_pairs(r@) =~= vcs_filter(
                    self.pkg_name2base@.take(i as int),
                    vcs_suffixes.deep_view(),
                ),
            decreases self.pkg_name2base@.len() - i,
        {
            let e = &self.pkg_name2base[i];
            proof {
                assert(self.pkg_name2base@.take(i + 1).drop_last() =~= self.pkg_name2base@.take(
                    i as int,
                ));
                assert(self.pkg_name2base@.take(i + 1).last() == self.pkg_name2base@[i as int]);
            }
            if is_vcs_name(e.name.as_slice(), vcs_suffixes) {
                r.push(NameToBase { name: copy_vec(&e.name), pkg_base: copy_vec(&e.pkg_base) });
                proof {
                    assert(n2b_pairs(r@) =~= vcs_filter(
                        self.pkg_name2base@.take(i + 1),
                        vcs_suffixes.deep_view(),
                    ));
                }
            }
            i = i + 1;
        }
        proof {
            assert(self.pkg_name2base@.take(self.pkg_name2base@.len() as int)
                =~= self.pkg_name2base@);
        }
        r
    }
}

} // verus!
