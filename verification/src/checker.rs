//! The three-pass consistency checker.
//!
//! Clean-up reconciles the database snapshot with the files of the mirror
//! directory in three passes over one snapshot: records whose exact package
//! file is missing are removed from the database (in one batched call);
//! package files whose name the post-clean-up database no longer holds are
//! deleted; signature files whose counterpart is gone are deleted.  Running
//! the passes a second time on the state they leave behind changes nothing.

use crate::bytes::{contains_bytes, copy_range, ends_with, has_elem, suffix_of};
use crate::db::{db_names, DbPkg};
use crate::glob::{glob_match, glob_matches};
use crate::identity::{
    build_meta_path, id_wf, is_pkg_path, lemma_path_unique, meta_path, path_view, sig_bytes,
    sig_suffix, strip_sig, the_id, PkgIdentity,
};
use vstd::prelude::*;

verus! {

/// What one clean-up run decides: names to remove from the database in one
/// batch, package files to delete, and orphaned signature files to delete.
pub struct CleanupPlan {
    pub db_removals: Vec<Vec<u8>>,
    pub file_removals: Vec<Vec<u8>>,
    pub sig_removals: Vec<Vec<u8>>,
}

/// The exact file a database record predicts.
pub open spec fn expected_file(p: DbPkg, dir: Seq<u8>, ext: Seq<u8>) -> Seq<u8> {
    meta_path(dir, p.name@, p.version@, p.arch@, ext)
}

/// First pass: the names of the records whose predicted file is missing.
pub open spec fn pass1(db: Seq<DbPkg>, files: Seq<Seq<u8>>, dir: Seq<u8>, ext: Seq<u8>) -> Seq<
    Seq<u8>,
>
    decreases db.len(),
{
    if db.len() == 0 {
        Seq::empty()
    } else {
        pass1(db.drop_last(), files, dir, ext) + if has_elem(
            files,
            expected_file(db.last(), dir, ext),
        ) {
            Seq::empty()
        } else {
            seq![db.last().name@]
        }
    }
}

/// The generic pattern every package file of the mirror matches:
/// `DIR/*-*-*-*EXT`.
pub open spec fn generic_glob(dir: Seq<u8>, ext: Seq<u8>) -> Seq<u8> {
    dir + seq![47u8, 42u8, 45u8, 42u8, 45u8, 42u8, 45u8, 42u8] + ext
}

/// A name the database still holds after the first pass.
pub open spec fn name_kept(db: Seq<DbPkg>, removed: Seq<Seq<u8>>, n: Seq<u8>) -> bool {
    has_elem(db_names(db), n) && !has_elem(removed, n)
}

/// Second pass condition: a package file whose name the database no longer
/// holds.
pub open spec fn removable_file(
    f: Seq<u8>,
    dir: Seq<u8>,
    ext: Seq<u8>,
    db: Seq<DbPkg>,
    removed: Seq<Seq<u8>>,
) -> bool {
    glob_match(generic_glob(dir, ext), f) && is_pkg_path(f) && !name_kept(
        db,
        removed,
        the_id(f).name,
    )
}

/// Second pass: the package files to delete.
pub open spec fn pass2(
    files: Seq<Seq<u8>>,
    dir: Seq<u8>,
    ext: Seq<u8>,
    db: Seq<DbPkg>,
    removed: Seq<Seq<u8>>,
) -> Seq<Seq<u8>>
    decreases files.len(),
{
    if files.len() == 0 {
        Seq::empty()
    } else {
        pass2(files.drop_last(), dir, ext, db, removed) + if removable_file(
            files.last(),
            dir,
            ext,
            db,
            removed,
        ) {
            seq![files.last()]
        } else {
            Seq::empty()
        }
    }
}

/// The files that survive a set of removals.
pub open spec fn files_after(files: Seq<Seq<u8>>, removed: Seq<Seq<u8>>) -> Seq<Seq<u8>>
    decreases files.len(),
{
    if files.len() == 0 {
        Seq::empty()
    } else {
        files_after(files.drop_last(), removed) + if has_elem(removed, files.last()) {
            Seq::empty()
        } else {
            seq![files.last()]
        }
    }
}

/// A file ends in `.sig`.
pub open spec fn ends_sig(f: Seq<u8>) -> bool {
    suffix_of(sig_suffix(), f)
}

pub open spec fn pass3_rec(it: Seq<Seq<u8>>, all: Seq<Seq<u8>>) -> Seq<Seq<u8>>
    decreases it.len(),
{
    if it.len() == 0 {
        Seq::empty()
    } else {
        pass3_rec(it.drop_last(), all) + if ends_sig(it.last()) && !has_elem(
            all,
            strip_sig(it.last()),
        ) {
            seq![it.last()]
        } else {
            Seq::empty()
        }
    }
}

/// Third pass, over the files the second pass leaves: the signature files
/// whose counterpart is gone.
pub open spec fn pass3(files2: Seq<Seq<u8>>) -> Seq<Seq<u8>> {
    pass3_rec(files2, files2)
}

/// The database records that survive the batch removal of the first pass.
pub open spec fn db_after(db: Seq<DbPkg>, removed: Seq<Seq<u8>>) -> Seq<DbPkg>
    decreases db.len(),
{
    if db.len() == 0 {
        Seq::empty()
    } else {
        db_after(db.drop_last(), removed) + if has_elem(removed, db.last().name@) {
            Seq::empty()
        } else {
            seq![db.last()]
        }
    }
}

/// Computes the three passes of one clean-up run.  `files` is the listing
/// of the mirror directory as full paths; the plan's passes are exactly the
/// three spec passes over that snapshot.
pub fn cleanup_plan(db: &Vec<DbPkg>, files: &Vec<Vec<u8>>, local_dir: &[u8], pkg_ext: &[u8]) -> (r:
    CleanupPlan)
    ensures
        r.db_removals.deep_view() == pass1(db@, files.deep_view(), local_dir@, pkg_ext@),
        r.file_removals.deep_view() == pass2(
            files.deep_view(),
            local_dir@,
            pkg_ext@,
            db@,
            pass1(db@, files.deep_view(), local_dir@, pkg_ext@),
        ),
        r.sig_removals.deep_view() == pass3(
            files_after(
                files.deep_view(),
                pass2(
                    files.deep_view(),
                    local_dir@,
                    pkg_ext@,
                    db@,
                    pass1(db@, files.deep_view(), local_dir@, pkg_ext@),
                ),
            ),
        ),
{
    let ghost fs = files.deep_view();
    // first pass: records whose predicted file is missing
    let mut db_removals: Vec<Vec<u8>> = Vec::new();
    let mut i: usize = 0;
    while i < db.len()
        invariant
            i <= db@.len(),
            fs == files.deep_view(),
            db_removals.deep_view() =~= pass1(db@.take(i as int), fs, local_dir@, pkg_ext@),
        decreases db@.len() - i,
    {
        let p = &db[i];
        let expected = build_meta_path(
            p.name.as_slice(),
            p.version.as_slice(),
            p.arch.as_slice(),
            local_dir,
            pkg_ext,
        );
        let ghost old_deep = db_removals.deep_view();
        proof {
            assert(db@.take(i + 1).drop_last() =~= db@.take(i as int));
            assert(db@.take(i + 1).last() == db@[i as int]);
        }
        if !contains_bytes(files, expected.as_slice()) {
            let nm = copy_range(p.name.as_slice(), 0, p.name.len());
            proof {
                assert(nm@ =~= db@[i as int].name@);
            }
            db_removals.push(nm);
            proof {
                assert forall|x: int|
                    0 <= x < db_removals@.len() implies db_removals.deep_view()[x] == old_deep.push(
                    db@[i as int].name@,
                )[x] by {
                    assert(db_removals.deep_view()[x] == db_removals@[x].deep_view());
                    assert(db_removals@[x].deep_view() =~= db_removals@[x]@);
                    if x < old_deep.len() {
                        assert(old_deep[x] == db_removals@[x].deep_view());
                    }
                }
                assert(db_removals.deep_view() =~= old_deep.push(db@[i as int].name@));
                assert(db_removals.deep_view() =~= pass1(
                    db@.take(i + 1),
                    fs,
                    local_dir@,
                    pkg_ext@,
                ));
            }
        }
        i = i + 1;
    }
    proof {
        assert(db@.take(db@.len() as int) =~= db@);
    }
    let ghost rm1 = db_removals.deep_view();
    // second pass: package files without a kept record
    let names = crate::db::names_of(db);
    let mut pattern: Vec<u8> = Vec::new();
    crate::bytes::append_bytes(&mut pattern, local_dir);
    pattern.push(47u8);
    pattern.push(42u8);
    pattern.push(45u8);
    pattern.push(42u8);
    pattern.push(45u8);
    pattern.push(42u8);
    pattern.push(45u8);
    pattern.push(42u8);
    crate::bytes::append_bytes(&mut pattern, pkg_ext);
    proof {
        assert(pattern@ =~= generic_glob(local_dir@, pkg_ext@));
    }
    let mut file_removals: Vec<Vec<u8>> = Vec::new();
    let mut j: usize = 0;
    while j < files.len()
        invariant
            j <= files@.len(),
            fs == files.deep_view(),
            rm1 == db_removals.deep_view(),
            names.deep_view() == db_names(db@),
            pattern@ == generic_glob(local_dir@, pkg_ext@),
            file_removals.deep_view() =~= pass2(
                fs.take(j as int),
                local_dir@,
                pkg_ext@,
                db@,
                rm1,
            ),
        decreases files@.len() - j,
    {
        let f = &files[j];
        let ghost old_deep = file_removals.deep_view();
        proof {
            assert(fs.take(j + 1).drop_last() =~= fs.take(j as int));
            assert(fs.take(j + 1).last() == fs[j as int]);
            assert(fs[j as int] == files@[j as int]@);
        }
        let mut removable = false;
        if glob_matches(pattern.as_slice(), f.as_slice()) {
            match PkgIdentity::parse(f.as_slice()) {
                Ok(id) => {
                    let kept = contains_bytes(&names, id.name.as_slice()) && !contains_bytes(
                        &db_removals,
                        id.name.as_slice(),
                    );
                    removable = !kept;
                    proof {
                        let t = the_id(fs[j as int]);
                        assert(id_wf(t) && path_view(t) == fs[j as int]);
                        lemma_path_unique(id@, t);
                    }
                },
                Err(_) => {},
            }
        }
        if removable {
            let fc = copy_range(f.as_slice(), 0, f.len());
            proof {
                assert(fc@ =~= fs[j as int]);
            }
            file_removals.push(fc);
            proof {
                assert forall|x: int|
                    0 <= x < file_removals@.len() implies file_removals.deep_view()[x]
                    == old_deep.push(fs[j as int])[x] by {
                    assert(file_removals.deep_view()[x] == file_removals@[x].deep_view());
                    assert(file_removals@[x].deep_view() =~= file_removals@[x]@);
                    if x < old_deep.len() {
                        assert(old_deep[x] == file_removals@[x].deep_view());
                    }
                }
                assert(file_removals.deep_view() =~= old_deep.push(fs[j as int]));
            }
        }
        j = j + 1;
    }
    proof {
        assert(fs.take(fs.len() as int) =~= fs);
    }
    let ghost rm2 = file_removals.deep_view();
    // the listing after the second pass's deletions
    let mut files2: Vec<Vec<u8>> = Vec::new();
    let mut k: usize = 0;
    while k < files.len()
        invariant
            k <= files@.len(),
            fs == files.deep_view(),
            rm2 == file_removals.deep_view(),
            files2.deep_view() =~= files_after(fs.take(k as int), rm2),
        decreases files@.len() - k,
    {
        let ghost old_deep = files2.deep_view();
        proof {
            assert(fs.take(k + 1).drop_last() =~= fs.take(k as int));
            assert(fs.take(k + 1).last() == fs[k as int]);
            assert(fs[k as int] == files@[k as int]@);
        }
        if !contains_bytes(&file_removals, files[k].as_slice()) {
            let fc = copy_range(files[k].as_slice(), 0, files[k].len());
            proof {
                assert(fc@ =~= fs[k as int]);
            }
            files2.push(fc);
            proof {
                assert forall|x: int|
                    0 <= x < files2@.len() implies files2.deep_view()[x] == old_deep.push(
                    fs[k as int],
                )[x] by {
                    assert(files2.deep_view()[x] == files2@[x].deep_view());
                    assert(files2@[x].deep_view() =~= files2@[x]@);
                    if x < old_deep.len() {
                        assert(old_deep[x] == files2@[x].deep_view());
                    }
                }
                assert(files2.deep_view() =~= old_deep.push(fs[k as int]));
            }
        }
        k = k + 1;
    }
    proof {
        assert(fs.take(fs.len() as int) =~= fs);
    }
    let ghost f2 = files2.deep_view();
    // third pass: orphaned signature files among what remains
    let sig = sig_bytes();
    let mut sig_removals: Vec<Vec<u8>> = Vec::new();
    let mut m: usize = 0;
    while m < files2.len()
        invariant
            m <= files2@.len(),
            f2 == files2.deep_view(),
            sig@ == sig_suffix(),
            sig_removals.deep_view() =~= pass3_rec(f2.take(m as int), f2),
        decreases files2@.len() - m,
    {
        let f = &files2[m];
        let ghost old_deep = sig_removals.deep_view();
        proof {
            assert(f2.take(m + 1).drop_last() =~= f2.take(m as int));
            assert(f2.take(m + 1).last() == f2[m as int]);
            assert(f2[m as int] == files2@[m as int]@);
        }
        if ends_with(f.as_slice(), sig.as_slice()) {
            let base = copy_range(f.as_slice(), 0, f.len() - 4);
            proof {
                assert(base@ =~= strip_sig(f2[m as int]));
            }
            if !contains_bytes(&files2, base.as_slice()) {
                let fc = copy_range(f.as_slice(), 0, f.len());
                proof {
                    assert(fc@ =~= f2[m as int]);
                }
                sig_removals.push(fc);
                proof {
                    assert forall|x: int|
                        0 <= x < sig_removals@.len() implies sig_removals.deep_view()[x]
                        == old_deep.push(f2[m as int])[x] by {
                        assert(sig_removals.deep_view()[x] == sig_removals@[x].deep_view());
                        assert(sig_removals@[x].deep_view() =~= sig_removals@[x]@);
                        if x < old_deep.len() {
                            assert(old_deep[x] == sig_removals@[x].deep_view());
                        }
                    }
                    assert(sig_removals.deep_view() =~= old_deep.push(f2[m as int]));
                }
            }
        }
        m = m + 1;
    }
    proof {
        assert(f2.take(f2.len() as int) =~= f2);
    }
    CleanupPlan { db_removals, file_removals, sig_removals }
}


/// Membership after appending one candidate.
proof fn lemma_snoc_member(s: Seq<Seq<u8>>, x: Seq<u8>, b: Seq<u8>)
    ensures
        has_elem(s + seq![x], b) <==> (has_elem(s, b) || b == x),
{
    assert(s + seq![x] =~= s.push(x));
    crate::bytes::lemma_has_elem_push(s, x, b);
}

proof fn lemma_concat_empty(s: Seq<Seq<u8>>)
    ensures
        s + Seq::<Seq<u8>>::empty() == s,
{
    assert(s + Seq::<Seq<u8>>::empty() =~= s);
}

/// What the first pass removes: exactly the names of records whose
/// predicted file is absent.
pub proof fn lemma_pass1_member(
    db: Seq<DbPkg>,
    files: Seq<Seq<u8>>,
    dir: Seq<u8>,
    ext: Seq<u8>,
    n: Seq<u8>,
)
    ensures
        has_elem(pass1(db, files, dir, ext), n) <==> exists|i: int|
            0 <= i < db.len() && #[trigger] db[i].name@ == n && !has_elem(
                files,
                expected_file(db[i], dir, ext),
            ),
    decreases db.len(),
{
    if db.len() == 0 {
    } else {
        lemma_pass1_member(db.drop_last(), files, dir, ext, n);
        let pre = pass1(db.drop_last(), files, dir, ext);
        if has_elem(files, expected_file(db.last(), dir, ext)) {
            lemma_concat_empty(pre);
            if has_elem(pass1(db, files, dir, ext), n) {
                let i = choose|i: int|
                    0 <= i < db.drop_last().len() && #[trigger] db.drop_last()[i].name@ == n
                        && !has_elem(files, expected_file(db.drop_last()[i], dir, ext));
                assert(db[i] == db.drop_last()[i]);
                assert(db[i].name@ == n && !has_elem(files, expected_file(db[i], dir, ext)));
            }
            if exists|i: int|
                0 <= i < db.len() && #[trigger] db[i].name@ == n && !has_elem(
                    files,
                    expected_file(db[i], dir, ext),
                ) {
                let i = choose|i: int|
                    0 <= i < db.len() && #[trigger] db[i].name@ == n && !has_elem(
                        files,
                        expected_file(db[i], dir, ext),
                    );
                assert(i < db.len() - 1);
                assert(db.drop_last()[i].name@ == n && !has_elem(
                    files,
                    expected_file(db.drop_last()[i], dir, ext),
                ));
            }
        } else {
            lemma_snoc_member(pre, db.last().name@, n);
            if has_elem(pass1(db, files, dir, ext), n) {
                if n == db.last().name@ {
                    assert(db[db.len() - 1].name@ == n && !has_elem(
                        files,
                        expected_file(db[db.len() - 1], dir, ext),
                    ));
                } else {
                    let i = choose|i: int|
                        0 <= i < db.drop_last().len() && #[trigger] db.drop_last()[i].name@ == n
                            && !has_elem(files, expected_file(db.drop_last()[i], dir, ext));
                    assert(db[i] == db.drop_last()[i]);
                    assert(db[i].name@ == n && !has_elem(files, expected_file(db[i], dir, ext)));
                }
            }
            if exists|i: int|
                0 <= i < db.len() && #[trigger] db[i].name@ == n && !has_elem(
                    files,
                    expected_file(db[i], dir, ext),
                ) {
                let i = choose|i: int|
                    0 <= i < db.len() && #[trigger] db[i].name@ == n && !has_elem(
                        files,
                        expected_file(db[i], dir, ext),
                    );
                if i < db.len() - 1 {
                    assert(db.drop_last()[i].name@ == n && !has_elem(
                        files,
                        expected_file(db.drop_last()[i], dir, ext),
                    ));
                }
            }
        }
    }
}

/// What the second pass removes: exactly the files it finds removable.
pub proof fn lemma_pass2_member(
    files: Seq<Seq<u8>>,
    dir: Seq<u8>,
    ext: Seq<u8>,
    db: Seq<DbPkg>,
    removed: Seq<Seq<u8>>,
    f: Seq<u8>,
)
    ensures
        has_elem(pass2(files, dir, ext, db, removed), f) <==> (has_elem(files, f)
            && removable_file(f, dir, ext, db, removed)),
    decreases files.len(),
{
    if files.len() == 0 {
    } else {
        lemma_pass2_member(files.drop_last(), dir, ext, db, removed, f);
        let pre = pass2(files.drop_last(), dir, ext, db, removed);
        crate::bytes::lemma_has_elem_push(files.drop_last(), files.last(), f);
        assert(files.drop_last().push(files.last()) =~= files);
        if removable_file(files.last(), dir, ext, db, removed) {
            lemma_snoc_member(pre, files.last(), f);
        } else {
            lemma_concat_empty(pre);
        }
    }
}

/// What the files listing keeps: exactly the files not removed.
pub proof fn lemma_files_after_member(files: Seq<Seq<u8>>, removed: Seq<Seq<u8>>, f: Seq<u8>)
    ensures
        has_elem(files_after(files, removed), f) <==> (has_elem(files, f) && !has_elem(
            removed,
            f,
        )),
    decreases files.len(),
{
    if files.len() == 0 {
    } else {
        lemma_files_after_member(files.drop_last(), removed, f);
        let pre = files_after(files.drop_last(), removed);
        crate::bytes::lemma_has_elem_push(files.drop_last(), files.last(), f);
        assert(files.drop_last().push(files.last()) =~= files);
        if has_elem(removed, files.last()) {
            lemma_concat_empty(pre);
        } else {
            lemma_snoc_member(pre, files.last(), f);
        }
    }
}

proof fn lemma_pass3_rec_member(it: Seq<Seq<u8>>, all: Seq<Seq<u8>>, f: Seq<u8>)
    ensures
        has_elem(pass3_rec(it, all), f) <==> (has_elem(it, f) && ends_sig(f) && !has_elem(
            all,
            strip_sig(f),
        )),
    decreases it.len(),
{
    if it.len() == 0 {
    } else {
        lemma_pass3_rec_member(it.drop_last(), all, f);
        let pre = pass3_rec(it.drop_last(), all);
        crate::bytes::lemma_has_elem_push(it.drop_last(), it.last(), f);
        assert(it.drop_last().push(it.last()) =~= it);
        if ends_sig(it.last()) && !has_elem(all, strip_sig(it.last())) {
            lemma_snoc_member(pre, it.last(), f);
        } else {
            lemma_concat_empty(pre);
        }
    }
}

/// What the third pass removes: exactly the orphaned signature files.
pub proof fn lemma_pass3_member(files2: Seq<Seq<u8>>, f: Seq<u8>)
    ensures
        has_elem(pass3(files2), f) <==> (has_elem(files2, f) && ends_sig(f) && !has_elem(
            files2,
            strip_sig(f),
        )),
{
    lemma_pass3_rec_member(files2, files2, f);
}

/// Every record the batch removal keeps comes from the snapshot, with its
/// name not among the removals.
proof fn lemma_db_after_sub(db: Seq<DbPkg>, removed: Seq<Seq<u8>>)
    ensures
        forall|i: int|
            0 <= i < db_after(db, removed).len() ==> exists|j: int|
                0 <= j < db.len() && #[trigger] db_after(db, removed)[i] == db[j] && !has_elem(
                    removed,
                    db[j].name@,
                ),
    decreases db.len(),
{
    if db.len() > 0 {
        lemma_db_after_sub(db.drop_last(), removed);
        let pre = db_after(db.drop_last(), removed);
        assert forall|i: int| 0 <= i < db_after(db, removed).len() implies exists|j: int|
            0 <= j < db.len() && #[trigger] db_after(db, removed)[i] == db[j] && !has_elem(
                removed,
                db[j].name@,
            ) by {
            if i < pre.len() {
                assert(db_after(db, removed)[i] == pre[i]);
                let j = choose|j: int|
                    0 <= j < db.drop_last().len() && #[trigger] pre[i] == db.drop_last()[j]
                        && !has_elem(removed, db.drop_last()[j].name@);
                assert(db[j] == db.drop_last()[j]);
                assert(db_after(db, removed)[i] == db[j] && !has_elem(removed, db[j].name@));
            } else {
                assert(!has_elem(removed, db.last().name@));
                assert(db_after(db, removed)[i] == db[db.len() - 1] && !has_elem(
                    removed,
                    db[db.len() - 1].name@,
                ));
            }
        }
    }
}

/// The names the batch removal keeps: exactly the snapshot names not
/// removed.
proof fn lemma_db_after_names(db: Seq<DbPkg>, removed: Seq<Seq<u8>>, n: Seq<u8>)
    ensures
        has_elem(db_names(db_after(db, removed)), n) <==> (has_elem(db_names(db), n)
            && !has_elem(removed, n)),
    decreases db.len(),
{
    if db.len() == 0 {
    } else {
        lemma_db_after_names(db.drop_last(), removed, n);
        let pre = db_after(db.drop_last(), removed);
        let full = db_after(db, removed);
        assert(db_names(db) =~= db_names(db.drop_last()).push(db.last().name@));
        crate::bytes::lemma_has_elem_push(db_names(db.drop_last()), db.last().name@, n);
        if has_elem(removed, db.last().name@) {
            assert(full =~= pre);
        } else {
            assert(full =~= pre.push(db.last()));
            assert(db_names(full) =~= db_names(pre).push(db.last().name@));
            crate::bytes::lemma_has_elem_push(db_names(pre), db.last().name@, n);
        }
    }
}

/// A suffix as short as the extension is decided by the extension alone.
proof fn lemma_suffix_concat(x: Seq<u8>, ext: Seq<u8>)
    requires
        ext.len() >= 4,
    ensures
        suffix_of(sig_suffix(), x + ext) <==> suffix_of(sig_suffix(), ext),
{
    let s = x + ext;
    assert(s.subrange(s.len() - 4, s.len() as int) =~= ext.subrange(
        ext.len() - 4,
        ext.len() as int,
    ));
}

/// A database record that predicts a well-formed package path bearing its
/// own name: its version splits as VERSION-RELEASE and no component holds
/// a stray separator.
pub open spec fn entry_wf(p: DbPkg, dir: Seq<u8>, ext: Seq<u8>) -> bool {
    &&& is_pkg_path(expected_file(p, dir, ext))
    &&& the_id(expected_file(p, dir, ext)).name == p.name@
}

/// Clean-up is idempotent: on the state the three passes leave behind, a
/// second run removes nothing — no database entry, no package file and no
/// signature file.  The snapshot must be well-formed: every record
/// predicts a package path carrying its own name, no signature file signs
/// another signature file, and the package extension is not itself a
/// signature suffix.
pub proof fn lemma_cleanup_idempotent(
    db: Seq<DbPkg>,
    files: Seq<Seq<u8>>,
    dir: Seq<u8>,
    ext: Seq<u8>,
)
    requires
        forall|i: int| 0 <= i < db.len() ==> entry_wf(#[trigger] db[i], dir, ext),
        forall|j: int|
            0 <= j < files.len() ==> (ends_sig(#[trigger] files[j]) ==> !ends_sig(
                strip_sig(files[j]),
            )),
        ext.len() >= 4,
        !suffix_of(sig_suffix(), ext),
    ensures
        ({
            let rm1 = pass1(db, files, dir, ext);
            let rm2 = pass2(files, dir, ext, db, rm1);
            let files2 = files_after(files, rm2);
            let rm3 = pass3(files2);
            let files3 = files_after(files2, rm3);
            let db2 = db_after(db, rm1);
            &&& pass1(db2, files3, dir, ext) == Seq::<Seq<u8>>::empty()
            &&& pass2(files3, dir, ext, db2, pass1(db2, files3, dir, ext)) == Seq::<
                Seq<u8>,
            >::empty()
            &&& pass3(files3) == Seq::<Seq<u8>>::empty()
        }),
{
    let rm1 = pass1(db, files, dir, ext);
    let rm2 = pass2(files, dir, ext, db, rm1);
    let files2 = files_after(files, rm2);
    let rm3 = pass3(files2);
    let files3 = files_after(files2, rm3);
    let db2 = db_after(db, rm1);
    // every kept record's predicted file survives both removals
    assert forall|j: int|
        0 <= j < db.len() && !has_elem(rm1, db[j].name@) implies has_elem(
        files3,
        expected_file(db[j], dir, ext),
    ) by {
        let e = expected_file(db[j], dir, ext);
        if !has_elem(files, e) {
            lemma_pass1_member(db, files, dir, ext, db[j].name@);
            assert(db[j].name@ == db[j].name@ && !has_elem(files, expected_file(db[j], dir, ext)));
            assert(false);
        }
        assert(e =~= (dir + seq![47u8] + db[j].name@ + seq![45u8] + db[j].version@ + seq![45u8]
            + db[j].arch@) + ext);
        lemma_suffix_concat(
            dir + seq![47u8] + db[j].name@ + seq![45u8] + db[j].version@ + seq![45u8]
                + db[j].arch@,
            ext,
        );
        assert(!ends_sig(e));
        lemma_pass2_member(files, dir, ext, db, rm1, e);
        if has_elem(rm2, e) {
            assert(removable_file(e, dir, ext, db, rm1));
            assert(db_names(db)[j] == db[j].name@);
            assert(has_elem(db_names(db), db[j].name@));
            assert(name_kept(db, rm1, the_id(e).name));
            assert(false);
        }
        lemma_files_after_member(files, rm2, e);
        lemma_pass3_member(files2, e);
        if has_elem(rm3, e) {
            assert(false);
        }
        lemma_files_after_member(files2, rm3, e);
    }
    // the first pass of a second run removes nothing
    let p1b = pass1(db2, files3, dir, ext);
    if p1b.len() > 0 {
        assert(has_elem(p1b, p1b[0]));
        lemma_pass1_member(db2, files3, dir, ext, p1b[0]);
        let i = choose|i: int|
            0 <= i < db2.len() && #[trigger] db2[i].name@ == p1b[0] && !has_elem(
                files3,
                expected_file(db2[i], dir, ext),
            );
        lemma_db_after_sub(db, rm1);
        let j = choose|j: int|
            0 <= j < db.len() && #[trigger] db2[i] == db[j] && !has_elem(rm1, db[j].name@);
        assert(has_elem(files3, expected_file(db[j], dir, ext)));
        assert(false);
    }
    assert(p1b =~= Seq::<Seq<u8>>::empty());
    // the second pass of a second run removes nothing
    let p2b = pass2(files3, dir, ext, db2, p1b);
    if p2b.len() > 0 {
        let f = p2b[0];
        assert(has_elem(p2b, f));
        lemma_pass2_member(files3, dir, ext, db2, p1b, f);
        assert(has_elem(files3, f) && removable_file(f, dir, ext, db2, p1b));
        lemma_files_after_member(files2, rm3, f);
        lemma_files_after_member(files, rm2, f);
        assert(has_elem(files, f) && !has_elem(rm2, f));
        lemma_pass2_member(files, dir, ext, db, rm1, f);
        assert(!removable_file(f, dir, ext, db, rm1));
        assert(name_kept(db, rm1, the_id(f).name));
        lemma_db_after_names(db, rm1, the_id(f).name);
        assert(name_kept(db2, p1b, the_id(f).name));
        assert(false);
    }
    assert(p2b =~= Seq::<Seq<u8>>::empty());
    // the third pass of a second run removes nothing
    let p3b = pass3(files3);
    if p3b.len() > 0 {
        let f = p3b[0];
        assert(has_elem(p3b, f));
        lemma_pass3_member(files3, f);
        assert(has_elem(files3, f) && ends_sig(f) && !has_elem(files3, strip_sig(f)));
        lemma_files_after_member(files2, rm3, f);
        assert(has_elem(files2, f) && !has_elem(rm3, f));
        lemma_pass3_member(files2, f);
        let b = strip_sig(f);
        assert(has_elem(files2, b));
        lemma_files_after_member(files, rm2, f);
        let x = choose|x: int| 0 <= x < files.len() && files[x] == f;
        assert(ends_sig(files[x]));
        assert(!ends_sig(b));
        lemma_pass3_member(files2, b);
        if has_elem(rm3, b) {
            assert(false);
        }
        lemma_files_after_member(files2, rm3, b);
        assert(has_elem(files3, b));
        assert(false);
    }
    assert(p3b =~= Seq::<Seq<u8>>::empty());
}

} // verus!
