//! The repository value and its database-mutation commands.
//!
//! One `Repo` value per invocation: its identity, its backend and its
//! derived directories, built once from configuration.  The database is
//! mutated only through `repo-add` and `repo-remove`, each invoked once per
//! logical step with the whole batch — never per package — so a failing
//! invocation leaves no half-applied batch behind.

use crate::aur::clone_filter;
use crate::bytes::{append_bytes, copy_range};
use crate::error::RepoError;
use crate::server::Backend;
use vstd::prelude::*;

verus! {

/// One managed repository.
pub struct Repo {
    /// Repository name.
    pub name: Vec<u8>,
    /// Database name; defaults to the repository name.
    pub db_name: Vec<u8>,
    /// Whether the database archive is signed after each mutation.
    pub sign_db: bool,
    /// Where the repository is stored.
    pub backend: Backend,
    /// The local mirror directory.
    pub local_dir: Vec<u8>,
    /// The container directory used for clean builds.
    pub chroot_dir: Vec<u8>,
}

fn lit_db_suffix() -> (r: Vec<u8>)
    ensures
        r@ == lit_db_suffix_s(),
{
    let mut v: Vec<u8> = Vec::new();
    v.push(46u8);
    v.push(100u8);
    v.push(98u8);
    proof {
        assert(v@ =~= lit_db_suffix_s());
    }
    v
}

/// The bytes of `".db"`.
pub open spec fn lit_db_suffix_s() -> Seq<u8> {
    seq![46u8, 100u8, 98u8]
}

fn lit_db_archive_suffix() -> (r: Vec<u8>)
    ensures
        r@ == lit_db_archive_suffix_s(),
{
    let mut v: Vec<u8> = Vec::new();
    v.push(46u8);
    v.push(100u8);
    v.push(98u8);
    v.push(46u8);
    v.push(116u8);
    v.push(97u8);
    v.push(114u8);
    v.push(46u8);
    v.push(120u8);
    v.push(122u8);
    proof {
        assert(v@ =~= lit_db_archive_suffix_s());
    }
    v
}

/// The bytes of `".db.tar.xz"`.
pub open spec fn lit_db_archive_suffix_s() -> Seq<u8> {
    seq![46u8, 100u8, 98u8, 46u8, 116u8, 97u8, 114u8, 46u8, 120u8, 122u8]
}

fn lit_repos_sub() -> (r: Vec<u8>)
    ensures
        r@ == lit_repos_sub_s(),
{
    let mut v: Vec<u8> = Vec::new();
    v.push(47u8);
    v.push(114u8);
    v.push(101u8);
    v.push(112u8);
    v.push(111u8);
    v.push(115u8);
    v.push(47u8);
    proof {
        assert(v@ =~= lit_repos_sub_s());
    }
    v
}

/// The bytes of `"/repos/"`.
pub open spec fn lit_repos_sub_s() -> Seq<u8> {
    seq![47u8, 114u8, 101u8, 112u8, 111u8, 115u8, 47u8]
}

fn lit_chroots_sub() -> (r: Vec<u8>)
    ensures
        r@ == lit_chroots_sub_s(),
{
    let mut v: Vec<u8> = Vec::new();
    v.push(47u8);
    v.push(99u8);
    v.push(104u8);
    v.push(114u8);
    v.push(111u8);
    v.push(111u8);
    v.push(116u8);
    v.push(115u8);
    v.push(47u8);
    proof {
        assert(v@ =~= lit_chroots_sub_s());
    }
    v
}

/// The bytes of `"/chroots/"`.
pub open spec fn lit_chroots_sub_s() -> Seq<u8> {
    seq![47u8, 99u8, 104u8, 114u8, 111u8, 111u8, 116u8, 115u8, 47u8]
}

fn lit_remove() -> (r: Vec<u8>)
    ensures
        r@ == lit_remove_s(),
{
    let mut v: Vec<u8> = Vec::new();
    v.push(45u8);
    v.push(45u8);
    v.push(114u8);
    v.push(101u8);
    v.push(109u8);
    v.push(111u8);
    v.push(118u8);
    v.push(101u8);
    proof {
        assert(v@ =~= lit_remove_s());
    }
    v
}

/// The bytes of `"--remove"`.
pub open spec fn lit_remove_s() -> Seq<u8> {
    seq![45u8, 45u8, 114u8, 101u8, 109u8, 111u8, 118u8, 101u8]
}

fn lit_verify() -> (r: Vec<u8>)
    ensures
        r@ == lit_verify_s(),
{
    let mut v: Vec<u8> = Vec::new();
    v.push(45u8);
    v.push(45u8);
    v.push(118u8);
    v.push(101u8);
    v.push(114u8);
    v.push(105u8);
    v.push(102u8);
    v.push(121u8);
    proof {
        assert(v@ =~= lit_verify_s());
    }
    v
}

/// The bytes of `"--verify"`.
pub open spec fn lit_verify_s() -> Seq<u8> {
    seq![45u8, 45u8, 118u8, 101u8, 114u8, 105u8, 102u8, 121u8]
}

fn lit_sign_flag() -> (r: Vec<u8>)
    ensures
        r@ == lit_sign_flag_s(),
{
    let mut v: Vec<u8> = Vec::new();
    v.push(45u8);
    v.push(45u8);
    v.push(115u8);
    v.push(105u8);
    v.push(103u8);
    v.push(110u8);
    proof {
        assert(v@ =~= lit_sign_flag_s());
    }
    v
}

/// The bytes of `"--sign"`.
pub open spec fn lit_sign_flag_s() -> Seq<u8> {
    seq![45u8, 45u8, 115u8, 105u8, 103u8, 110u8]
}

fn lit_key_flag() -> (r: Vec<u8>)
    ensures
        r@ == lit_key_flag_s(),
{
    let mut v: Vec<u8> = Vec::new();
    v.push(45u8);
    v.push(45u8);
    v.push(107u8);
    v.push(101u8);
    v.push(121u8);
    proof {
        assert(v@ =~= lit_key_flag_s());
    }
    v
}

/// The bytes of `"--key"`.
pub open spec fn lit_key_flag_s() -> Seq<u8> {
    seq![45u8, 45u8, 107u8, 101u8, 121u8]
}

fn lit_repo_add() -> (r: Vec<u8>)
    ensures
        r@ == lit_repo_add_s(),
{
    let mut v: Vec<u8> = Vec::new();
    v.push(114u8);
    v.push(101u8);
    v.push(112u8);
    v.push(111u8);
    v.push(45u8);
    v.push(97u8);
    v.push(100u8);
    v.push(100u8);
    proof {
        assert(v@ =~= lit_repo_add_s());
    }
    v
}

/// The bytes of `"repo-add"`.
pub open spec fn lit_repo_add_s() -> Seq<u8> {
    seq![114u8, 101u8, 112u8, 111u8, 45u8, 97u8, 100u8, 100u8]
}

fn lit_repo_remove() -> (r: Vec<u8>)
    ensures
        r@ == lit_repo_remove_s(),
{
    let mut v: Vec<u8> = Vec::new();
    v.push(114u8);
    v.push(101u8);
    v.push(112u8);
    v.push(111u8);
    v.push(45u8);
    v.push(114u8);
    v.push(101u8);
    v.push(109u8);
    v.push(111u8);
    v.push(118u8);
    v.push(101u8);
    proof {
        assert(v@ =~= lit_repo_remove_s());
    }
    v
}

/// The bytes of `"repo-remove"`.
pub open spec fn lit_repo_remove_s() -> Seq<u8> {
    seq![114u8, 101u8, 112u8, 111u8, 45u8, 114u8, 101u8, 109u8, 111u8, 118u8, 101u8]
}

fn lit_db_sig_glob() -> (r: Vec<u8>)
    ensures
        r@ == lit_db_sig_glob_s(),
{
    let mut v: Vec<u8> = Vec::new();
    v.push(46u8);
    v.push(100u8);
    v.push(98u8);
    v.push(42u8);
    v.push(46u8);
    v.push(115u8);
    v.push(105u8);
    v.push(103u8);
    proof {
        assert(v@ =~= lit_db_sig_glob_s());
    }
    v
}

/// The bytes of `".db*.sig"`.
pub open spec fn lit_db_sig_glob_s() -> Seq<u8> {
    seq![46u8, 100u8, 98u8, 42u8, 46u8, 115u8, 105u8, 103u8]
}

fn lit_files_sig_glob() -> (r: Vec<u8>)
    ensures
        r@ == lit_files_sig_glob_s(),
{
    let mut v: Vec<u8> = Vec::new();
    v.push(46u8);
    v.push(102u8);
    v.push(105u8);
    v.push(108u8);
    v.push(101u8);
    v.push(115u8);
    v.push(42u8);
    v.push(46u8);
    v.push(115u8);
    v.push(105u8);
    v.push(103u8);
    proof {
        assert(v@ =~= lit_files_sig_glob_s());
    }
    v
}

/// The bytes of `".files*.sig"`.
pub open spec fn lit_files_sig_glob_s() -> Seq<u8> {
    seq![46u8, 102u8, 105u8, 108u8, 101u8, 115u8, 42u8, 46u8, 115u8, 105u8, 103u8]
}

/// The local mirror directory a backend implies: its own path for a local
/// store, a per-repository cache directory otherwise.
pub open spec fn local_dir_view(backend: Backend, cache_dir: Seq<u8>, name: Seq<u8>) -> Seq<u8> {
    match backend {
        Backend::Local { path } => path@,
        _ => cache_dir + lit_repos_sub_s() + name,
    }
}

impl Repo {
    /// Builds the repository value from its configuration: name, optional
    /// database name, signing flag, backend and the cache directory the
    /// mirrors and containers live under.
    pub fn new(
        name: &[u8],
        db_name: Option<&Vec<u8>>,
        sign_db: bool,
        backend: Backend,
        cache_dir: &[u8],
    ) -> (r: Repo)
        ensures
            r.name@ == name@,
            r.db_name@ == (match db_name {
                Some(d) => d@,
                None => name@,
            }),
            r.sign_db == sign_db,
            r.backend == backend,
            r.local_dir@ == local_dir_view(backend, cache_dir@, name@),
            r.chroot_dir@ == cache_dir@ + lit_chroots_sub_s() + name@,
    {
        let local_dir: Vec<u8> = match &backend {
            Backend::Local { path } => copy_range(path.as_slice(), 0, path.len()),
            _ => {
                let mut v: Vec<u8> = Vec::new();
                append_bytes(&mut v, cache_dir);
                let sub = lit_repos_sub();
                append_bytes(&mut v, sub.as_slice());
                append_bytes(&mut v, name);
                v
            },
        };
        proof {
            assert(local_dir@ =~= local_dir_view(backend, cache_dir@, name@));
        }
        let mut chroot_dir: Vec<u8> = Vec::new();
        append_bytes(&mut chroot_dir, cache_dir);
        let sub = lit_chroots_sub();
        append_bytes(&mut chroot_dir, sub.as_slice());
        append_bytes(&mut chroot_dir, name);
        let db_name_v: Vec<u8> = match db_name {
            Some(d) => copy_range(d.as_slice(), 0, d.len()),
            None => copy_range(name, 0, name.len()),
        };
        proof {
            assert(db_name_v@ =~= (match db_name {
                Some(d) => d@,
                None => name@,
            }));
        }
        Repo {
            name: copy_range(name, 0, name.len()),
            db_name: db_name_v,
            sign_db,
            backend,
            local_dir,
            chroot_dir,
        }
    }

    /// The path of the repository database file.
    pub fn db_path(&self) -> (r: Vec<u8>)
        ensures
            r@ == self.local_dir@ + seq![47u8] + self.db_name@ + lit_db_suffix_s(),
    {
        let mut v: Vec<u8> = Vec::new();
        append_bytes(&mut v, self.local_dir.as_slice());
        v.push(47u8);
        append_bytes(&mut v, self.db_name.as_slice());
        let sfx = lit_db_suffix();
        append_bytes(&mut v, sfx.as_slice());
        v
    }

    /// The path of the database archive `repo-add` and `repo-remove`
    /// mutate.
    pub fn db_archive_path(&self) -> (r: Vec<u8>)
        ensures
            r@ == self.local_dir@ + seq![47u8] + self.db_name@ + lit_db_archive_suffix_s(),
    {
        let mut v: Vec<u8> = Vec::new();
        append_bytes(&mut v, self.local_dir.as_slice());
        v.push(47u8);
        append_bytes(&mut v, self.db_name.as_slice());
        let sfx = lit_db_archive_suffix();
        append_bytes(&mut v, sfx.as_slice());
        v
    }

    /// The two glob patterns of the database signature files, deleted when
    /// the database is no longer to be signed.
    pub fn db_sig_patterns(&self) -> (r: (Vec<u8>, Vec<u8>))
        ensures
            r.0@ == self.local_dir@ + seq![47u8] + self.name@ + lit_db_sig_glob_s(),
            r.1@ == self.local_dir@ + seq![47u8] + self.name@ + lit_files_sig_glob_s(),
    {
        let mut a: Vec<u8> = Vec::new();
        append_bytes(&mut a, self.local_dir.as_slice());
        a.push(47u8);
        append_bytes(&mut a, self.name.as_slice());
        let g1 = lit_db_sig_glob();
        append_bytes(&mut a, g1.as_slice());
        let mut b: Vec<u8> = Vec::new();
        append_bytes(&mut b, self.local_dir.as_slice());
        b.push(47u8);
        append_bytes(&mut b, self.name.as_slice());
        let g2 = lit_files_sig_glob();
        append_bytes(&mut b, g2.as_slice());
        (a, b)
    }
}

/// The names that a processing step works on: the requested ones that the
/// database holds, or every database name when nothing specific was
/// requested.
pub fn valid_pkg_names(db_names: &Vec<Vec<u8>>, requested: Option<&Vec<Vec<u8>>>) -> (r: Vec<
    Vec<u8>,
>)
    ensures
        match requested {
            Some(ns) => r.deep_view() == clone_filter(
                ns@.map_values(|v: Vec<u8>| v@),
                db_names.deep_view(),
            ),
            None => r.deep_view() == db_names.deep_view(),
        },
{
    let mut r: Vec<Vec<u8>> = Vec::new();
    match requested {
        Some(ns) => {
            let mut i: usize = 0;
            while i < ns.len()
                invariant
                    i <= ns@.len(),
                    r.deep_view() =~= clone_filter(
                        ns@.take(i as int).map_values(|v: Vec<u8>| v@),
                        db_names.deep_view(),
                    ),
                decreases ns@.len() - i,
            {
                let ghost pre = ns@.take(i as int).map_values(|v: Vec<u8>| v@);
                let ghost cur = ns@.take(i + 1).map_values(|v: Vec<u8>| v@);
                let ghost old_deep = r.deep_view();
                proof {
                    assert(cur.drop_last() =~= pre);
                    assert(cur.last() == ns@[i as int]@);
                }
                if crate::bytes::contains_bytes(db_names, ns[i].as_slice()) {
                    let n = copy_range(ns[i].as_slice(), 0, ns[i].len());
                    proof {
                        assert(n@ =~= ns@[i as int]@);
                    }
                    r.push(n);
                    proof {
                        assert forall|x: int|
                            0 <= x < r@.len() implies r.deep_view()[x] == old_deep.push(
                            ns@[i as int]@,
                        )[x] by {
                            assert(r.deep_view()[x] == r@[x].deep_view());
                            assert(r@[x].deep_view() =~= r@[x]@);
                            if x < old_deep.len() {
                                assert(old_deep[x] == r@[x].deep_view());
                            }
                        }
                        assert(r.deep_view() =~= old_deep.push(ns@[i as int]@));
                    }
                }
                i = i + 1;
            }
            proof {
                assert(ns@.take(ns@.len() as int) =~= ns@);
            }
        },
        None => {
            let mut i: usize = 0;
            while i < db_names.len()
                invariant
                    i <= db_names@.len(),
                    r@.len() == i,
                    forall|x: int| 0 <= x < i ==> r@[x]@ == db_names@[x]@,
                decreases db_names@.len() - i,
            {
                let n = copy_range(db_names[i].as_slice(), 0, db_names[i].len());
                proof {
                    assert(n@ =~= db_names@[i as int]@);
                }
                r.push(n);
                i = i + 1;
            }
            proof {
                assert forall|x: int|
                    0 <= x < r@.len() implies r.deep_view()[x] == db_names.deep_view()[x] by {
                    assert(r.deep_view()[x] == r@[x].deep_view());
                    assert(r@[x].deep_view() =~= r@[x]@);
                    assert(db_names.deep_view()[x] == db_names@[x].deep_view());
                    assert(db_names@[x].deep_view() =~= db_names@[x]@);
                }
                assert(r.deep_view() =~= db_names.deep_view());
            }
        },
    }
    r
}

/// The argument list of one batched database mutation: the fixed flags, the
/// signing block when the database is signed, the archive, then the whole
/// batch.
pub open spec fn db_cmd_args_spec(
    fixed: Seq<Seq<u8>>,
    sign_db: bool,
    key: Seq<u8>,
    archive: Seq<u8>,
    batch: Seq<Seq<u8>>,
) -> Seq<Seq<u8>> {
    fixed + (if sign_db {
        seq![lit_sign_flag_s(), lit_key_flag_s(), key]
    } else {
        Seq::<Seq<u8>>::empty()
    }) + seq![archive] + batch
}

impl Repo {
    /// The `repo-add` invocation that adds the built packages to the
    /// database in one batch.  Fails when the database must be signed and
    /// no key is configured.
    pub fn repo_add_cmd(&self, gpg_key: Option<&Vec<u8>>, pkg_files: &Vec<Vec<u8>>) -> (r: Result<
        (Vec<u8>, Vec<Vec<u8>>),
        RepoError,
    >)
        ensures
            self.sign_db && gpg_key is None ==> r == Err::<(Vec<u8>, Vec<Vec<u8>>), RepoError>(
                RepoError::SigningKeyMissing,
            ),
            !(self.sign_db && gpg_key is None) ==> match r {
                Ok(c) => c.0@ == lit_repo_add_s() && c.1.deep_view() == db_cmd_args_spec(
                    seq![lit_remove_s(), lit_verify_s()],
                    self.sign_db,
                    match gpg_key {
                        Some(k) => k@,
                        None => Seq::empty(),
                    },
                    self.local_dir@ + seq![47u8] + self.db_name@ + lit_db_archive_suffix_s(),
                    pkg_files.deep_view(),
                ),
                Err(_) => false,
            },
    {
        if self.sign_db && matches!(gpg_key, None) {
            return Err(RepoError::SigningKeyMissing);
        }
        let mut args: Vec<Vec<u8>> = Vec::new();
        args.push(lit_remove());
        args.push(lit_verify());
        if self.sign_db {
            args.push(lit_sign_flag());
            args.push(lit_key_flag());
            match gpg_key {
                Some(k) => {
                    let kc = copy_range(k.as_slice(), 0, k.len());
                    proof {
                        assert(kc@ =~= k@);
                    }
                    args.push(kc);
                },
                None => {
                    proof {
                        assert(false);
                    }
                },
            }
        }
        args.push(self.db_archive_path());
        let ghost head = args.deep_view();
        proof {
            crate::bytes::lemma_deep_elems(&args);
            assert(head =~= seq![lit_remove_s(), lit_verify_s()] + (if self.sign_db {
                seq![
                    lit_sign_flag_s(),
                    lit_key_flag_s(),
                    match gpg_key {
                        Some(k) => k@,
                        None => Seq::empty(),
                    },
                ]
            } else {
                Seq::<Seq<u8>>::empty()
            }) + seq![self.local_dir@ + seq![47u8] + self.db_name@ + lit_db_archive_suffix_s()]);
        }
        let mut i: usize = 0;
        while i < pkg_files.len()
            invariant
                i <= pkg_files@.len(),
                args.deep_view() =~= head + pkg_files.deep_view().take(i as int),
            decreases pkg_files@.len() - i,
        {
            let ghost old_deep = args.deep_view();
            let f = copy_range(pkg_files[i].as_slice(), 0, pkg_files[i].len());
            proof {
                assert(f@ =~= pkg_files.deep_view()[i as int]);
            }
            args.push(f);
            proof {
                assert forall|x: int|
                    0 <= x < args@.len() implies args.deep_view()[x] == old_deep.push(
                    pkg_files.deep_view()[i as int],
                )[x] by {
                    assert(args.deep_view()[x] == args@[x].deep_view());
                    assert(args@[x].deep_view() =~= args@[x]@);
                    if x < old_deep.len() {
                        assert(old_deep[x] == args@[x].deep_view());
                    }
                }
                assert(args.deep_view() =~= old_deep.push(pkg_files.deep_view()[i as int]));
                assert(head + pkg_files.deep_view().take(i as int) + seq![pkg_files.deep_view()[
                    i as int]] =~= head + pkg_files.deep_view().take(i + 1));
            }
            i = i + 1;
        }
        proof {
            assert(pkg_files.deep_view().take(pkg_files.deep_view().len() as int)
                =~= pkg_files.deep_view());
            assert(args.deep_view() =~= db_cmd_args_spec(
                seq![lit_remove_s(), lit_verify_s()],
                self.sign_db,
                match gpg_key {
                    Some(k) => k@,
                    None => Seq::empty(),
                },
                self.local_dir@ + seq![47u8] + self.db_name@ + lit_db_archive_suffix_s(),
                pkg_files.deep_view(),
            ));
        }
        Ok((lit_repo_add(), args))
    }

    /// The `repo-remove` invocation that removes the named packages from
    /// the database in one batch.  Fails when the database must be signed
    /// and no key is configured.
    pub fn repo_remove_cmd(&self, gpg_key: Option<&Vec<u8>>, pkg_names: &Vec<Vec<u8>>) -> (r:
        Result<(Vec<u8>, Vec<Vec<u8>>), RepoError>)
        ensures
            self.sign_db && gpg_key is None ==> r == Err::<(Vec<u8>, Vec<Vec<u8>>), RepoError>(
                RepoError::SigningKeyMissing,
            ),
            !(self.sign_db && gpg_key is None) ==> match r {
                Ok(c) => c.0@ == lit_repo_remove_s() && c.1.deep_view() == db_cmd_args_spec(
                    seq![lit_verify_s()],
                    self.sign_db,
                    match gpg_key {
                        Some(k) => k@,
                        None => Seq::empty(),
                    },
                    self.local_dir@ + seq![47u8] + self.db_name@ + lit_db_archive_suffix_s(),
                    pkg_names.deep_view(),
                ),
                Err(_) => false,
            },
    {
        if self.sign_db && matches!(gpg_key, None) {
            return Err(RepoError::SigningKeyMissing);
        }
        let mut args: Vec<Vec<u8>> = Vec::new();
        args.push(lit_verify());
        if self.sign_db {
            args.push(lit_sign_flag());
            args.push(lit_key_flag());
            match gpg_key {
                Some(k) => {
                    let kc = copy_range(k.as_slice(), 0, k.len());
                    proof {
                        assert(kc@ =~= k@);
                    }
                    args.push(kc);
                },
                None => {
                    proof {
                        assert(false);
                    }
                },
            }
        }
        args.push(self.db_archive_path());
        let ghost head = args.deep_view();
        proof {
            crate::bytes::lemma_deep_elems(&args);
            assert(head =~= seq![lit_verify_s()] + (if self.sign_db {
                seq![
                    lit_sign_flag_s(),
                    lit_key_flag_s(),
                    match gpg_key {
                        Some(k) => k@,
                        None => Seq::empty(),
                    },
                ]
            } else {
                Seq::<Seq<u8>>::empty()
            }) + seq![self.local_dir@ + seq![47u8] + self.db_name@ + lit_db_archive_suffix_s()]);
        }
        let mut i: usize = 0;
        while i < pkg_names.len()
            invariant
                i <= pkg_names@.len(),
                args.deep_view() =~= head + pkg_names.deep_view().take(i as int),
            decreases pkg_names@.len() - i,
        {
            let ghost old_deep = args.deep_view();
            let f = copy_range(pkg_names[i].as_slice(), 0, pkg_names[i].len());
            proof {
                assert(f@ =~= pkg_names.deep_view()[i as int]);
            }
            args.push(f);
            proof {
                assert forall|x: int|
                    0 <= x < args@.len() implies args.deep_view()[x] == old_deep.push(
                    pkg_names.deep_view()[i as int],
                )[x] by {
                    assert(args.deep_view()[x] == args@[x].deep_view());
                    assert(args@[x].deep_view() =~= args@[x]@);
                    if x < old_deep.len() {
                        assert(old_deep[x] == args@[x].deep_view());
                    }
                }
                assert(args.deep_view() =~= old_deep.push(pkg_names.deep_view()[i as int]));
                assert(head + pkg_names.deep_view().take(i as int) + seq![pkg_names.deep_view()[
                    i as int]] =~= head + pkg_names.deep_view().take(i + 1));
            }
            i = i + 1;
        }
        proof {
            assert(pkg_names.deep_view().take(pkg_names.deep_view().len() as int)
                =~= pkg_names.deep_view());
            assert(args.deep_view() =~= db_cmd_args_spec(
                seq![lit_verify_s()],
                self.sign_db,
                match gpg_key {
                    Some(k) => k@,
                    None => Seq::empty(),
                },
                self.local_dir@ + seq![47u8] + self.db_name@ + lit_db_archive_suffix_s(),
                pkg_names.deep_view(),
            ));
        }
        Ok((lit_repo_remove(), args))
    }
}

} // verus!
