//! The build-output planner.
//!
//! One build source yields one or more predicted output files.  After the
//! external build ran, each predicted output is located among the produced
//! files through its version-agnostic pattern (the built version may differ
//! from the predicted one); an output that was not produced is skipped and
//! the rest of the batch goes on.  For each located file the planner
//! decides the signing (explicit, or sticky: sign when an older version in
//! the repository was signed), the older files to delete first, and the
//! destination — deletion strictly precedes the move, so the fresh file is
//! never deleted.

use crate::bytes::{append_bytes, copy_range};
use crate::error::RepoError;
use crate::glob::{glob_match, glob_matches};
use crate::identity::{
    glob_view, id_wf, is_pkg_path, lemma_path_unique, old_file_of, path_view, sig_suffix, the_id,
    IdView, PkgIdentity,
};
use vstd::prelude::*;

verus! {

/// One planned output: the produced file, where it goes, what older files
/// leave the repository before the move, and whether to sign afterwards.
#[derive(Debug)]
pub struct OutputAction {
    /// The file the build produced.
    pub produced_file: Vec<u8>,
    /// Its destination path in the repository directory.
    pub dest: Vec<u8>,
    /// Older files of the same package (and their signatures) to delete
    /// before the move.
    pub remove_first: Vec<Vec<u8>>,
    /// Whether the moved file is signed afterwards.
    pub sign_it: bool,
}

/// The outcome of planning one build source: the actions for the outputs
/// that were produced, and the predicted outputs that were not.
#[derive(Debug)]
pub struct BuildPlan {
    pub actions: Vec<OutputAction>,
    pub skipped: Vec<Vec<u8>>,
}

/// Index of the first produced file matching the pattern.
pub open spec fn first_glob_match(produced: Seq<Seq<u8>>, pat: Seq<u8>) -> Option<int>
    decreases produced.len(),
{
    if produced.len() == 0 {
        None
    } else if glob_match(pat, produced.first()) {
        Some(0)
    } else {
        match first_glob_match(produced.drop_first(), pat) {
            Some(i) => Some(i + 1),
            None => None,
        }
    }
}

proof fn lemma_first_glob_some(produced: Seq<Seq<u8>>, pat: Seq<u8>, i: int)
    requires
        0 <= i < produced.len(),
        glob_match(pat, produced[i]),
        forall|j: int| 0 <= j < i ==> !glob_match(pat, #[trigger] produced[j]),
    ensures
        first_glob_match(produced, pat) == Some(i),
    decreases i,
{
    if i == 0 {
    } else {
        assert(!glob_match(pat, produced.first()));
        assert(produced.drop_first()[i - 1] == produced[i]);
        assert forall|j: int| 0 <= j < i - 1 implies !glob_match(
            pat,
            #[trigger] produced.drop_first()[j],
        ) by {
            assert(produced.drop_first()[j] == produced[j + 1]);
        }
        lemma_first_glob_some(produced.drop_first(), pat, i - 1);
    }
}

proof fn lemma_first_glob_none(produced: Seq<Seq<u8>>, pat: Seq<u8>)
    requires
        forall|j: int| 0 <= j < produced.len() ==> !glob_match(pat, #[trigger] produced[j]),
    ensures
        first_glob_match(produced, pat) is None,
    decreases produced.len(),
{
    if produced.len() > 0 {
        assert forall|j: int| 0 <= j < produced.drop_first().len() implies !glob_match(
            pat,
            #[trigger] produced.drop_first()[j],
        ) by {
            assert(produced.drop_first()[j] == produced[j + 1]);
        }
        lemma_first_glob_none(produced.drop_first(), pat);
    }
}

/// The first produced file matching the pattern, by scan.
fn find_first_match(produced: &Vec<Vec<u8>>, pat: &[u8]) -> (r: Option<usize>)
    ensures
        match r {
            Some(i) => i < produced@.len() && first_glob_match(produced.deep_view(), pat@)
                == Some(i as int),
            None => first_glob_match(produced.deep_view(), pat@) is None,
        },
{
    let mut i: usize = 0;
    while i < produced.len()
        invariant
            i <= produced@.len(),
            forall|j: int| 0 <= j < i ==> !glob_match(pat@, #[trigger] produced.deep_view()[j]),
        decreases produced@.len() - i,
    {
        proof {
            assert(produced.deep_view()[i as int] =~= produced@[i as int]@);
        }
        if glob_matches(pat, produced[i].as_slice()) {
            proof {
                lemma_first_glob_some(produced.deep_view(), pat@, i as int);
            }
            return Some(i);
        }
        i = i + 1;
    }
    proof {
        lemma_first_glob_none(produced.deep_view(), pat@);
    }
    None
}

/// The signature pattern of an identity in the repository directory:
/// `REPO/NAME-*-*-ARCH.EXT.sig`.
pub open spec fn sig_glob(id: IdView, repo_dir: Seq<u8>) -> Seq<u8> {
    glob_view(id, repo_dir + seq![47u8]) + sig_suffix()
}

/// Sticky signing: an older version of the same package in the repository
/// already carries a signature.
pub open spec fn sticky_sign(id: IdView, repo_dir: Seq<u8>, repo_files: Seq<Seq<u8>>) -> bool {
    exists|k: int|
        0 <= k < repo_files.len() && glob_match(sig_glob(id, repo_dir), #[trigger] repo_files[k])
}

/// Whether an older signed version of `id` is in the repository.
fn has_signed_old_version(id: &PkgIdentity, repo_dir: &[u8], repo_files: &Vec<Vec<u8>>) -> (r:
    bool)
    ensures
        r == sticky_sign(id@, repo_dir@, repo_files.deep_view()),
{
    let mut pat = id.version_agnostic_glob(Some(repo_dir));
    pat.push(46u8);
    pat.push(115u8);
    pat.push(105u8);
    pat.push(103u8);
    proof {
        assert(pat@ =~= sig_glob(id@, repo_dir@));
    }
    let mut k: usize = 0;
    while k < repo_files.len()
        invariant
            k <= repo_files@.len(),
            pat@ == sig_glob(id@, repo_dir@),
            forall|j: int|
                0 <= j < k ==> !glob_match(
                    sig_glob(id@, repo_dir@),
                    #[trigger] repo_files.deep_view()[j],
                ),
        decreases repo_files@.len() - k,
    {
        proof {
            assert(repo_files.deep_view()[k as int] =~= repo_files@[k as int]@);
        }
        if glob_matches(pat.as_slice(), repo_files[k].as_slice()) {
            return true;
        }
        k = k + 1;
    }
    false
}

/// The files of the same package — any version — in the repository, with
/// their signatures, in listing order.
pub open spec fn old_files(id: IdView, repo_dir: Seq<u8>, repo_files: Seq<Seq<u8>>) -> Seq<Seq<u8>>
    decreases repo_files.len(),
{
    if repo_files.len() == 0 {
        Seq::empty()
    } else {
        old_files(id, repo_dir, repo_files.drop_last()) + if old_file_of(
            id,
            repo_dir,
            repo_files.last(),
        ) {
            seq![repo_files.last()]
        } else {
            Seq::empty()
        }
    }
}

/// Collects the removal candidates for one identity.
fn collect_old_files(id: &PkgIdentity, repo_dir: &[u8], repo_files: &Vec<Vec<u8>>) -> (r: Vec<
    Vec<u8>,
>)
    ensures
        r.deep_view() == old_files(id@, repo_dir@, repo_files.deep_view()),
{
    let ghost fs = repo_files.deep_view();
    let mut r: Vec<Vec<u8>> = Vec::new();
    let mut k: usize = 0;
    while k < repo_files.len()
        invariant
            k <= repo_files@.len(),
            fs == repo_files.deep_view(),
            r.deep_view() =~= old_files(id@, repo_dir@, fs.take(k as int)),
        decreases repo_files@.len() - k,
    {
        let ghost old_deep = r.deep_view();
        proof {
            assert(fs.take(k + 1).drop_last() =~= fs.take(k as int));
            assert(fs.take(k + 1).last() == fs[k as int]);
            assert(fs[k as int] == repo_files@[k as int]@);
        }
        if id.matches_old_file(repo_dir, repo_files[k].as_slice()) {
            let fc = copy_range(repo_files[k].as_slice(), 0, repo_files[k].len());
            proof {
                assert(fc@ =~= fs[k as int]);
            }
            r.push(fc);
            proof {
                assert forall|x: int| 0 <= x < r@.len() implies r.deep_view()[x] == old_deep.push(
                    fs[k as int],
                )[x] by {
                    assert(r.deep_view()[x] == r@[x].deep_view());
                    assert(r@[x].deep_view() =~= r@[x]@);
                    if x < old_deep.len() {
                        assert(old_deep[x] == r@[x].deep_view());
                    }
                }
                assert(r.deep_view() =~= old_deep.push(fs[k as int]));
            }
        }
        k = k + 1;
    }
    proof {
        assert(fs.take(fs.len() as int) =~= fs);
    }
    r
}

/// The destination of an identity inside the repository directory.
pub open spec fn dest_path(id: IdView, repo_dir: Seq<u8>) -> Seq<u8> {
    path_view(IdView { dir: repo_dir + seq![47u8], ..id })
}

/// One spec-level action row: produced file, destination, removals, sign.
pub open spec fn action_rows(acts: Seq<OutputAction>) -> Seq<
    (Seq<u8>, Seq<u8>, Seq<Seq<u8>>, bool),
> {
    acts.map_values(
        |a: OutputAction| (a.produced_file@, a.dest@, a.remove_first.deep_view(), a.sign_it),
    )
}

/// The planned actions and skipped outputs for a list of predicted files,
/// in order.  A predicted output is skipped when it does not parse or when
/// no produced file matches its version-agnostic pattern; otherwise the
/// first matching produced file is processed: older same-package files are
/// removed, the file moves in, and it is signed on explicit request or
/// stickily.
pub open spec fn plan_spec(
    predicted: Seq<Seq<u8>>,
    produced: Seq<Seq<u8>>,
    repo_files: Seq<Seq<u8>>,
    repo_dir: Seq<u8>,
    sign: Option<bool>,
) -> (Seq<(Seq<u8>, Seq<u8>, Seq<Seq<u8>>, bool)>, Seq<Seq<u8>>)
    decreases predicted.len(),
{
    if predicted.len() == 0 {
        (Seq::empty(), Seq::empty())
    } else {
        let rest = plan_spec(predicted.drop_last(), produced, repo_files, repo_dir, sign);
        let p = predicted.last();
        if !is_pkg_path(p) {
            (rest.0, rest.1 + seq![p])
        } else {
            let id = the_id(p);
            match first_glob_match(produced, glob_view(id, id.dir)) {
                None => (rest.0, rest.1 + seq![p]),
                Some(fi) => {
                    let f = produced[fi];
                    if !is_pkg_path(f) {
                        (rest.0, rest.1 + seq![p])
                    } else {
                        let idf = the_id(f);
                        let s = match sign {
                            Some(x) => x,
                            None => sticky_sign(idf, repo_dir, repo_files),
                        };
                        (
                            rest.0 + seq![
                                (
                                    f,
                                    dest_path(idf, repo_dir),
                                    old_files(idf, repo_dir, repo_files),
                                    s,
                                ),
                            ],
                            rest.1,
                        )
                    }
                },
            }
        }
    }
}

/// Every predicted output is accounted for: it is either planned or
/// skipped, never both, never lost — a partial batch never aborts the run.
pub proof fn lemma_plan_partition(
    predicted: Seq<Seq<u8>>,
    produced: Seq<Seq<u8>>,
    repo_files: Seq<Seq<u8>>,
    repo_dir: Seq<u8>,
    sign: Option<bool>,
)
    ensures
        plan_spec(predicted, produced, repo_files, repo_dir, sign).0.len() + plan_spec(
            predicted,
            produced,
            repo_files,
            repo_dir,
            sign,
        ).1.len() == predicted.len(),
    decreases predicted.len(),
{
    if predicted.len() > 0 {
        lemma_plan_partition(predicted.drop_last(), produced, repo_files, repo_dir, sign);
    }
}

/// Plans the processing of one build source's outputs.  Fails fast when
/// signing is requested without a key; fails when the source predicts no
/// output at all; fails when a sticky signature is owed and no key is
/// configured.  Otherwise the plan covers every predicted output, as an
/// action or as a skip.
pub fn plan_build(
    predicted: &Vec<Vec<u8>>,
    produced: &Vec<Vec<u8>>,
    repo_files: &Vec<Vec<u8>>,
    repo_dir: &[u8],
    sign: Option<bool>,
    have_key: bool,
) -> (r: Result<BuildPlan, RepoError>)
    ensures
        ({
            let spec_plan = plan_spec(
                predicted.deep_view(),
                produced.deep_view(),
                repo_files.deep_view(),
                repo_dir@,
                sign,
            );
            match r {
                Ok(plan) => {
                    &&& !(sign == Some(true) && !have_key)
                    &&& predicted.deep_view().len() > 0
                    &&& action_rows(plan.actions@) == spec_plan.0
                    &&& plan.skipped.deep_view() == spec_plan.1
                    &&& forall|k: int|
                        0 <= k < plan.actions@.len() ==> (#[trigger] plan.actions@[k].sign_it
                            ==> have_key)
                },
                Err(e) => {
                    &&& (e == RepoError::SigningKeyMissing || e == RepoError::NoOutputsDeclared)
                    &&& (e == RepoError::NoOutputsDeclared <==> !(sign == Some(true) && !have_key)
                        && predicted.deep_view().len() == 0)
                    &&& (e == RepoError::SigningKeyMissing ==> (sign == Some(true) && !have_key)
                        || (!have_key && exists|k: int|
                            0 <= k < spec_plan.0.len() && (#[trigger] spec_plan.0[k]).3))
                },
            }
        }),
{
    let ghost preds = predicted.deep_view();
    if matches!(sign, Some(true)) && !have_key {
        return Err(RepoError::SigningKeyMissing);
    }
    if predicted.len() == 0 {
        proof {
            assert(predicted.deep_view().len() == predicted@.len());
        }
        return Err(RepoError::NoOutputsDeclared);
    }
    proof {
        assert(predicted.deep_view().len() == predicted@.len());
    }
    let mut actions: Vec<OutputAction> = Vec::new();
    let mut skipped: Vec<Vec<u8>> = Vec::new();
    let mut i: usize = 0;
    while i < predicted.len()
        invariant
            i <= predicted@.len(),
            preds == predicted.deep_view(),
            !(sign == Some(true) && !have_key),
            action_rows(actions@) =~= plan_spec(
                preds.take(i as int),
                produced.deep_view(),
                repo_files.deep_view(),
                repo_dir@,
                sign,
            ).0,
            skipped.deep_view() =~= plan_spec(
                preds.take(i as int),
                produced.deep_view(),
                repo_files.deep_view(),
                repo_dir@,
                sign,
            ).1,
        decreases predicted@.len() - i,
    {
        let p = &predicted[i];
        let ghost old_rows = action_rows(actions@);
        let ghost old_skips = skipped.deep_view();
        proof {
            assert(preds.take(i + 1).drop_last() =~= preds.take(i as int));
            assert(preds.take(i + 1).last() == preds[i as int]);
            assert(preds[i as int] == predicted@[i as int]@);
        }
        let mut done = false;
        match PkgIdentity::parse(p.as_slice()) {
            Err(_) => {},
            Ok(id) => {
                proof {
                    let t = the_id(preds[i as int]);
                    assert(id_wf(t) && path_view(t) == preds[i as int]);
                    lemma_path_unique(id@, t);
                }
                let pat = id.version_agnostic_glob(None);
                proof {
                    assert(glob_view(id@, id@.dir) =~= glob_view(
                        the_id(preds[i as int]),
                        the_id(preds[i as int]).dir,
                    ));
                }
                match find_first_match(produced, pat.as_slice()) {
                    None => {},
                    Some(fi) => {
                        match PkgIdentity::parse(produced[fi].as_slice()) {
                            Err(_) => {
                                proof {
                                    assert(produced.deep_view()[fi as int]
                                        =~= produced@[fi as int]@);
                                }
                            },
                            Ok(idf) => {
                                proof {
                                    assert(produced.deep_view()[fi as int]
                                        =~= produced@[fi as int]@);
                                    let t = the_id(produced.deep_view()[fi as int]);
                                    assert(id_wf(t) && path_view(t) == produced.deep_view()[
                                        fi as int]);
                                    lemma_path_unique(idf@, t);
                                }
                                let sign_it = match sign {
                                    Some(x) => x,
                                    None => has_signed_old_version(&idf, repo_dir, repo_files),
                                };
                                let remove_first = collect_old_files(&idf, repo_dir, repo_files);
                                let mut dest_dir: Vec<u8> = Vec::new();
                                append_bytes(&mut dest_dir, repo_dir);
                                dest_dir.push(47u8);
                                let dest_id = PkgIdentity {
                                    dir: dest_dir,
                                    name: idf.name,
                                    version: idf.version,
                                    release: idf.release,
                                    arch: idf.arch,
                                    ext: idf.ext,
                                };
                                let dest = dest_id.path();
                                proof {
                                    assert(dest_id@ =~= (IdView {
                                        dir: repo_dir@ + seq![47u8],
                                        ..the_id(produced.deep_view()[fi as int])
                                    }));
                                }
                                let produced_file = copy_range(
                                    produced[fi].as_slice(),
                                    0,
                                    produced[fi].len(),
                                );
                                proof {
                                    assert(produced_file@ =~= produced.deep_view()[fi as int]);
                                }
                                actions.push(
                                    OutputAction { produced_file, dest, remove_first, sign_it },
                                );
                                done = true;
                                proof {
                                    let row = (
                                        produced.deep_view()[fi as int],
                                        dest_path(
                                            the_id(produced.deep_view()[fi as int]),
                                            repo_dir@,
                                        ),
                                        old_files(
                                            the_id(produced.deep_view()[fi as int]),
                                            repo_dir@,
                                            repo_files.deep_view(),
                                        ),
                                        sign_it,
                                    );
                                    assert(action_rows(actions@) =~= old_rows.push(row));
                                }
                            },
                        }
                    },
                }
            },
        }
        if !done {
            let pc = copy_range(p.as_slice(), 0, p.len());
            proof {
                assert(pc@ =~= preds[i as int]);
            }
            skipped.push(pc);
            proof {
                assert forall|x: int|
                    0 <= x < skipped@.len() implies skipped.deep_view()[x] == old_skips.push(
                    preds[i as int],
                )[x] by {
                    assert(skipped.deep_view()[x] == skipped@[x].deep_view());
                    assert(skipped@[x].deep_view() =~= skipped@[x]@);
                    if x < old_skips.len() {
                        assert(old_skips[x] == skipped@[x].deep_view());
                    }
                }
                assert(skipped.deep_view() =~= old_skips.push(preds[i as int]));
            }
        }
        i = i + 1;
    }
    proof {
        assert(preds.take(preds.len() as int) =~= preds);
    }
    // a sticky signature without a configured key aborts the batch
    if !have_key {
        let mut k: usize = 0;
        while k < actions.len()
            invariant
                k <= actions@.len(),
                !have_key,
                !(sign == Some(true) && !have_key),
                preds == predicted.deep_view(),
                preds.len() > 0,
                forall|j: int| 0 <= j < k ==> !#[trigger] actions@[j].sign_it,
                action_rows(actions@) == plan_spec(
                    preds,
                    produced.deep_view(),
                    repo_files.deep_view(),
                    repo_dir@,
                    sign,
                ).0,
            decreases actions@.len() - k,
        {
            if actions[k].sign_it {
                proof {
                    let spec_rows = plan_spec(
                        preds,
                        produced.deep_view(),
                        repo_files.deep_view(),
                        repo_dir@,
                        sign,
                    ).0;
                    assert(action_rows(actions@)[k as int].3);
                    assert((spec_rows[k as int]).3);
                    assert(exists|kk: int| 0 <= kk < spec_rows.len() && (#[trigger] spec_rows[kk]).3);
                }
                return Err(RepoError::SigningKeyMissing);
            }
            k = k + 1;
        }
    }
    Ok(BuildPlan { actions, skipped })
}

} // verus!
