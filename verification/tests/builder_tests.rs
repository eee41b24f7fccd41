use repman::builder::plan_build;
use repman::error::RepoError;

fn b(s: &str) -> Vec<u8> {
    s.as_bytes().to_vec()
}

const REPO: &[u8] = b"/srv/repo";

#[test]
fn explicit_signing_without_key_fails_fast() {
    let predicted = vec![b("/tmp/pkg/foo-1.0-1-x86_64.pkg.tar.zst")];
    let r = plan_build(&predicted, &Vec::new(), &Vec::new(), REPO, Some(true), false);
    assert_eq!(r.unwrap_err(), RepoError::SigningKeyMissing);
}

#[test]
fn no_predicted_outputs_is_an_error() {
    let r = plan_build(&Vec::new(), &Vec::new(), &Vec::new(), REPO, None, true);
    assert_eq!(r.unwrap_err(), RepoError::NoOutputsDeclared);
}

#[test]
fn partial_batch_is_tolerated() {
    // two predicted outputs, only one produced: one action, one logged skip
    let predicted = vec![
        b("/tmp/pkg/foo-1.0-1-x86_64.pkg.tar.zst"),
        b("/tmp/pkg/foo-debug-1.0-1-x86_64.pkg.tar.zst"),
    ];
    let produced = vec![b("/tmp/pkg/foo-1.0-1-x86_64.pkg.tar.zst")];
    let plan = plan_build(&predicted, &produced, &Vec::new(), REPO, Some(false), false).unwrap();
    assert_eq!(plan.actions.len(), 1);
    assert_eq!(plan.skipped, vec![b("/tmp/pkg/foo-debug-1.0-1-x86_64.pkg.tar.zst")]);
    assert_eq!(plan.actions[0].produced_file, b("/tmp/pkg/foo-1.0-1-x86_64.pkg.tar.zst"));
    assert_eq!(plan.actions[0].dest, b("/srv/repo/foo-1.0-1-x86_64.pkg.tar.zst"));
}

#[test]
fn version_rewrite_is_found_through_the_glob() {
    // the version hook changed 1.0-1 into 1.0.r5-1: the output is still found
    let predicted = vec![b("/tmp/pkg/foo-1.0-1-x86_64.pkg.tar.zst")];
    let produced = vec![b("/tmp/pkg/foo-1.0.r5-1-x86_64.pkg.tar.zst")];
    let plan = plan_build(&predicted, &produced, &Vec::new(), REPO, Some(false), false).unwrap();
    assert_eq!(plan.actions.len(), 1);
    assert_eq!(plan.actions[0].dest, b("/srv/repo/foo-1.0.r5-1-x86_64.pkg.tar.zst"));
}

#[test]
fn old_versions_are_removed_before_the_move() {
    let predicted = vec![b("/tmp/pkg/foo-2.0-1-x86_64.pkg.tar.zst")];
    let produced = vec![b("/tmp/pkg/foo-2.0-1-x86_64.pkg.tar.zst")];
    let repo_files = vec![
        b("/srv/repo/foo-1.0-1-x86_64.pkg.tar.zst"),
        b("/srv/repo/foo-1.0-1-x86_64.pkg.tar.zst.sig"),
        b("/srv/repo/bar-1.0-1-x86_64.pkg.tar.zst"),
    ];
    let plan = plan_build(&predicted, &produced, &repo_files, REPO, Some(false), false).unwrap();
    assert_eq!(plan.actions.len(), 1);
    assert_eq!(
        plan.actions[0].remove_first,
        vec![
            b("/srv/repo/foo-1.0-1-x86_64.pkg.tar.zst"),
            b("/srv/repo/foo-1.0-1-x86_64.pkg.tar.zst.sig"),
        ]
    );
}

#[test]
fn sticky_signing_follows_the_replaced_file() {
    let predicted = vec![b("/tmp/pkg/foo-2.0-1-x86_64.pkg.tar.zst")];
    let produced = vec![b("/tmp/pkg/foo-2.0-1-x86_64.pkg.tar.zst")];
    let signed_repo = vec![
        b("/srv/repo/foo-1.0-1-x86_64.pkg.tar.zst"),
        b("/srv/repo/foo-1.0-1-x86_64.pkg.tar.zst.sig"),
    ];
    let plan = plan_build(&predicted, &produced, &signed_repo, REPO, None, true).unwrap();
    assert!(plan.actions[0].sign_it);

    let unsigned_repo = vec![b("/srv/repo/foo-1.0-1-x86_64.pkg.tar.zst")];
    let plan = plan_build(&predicted, &produced, &unsigned_repo, REPO, None, true).unwrap();
    assert!(!plan.actions[0].sign_it);
}

#[test]
fn sticky_signature_owed_without_key_aborts() {
    let predicted = vec![b("/tmp/pkg/foo-2.0-1-x86_64.pkg.tar.zst")];
    let produced = vec![b("/tmp/pkg/foo-2.0-1-x86_64.pkg.tar.zst")];
    let signed_repo = vec![
        b("/srv/repo/foo-1.0-1-x86_64.pkg.tar.zst"),
        b("/srv/repo/foo-1.0-1-x86_64.pkg.tar.zst.sig"),
    ];
    let r = plan_build(&predicted, &produced, &signed_repo, REPO, None, false);
    assert_eq!(r.unwrap_err(), RepoError::SigningKeyMissing);
}

#[test]
fn explicit_no_sign_overrides_the_sticky_rule() {
    let predicted = vec![b("/tmp/pkg/foo-2.0-1-x86_64.pkg.tar.zst")];
    let produced = vec![b("/tmp/pkg/foo-2.0-1-x86_64.pkg.tar.zst")];
    let signed_repo = vec![
        b("/srv/repo/foo-1.0-1-x86_64.pkg.tar.zst"),
        b("/srv/repo/foo-1.0-1-x86_64.pkg.tar.zst.sig"),
    ];
    let plan = plan_build(&predicted, &produced, &signed_repo, REPO, Some(false), false).unwrap();
    assert!(!plan.actions[0].sign_it);
}
