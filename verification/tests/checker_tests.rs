use repman::checker::cleanup_plan;
use repman::db::DbPkg;

fn b(s: &str) -> Vec<u8> {
    s.as_bytes().to_vec()
}

fn record(name: &str, version: &str) -> DbPkg {
    DbPkg {
        name: b(name),
        version: b(version),
        arch: b("x86_64"),
        deps: Vec::new(),
        make_deps: Vec::new(),
        check_deps: Vec::new(),
    }
}

const DIR: &[u8] = b"/srv/repo";
const EXT: &[u8] = b".pkg.tar.zst";

#[test]
fn consistent_state_needs_no_repair() {
    let db = vec![record("foo", "1.0-1")];
    let files = vec![b("/srv/repo/foo-1.0-1-x86_64.pkg.tar.zst")];
    let plan = cleanup_plan(&db, &files, DIR, EXT);
    assert!(plan.db_removals.is_empty());
    assert!(plan.file_removals.is_empty());
    assert!(plan.sig_removals.is_empty());
}

#[test]
fn missing_file_drops_the_record() {
    let db = vec![record("foo", "1.0-1"), record("bar", "2.0-1")];
    let files = vec![b("/srv/repo/bar-2.0-1-x86_64.pkg.tar.zst")];
    let plan = cleanup_plan(&db, &files, DIR, EXT);
    assert_eq!(plan.db_removals, vec![b("foo")]);
    assert!(plan.file_removals.is_empty());
}

#[test]
fn unknown_file_is_deleted() {
    let db = vec![record("foo", "1.0-1")];
    let files = vec![
        b("/srv/repo/foo-1.0-1-x86_64.pkg.tar.zst"),
        b("/srv/repo/ghost-3.0-1-x86_64.pkg.tar.zst"),
    ];
    let plan = cleanup_plan(&db, &files, DIR, EXT);
    assert!(plan.db_removals.is_empty());
    assert_eq!(
        plan.file_removals,
        vec![b("/srv/repo/ghost-3.0-1-x86_64.pkg.tar.zst")]
    );
}

#[test]
fn file_of_a_name_dropped_in_the_first_pass_goes_too() {
    // the record's exact file is missing, so the name leaves the database;
    // the other-version file of that name is then deleted as well
    let db = vec![record("foo", "2.0-1")];
    let files = vec![b("/srv/repo/foo-1.0-1-x86_64.pkg.tar.zst")];
    let plan = cleanup_plan(&db, &files, DIR, EXT);
    assert_eq!(plan.db_removals, vec![b("foo")]);
    assert_eq!(
        plan.file_removals,
        vec![b("/srv/repo/foo-1.0-1-x86_64.pkg.tar.zst")]
    );
}

#[test]
fn orphaned_signature_is_deleted() {
    let db = vec![record("foo", "1.0-1")];
    let files = vec![
        b("/srv/repo/foo-1.0-1-x86_64.pkg.tar.zst"),
        b("/srv/repo/foo-1.0-1-x86_64.pkg.tar.zst.sig"),
        b("/srv/repo/stale.pkg.tar.zst.sig"),
    ];
    let plan = cleanup_plan(&db, &files, DIR, EXT);
    assert!(plan.db_removals.is_empty());
    assert!(plan.file_removals.is_empty());
    assert_eq!(plan.sig_removals, vec![b("/srv/repo/stale.pkg.tar.zst.sig")]);
}

#[test]
fn signature_of_a_file_deleted_in_the_second_pass_is_orphaned() {
    let db = vec![record("foo", "1.0-1")];
    let files = vec![
        b("/srv/repo/foo-1.0-1-x86_64.pkg.tar.zst"),
        b("/srv/repo/ghost-3.0-1-x86_64.pkg.tar.zst"),
        b("/srv/repo/ghost-3.0-1-x86_64.pkg.tar.zst.sig"),
    ];
    let plan = cleanup_plan(&db, &files, DIR, EXT);
    assert_eq!(
        plan.file_removals,
        vec![b("/srv/repo/ghost-3.0-1-x86_64.pkg.tar.zst")]
    );
    assert_eq!(
        plan.sig_removals,
        vec![b("/srv/repo/ghost-3.0-1-x86_64.pkg.tar.zst.sig")]
    );
}

fn apply(db: Vec<DbPkg>, files: Vec<Vec<u8>>) -> (Vec<DbPkg>, Vec<Vec<u8>>) {
    let plan = cleanup_plan(&db, &files, DIR, EXT);
    let db2: Vec<DbPkg> = db
        .into_iter()
        .filter(|p| !plan.db_removals.contains(&p.name))
        .collect();
    let files2: Vec<Vec<u8>> = files
        .into_iter()
        .filter(|f| !plan.file_removals.contains(f) && !plan.sig_removals.contains(f))
        .collect();
    (db2, files2)
}

#[test]
fn running_the_checker_twice_changes_nothing() {
    let db = vec![
        record("foo", "2.0-1"),
        record("bar", "1.0-1"),
        record("kept", "3.1-2"),
    ];
    let files = vec![
        b("/srv/repo/foo-1.0-1-x86_64.pkg.tar.zst"),
        b("/srv/repo/foo-1.0-1-x86_64.pkg.tar.zst.sig"),
        b("/srv/repo/bar-1.0-1-x86_64.pkg.tar.zst"),
        b("/srv/repo/ghost-3.0-1-x86_64.pkg.tar.zst"),
        b("/srv/repo/kept-3.1-2-x86_64.pkg.tar.zst"),
        b("/srv/repo/kept-3.1-2-x86_64.pkg.tar.zst.sig"),
        b("/srv/repo/dangling.pkg.tar.zst.sig"),
    ];
    let (db2, files2) = apply(db, files);
    let plan2 = cleanup_plan(&db2, &files2, DIR, EXT);
    assert!(plan2.db_removals.is_empty());
    assert!(plan2.file_removals.is_empty());
    assert!(plan2.sig_removals.is_empty());
}
