use repman::aur::{update_bases, AurData, AurItem};
use repman::db::DbPkg;

fn b(s: &str) -> Vec<u8> {
    s.as_bytes().to_vec()
}

fn item(name: &str, base: &str, version: &str) -> AurItem {
    AurItem {
        name: b(name),
        pkg_base: b(base),
        version: b(version),
        out_of_date: false,
    }
}

fn record(name: &str, version: &str) -> DbPkg {
    DbPkg {
        name: b(name),
        version: b(version),
        arch: b("x86_64"),
        deps: Vec::new(),
        make_deps: Vec::new(),
        check_deps: Vec::new(),
    }
}

#[test]
fn update_proposed_exactly_when_strictly_older() {
    let items = vec![item("foo", "foo", "1.3-1")];
    let data = AurData::new(&items);
    let db = vec![record("foo", "1.2-1")];
    let upds = data.pkg_updates(&db);
    assert_eq!(upds.len(), 1);
    assert_eq!(upds[0].name, b("foo"));
    assert_eq!(upds[0].old_version, b("1.2-1"));
    assert_eq!(upds[0].new_version, b("1.3-1"));
    assert_eq!(upds[0].pkg_base, b("foo"));
}

#[test]
fn equal_version_is_never_an_update() {
    let items = vec![item("foo", "foo", "1.3-1")];
    let data = AurData::new(&items);
    let db = vec![record("foo", "1.3-1")];
    assert_eq!(data.pkg_updates(&db).len(), 0);
}

#[test]
fn newer_repository_version_is_never_an_update() {
    let items = vec![item("foo", "foo", "1.3-1")];
    let data = AurData::new(&items);
    let db = vec![record("foo", "1.4-1")];
    assert_eq!(data.pkg_updates(&db).len(), 0);
}

#[test]
fn split_packages_report_per_name_but_build_once() {
    let items = vec![item("pkg-a", "base1", "2.0-1"), item("pkg-b", "base1", "2.0-1")];
    let data = AurData::new(&items);
    let db = vec![record("pkg-a", "1.0-1"), record("pkg-b", "1.0-1")];
    let upds = data.pkg_updates(&db);
    let names: Vec<Vec<u8>> = upds.iter().map(|u| u.name.clone()).collect();
    assert!(names.contains(&b("pkg-a")));
    assert!(names.contains(&b("pkg-b")));
    assert_eq!(upds.len(), 2);
    let bases = update_bases(&upds);
    assert_eq!(bases, vec![b("base1")]);
}

#[test]
fn update_bases_keeps_first_occurrence_order() {
    let items = vec![
        item("a", "base-a", "2-1"),
        item("b", "base-b", "2-1"),
        item("c", "base-a", "2-1"),
    ];
    let data = AurData::new(&items);
    let db = vec![record("a", "1-1"), record("b", "1-1"), record("c", "1-1")];
    let bases = update_bases(&data.pkg_updates(&db));
    assert_eq!(bases, vec![b("base-a"), b("base-b")]);
}

#[test]
fn missing_names_are_the_unanswered_ones() {
    let items = vec![item("known", "known", "1-1")];
    let data = AurData::new(&items);
    let requested = vec![b("known"), b("absent"), b("gone")];
    assert_eq!(data.missing_names(&requested), vec![b("absent"), b("gone")]);
}

#[test]
fn clone_candidates_filter_by_base_records() {
    let items = vec![item("foo", "foo", "1-1"), item("bar", "bar", "1-1")];
    let data = AurData::new(&items);
    let wanted = vec![b("foo"), b("baz")];
    assert_eq!(data.clone_candidates(Some(&wanted)), vec![b("foo")]);
    assert_eq!(data.clone_candidates(None), vec![b("foo"), b("bar")]);
}

#[test]
fn vcs_names_end_with_a_configured_suffix() {
    let items = vec![
        item("tool-git", "tool-git", "1-1"),
        item("lib-svn", "lib-svn", "1-1"),
        item("plain", "plain", "1-1"),
        item("digit", "digit", "1-1"),
    ];
    let data = AurData::new(&items);
    let suffixes = vec![b("git"), b("svn")];
    let vcs = data.pkg_name2base_no_version(&suffixes);
    let names: Vec<Vec<u8>> = vcs.iter().map(|e| e.name.clone()).collect();
    assert_eq!(names, vec![b("tool-git"), b("lib-svn")]);
}

#[test]
fn duplicate_base_rows_keep_the_first_version() {
    // the first sighting of a base records its version
    let items = vec![item("x", "base", "2.0-1"), item("y", "base", "9.9-9")];
    let data = AurData::new(&items);
    let db = vec![record("x", "1.0-1"), record("y", "1.0-1")];
    let upds = data.pkg_updates(&db);
    assert_eq!(upds.len(), 2);
    assert_eq!(upds[0].new_version, b("2.0-1"));
    assert_eq!(upds[1].new_version, b("2.0-1"));
}
