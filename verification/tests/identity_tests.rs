use repman::error::RepoError;
use repman::glob::glob_matches;
use repman::identity::{build_meta_path, sig_path_of, PkgIdentity};

fn b(s: &str) -> Vec<u8> {
    s.as_bytes().to_vec()
}

#[test]
fn parse_splits_the_canonical_pattern() {
    let id = PkgIdentity::parse(b"/srv/repo/foo-1.0-1-x86_64.pkg.tar.zst").unwrap();
    assert_eq!(id.dir, b("/srv/repo/"));
    assert_eq!(id.name, b("foo"));
    assert_eq!(id.version, b("1.0"));
    assert_eq!(id.release, b("1"));
    assert_eq!(id.arch, b("x86_64"));
    assert_eq!(id.ext, b(".pkg.tar.zst"));
}

#[test]
fn parse_keeps_dashes_in_the_name() {
    let id = PkgIdentity::parse(b"my-tool-extra-2.3.4-10-aarch64.pkg.tar.xz").unwrap();
    assert_eq!(id.dir, b(""));
    assert_eq!(id.name, b("my-tool-extra"));
    assert_eq!(id.version, b("2.3.4"));
    assert_eq!(id.release, b("10"));
    assert_eq!(id.arch, b("aarch64"));
}

#[test]
fn parse_then_path_round_trips() {
    let inputs = [
        "/srv/repo/foo-1.0-1-x86_64.pkg.tar.zst",
        "a/b/c/pkg-name-0.1-2-any.pkg.tar.gz",
        "bar-9-1-armv7h.pkg.tar.xz",
    ];
    for s in inputs {
        let id = PkgIdentity::parse(s.as_bytes()).unwrap();
        assert_eq!(id.path(), b(s));
    }
}

#[test]
fn parse_rejects_what_the_pattern_rejects() {
    for s in [
        "",
        "foo.pkg.tar.zst",
        "foo-1.0-x86_64.pkg.tar.zst",
        "foo-1.0-1-x86_64.pkg.tar",
        "foo-1.0-1-x86_64.tar.zst",
        "foo-1.0-1-x86_64.pkg.tar.",
        "-1.0-1-x86_64.pkg.tar.zst",
        "dir/-1.0-1-x86_64.pkg.tar.zst",
    ] {
        assert_eq!(
            PkgIdentity::parse(s.as_bytes()).unwrap_err(),
            RepoError::InvalidPackageFile,
            "{s}"
        );
    }
}

#[test]
fn glob_widening_matches_any_version() {
    let id = PkgIdentity::parse(b"foo-1.0-1-x86_64.pkg.tar.zst").unwrap();
    let pat = id.version_agnostic_glob(None);
    assert_eq!(pat, b("foo-*-*-x86_64.pkg.tar.zst"));
    assert!(glob_matches(&pat, b"foo-1.0-1-x86_64.pkg.tar.zst"));
    assert!(glob_matches(&pat, b"foo-2.3-4-x86_64.pkg.tar.zst"));
    assert!(!glob_matches(&pat, b"bar-1.0-1-x86_64.pkg.tar.zst"));
}

#[test]
fn glob_with_override_dir() {
    let id = PkgIdentity::parse(b"/tmp/pkg/foo-1.0-1-any.pkg.tar.zst").unwrap();
    let pat = id.version_agnostic_glob(Some(b"/srv/repo"));
    assert_eq!(pat, b("/srv/repo/foo-*-*-any.pkg.tar.zst"));
}

#[test]
fn meta_path_is_the_database_prediction() {
    let p = build_meta_path(b"foo", b"1.0-1", b"x86_64", b"/srv/repo", b".pkg.tar.zst");
    assert_eq!(p, b("/srv/repo/foo-1.0-1-x86_64.pkg.tar.zst"));
    let id = PkgIdentity::from_meta_data(b"foo", b"1.0-1", b"x86_64", b"/srv/repo", b".pkg.tar.zst")
        .unwrap();
    assert_eq!(id.name, b("foo"));
    assert_eq!(id.version, b("1.0"));
    assert_eq!(id.release, b("1"));
}

#[test]
fn old_files_of_the_same_package_match() {
    let id = PkgIdentity::parse(b"/tmp/foo-2.0-1-x86_64.pkg.tar.zst").unwrap();
    let dir = b("/srv/repo");
    assert!(id.matches_old_file(&dir, b"/srv/repo/foo-1.0-1-x86_64.pkg.tar.zst"));
    assert!(id.matches_old_file(&dir, b"/srv/repo/foo-1.0-1-x86_64.pkg.tar.zst.sig"));
    assert!(!id.matches_old_file(&dir, b"/srv/repo/bar-1.0-1-x86_64.pkg.tar.zst"));
    assert!(!id.matches_old_file(&dir, b"/srv/repo/foo-1.0-1-any.pkg.tar.zst"));
    assert!(!id.matches_old_file(&dir, b"/other/foo-1.0-1-x86_64.pkg.tar.zst"));
}

#[test]
fn sig_path_appends_the_suffix() {
    assert_eq!(sig_path_of(b"a/b.pkg.tar.zst"), b("a/b.pkg.tar.zst.sig"));
}

#[test]
fn same_package_ignores_version_and_release() {
    let a = PkgIdentity::parse(b"x/foo-1.0-1-x86_64.pkg.tar.zst").unwrap();
    let c = PkgIdentity::parse(b"y/foo-2.0-9-x86_64.pkg.tar.zst").unwrap();
    let d = PkgIdentity::parse(b"x/foo-1.0-1-any.pkg.tar.zst").unwrap();
    assert!(a.is_same_package(&c));
    assert!(!a.is_same_package(&d));
}
