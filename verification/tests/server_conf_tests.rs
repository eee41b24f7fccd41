use repman::bytes::{fmt_u64, parse_u64};
use repman::common::{lock_file_path, locks_dir, tmp_dir, Arch};
use repman::conf::{detect_distcc, extract_gpg_key, extract_pkg_ext, first_existing,
    pacman_conf_for_chroot};
use repman::deps::Deps;
use repman::db::DbPkg;
use repman::error::RepoError;
use repman::repo::{valid_pkg_names, Repo};
use repman::server::{backend_for, ensure_ends_with_slash, Backend};

fn b(s: &str) -> Vec<u8> {
    s.as_bytes().to_vec()
}

fn lines(ls: &[&str]) -> Vec<Vec<u8>> {
    ls.iter().map(|s| b(s)).collect()
}

#[test]
fn backend_from_file_url() {
    match backend_for("file:///srv/repo").unwrap() {
        Backend::Local { path } => assert_eq!(path, b("/srv/repo")),
        _ => panic!("expected a local backend"),
    }
}

#[test]
fn backend_from_rsync_url_builds_the_ssh_path() {
    match backend_for("rsync://user@example.org/mirror/repo").unwrap() {
        Backend::RsyncSsh { ssh_dir } => assert_eq!(ssh_dir, b("user@example.org:/mirror/repo")),
        _ => panic!("expected the SSH backend"),
    }
}

#[test]
fn backend_from_rsync_url_without_user() {
    match backend_for("rsync://example.org/mirror").unwrap() {
        Backend::RsyncSsh { ssh_dir } => assert_eq!(ssh_dir, b("example.org:/mirror")),
        _ => panic!("expected the SSH backend"),
    }
}

#[test]
fn backend_from_object_store_urls() {
    match backend_for("s3://bucket/repo").unwrap() {
        Backend::S3 { url } => assert_eq!(url, b("s3://bucket/repo")),
        _ => panic!("expected the S3 backend"),
    }
    match backend_for("gs://bucket/repo").unwrap() {
        Backend::Gcs { url } => assert_eq!(url, b("gs://bucket/repo")),
        _ => panic!("expected the GCS backend"),
    }
}

#[test]
fn unknown_scheme_is_refused() {
    assert_eq!(backend_for("ftp://example.org/x").unwrap_err(), RepoError::UnsupportedScheme);
    assert_eq!(backend_for("not a url").unwrap_err(), RepoError::Config);
}

#[test]
fn transfer_commands_mirror_both_ways() {
    let be = backend_for("rsync://u@h/path").unwrap();
    assert!(be.is_remote());
    assert_eq!(be.required_tool(), Some(b("rsync")));
    let (prog, args) = be.download_cmd(b"/srv/repo").unwrap();
    assert_eq!(prog, b("rsync"));
    assert_eq!(args, vec![b("-a"), b("-z"), b("--delete"), b("u@h:/path/"), b("/srv/repo")]);
    let (prog, args) = be.upload_cmd(b"/srv/repo").unwrap();
    assert_eq!(prog, b("rsync"));
    assert_eq!(args, vec![b("-a"), b("-z"), b("--delete"), b("/srv/repo/"), b("u@h:/path")]);

    let local = backend_for("file:///srv/repo").unwrap();
    assert!(!local.is_remote());
    assert!(local.required_tool().is_none());
    assert!(local.download_cmd(b"/srv/repo").is_none());
    assert!(local.upload_cmd(b"/srv/repo").is_none());
}

#[test]
fn slashes_are_appended_once() {
    assert_eq!(ensure_ends_with_slash(b""), b("/"));
    assert_eq!(ensure_ends_with_slash(b"a/b"), b("a/b/"));
    assert_eq!(ensure_ends_with_slash(b"a/b/"), b("a/b/"));
}

#[test]
fn repo_value_derives_its_directories() {
    let be = backend_for("rsync://u@h/path").unwrap();
    let r = Repo::new(b"myrepo", None, false, be, b"/home/me/.cache/repman");
    assert_eq!(r.local_dir, b("/home/me/.cache/repman/repos/myrepo"));
    assert_eq!(r.chroot_dir, b("/home/me/.cache/repman/chroots/myrepo"));
    assert_eq!(r.db_name, b("myrepo"));
    assert_eq!(r.db_path(), b("/home/me/.cache/repman/repos/myrepo/myrepo.db"));
    assert_eq!(
        r.db_archive_path(),
        b("/home/me/.cache/repman/repos/myrepo/myrepo.db.tar.xz")
    );

    let local = backend_for("file:///srv/repo").unwrap();
    let r = Repo::new(b"r2", Some(&b("customdb")), true, local, b"/c");
    assert_eq!(r.local_dir, b("/srv/repo"));
    assert_eq!(r.db_name, b("customdb"));
}

#[test]
fn repo_add_command_is_one_batch() {
    let local = backend_for("file:///srv/repo").unwrap();
    let r = Repo::new(b"r", None, false, local, b"/c");
    let files = vec![b("/srv/repo/a-1-1-any.pkg.tar.zst"), b("/srv/repo/b-2-1-any.pkg.tar.zst")];
    let (prog, args) = r.repo_add_cmd(None, &files).unwrap();
    assert_eq!(prog, b("repo-add"));
    assert_eq!(
        args,
        vec![
            b("--remove"),
            b("--verify"),
            b("/srv/repo/r.db.tar.xz"),
            b("/srv/repo/a-1-1-any.pkg.tar.zst"),
            b("/srv/repo/b-2-1-any.pkg.tar.zst"),
        ]
    );
}

#[test]
fn signed_db_commands_need_a_key() {
    let local = backend_for("file:///srv/repo").unwrap();
    let r = Repo::new(b"r", None, true, local, b"/c");
    assert_eq!(r.repo_add_cmd(None, &Vec::new()).unwrap_err(), RepoError::SigningKeyMissing);
    let key = b("ABCD");
    let (prog, args) = r.repo_remove_cmd(Some(&key), &vec![b("foo")]).unwrap();
    assert_eq!(prog, b("repo-remove"));
    assert_eq!(
        args,
        vec![
            b("--verify"),
            b("--sign"),
            b("--key"),
            b("ABCD"),
            b("/srv/repo/r.db.tar.xz"),
            b("foo"),
        ]
    );
}

#[test]
fn valid_names_filter_by_the_database() {
    let db_names = vec![b("a"), b("b")];
    let requested = vec![b("b"), b("missing"), b("a")];
    assert_eq!(valid_pkg_names(&db_names, Some(&requested)), vec![b("b"), b("a")]);
    assert_eq!(valid_pkg_names(&db_names, None), vec![b("a"), b("b")]);
}

#[test]
fn dependency_index_answers_reverse_lookups() {
    let pkgs = vec![
        DbPkg {
            name: b("app"),
            version: b("1-1"),
            arch: b("any"),
            deps: vec![b("libx")],
            make_deps: vec![b("tool")],
            check_deps: Vec::new(),
        },
        DbPkg {
            name: b("other"),
            version: b("1-1"),
            arch: b("any"),
            deps: vec![b("libx")],
            make_deps: Vec::new(),
            check_deps: Vec::new(),
        },
    ];
    let deps = Deps::new(&pkgs);
    assert!(deps.contains_key(b"libx"));
    assert!(deps.contains_key(b"tool"));
    assert!(!deps.contains_key(b"app"));
    let dp = deps.get(b"libx").unwrap();
    assert_eq!(dp.0, vec![b("app"), b("other")]);
    assert_eq!(dp.join(), b("app, other"));
    assert!(deps.get(b"nothing").is_none());
}

#[test]
fn arch_names_round_trip() {
    assert_eq!(Arch::from_bytes(b"x86_64"), Arch::x86_64);
    assert_eq!(Arch::from_bytes(b"arm"), Arch::armv7h);
    assert_eq!(Arch::from_bytes(b"riscv64"), Arch::Unknown);
    assert_eq!(Arch::x86_64.as_bytes(), b("x86_64"));
    assert_eq!(Arch::armv7h.as_bytes(), b("armv7h"));
    assert_eq!(Arch::Unknown.as_bytes(), b("unknown"));
}

#[test]
fn well_known_paths_assemble() {
    let locks = locks_dir(b"/home/me/.cache/repman");
    assert_eq!(locks, b("/home/me/.cache/repman/locks"));
    assert_eq!(lock_file_path(&locks, b"myrepo"), b("/home/me/.cache/repman/locks/myrepo"));
    assert_eq!(tmp_dir(b"/c", 4217), b("/c/tmp/4217"));
}

#[test]
fn decimal_round_trips() {
    assert_eq!(fmt_u64(0), b("0"));
    assert_eq!(fmt_u64(4217), b("4217"));
    assert_eq!(parse_u64(b"4217"), Some(4217));
    assert_eq!(parse_u64(b""), None);
    assert_eq!(parse_u64(b"12x"), None);
    assert_eq!(parse_u64(b"18446744073709551615"), Some(u64::MAX));
    assert_eq!(parse_u64(b"18446744073709551616"), None);
}

#[test]
fn pacman_conf_replaces_the_own_section() {
    let input = lines(&[
        "[options]",
        "HoldPkg = pacman",
        "[myrepo]",
        "Server = https://old.example.org",
        "[core]",
        "Include = /etc/pacman.d/mirrorlist",
    ]);
    let out = pacman_conf_for_chroot(&input, b"myrepo", b"/srv/repo");
    assert_eq!(
        out,
        lines(&[
            "[options]",
            "HoldPkg = pacman",
            "[core]",
            "Include = /etc/pacman.d/mirrorlist",
            "",
            "[myrepo]",
            "SigLevel = Optional TrustAll",
            "Server = file:///srv/repo",
        ])
    );
}

#[test]
fn gpg_key_is_read_from_the_first_carrier() {
    let input = lines(&["# comment", "GPGKEY=ABCDEF", "GPGKEY=OTHER"]);
    assert_eq!(extract_gpg_key(&input), Some(b("ABCDEF")));
    assert_eq!(extract_gpg_key(&lines(&["nothing"])), None);
    assert_eq!(extract_gpg_key(&lines(&["GPGKEY="])), None);
}

#[test]
fn pkg_ext_is_read_between_quotes() {
    let input = lines(&["PKGEXT='.pkg.tar.zst'"]);
    assert_eq!(extract_pkg_ext(&input), Some(b(".pkg.tar.zst")));
    let input = lines(&["PKGEXT= \".pkg.tar.xz\""]);
    assert_eq!(extract_pkg_ext(&input), Some(b(".pkg.tar.xz")));
    assert_eq!(extract_pkg_ext(&lines(&["PKGEXT="])), None);
    assert_eq!(extract_pkg_ext(&lines(&["PKGEXT=''"])), None);
}

#[test]
fn distcc_detection_reads_buildenv() {
    assert!(detect_distcc(&lines(&["BUILDENV=(fakeroot distcc color)"])));
    assert!(!detect_distcc(&lines(&["BUILDENV=(fakeroot !distcc color)"])));
    assert!(!detect_distcc(&lines(&["#BUILDENV=(fakeroot distcc color)"])));
    assert!(!detect_distcc(&lines(&["OPTIONS=(strip distcc-nothere)"])));
}

#[test]
fn first_existing_candidate_wins() {
    assert_eq!(first_existing(&vec![false, true, true]), Some(1));
    assert_eq!(first_existing(&vec![false, false]), None);
}
