//! Remote storage backends.
//!
//! A repository is stored locally or mirrored over SSH, S3-compatible
//! object storage or Google Cloud Storage; the server URL's scheme selects
//! the backend.  Downloads make the local directory an exact mirror of the
//! remote, uploads the reverse — both delete extraneous files.  This module
//! decides the backend, the external tool each one requires, and the exact
//! command each transfer runs; invoking the tool is the caller's side.

use crate::bytes::{append_bytes, bytes_eq};
use crate::error::RepoError;
use vstd::prelude::*;

verus! {

/// A repository's storage backend.
#[derive(Debug)]
pub enum Backend {
    /// The repository directory is local; transfers are no-ops.
    Local { path: Vec<u8> },
    /// Mirrored over SSH by rsync; `ssh_dir` is `user@host:/path`.
    RsyncSsh { ssh_dir: Vec<u8> },
    /// Mirrored to S3-compatible object storage.
    S3 { url: Vec<u8> },
    /// Mirrored to Google Cloud Storage.
    Gcs { url: Vec<u8> },
}

/// Whether `url::Url::parse` accepts the string.
pub uninterp spec fn url_parse_ok(s: Seq<char>) -> bool;

/// What `url::Url::scheme` returns for it, as bytes.
pub uninterp spec fn url_scheme_of(s: Seq<char>) -> Seq<u8>;

/// What `url::Url::username` returns for it, as bytes.
pub uninterp spec fn url_username_of(s: Seq<char>) -> Seq<u8>;

/// What `url::Url::host_str` returns for it, as bytes.
pub uninterp spec fn url_host_of(s: Seq<char>) -> Option<Seq<u8>>;

/// What `url::Url::path` returns for it, as bytes.
pub uninterp spec fn url_path_of(s: Seq<char>) -> Seq<u8>;

/// What `url::Url::as_str` returns for it: the serialized URL, as bytes.
pub uninterp spec fn url_str_of(s: Seq<char>) -> Seq<u8>;

/// The parts of a server URL the engine reads.
pub struct UrlParts {
    pub scheme: Vec<u8>,
    pub username: Vec<u8>,
    pub host: Option<Vec<u8>>,
    pub path: Vec<u8>,
    pub serialized: Vec<u8>,
}

/// Relies on `url::Url::parse` and the accessors `scheme`, `username`,
/// `host_str`, `path` and `as_str` of the parsed value: all are functions
/// of the input string alone; the scheme comes back lower-cased and without
/// its `:` delimiter, the username is empty when none is given, the host is
/// absent for host-less URLs, the path is percent-encoded, and `as_str` is
/// the serialized form of the whole URL.
#[verifier::external_body]
fn parse_url(s: &str) -> (r: Option<UrlParts>)
    ensures
        r is Some <==> url_parse_ok(s@),
        match r {
            Some(p) => {
                &&& p.scheme@ == url_scheme_of(s@)
                &&& p.username@ == url_username_of(s@)
                &&& (match p.host {
                    Some(h) => url_host_of(s@) == Some(h@),
                    None => url_host_of(s@) is None,
                })
                &&& p.path@ == url_path_of(s@)
                &&& p.serialized@ == url_str_of(s@)
            },
            None => true,
        },
{
    match url::Url::parse(s) {
        Ok(u) => Some(
            UrlParts {
                scheme: u.scheme().as_bytes().to_vec(),
                username: u.username().as_bytes().to_vec(),
                host: u.host_str().map(|h| h.as_bytes().to_vec()),
                path: u.path().as_bytes().to_vec(),
                serialized: u.as_str().as_bytes().to_vec(),
            },
        ),
        Err(_) => None,
    }
}

/// The `user@host:/path` form the SSH sync uses; a host-less URL leaves a
/// single space in the host position.
pub open spec fn ssh_path_view(username: Seq<u8>, host: Option<Seq<u8>>, path: Seq<u8>) -> Seq<
    u8,
> {
    username + (match host {
        Some(h) => (if username.len() == 0 {
            Seq::<u8>::empty()
        } else {
            seq![64u8]
        }) + h,
        None => seq![32u8],
    }) + seq![58u8] + path
}

/// Builds the SSH path of parsed URL parts.
fn ssh_path_from(u: &UrlParts) -> (r: Vec<u8>)
    ensures
        r@ == ssh_path_view(
            u.username@,
            match u.host {
                Some(h) => Some(h@),
                None => None,
            },
            u.path@,
        ),
{
    let mut v: Vec<u8> = Vec::new();
    append_bytes(&mut v, u.username.as_slice());
    match &u.host {
        Some(h) => {
            if u.username.len() > 0 {
                v.push(64u8);
            }
            append_bytes(&mut v, h.as_slice());
        },
        None => {
            v.push(32u8);
        },
    }
    v.push(58u8);
    append_bytes(&mut v, u.path.as_slice());
    proof {
        assert(v@ =~= ssh_path_view(
            u.username@,
            match u.host {
                Some(h) => Some(h@),
                None => None,
            },
            u.path@,
        ));
    }
    v
}

/// The four supported scheme names, as bytes.
pub open spec fn scheme_file() -> Seq<u8> {
    seq![102u8, 105u8, 108u8, 101u8]
}

pub open spec fn scheme_rsync() -> Seq<u8> {
    seq![114u8, 115u8, 121u8, 110u8, 99u8]
}

pub open spec fn scheme_s3() -> Seq<u8> {
    seq![115u8, 51u8]
}

pub open spec fn scheme_gs() -> Seq<u8> {
    seq![103u8, 115u8]
}

fn lit_file() -> (r: Vec<u8>)
    ensures
        r@ == scheme_file(),
{
    let mut v: Vec<u8> = Vec::new();
    v.push(102u8);
    v.push(105u8);
    v.push(108u8);
    v.push(101u8);
    proof {
        assert(v@ =~= scheme_file());
    }
    v
}

fn lit_rsync() -> (r: Vec<u8>)
    ensures
        r@ == scheme_rsync(),
{
    let mut v: Vec<u8> = Vec::new();
    v.push(114u8);
    v.push(115u8);
    v.push(121u8);
    v.push(110u8);
    v.push(99u8);
    proof {
        assert(v@ =~= scheme_rsync());
    }
    v
}

fn lit_s3() -> (r: Vec<u8>)
    ensures
        r@ == scheme_s3(),
{
    let mut v: Vec<u8> = Vec::new();
    v.push(115u8);
    v.push(51u8);
    proof {
        assert(v@ =~= scheme_s3());
    }
    v
}

fn lit_gs() -> (r: Vec<u8>)
    ensures
        r@ == scheme_gs(),
{
    let mut v: Vec<u8> = Vec::new();
    v.push(103u8);
    v.push(115u8);
    proof {
        assert(v@ =~= scheme_gs());
    }
    v
}

/// Selects the backend a server URL names.  An unparseable URL is a
/// configuration error; a parseable one with an unknown scheme is an
/// unsupported scheme; otherwise the backend carries exactly what its sync
/// commands need.
pub fn backend_for(url_str: &str) -> (r: Result<Backend, RepoError>)
    ensures
        !url_parse_ok(url_str@) ==> r == Err::<Backend, RepoError>(RepoError::Config),
        url_parse_ok(url_str@) ==> match r {
            Ok(b) => match b {
                Backend::Local { path } => url_scheme_of(url_str@) == scheme_file() && path@
                    == url_path_of(url_str@),
                Backend::RsyncSsh { ssh_dir } => url_scheme_of(url_str@) == scheme_rsync()
                    && ssh_dir@ == ssh_path_view(
                    url_username_of(url_str@),
                    url_host_of(url_str@),
                    url_path_of(url_str@),
                ),
                Backend::S3 { url } => url_scheme_of(url_str@) == scheme_s3() && url@
                    == url_str_of(url_str@),
                Backend::Gcs { url } => url_scheme_of(url_str@) == scheme_gs() && url@
                    == url_str_of(url_str@),
            },
            Err(e) => e == RepoError::UnsupportedScheme && url_scheme_of(url_str@)
                != scheme_file() && url_scheme_of(url_str@) != scheme_rsync() && url_scheme_of(
                url_str@,
            ) != scheme_s3() && url_scheme_of(url_str@) != scheme_gs(),
        },
{
    let parts = match parse_url(url_str) {
        Some(p) => p,
        None => {
            return Err(RepoError::Config);
        },
    };
    if bytes_eq(parts.scheme.as_slice(), lit_file().as_slice()) {
        Ok(Backend::Local { path: parts.path })
    } else if bytes_eq(parts.scheme.as_slice(), lit_rsync().as_slice()) {
        let ssh_dir = ssh_path_from(&parts);
        Ok(Backend::RsyncSsh { ssh_dir })
    } else if bytes_eq(parts.scheme.as_slice(), lit_s3().as_slice()) {
        Ok(Backend::S3 { url: parts.serialized })
    } else if bytes_eq(parts.scheme.as_slice(), lit_gs().as_slice()) {
        Ok(Backend::Gcs { url: parts.serialized })
    } else {
        Err(RepoError::UnsupportedScheme)
    }
}

impl Backend {
    /// Whether transfers go to a remote store.
    pub fn is_remote(&self) -> (r: bool)
        ensures
            r == !(self is Local),
    {
        !matches!(self, Backend::Local { .. })
    }
}

/// `s` with a trailing slash appended unless it already ends in one; an
/// empty string becomes a single slash.
pub open spec fn slashed(s: Seq<u8>) -> Seq<u8> {
    if s.len() == 0 {
        seq![47u8]
    } else if s.last() == 47 {
        s
    } else {
        s + seq![47u8]
    }
}

/// Appends a trailing slash where one is missing.
pub fn ensure_ends_with_slash(s: &[u8]) -> (r: Vec<u8>)
    ensures
        r@ == slashed(s@),
{
    let mut v: Vec<u8> = Vec::new();
    append_bytes(&mut v, s);
    if s.len() == 0 || s[s.len() - 1] != 47 {
        v.push(47u8);
    }
    proof {
        assert(v@ =~= slashed(s@));
    }
    v
}

/// The external tool a backend requires, checked before any transfer.
pub open spec fn required_tool_spec(b: Backend) -> Option<Seq<u8>> {
    match b {
        Backend::Local { .. } => None,
        // "rsync"
        Backend::RsyncSsh { .. } => Some(seq![114u8, 115u8, 121u8, 110u8, 99u8]),
        // "s3cmd"
        Backend::S3 { .. } => Some(seq![115u8, 51u8, 99u8, 109u8, 100u8]),
        // "google-cloud-cli"
        Backend::Gcs { .. } => Some(
            seq![
                103u8, 111u8, 111u8, 103u8, 108u8, 101u8, 45u8, 99u8, 108u8, 111u8, 117u8, 100u8,
                45u8, 99u8, 108u8, 105u8,
            ],
        ),
    }
}

impl Backend {
    /// The tool whose absence makes a transfer fail with a missing
    /// dependency, before anything is attempted.
    pub fn required_tool(&self) -> (r: Option<Vec<u8>>)
        ensures
            match r {
                Some(t) => required_tool_spec(*self) == Some(t@),
                None => required_tool_spec(*self) is None,
            },
    {
        match self {
            Backend::Local { .. } => None,
            Backend::RsyncSsh { .. } => {
                let v = lit_rsync();
                Some(v)
            },
            Backend::S3 { .. } => {
                let mut v: Vec<u8> = Vec::new();
                v.push(115u8);
                v.push(51u8);
                v.push(99u8);
                v.push(109u8);
                v.push(100u8);
                proof {
                    assert(required_tool_spec(*self) == Some::<Seq<u8>>(v@)) by {
                        assert(v@ =~= seq![115u8, 51u8, 99u8, 109u8, 100u8]);
                    }
                }
                Some(v)
            },
            Backend::Gcs { .. } => {
                let mut v: Vec<u8> = Vec::new();
                v.push(103u8);
                v.push(111u8);
                v.push(111u8);
                v.push(103u8);
                v.push(108u8);
                v.push(101u8);
                v.push(45u8);
                v.push(99u8);
                v.push(108u8);
                v.push(111u8);
                v.push(117u8);
                v.push(100u8);
                v.push(45u8);
                v.push(99u8);
                v.push(108u8);
                v.push(105u8);
                proof {
                    assert(required_tool_spec(*self) == Some::<Seq<u8>>(v@)) by {
                        assert(v@ =~= seq![
                            103u8, 111u8, 111u8, 103u8, 108u8, 101u8, 45u8, 99u8, 108u8, 111u8,
                            117u8, 100u8, 45u8, 99u8, 108u8, 105u8,
                        ]);
                    }
                }
                Some(v)
            },
        }
    }
}


/// The bytes of `"-a"`.
pub open spec fn arg_a() -> Seq<u8> {
    seq![45u8, 97u8]
}

fn arg_a_v() -> (r: Vec<u8>)
    ensures
        r@ == arg_a(),
{
    let mut v: Vec<u8> = Vec::new();
    v.push(45u8);
    v.push(97u8);
    proof {
        assert(v@ =~= arg_a());
    }
    v
}

/// The bytes of `"-z"`.
pub open spec fn arg_z() -> Seq<u8> {
    seq![45u8, 122u8]
}

fn arg_z_v() -> (r: Vec<u8>)
    ensures
        r@ == arg_z(),
{
    let mut v: Vec<u8> = Vec::new();
    v.push(45u8);
    v.push(122u8);
    proof {
        assert(v@ =~= arg_z());
    }
    v
}

/// The bytes of `"--delete"`.
pub open spec fn arg_delete() -> Seq<u8> {
    seq![45u8, 45u8, 100u8, 101u8, 108u8, 101u8, 116u8, 101u8]
}

fn arg_delete_v() -> (r: Vec<u8>)
    ensures
        r@ == arg_delete(),
{
    let mut v: Vec<u8> = Vec::new();
    v.push(45u8);
    v.push(45u8);
    v.push(100u8);
    v.push(101u8);
    v.push(108u8);
    v.push(101u8);
    v.push(116u8);
    v.push(101u8);
    proof {
        assert(v@ =~= arg_delete());
    }
    v
}

/// The bytes of `"sync"`.
pub open spec fn arg_sync() -> Seq<u8> {
    seq![115u8, 121u8, 110u8, 99u8]
}

fn arg_sync_v() -> (r: Vec<u8>)
    ensures
        r@ == arg_sync(),
{
    let mut v: Vec<u8> = Vec::new();
    v.push(115u8);
    v.push(121u8);
    v.push(110u8);
    v.push(99u8);
    proof {
        assert(v@ =~= arg_sync());
    }
    v
}

/// The bytes of `"--delete-removed"`.
pub open spec fn arg_delete_removed() -> Seq<u8> {
    seq![45u8, 45u8, 100u8, 101u8, 108u8, 101u8, 116u8, 101u8, 45u8, 114u8, 101u8, 109u8, 111u8, 118u8, 101u8, 100u8]
}

fn arg_delete_removed_v() -> (r: Vec<u8>)
    ensures
        r@ == arg_delete_removed(),
{
    let mut v: Vec<u8> = Vec::new();
    v.push(45u8);
    v.push(45u8);
    v.push(100u8);
    v.push(101u8);
    v.push(108u8);
    v.push(101u8);
    v.push(116u8);
    v.push(101u8);
    v.push(45u8);
    v.push(114u8);
    v.push(101u8);
    v.push(109u8);
    v.push(111u8);
    v.push(118u8);
    v.push(101u8);
    v.push(100u8);
    proof {
        assert(v@ =~= arg_delete_removed());
    }
    v
}

/// The bytes of `"--follow-symlinks"`.
pub open spec fn arg_follow_symlinks() -> Seq<u8> {
    seq![45u8, 45u8, 102u8, 111u8, 108u8, 108u8, 111u8, 119u8, 45u8, 115u8, 121u8, 109u8, 108u8, 105u8, 110u8, 107u8, 115u8]
}

fn arg_follow_symlinks_v() -> (r: Vec<u8>)
    ensures
        r@ == arg_follow_symlinks(),
{
    let mut v: Vec<u8> = Vec::new();
    v.push(45u8);
    v.push(45u8);
    v.push(102u8);
    v.push(111u8);
    v.push(108u8);
    v.push(108u8);
    v.push(111u8);
    v.push(119u8);
    v.push(45u8);
    v.push(115u8);
    v.push(121u8);
    v.push(109u8);
    v.push(108u8);
    v.push(105u8);
    v.push(110u8);
    v.push(107u8);
    v.push(115u8);
    proof {
        assert(v@ =~= arg_follow_symlinks());
    }
    v
}

/// The bytes of `"--acl-public"`.
pub open spec fn arg_acl_public() -> Seq<u8> {
    seq![45u8, 45u8, 97u8, 99u8, 108u8, 45u8, 112u8, 117u8, 98u8, 108u8, 105u8, 99u8]
}

fn arg_acl_public_v() -> (r: Vec<u8>)
    ensures
        r@ == arg_acl_public(),
{
    let mut v: Vec<u8> = Vec::new();
    v.push(45u8);
    v.push(45u8);
    v.push(97u8);
    v.push(99u8);
    v.push(108u8);
    v.push(45u8);
    v.push(112u8);
    v.push(117u8);
    v.push(98u8);
    v.push(108u8);
    v.push(105u8);
    v.push(99u8);
    proof {
        assert(v@ =~= arg_acl_public());
    }
    v
}

/// The bytes of `"gsutil"`.
pub open spec fn prog_gsutil() -> Seq<u8> {
    seq![103u8, 115u8, 117u8, 116u8, 105u8, 108u8]
}

fn prog_gsutil_v() -> (r: Vec<u8>)
    ensures
        r@ == prog_gsutil(),
{
    let mut v: Vec<u8> = Vec::new();
    v.push(103u8);
    v.push(115u8);
    v.push(117u8);
    v.push(116u8);
    v.push(105u8);
    v.push(108u8);
    proof {
        assert(v@ =~= prog_gsutil());
    }
    v
}

/// The bytes of `"s3cmd"`.
pub open spec fn prog_s3cmd() -> Seq<u8> {
    seq![115u8, 51u8, 99u8, 109u8, 100u8]
}

fn prog_s3cmd_v() -> (r: Vec<u8>)
    ensures
        r@ == prog_s3cmd(),
{
    let mut v: Vec<u8> = Vec::new();
    v.push(115u8);
    v.push(51u8);
    v.push(99u8);
    v.push(109u8);
    v.push(100u8);
    proof {
        assert(v@ =~= prog_s3cmd());
    }
    v
}

/// The bytes of `"-m"`.
pub open spec fn arg_m() -> Seq<u8> {
    seq![45u8, 109u8]
}

fn arg_m_v() -> (r: Vec<u8>)
    ensures
        r@ == arg_m(),
{
    let mut v: Vec<u8> = Vec::new();
    v.push(45u8);
    v.push(109u8);
    proof {
        assert(v@ =~= arg_m());
    }
    v
}

/// The bytes of `"rsync"`.
pub open spec fn arg_rsync_word() -> Seq<u8> {
    seq![114u8, 115u8, 121u8, 110u8, 99u8]
}

fn arg_rsync_word_v() -> (r: Vec<u8>)
    ensures
        r@ == arg_rsync_word(),
{
    let mut v: Vec<u8> = Vec::new();
    v.push(114u8);
    v.push(115u8);
    v.push(121u8);
    v.push(110u8);
    v.push(99u8);
    proof {
        assert(v@ =~= arg_rsync_word());
    }
    v
}

/// The bytes of `"-r"`.
pub open spec fn arg_r() -> Seq<u8> {
    seq![45u8, 114u8]
}

fn arg_r_v() -> (r: Vec<u8>)
    ensures
        r@ == arg_r(),
{
    let mut v: Vec<u8> = Vec::new();
    v.push(45u8);
    v.push(114u8);
    proof {
        assert(v@ =~= arg_r());
    }
    v
}

/// The bytes of `"-d"`.
pub open spec fn arg_d() -> Seq<u8> {
    seq![45u8, 100u8]
}

fn arg_d_v() -> (r: Vec<u8>)
    ensures
        r@ == arg_d(),
{
    let mut v: Vec<u8> = Vec::new();
    v.push(45u8);
    v.push(100u8);
    proof {
        assert(v@ =~= arg_d());
    }
    v
}

/// The bytes of `"-u"`.
pub open spec fn arg_u() -> Seq<u8> {
    seq![45u8, 117u8]
}

fn arg_u_v() -> (r: Vec<u8>)
    ensures
        r@ == arg_u(),
{
    let mut v: Vec<u8> = Vec::new();
    v.push(45u8);
    v.push(117u8);
    proof {
        assert(v@ =~= arg_u());
    }
    v
}

/// The program and argument list of the transfer that makes the local
/// directory an exact mirror of the remote store.
pub open spec fn download_cmd_spec(b: Backend, local_dir: Seq<u8>) -> Option<
    (Seq<u8>, Seq<Seq<u8>>),
> {
    match b {
        Backend::Local { .. } => None,
        Backend::RsyncSsh { ssh_dir } => Some(
            (
                arg_rsync_word(),
                seq![arg_a(), arg_z(), arg_delete(), ssh_dir@ + seq![47u8], local_dir],
            ),
        ),
        Backend::S3 { url } => Some(
            (
                prog_s3cmd(),
                seq![arg_sync(), arg_delete_removed(), slashed(url@), slashed(local_dir)],
            ),
        ),
        Backend::Gcs { url } => Some(
            (
                prog_gsutil(),
                seq![arg_m(), arg_rsync_word(), arg_r(), arg_d(), arg_u(), url@, local_dir],
            ),
        ),
    }
}

/// The program and argument list of the transfer that makes the remote
/// store an exact mirror of the local directory.
pub open spec fn upload_cmd_spec(b: Backend, local_dir: Seq<u8>) -> Option<
    (Seq<u8>, Seq<Seq<u8>>),
> {
    match b {
        Backend::Local { .. } => None,
        Backend::RsyncSsh { ssh_dir } => Some(
            (
                arg_rsync_word(),
                seq![arg_a(), arg_z(), arg_delete(), slashed(local_dir), ssh_dir@],
            ),
        ),
        Backend::S3 { url } => Some(
            (
                prog_s3cmd(),
                seq![
                    arg_sync(),
                    arg_follow_symlinks(),
                    arg_delete_removed(),
                    arg_acl_public(),
                    slashed(local_dir),
                    slashed(url@),
                ],
            ),
        ),
        Backend::Gcs { url } => Some(
            (
                prog_gsutil(),
                seq![arg_m(), arg_rsync_word(), arg_r(), arg_d(), arg_u(), local_dir, url@],
            ),
        ),
    }
}

impl Backend {
    /// The command that downloads the mirror, or nothing for a local
    /// repository.
    pub fn download_cmd(&self, local_dir: &[u8]) -> (r: Option<(Vec<u8>, Vec<Vec<u8>>)>)
        ensures
            match r {
                Some(c) => download_cmd_spec(*self, local_dir@) == Some(
                    (c.0@, c.1.deep_view()),
                ),
                None => download_cmd_spec(*self, local_dir@) is None,
            },
    {
        match self {
            Backend::Local { .. } => None,
            Backend::RsyncSsh { ssh_dir } => {
                let mut args: Vec<Vec<u8>> = Vec::new();
                args.push(arg_a_v());
                args.push(arg_z_v());
                args.push(arg_delete_v());
                let mut src: Vec<u8> = Vec::new();
                append_bytes(&mut src, ssh_dir.as_slice());
                src.push(47u8);
                proof {
                    assert(src@ =~= ssh_dir@ + seq![47u8]);
                }
                args.push(src);
                args.push(crate::bytes::copy_range(local_dir, 0, local_dir.len()));
                proof {
                    lemma_deep_all(&args);
                    assert(args@.len() == 5);
                    assert(args@[0]@ == arg_a());
                    assert(args@[1]@ == arg_z());
                    assert(args@[2]@ == arg_delete());
                    assert(args@[3]@ == ssh_dir@ + seq![47u8]);
                    assert(args@[4]@ =~= local_dir@);
                    assert(args.deep_view() =~= seq![
                        arg_a(),
                        arg_z(),
                        arg_delete(),
                        ssh_dir@ + seq![47u8],
                        local_dir@,
                    ]);
                }
                Some((arg_rsync_word_v(), args))
            },
            Backend::S3 { url } => {
                let mut args: Vec<Vec<u8>> = Vec::new();
                args.push(arg_sync_v());
                args.push(arg_delete_removed_v());
                args.push(ensure_ends_with_slash(url.as_slice()));
                args.push(ensure_ends_with_slash(local_dir));
                proof {
                    lemma_deep_all(&args);
                    assert(args@.len() == 4);
                    assert(args@[0]@ == arg_sync());
                    assert(args@[1]@ == arg_delete_removed());
                    assert(args@[2]@ == slashed(url@));
                    assert(args@[3]@ == slashed(local_dir@));
                    assert(args.deep_view() =~= seq![
                        arg_sync(),
                        arg_delete_removed(),
                        slashed(url@),
                        slashed(local_dir@),
                    ]);
                }
                Some((prog_s3cmd_v(), args))
            },
            Backend::Gcs { url } => {
                let mut args: Vec<Vec<u8>> = Vec::new();
                args.push(arg_m_v());
                args.push(arg_rsync_word_v());
                args.push(arg_r_v());
                args.push(arg_d_v());
                args.push(arg_u_v());
                args.push(crate::bytes::copy_range(url.as_slice(), 0, url.len()));
                args.push(crate::bytes::copy_range(local_dir, 0, local_dir.len()));
                proof {
                    lemma_deep_all(&args);
                    assert(args@.len() == 7);
                    assert(args@[0]@ == arg_m());
                    assert(args@[1]@ == arg_rsync_word());
                    assert(args@[2]@ == arg_r());
                    assert(args@[3]@ == arg_d());
                    assert(args@[4]@ == arg_u());
                    assert(args@[5]@ =~= url@);
                    assert(args@[6]@ =~= local_dir@);
                    assert(args.deep_view() =~= seq![
                        arg_m(),
                        arg_rsync_word(),
                        arg_r(),
                        arg_d(),
                        arg_u(),
                        url@,
                        local_dir@,
                    ]);
                }
                Some((prog_gsutil_v(), args))
            },
        }
    }

    /// The command that uploads the mirror, or nothing for a local
    /// repository.
    pub fn upload_cmd(&self, local_dir: &[u8]) -> (r: Option<(Vec<u8>, Vec<Vec<u8>>)>)
        ensures
            match r {
                Some(c) => upload_cmd_spec(*self, local_dir@) == Some((c.0@, c.1.deep_view())),
                None => upload_cmd_spec(*self, local_dir@) is None,
            },
    {
        match self {
            Backend::Local { .. } => None,
            Backend::RsyncSsh { ssh_dir } => {
                let mut args: Vec<Vec<u8>> = Vec::new();
                args.push(arg_a_v());
                args.push(arg_z_v());
                args.push(arg_delete_v());
                args.push(ensure_ends_with_slash(local_dir));
                args.push(crate::bytes::copy_range(ssh_dir.as_slice(), 0, ssh_dir.len()));
                proof {
                    lemma_deep_all(&args);
                    assert(args@.len() == 5);
                    assert(args@[0]@ == arg_a());
                    assert(args@[1]@ == arg_z());
                    assert(args@[2]@ == arg_delete());
                    assert(args@[3]@ == slashed(local_dir@));
                    assert(args@[4]@ =~= ssh_dir@);
                    assert(args.deep_view() =~= seq![
                        arg_a(),
                        arg_z(),
                        arg_delete(),
                        slashed(local_dir@),
                        ssh_dir@,
                    ]);
                }
                Some((arg_rsync_word_v(), args))
            },
            Backend::S3 { url } => {
                let mut args: Vec<Vec<u8>> = Vec::new();
                args.push(arg_sync_v());
                args.push(arg_follow_symlinks_v());
                args.push(arg_delete_removed_v());
                args.push(arg_acl_public_v());
                args.push(ensure_ends_with_slash(local_dir));
                args.push(ensure_ends_with_slash(url.as_slice()));
                proof {
                    lemma_deep_all(&args);
                    assert(args@.len() == 6);
                    assert(args@[0]@ == arg_sync());
                    assert(args@[1]@ == arg_follow_symlinks());
                    assert(args@[2]@ == arg_delete_removed());
                    assert(args@[3]@ == arg_acl_public());
                    assert(args@[4]@ == slashed(local_dir@));
                    assert(args@[5]@ == slashed(url@));
                    assert(args.deep_view() =~= seq![
                        arg_sync(),
                        arg_follow_symlinks(),
                        arg_delete_removed(),
                        arg_acl_public(),
                        slashed(local_dir@),
                        slashed(url@),
                    ]);
                }
                Some((prog_s3cmd_v(), args))
            },
            Backend::Gcs { url } => {
                let mut args: Vec<Vec<u8>> = Vec::new();
                args.push(arg_m_v());
                args.push(arg_rsync_word_v());
                args.push(arg_r_v());
                args.push(arg_d_v());
                args.push(arg_u_v());
                args.push(crate::bytes::copy_range(local_dir, 0, local_dir.len()));
                args.push(crate::bytes::copy_range(url.as_slice(), 0, url.len()));
                proof {
                    lemma_deep_all(&args);
                    assert(args@.len() == 7);
                    assert(args@[0]@ == arg_m());
                    assert(args@[1]@ == arg_rsync_word());
                    assert(args@[2]@ == arg_r());
                    assert(args@[3]@ == arg_d());
                    assert(args@[4]@ == arg_u());
                    assert(args@[5]@ =~= local_dir@);
                    assert(args@[6]@ =~= url@);
                    assert(args.deep_view() =~= seq![
                        arg_m(),
                        arg_rsync_word(),
                        arg_r(),
                        arg_d(),
                        arg_u(),
                        local_dir@,
                        url@,
                    ]);
                }
                Some((prog_gsutil_v(), args))
            },
        }
    }
}

proof fn lemma_deep_all(args: &Vec<Vec<u8>>)
    ensures
        args.deep_view().len() == args@.len(),
        forall|x: int| 0 <= x < args@.len() ==> args.deep_view()[x] == args@[x]@,
{
    assert forall|x: int| 0 <= x < args@.len() implies args.deep_view()[x] == args@[x]@ by {
        assert(args.deep_view()[x] == args@[x].deep_view());
        assert(args@[x].deep_view() =~= args@[x]@);
    }
}

} // verus!
