//! Package-file identities.
//!
//! A package file lies at `DIR/NAME-VERSION-RELEASE-ARCH.EXT`, where the
//! extension is `.pkg.tar.` followed by a compression suffix.  This module
//! parses such paths, rebuilds them, and derives the version-agnostic glob
//! pattern `DIR/NAME-*-*-ARCH.EXT` that finds any-version files of the same
//! package.

use crate::bytes::{
    append_bytes, bytes_eq, copy_range, ends_with, free_of, range_free_of, rscan_byte, suffix_of,
};
use crate::error::RepoError;
use crate::glob::{glob_match, lemma_glob_literal_prefix, lemma_glob_refl, lemma_glob_star};
use vstd::prelude::*;

verus! {

/// The identity of a package file: its directory and the five components of
/// the canonical file name.
#[derive(Debug)]
pub struct PkgIdentity {
    /// Directory part, empty or ending with `/`.
    pub dir: Vec<u8>,
    /// Package name; may itself contain `-` and `.`.
    pub name: Vec<u8>,
    /// Upstream version, free of `-`.
    pub version: Vec<u8>,
    /// Release counter, free of `-`.
    pub release: Vec<u8>,
    /// Architecture, free of `-`.
    pub arch: Vec<u8>,
    /// Extension: `.pkg.tar.` plus a suffix free of `.`, `-` and `/`.
    pub ext: Vec<u8>,
}

/// Spec-level image of a package identity.
#[verifier::ext_equal]
pub ghost struct IdView {
    pub dir: Seq<u8>,
    pub name: Seq<u8>,
    pub version: Seq<u8>,
    pub release: Seq<u8>,
    pub arch: Seq<u8>,
    pub ext: Seq<u8>,
}

impl View for PkgIdentity {
    type V = IdView;

    open spec fn view(&self) -> IdView {
        IdView {
            dir: self.dir@,
            name: self.name@,
            version: self.version@,
            release: self.release@,
            arch: self.arch@,
            ext: self.ext@,
        }
    }
}

/// The nine bytes of `".pkg.tar."`.
pub open spec fn pkg_tar_prefix() -> Seq<u8> {
    seq![46u8, 112u8, 107u8, 103u8, 46u8, 116u8, 97u8, 114u8, 46u8]
}

/// The four bytes of `".sig"`.
pub open spec fn sig_suffix() -> Seq<u8> {
    seq![46u8, 115u8, 105u8, 103u8]
}

/// Well-formedness of an identity: each component is as the canonical
/// pattern demands, so that the concatenated path parses back uniquely.
pub open spec fn id_wf(v: IdView) -> bool {
    &&& (v.dir.len() == 0 || v.dir.last() == 47)
    &&& v.name.len() > 0 && free_of(v.name, 47)
    &&& v.version.len() > 0 && free_of(v.version, 45) && free_of(v.version, 47)
    &&& v.release.len() > 0 && free_of(v.release, 45) && free_of(v.release, 47)
    &&& v.arch.len() > 0 && free_of(v.arch, 45) && free_of(v.arch, 47)
    &&& v.ext.len() > 9
    &&& v.ext.take(9) == pkg_tar_prefix()
    &&& free_of(v.ext.skip(9), 46)
    &&& free_of(v.ext.skip(9), 45)
    &&& free_of(v.ext.skip(9), 47)
}

/// The path that an identity denotes.
pub open spec fn path_view(v: IdView) -> Seq<u8> {
    v.dir + v.name + seq![45u8] + v.version + seq![45u8] + v.release + seq![45u8] + v.arch + v.ext
}

/// `s` is the path of some well-formed identity.
pub open spec fn is_pkg_path(s: Seq<u8>) -> bool {
    exists|v: IdView| id_wf(v) && #[trigger] path_view(v) == s
}

/// The (unique) identity whose path is `s`; meaningful when `is_pkg_path(s)`.
pub open spec fn the_id(s: Seq<u8>) -> IdView {
    choose|v: IdView| id_wf(v) && #[trigger] path_view(v) == s
}

/// Offsets of the components inside `path_view(v)`: start of name, of the
/// three dashes, of version, release, arch and ext.
pub open spec fn off_name(v: IdView) -> int {
    v.dir.len() as int
}

pub open spec fn off_dash1(v: IdView) -> int {
    off_name(v) + v.name.len()
}

pub open spec fn off_ver(v: IdView) -> int {
    off_dash1(v) + 1
}

pub open spec fn off_dash2(v: IdView) -> int {
    off_ver(v) + v.version.len()
}

pub open spec fn off_rel(v: IdView) -> int {
    off_dash2(v) + 1
}

pub open spec fn off_dash3(v: IdView) -> int {
    off_rel(v) + v.release.len()
}

pub open spec fn off_arch(v: IdView) -> int {
    off_dash3(v) + 1
}

pub open spec fn off_ext(v: IdView) -> int {
    off_arch(v) + v.arch.len()
}

/// How the path of an identity decomposes at the component offsets.
pub proof fn lemma_path_decomp(v: IdView)
    ensures
        path_view(v).len() == off_ext(v) + v.ext.len(),
        path_view(v).subrange(0, off_name(v)) == v.dir,
        path_view(v).subrange(off_name(v), off_dash1(v)) == v.name,
        path_view(v)[off_dash1(v)] == 45,
        path_view(v).subrange(off_ver(v), off_dash2(v)) == v.version,
        path_view(v)[off_dash2(v)] == 45,
        path_view(v).subrange(off_rel(v), off_dash3(v)) == v.release,
        path_view(v)[off_dash3(v)] == 45,
        path_view(v).subrange(off_arch(v), off_ext(v)) == v.arch,
        path_view(v).subrange(off_ext(v), path_view(v).len() as int) == v.ext,
{
    let s = path_view(v);
    assert(s.subrange(0, off_name(v)) =~= v.dir);
    assert(s.subrange(off_name(v), off_dash1(v)) =~= v.name);
    assert(s.subrange(off_ver(v), off_dash2(v)) =~= v.version);
    assert(s.subrange(off_rel(v), off_dash3(v)) =~= v.release);
    assert(s.subrange(off_arch(v), off_ext(v)) =~= v.arch);
    assert(s.subrange(off_ext(v), s.len() as int) =~= v.ext);
}

/// In the path of a well-formed identity, every `/` lies inside the
/// directory part, and a non-empty directory ends with one.
proof fn lemma_wf_slash(v: IdView)
    requires
        id_wf(v),
    ensures
        forall|k: int| off_name(v) <= k < path_view(v).len() ==> path_view(v)[k] != 47,
        v.dir.len() > 0 ==> path_view(v)[v.dir.len() - 1] == 47,
{
    let s = path_view(v);
    lemma_path_decomp(v);
    assert(v.ext.take(9) == pkg_tar_prefix());
    assert forall|k: int| off_name(v) <= k < s.len() implies s[k] != 47 by {
        if k < off_dash1(v) {
            assert(s[k] == v.name[k - off_name(v)]);
        } else if k == off_dash1(v) || k == off_dash2(v) || k == off_dash3(v) {
        } else if k < off_dash2(v) {
            assert(s[k] == v.version[k - off_ver(v)]);
        } else if k < off_dash3(v) {
            assert(s[k] == v.release[k - off_rel(v)]);
        } else if k < off_ext(v) {
            assert(s[k] == v.arch[k - off_arch(v)]);
        } else {
            let j = k - off_ext(v);
            assert(s[k] == v.ext[j]);
            if j < 9 {
                assert(v.ext[j] == pkg_tar_prefix()[j]) by {
                    assert(v.ext.take(9)[j] == v.ext[j]);
                }
            } else {
                assert(v.ext[j] == v.ext.skip(9)[j - 9]);
            }
        }
    }
    if v.dir.len() > 0 {
        assert(s[v.dir.len() - 1] == v.dir[v.dir.len() - 1]);
    }
}

/// In the path of a well-formed identity, the last `.` is the one that
/// closes `".pkg.tar."`, eight bytes into the extension.
proof fn lemma_wf_dot(v: IdView)
    requires
        id_wf(v),
    ensures
        path_view(v)[off_ext(v) + 8] == 46,
        forall|k: int| off_ext(v) + 8 < k < path_view(v).len() ==> path_view(v)[k] != 46,
{
    let s = path_view(v);
    lemma_path_decomp(v);
    assert(v.ext[8] == pkg_tar_prefix()[8]) by {
        assert(v.ext.take(9)[8] == v.ext[8]);
    }
    assert(s[off_ext(v) + 8] == v.ext[8]);
    assert forall|k: int| off_ext(v) + 8 < k < s.len() implies s[k] != 46 by {
        let j = k - off_ext(v);
        assert(s[k] == v.ext[j]);
        assert(v.ext[j] == v.ext.skip(9)[j - 9]);
    }
}

/// In the path of a well-formed identity, the dash before the architecture
/// is the last dash of the stem, and likewise inward for release and
/// version.
proof fn lemma_wf_dashes(v: IdView)
    requires
        id_wf(v),
    ensures
        path_view(v)[off_dash1(v)] == 45,
        path_view(v)[off_dash2(v)] == 45,
        path_view(v)[off_dash3(v)] == 45,
        forall|k: int| off_dash3(v) < k < off_ext(v) ==> path_view(v)[k] != 45,
        forall|k: int| off_dash2(v) < k < off_dash3(v) ==> path_view(v)[k] != 45,
        forall|k: int| off_dash1(v) < k < off_dash2(v) ==> path_view(v)[k] != 45,
{
    let s = path_view(v);
    lemma_path_decomp(v);
    assert forall|k: int| off_dash3(v) < k < off_ext(v) implies s[k] != 45 by {
        assert(s[k] == v.arch[k - off_arch(v)]);
    }
    assert forall|k: int| off_dash2(v) < k < off_dash3(v) implies s[k] != 45 by {
        assert(s[k] == v.release[k - off_rel(v)]);
    }
    assert forall|k: int| off_dash1(v) < k < off_dash2(v) implies s[k] != 45 by {
        assert(s[k] == v.version[k - off_ver(v)]);
    }
}

/// Two well-formed identities with the same path agree in every component.
pub proof fn lemma_path_unique(v: IdView, w: IdView)
    requires
        id_wf(v),
        id_wf(w),
        path_view(v) == path_view(w),
    ensures
        v.dir == w.dir,
        v.name == w.name,
        v.version == w.version,
        v.release == w.release,
        v.arch == w.arch,
        v.ext == w.ext,
{
    let s = path_view(v);
    lemma_path_decomp(v);
    lemma_path_decomp(w);
    lemma_wf_slash(v);
    lemma_wf_slash(w);
    lemma_wf_dot(v);
    lemma_wf_dot(w);
    lemma_wf_dashes(v);
    lemma_wf_dashes(w);
    // the directory parts have the same length
    if v.dir.len() > 0 && w.dir.len() > 0 {
        assert(v.dir.len() <= w.dir.len());
        assert(w.dir.len() <= v.dir.len());
    } else if v.dir.len() > 0 {
        assert(s[v.dir.len() - 1] == 47);
        assert(v.dir.len() - 1 >= off_name(w));
        assert(false);
    } else if w.dir.len() > 0 {
        assert(s[w.dir.len() - 1] == 47);
        assert(w.dir.len() - 1 >= off_name(v));
        assert(false);
    }
    assert(v.dir.len() == w.dir.len());
    // the extensions have the same length: the last dot is shared
    let pv = off_ext(v) + 8;
    let pw = off_ext(w) + 8;
    if pv < pw {
        assert(s[pw] != 46);
        assert(false);
    } else if pw < pv {
        assert(s[pv] != 46);
        assert(false);
    }
    assert(off_ext(v) == off_ext(w));
    // the dash before the architecture is shared
    if off_dash3(v) < off_dash3(w) {
        assert(off_dash3(w) < off_ext(v));
        assert(s[off_dash3(w)] != 45);
        assert(false);
    } else if off_dash3(w) < off_dash3(v) {
        assert(s[off_dash3(v)] != 45);
        assert(false);
    }
    // the dash before the release is shared
    if off_dash2(v) < off_dash2(w) {
        assert(s[off_dash2(w)] != 45);
        assert(false);
    } else if off_dash2(w) < off_dash2(v) {
        assert(s[off_dash2(v)] != 45);
        assert(false);
    }
    // the dash before the version is shared
    if off_dash1(v) < off_dash1(w) {
        assert(s[off_dash1(w)] != 45);
        assert(false);
    } else if off_dash1(w) < off_dash1(v) {
        assert(s[off_dash1(v)] != 45);
        assert(false);
    }
    assert(v.dir =~= w.dir);
    assert(v.name =~= w.name);
    assert(v.version =~= w.version);
    assert(v.release =~= w.release);
    assert(v.arch =~= w.arch);
    assert(v.ext =~= w.ext);
}


/// Picks the identity behind a package path.
proof fn unpack(s: Seq<u8>) -> (v: IdView)
    requires
        is_pkg_path(s),
    ensures
        id_wf(v),
        path_view(v) == s,
{
    let v = choose|v: IdView| id_wf(v) && #[trigger] path_view(v) == s;
    v
}

/// What the backwards scan for the last `/` establishes: `fstart` is 0 with
/// no slash anywhere, or the position right after the last slash.
pub open spec fn slash_facts(s: Seq<u8>, fstart: int) -> bool {
    &&& 0 <= fstart <= s.len()
    &&& (fstart == 0 ==> forall|k: int| 0 <= k < s.len() ==> s[k] != 47)
    &&& (fstart > 0 ==> s[fstart - 1] == 47 && forall|k: int|
        fstart <= k < s.len() ==> s[k] != 47)
}

/// What the backwards scan for the last `.` establishes.
pub open spec fn dot_facts(s: Seq<u8>, idot: int) -> bool {
    &&& 0 <= idot < s.len()
    &&& s[idot] == 46
    &&& forall|k: int| idot < k < s.len() ==> s[k] != 46
}

proof fn lemma_fstart_is_dir(v: IdView, fstart: int)
    requires
        id_wf(v),
        slash_facts(path_view(v), fstart),
    ensures
        fstart == v.dir.len(),
{
    lemma_path_decomp(v);
    lemma_wf_slash(v);
    if v.dir.len() == 0 {
        if fstart > 0 {
            assert(path_view(v)[fstart - 1] == 47);
            assert(false);
        }
    } else {
        assert(path_view(v)[v.dir.len() - 1] == 47);
        if fstart == 0 {
            assert(false);
        }
    }
}

proof fn lemma_idot_is_ext_dot(v: IdView, idot: int)
    requires
        id_wf(v),
        dot_facts(path_view(v), idot),
    ensures
        idot == off_ext(v) + 8,
{
    lemma_path_decomp(v);
    lemma_wf_dot(v);
}

proof fn err_no_dot(s: Seq<u8>)
    requires
        forall|k: int| 0 <= k < s.len() ==> s[k] != 46,
    ensures
        !is_pkg_path(s),
{
    if is_pkg_path(s) {
        let v = unpack(s);
        lemma_path_decomp(v);
        lemma_wf_dot(v);
        assert(s[off_ext(v) + 8] == 46);
        assert(false);
    }
}

proof fn err_sfx_empty(s: Seq<u8>, idot: int)
    requires
        dot_facts(s, idot),
        idot + 1 >= s.len(),
    ensures
        !is_pkg_path(s),
{
    if is_pkg_path(s) {
        let v = unpack(s);
        lemma_path_decomp(v);
        lemma_idot_is_ext_dot(v, idot);
        assert(false);
    }
}

proof fn err_sfx_dash(s: Seq<u8>, idot: int)
    requires
        dot_facts(s, idot),
        exists|k: int| idot < k < s.len() && s[k] == 45,
    ensures
        !is_pkg_path(s),
{
    if is_pkg_path(s) {
        let v = unpack(s);
        lemma_path_decomp(v);
        lemma_idot_is_ext_dot(v, idot);
        let k = choose|k: int| idot < k < s.len() && s[k] == 45;
        assert(s[k] == v.ext[k - off_ext(v)]);
        assert(v.ext[k - off_ext(v)] == v.ext.skip(9)[k - off_ext(v) - 9]);
        assert(false);
    }
}

proof fn err_dot_low(s: Seq<u8>, fstart: int, idot: int)
    requires
        slash_facts(s, fstart),
        dot_facts(s, idot),
        idot < fstart + 8,
    ensures
        !is_pkg_path(s),
{
    if is_pkg_path(s) {
        let v = unpack(s);
        lemma_path_decomp(v);
        lemma_fstart_is_dir(v, fstart);
        lemma_idot_is_ext_dot(v, idot);
        assert(false);
    }
}

proof fn err_ext_bytes(s: Seq<u8>, fstart: int, idot: int)
    requires
        slash_facts(s, fstart),
        dot_facts(s, idot),
        idot >= fstart + 8,
        !(s[idot - 8] == 46 && s[idot - 7] == 112 && s[idot - 6] == 107 && s[idot - 5] == 103
            && s[idot - 4] == 46 && s[idot - 3] == 116 && s[idot - 2] == 97 && s[idot - 1]
            == 114),
    ensures
        !is_pkg_path(s),
{
    if is_pkg_path(s) {
        let v = unpack(s);
        lemma_path_decomp(v);
        lemma_idot_is_ext_dot(v, idot);
        assert forall|j: int| 0 <= j < 9 implies s[off_ext(v) + j] == pkg_tar_prefix()[j] by {
            assert(s[off_ext(v) + j] == v.ext[j]);
            assert(v.ext.take(9)[j] == v.ext[j]);
        }
        assert(s[idot - 8] == pkg_tar_prefix()[0]);
        assert(s[idot - 7] == pkg_tar_prefix()[1]);
        assert(s[idot - 6] == pkg_tar_prefix()[2]);
        assert(s[idot - 5] == pkg_tar_prefix()[3]);
        assert(s[idot - 4] == pkg_tar_prefix()[4]);
        assert(s[idot - 3] == pkg_tar_prefix()[5]);
        assert(s[idot - 2] == pkg_tar_prefix()[6]);
        assert(s[idot - 1] == pkg_tar_prefix()[7]);
        assert(false);
    }
}

proof fn err_no_dash3(s: Seq<u8>, fstart: int, idot: int)
    requires
        slash_facts(s, fstart),
        dot_facts(s, idot),
        idot >= fstart + 8,
        forall|k: int| fstart <= k < idot - 8 ==> s[k] != 45,
    ensures
        !is_pkg_path(s),
{
    if is_pkg_path(s) {
        let v = unpack(s);
        lemma_path_decomp(v);
        lemma_fstart_is_dir(v, fstart);
        lemma_idot_is_ext_dot(v, idot);
        lemma_wf_dashes(v);
        assert(s[off_dash3(v)] == 45);
        assert(false);
    }
}

proof fn lemma_d3_is_dash3(v: IdView, fstart: int, idot: int, d3: int)
    requires
        id_wf(v),
        slash_facts(path_view(v), fstart),
        dot_facts(path_view(v), idot),
        idot >= fstart + 8,
        fstart <= d3 < idot - 8,
        path_view(v)[d3] == 45,
        forall|k: int| d3 < k < idot - 8 ==> path_view(v)[k] != 45,
    ensures
        d3 == off_dash3(v),
{
    lemma_path_decomp(v);
    lemma_fstart_is_dir(v, fstart);
    lemma_idot_is_ext_dot(v, idot);
    lemma_wf_dashes(v);
}

proof fn err_arch_empty(s: Seq<u8>, fstart: int, idot: int, d3: int)
    requires
        slash_facts(s, fstart),
        dot_facts(s, idot),
        idot >= fstart + 8,
        fstart <= d3 < idot - 8,
        s[d3] == 45,
        forall|k: int| d3 < k < idot - 8 ==> s[k] != 45,
        d3 + 1 >= idot - 8,
    ensures
        !is_pkg_path(s),
{
    if is_pkg_path(s) {
        let v = unpack(s);
        lemma_path_decomp(v);
        lemma_d3_is_dash3(v, fstart, idot, d3);
        assert(false);
    }
}

proof fn err_no_dash2(s: Seq<u8>, fstart: int, idot: int, d3: int)
    requires
        slash_facts(s, fstart),
        dot_facts(s, idot),
        idot >= fstart + 8,
        fstart <= d3 < idot - 8,
        s[d3] == 45,
        forall|k: int| d3 < k < idot - 8 ==> s[k] != 45,
        forall|k: int| fstart <= k < d3 ==> s[k] != 45,
    ensures
        !is_pkg_path(s),
{
    if is_pkg_path(s) {
        let v = unpack(s);
        lemma_path_decomp(v);
        lemma_fstart_is_dir(v, fstart);
        lemma_d3_is_dash3(v, fstart, idot, d3);
        lemma_wf_dashes(v);
        assert(s[off_dash2(v)] == 45);
        assert(false);
    }
}

proof fn lemma_d2_is_dash2(v: IdView, fstart: int, idot: int, d3: int, d2: int)
    requires
        id_wf(v),
        slash_facts(path_view(v), fstart),
        dot_facts(path_view(v), idot),
        idot >= fstart + 8,
        fstart <= d3 < idot - 8,
        path_view(v)[d3] == 45,
        forall|k: int| d3 < k < idot - 8 ==> path_view(v)[k] != 45,
        fstart <= d2 < d3,
        path_view(v)[d2] == 45,
        forall|k: int| d2 < k < d3 ==> path_view(v)[k] != 45,
    ensures
        d2 == off_dash2(v),
        d3 == off_dash3(v),
{
    lemma_path_decomp(v);
    lemma_fstart_is_dir(v, fstart);
    lemma_d3_is_dash3(v, fstart, idot, d3);
    lemma_wf_dashes(v);
}

proof fn err_rel_empty(s: Seq<u8>, fstart: int, idot: int, d3: int, d2: int)
    requires
        slash_facts(s, fstart),
        dot_facts(s, idot),
        idot >= fstart + 8,
        fstart <= d3 < idot - 8,
        s[d3] == 45,
        forall|k: int| d3 < k < idot - 8 ==> s[k] != 45,
        fstart <= d2 < d3,
        s[d2] == 45,
        forall|k: int| d2 < k < d3 ==> s[k] != 45,
        d2 + 1 >= d3,
    ensures
        !is_pkg_path(s),
{
    if is_pkg_path(s) {
        let v = unpack(s);
        lemma_path_decomp(v);
        lemma_d2_is_dash2(v, fstart, idot, d3, d2);
        assert(false);
    }
}

proof fn err_no_dash1(s: Seq<u8>, fstart: int, idot: int, d3: int, d2: int)
    requires
        slash_facts(s, fstart),
        dot_facts(s, idot),
        idot >= fstart + 8,
        fstart <= d3 < idot - 8,
        s[d3] == 45,
        forall|k: int| d3 < k < idot - 8 ==> s[k] != 45,
        fstart <= d2 < d3,
        s[d2] == 45,
        forall|k: int| d2 < k < d3 ==> s[k] != 45,
        forall|k: int| fstart <= k < d2 ==> s[k] != 45,
    ensures
        !is_pkg_path(s),
{
    if is_pkg_path(s) {
        let v = unpack(s);
        lemma_path_decomp(v);
        lemma_d2_is_dash2(v, fstart, idot, d3, d2);
        lemma_wf_dashes(v);
        assert(s[off_dash1(v)] == 45);
        assert(false);
    }
}

proof fn err_ver_or_name_empty(s: Seq<u8>, fstart: int, idot: int, d3: int, d2: int, d1: int)
    requires
        slash_facts(s, fstart),
        dot_facts(s, idot),
        idot >= fstart + 8,
        fstart <= d3 < idot - 8,
        s[d3] == 45,
        forall|k: int| d3 < k < idot - 8 ==> s[k] != 45,
        fstart <= d2 < d3,
        s[d2] == 45,
        forall|k: int| d2 < k < d3 ==> s[k] != 45,
        fstart <= d1 < d2,
        s[d1] == 45,
        forall|k: int| d1 < k < d2 ==> s[k] != 45,
        d1 + 1 >= d2 || d1 == fstart,
    ensures
        !is_pkg_path(s),
{
    if is_pkg_path(s) {
        let v = unpack(s);
        lemma_path_decomp(v);
        lemma_d2_is_dash2(v, fstart, idot, d3, d2);
        lemma_fstart_is_dir(v, fstart);
        lemma_wf_dashes(v);
        if off_dash1(v) < d1 {
            assert(s[off_dash1(v)] != 45);
            assert(false);
        } else if d1 < off_dash1(v) {
            assert(s[d1] != 45);
            assert(false);
        }
        assert(false);
    }
}

/// The identity assembled from scan positions in `s`.
pub open spec fn mk_view(s: Seq<u8>, fstart: int, d1: int, d2: int, d3: int, e: int) -> IdView {
    IdView {
        dir: s.subrange(0, fstart),
        name: s.subrange(fstart, d1),
        version: s.subrange(d1 + 1, d2),
        release: s.subrange(d2 + 1, d3),
        arch: s.subrange(d3 + 1, e),
        ext: s.subrange(e, s.len() as int),
    }
}

proof fn ok_witness(s: Seq<u8>, fstart: int, idot: int, d1: int, d2: int, d3: int)
    requires
        slash_facts(s, fstart),
        dot_facts(s, idot),
        idot + 1 < s.len(),
        forall|k: int| idot < k < s.len() ==> s[k] != 45,
        idot >= fstart + 8,
        s[idot - 8] == 46 && s[idot - 7] == 112 && s[idot - 6] == 107 && s[idot - 5] == 103
            && s[idot - 4] == 46 && s[idot - 3] == 116 && s[idot - 2] == 97 && s[idot - 1] == 114,
        fstart < d1,
        d1 + 1 < d2,
        d2 + 1 < d3,
        d3 + 1 < idot - 8,
        s[d1] == 45 && s[d2] == 45 && s[d3] == 45,
        forall|k: int| d1 < k < d2 ==> s[k] != 45,
        forall|k: int| d2 < k < d3 ==> s[k] != 45,
        forall|k: int| d3 < k < idot - 8 ==> s[k] != 45,
    ensures
        id_wf(mk_view(s, fstart, d1, d2, d3, idot - 8)),
        path_view(mk_view(s, fstart, d1, d2, d3, idot - 8)) == s,
        is_pkg_path(s),
{
    let e = idot - 8;
    let w = mk_view(s, fstart, d1, d2, d3, e);
    assert(w.ext.take(9) =~= pkg_tar_prefix());
    assert forall|i: int|
        0 <= i < w.ext.skip(9).len() implies w.ext.skip(9)[i] != 46 && w.ext.skip(9)[i] != 45
        && w.ext.skip(9)[i] != 47 by {
        assert(w.ext.skip(9)[i] == s[e + 9 + i]);
    }
    assert(id_wf(w));
    assert(path_view(w) =~= s);
    assert(is_pkg_path(s)) by {
        assert(id_wf(w) && path_view(w) == s);
    }
}

impl PkgIdentity {
    /// Parses a path against the canonical pattern.  Succeeds exactly on the
    /// paths that some well-formed identity denotes, and then returns that
    /// identity: reconstructing the path from the parsed components yields
    /// the input again.
    pub fn parse(path: &[u8]) -> (r: Result<PkgIdentity, RepoError>)
        ensures
            match r {
                Ok(id) => id_wf(id@) && path_view(id@) == path@ && is_pkg_path(path@),
                Err(e) => e == RepoError::InvalidPackageFile && !is_pkg_path(path@),
            },
    {
        let n = path.len();
        // the directory part reaches through the last '/'
        let fstart: usize = match rscan_byte(path, 0, n, 47) {
            Some(i) => i + 1,
            None => 0,
        };
        proof {
            assert(slash_facts(path@, fstart as int));
        }
        // the extension suffix starts after the last '.'
        let idot: usize = match rscan_byte(path, 0, n, 46) {
            Some(i) => i,
            None => {
                proof {
                    err_no_dot(path@);
                }
                return Err(RepoError::InvalidPackageFile);
            },
        };
        if idot + 1 >= n {
            proof {
                err_sfx_empty(path@, idot as int);
            }
            return Err(RepoError::InvalidPackageFile);
        }
        if !range_free_of(path, idot + 1, n, 45) {
            proof {
                err_sfx_dash(path@, idot as int);
            }
            return Err(RepoError::InvalidPackageFile);
        }
        if idot < 8 || idot - 8 < fstart {
            proof {
                err_dot_low(path@, fstart as int, idot as int);
            }
            return Err(RepoError::InvalidPackageFile);
        }
        let e = idot - 8;
        if !(path[e] == 46 && path[e + 1] == 112 && path[e + 2] == 107 && path[e + 3] == 103
            && path[e + 4] == 46 && path[e + 5] == 116 && path[e + 6] == 97 && path[e + 7]
            == 114) {
            proof {
                err_ext_bytes(path@, fstart as int, idot as int);
            }
            return Err(RepoError::InvalidPackageFile);
        }
        // the dash before the architecture
        let d3: usize = match rscan_byte(path, fstart, e, 45) {
            Some(i) => i,
            None => {
                proof {
                    err_no_dash3(path@, fstart as int, idot as int);
                }
                return Err(RepoError::InvalidPackageFile);
            },
        };
        if d3 + 1 >= e {
            proof {
                err_arch_empty(path@, fstart as int, idot as int, d3 as int);
            }
            return Err(RepoError::InvalidPackageFile);
        }
        // the dash before the release
        let d2: usize = match rscan_byte(path, fstart, d3, 45) {
            Some(i) => i,
            None => {
                proof {
                    err_no_dash2(path@, fstart as int, idot as int, d3 as int);
                }
                return Err(RepoError::InvalidPackageFile);
            },
        };
        if d2 + 1 >= d3 {
            proof {
                err_rel_empty(path@, fstart as int, idot as int, d3 as int, d2 as int);
            }
            return Err(RepoError::InvalidPackageFile);
        }
        // the dash before the version
        let d1: usize = match rscan_byte(path, fstart, d2, 45) {
            Some(i) => i,
            None => {
                proof {
                    err_no_dash1(path@, fstart as int, idot as int, d3 as int, d2 as int);
                }
                return Err(RepoError::InvalidPackageFile);
            },
        };
        if d1 + 1 >= d2 || d1 == fstart {
            proof {
                err_ver_or_name_empty(
                    path@,
                    fstart as int,
                    idot as int,
                    d3 as int,
                    d2 as int,
                    d1 as int,
                );
            }
            return Err(RepoError::InvalidPackageFile);
        }
        let id = PkgIdentity {
            dir: copy_range(path, 0, fstart),
            name: copy_range(path, fstart, d1),
            version: copy_range(path, d1 + 1, d2),
            release: copy_range(path, d2 + 1, d3),
            arch: copy_range(path, d3 + 1, e),
            ext: copy_range(path, e, n),
        };
        proof {
            ok_witness(path@, fstart as int, idot as int, d1 as int, d2 as int, d3 as int);
            assert(id@ =~= mk_view(path@, fstart as int, d1 as int, d2 as int, d3 as int, e as int));
        }
        Ok(id)
    }
}

/// The version-agnostic pattern of an identity over a given directory part.
pub open spec fn glob_view(v: IdView, dirpart: Seq<u8>) -> Seq<u8> {
    dirpart + v.name + seq![45u8, 42u8, 45u8, 42u8, 45u8] + v.arch + v.ext
}

/// Same package: equal name, architecture and extension; such identities
/// differ at most in version and release.
pub open spec fn same_package(a: IdView, b: IdView) -> bool {
    a.name == b.name && a.arch == b.arch && a.ext == b.ext
}

/// `f` without a trailing `.sig`, if it carries one.
pub open spec fn strip_sig(f: Seq<u8>) -> Seq<u8> {
    if suffix_of(sig_suffix(), f) {
        f.take(f.len() - 4)
    } else {
        f
    }
}

/// A path in `dir` that holds a package file of the same package as `v` at
/// any version and release, or the signature of one.
pub open spec fn old_file_of(v: IdView, dir: Seq<u8>, f: Seq<u8>) -> bool {
    &&& is_pkg_path(strip_sig(f))
    &&& the_id(strip_sig(f)).dir == dir + seq![47u8]
    &&& same_package(the_id(strip_sig(f)), v)
}

/// The exact path `DIR/NAME-VERSION-ARCH.EXT` that a database entry
/// predicts for its package file; the version component carries the release.
pub open spec fn meta_path(
    dir: Seq<u8>,
    name: Seq<u8>,
    version: Seq<u8>,
    arch: Seq<u8>,
    ext: Seq<u8>,
) -> Seq<u8> {
    dir + seq![47u8] + name + seq![45u8] + version + seq![45u8] + arch + ext
}

/// Builds the database-predicted path `DIR/NAME-VERSION-ARCH.EXT`.
pub fn build_meta_path(
    name: &[u8],
    version: &[u8],
    arch: &[u8],
    local_dir: &[u8],
    pkg_ext: &[u8],
) -> (r: Vec<u8>)
    ensures
        r@ == meta_path(local_dir@, name@, version@, arch@, pkg_ext@),
{
    let mut p: Vec<u8> = Vec::new();
    append_bytes(&mut p, local_dir);
    p.push(47u8);
    append_bytes(&mut p, name);
    p.push(45u8);
    append_bytes(&mut p, version);
    p.push(45u8);
    append_bytes(&mut p, arch);
    append_bytes(&mut p, pkg_ext);
    proof {
        assert(p@ =~= meta_path(local_dir@, name@, version@, arch@, pkg_ext@));
    }
    p
}

/// The `".sig"` suffix as bytes.
pub fn sig_bytes() -> (r: Vec<u8>)
    ensures
        r@ == sig_suffix(),
{
    let mut v: Vec<u8> = Vec::new();
    v.push(46u8);
    v.push(115u8);
    v.push(105u8);
    v.push(103u8);
    proof {
        assert(v@ =~= sig_suffix());
    }
    v
}

/// Appends the signature suffix to a path: the sibling file that signs it.
pub fn sig_path_of(p: &[u8]) -> (r: Vec<u8>)
    ensures
        r@ == p@ + sig_suffix(),
{
    let mut v: Vec<u8> = Vec::new();
    append_bytes(&mut v, p);
    v.push(46u8);
    v.push(115u8);
    v.push(105u8);
    v.push(103u8);
    proof {
        assert(v@ =~= p@ + sig_suffix());
    }
    v
}

impl PkgIdentity {
    /// Rebuilds the path this identity denotes.
    pub fn path(&self) -> (r: Vec<u8>)
        ensures
            r@ == path_view(self@),
    {
        let mut v: Vec<u8> = Vec::new();
        append_bytes(&mut v, self.dir.as_slice());
        append_bytes(&mut v, self.name.as_slice());
        v.push(45u8);
        append_bytes(&mut v, self.version.as_slice());
        v.push(45u8);
        append_bytes(&mut v, self.release.as_slice());
        v.push(45u8);
        append_bytes(&mut v, self.arch.as_slice());
        append_bytes(&mut v, self.ext.as_slice());
        proof {
            assert(v@ =~= path_view(self@));
        }
        v
    }

    /// The version-agnostic glob `DIR/NAME-*-*-ARCH.EXT`: version and
    /// release are both wildcarded, since the release a build produces may
    /// differ from the one recorded ahead of it.  With `override_dir` the
    /// pattern is rooted in that directory instead.
    pub fn version_agnostic_glob(&self, override_dir: Option<&[u8]>) -> (r: Vec<u8>)
        ensures
            match override_dir {
                Some(d) => r@ == glob_view(self@, d@ + seq![47u8]),
                None => r@ == glob_view(self@, self@.dir),
            },
    {
        let mut v: Vec<u8> = Vec::new();
        match override_dir {
            Some(d) => {
                append_bytes(&mut v, d);
                v.push(47u8);
            },
            None => {
                append_bytes(&mut v, self.dir.as_slice());
            },
        }
        append_bytes(&mut v, self.name.as_slice());
        v.push(45u8);
        v.push(42u8);
        v.push(45u8);
        v.push(42u8);
        v.push(45u8);
        append_bytes(&mut v, self.arch.as_slice());
        append_bytes(&mut v, self.ext.as_slice());
        proof {
            match override_dir {
                Some(d) => {
                    assert(v@ =~= glob_view(self@, d@ + seq![47u8]));
                },
                None => {
                    assert(v@ =~= glob_view(self@, self@.dir));
                },
            }
        }
        v
    }

    /// Whether this identity names the same package as `other`.
    pub fn is_same_package(&self, other: &PkgIdentity) -> (r: bool)
        ensures
            r == same_package(self@, other@),
    {
        bytes_eq(self.name.as_slice(), other.name.as_slice()) && bytes_eq(
            self.arch.as_slice(),
            other.arch.as_slice(),
        ) && bytes_eq(self.ext.as_slice(), other.ext.as_slice())
    }

    /// Builds the database-predicted path for a package and parses it into
    /// an identity.
    pub fn from_meta_data(
        name: &[u8],
        version: &[u8],
        arch: &[u8],
        local_dir: &[u8],
        pkg_ext: &[u8],
    ) -> (r: Result<PkgIdentity, RepoError>)
        ensures
            ({
                let p = meta_path(local_dir@, name@, version@, arch@, pkg_ext@);
                match r {
                    Ok(id) => id_wf(id@) && path_view(id@) == p && is_pkg_path(p),
                    Err(e) => e == RepoError::InvalidPackageFile && !is_pkg_path(p),
                }
            }),
    {
        let p = build_meta_path(name, version, arch, local_dir, pkg_ext);
        Self::parse(p.as_slice())
    }

    /// Whether `f` is a file that removal must delete for this identity in
    /// `dir`: a package file there of the same name, architecture and
    /// extension — any version — or the signature of one.
    pub fn matches_old_file(&self, dir: &[u8], f: &[u8]) -> (r: bool)
        ensures
            r == old_file_of(self@, dir@, f@),
    {
        let sig = sig_bytes();
        let base: Vec<u8> = if ends_with(f, sig.as_slice()) {
            copy_range(f, 0, f.len() - 4)
        } else {
            copy_range(f, 0, f.len())
        };
        proof {
            assert(base@ =~= strip_sig(f@));
        }
        match Self::parse(base.as_slice()) {
            Err(_) => false,
            Ok(id2) => {
                let mut dird: Vec<u8> = Vec::new();
                append_bytes(&mut dird, dir);
                dird.push(47u8);
                let ok = bytes_eq(id2.dir.as_slice(), dird.as_slice()) && self.is_same_package(
                    &id2,
                );
                proof {
                    let s = strip_sig(f@);
                    let t = the_id(s);
                    assert(id_wf(t) && path_view(t) == s);
                    lemma_path_unique(id2@, t);
                    assert(dird@ =~= dir@ + seq![47u8]);
                }
                ok
            },
        }
    }
}

/// Glob widening: the version-agnostic pattern of an identity matches the
/// path of every file with the same directory, name, architecture and
/// extension, whatever version and release stand in between — provided the
/// fixed components carry no wildcard of their own and the varying ones no
/// path separator.
pub proof fn lemma_glob_widening(v: IdView, ver: Seq<u8>, rel: Seq<u8>)
    requires
        free_of(v.dir, 42),
        free_of(v.name, 42),
        free_of(v.arch, 42),
        free_of(v.ext, 42),
        free_of(ver, 47),
        free_of(rel, 47),
    ensures
        glob_match(glob_view(v, v.dir), path_view(IdView { version: ver, release: rel, ..v })),
{
    let tail = seq![45u8] + v.arch + v.ext;
    assert forall|i: int| 0 <= i < tail.len() implies tail[i] != 42 by {
        if i == 0 {
        } else if i <= v.arch.len() {
            assert(tail[i] == v.arch[i - 1]);
        } else {
            assert(tail[i] == v.ext[i - 1 - v.arch.len()]);
        }
    }
    lemma_glob_refl(tail);
    lemma_glob_star(tail, rel, tail);
    let p1 = seq![42u8] + tail;
    let t1 = rel + tail;
    lemma_glob_literal_prefix(seq![45u8], p1, t1);
    let p2 = seq![45u8] + p1;
    let t2 = seq![45u8] + t1;
    lemma_glob_star(p2, ver, t2);
    let p3 = seq![42u8] + p2;
    let t3 = ver + t2;
    let front = v.dir + v.name + seq![45u8];
    assert forall|i: int| 0 <= i < front.len() implies front[i] != 42 by {
        if i < v.dir.len() {
            assert(front[i] == v.dir[i]);
        } else if i < v.dir.len() + v.name.len() {
            assert(front[i] == v.name[i - v.dir.len()]);
        }
    }
    lemma_glob_literal_prefix(front, p3, t3);
    assert(glob_view(v, v.dir) =~= front + p3);
    assert(path_view(IdView { version: ver, release: rel, ..v }) =~= front + t3);
}


/// Identity round trip: a path that matches the canonical pattern is
/// reconstructed byte for byte from its parsed components.
pub proof fn lemma_parse_round_trip(s: Seq<u8>)
    requires
        is_pkg_path(s),
    ensures
        id_wf(the_id(s)),
        path_view(the_id(s)) == s,
{
    let v = choose|v: IdView| id_wf(v) && #[trigger] path_view(v) == s;
    assert(id_wf(v) && path_view(v) == s);
}

} // verus!
