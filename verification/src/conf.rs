//! Rules over the build tools' configuration text.
//!
//! The build tools are configured through plain text files; this module
//! holds the engine's reading of them: the pacman configuration prepared
//! for a build container, the signing key and package extension taken from
//! the makepkg configuration, the distributed-build switch, and the choice
//! among candidate configuration files.  Reading the files is the caller's
//! side; everything here works on their lines.

use crate::bytes::{append_bytes, copy_range, matches_at, occurs, occurs_at, prefix_of, starts_with};
use vstd::prelude::*;

verus! {

/// The section header `[NAME]`.
pub open spec fn section_header(db_name: Seq<u8>) -> Seq<u8> {
    seq![91u8] + db_name + seq![93u8]
}

/// The configuration lines kept when the repository's own section is
/// dropped: a line opening the section is dropped, the lines after it too
/// until one opens another section (first byte `[`).
pub open spec fn filter_section(lines: Seq<Seq<u8>>, header: Seq<u8>, in_sect: bool) -> Seq<
    Seq<u8>,
>
    decreases lines.len(),
{
    if lines.len() == 0 {
        Seq::empty()
    } else if prefix_of(header, lines.first()) {
        filter_section(lines.drop_first(), header, true)
    } else if in_sect && !(lines.first().len() > 0 && lines.first()[0] == 91) {
        filter_section(lines.drop_first(), header, true)
    } else {
        seq![lines.first()] + filter_section(lines.drop_first(), header, false)
    }
}

/// The lines appended for the repository itself: its section, a permissive
/// signature level, and the local mirror directory as its server.
pub open spec fn own_section(db_name: Seq<u8>, local_dir: Seq<u8>) -> Seq<Seq<u8>> {
    seq![
        Seq::<u8>::empty(),
        section_header(db_name),
        seq![83u8, 105u8, 103u8, 76u8, 101u8, 118u8, 101u8, 108u8, 32u8, 61u8, 32u8, 79u8, 112u8, 116u8, 105u8, 111u8, 110u8, 97u8, 108u8, 32u8, 84u8, 114u8, 117u8, 115u8, 116u8, 65u8, 108u8, 108u8],
        seq![83u8, 101u8, 114u8, 118u8, 101u8, 114u8, 32u8, 61u8, 32u8, 102u8, 105u8, 108u8, 101u8, 58u8, 47u8, 47u8] + local_dir,
    ]
}

/// Prepares the pacman configuration for a build container: every line of
/// the template except the repository's own section, then the repository's
/// section pointing at the local mirror, so freshly added dependencies are
/// visible to the build.
pub fn pacman_conf_for_chroot(lines: &Vec<Vec<u8>>, db_name: &[u8], local_dir: &[u8]) -> (r: Vec<
    Vec<u8>,
>)
    ensures
        r.deep_view() == filter_section(lines.deep_view(), section_header(db_name@), false)
            + own_section(db_name@, local_dir@),
{
    let ghost ls = lines.deep_view();
    let mut header: Vec<u8> = Vec::new();
    header.push(91u8);
    append_bytes(&mut header, db_name);
    header.push(93u8);
    proof {
        assert(header@ =~= section_header(db_name@));
    }
    let mut out: Vec<Vec<u8>> = Vec::new();
    let mut in_sect = false;
    let mut i: usize = 0;
    proof {
        assert(ls.skip(0) =~= ls);
        assert(out.deep_view() =~= Seq::<Seq<u8>>::empty());
        assert(out.deep_view() + filter_section(ls, header@, false) =~= filter_section(
            ls,
            header@,
            false,
        ));
    }
    while i < lines.len()
        invariant
            i <= lines@.len(),
            ls == lines.deep_view(),
            header@ == section_header(db_name@),
            filter_section(ls, header@, false) =~= out.deep_view() + filter_section(
                ls.skip(i as int),
                header@,
                in_sect,
            ),
        decreases lines@.len() - i,
    {
        let ghost old_deep = out.deep_view();
        proof {
            assert(ls.skip(i as int).first() == ls[i as int]);
            assert(ls.skip(i as int).drop_first() =~= ls.skip(i + 1));
            assert(ls[i as int] == lines@[i as int]@);
        }
        let line = &lines[i];
        if starts_with(line.as_slice(), header.as_slice()) {
            in_sect = true;
        } else if in_sect && !(line.len() > 0 && line[0] == 91) {
        } else {
            let lc = copy_range(line.as_slice(), 0, line.len());
            proof {
                assert(lc@ =~= ls[i as int]);
            }
            out.push(lc);
            in_sect = false;
            proof {
                assert forall|x: int|
                    0 <= x < out@.len() implies out.deep_view()[x] == old_deep.push(
                    ls[i as int],
                )[x] by {
                    assert(out.deep_view()[x] == out@[x].deep_view());
                    assert(out@[x].deep_view() =~= out@[x]@);
                    if x < old_deep.len() {
                        assert(old_deep[x] == out@[x].deep_view());
                    }
                }
                assert(out.deep_view() =~= old_deep.push(ls[i as int]));
                assert(old_deep.push(ls[i as int]) + filter_section(ls.skip(i + 1), header@, false)
                    =~= old_deep + (seq![ls[i as int]] + filter_section(
                    ls.skip(i + 1),
                    header@,
                    false,
                )));
            }
        }
        i = i + 1;
    }
    proof {
        assert(ls.skip(ls.len() as int) =~= Seq::<Seq<u8>>::empty());
        assert(out.deep_view() + filter_section(ls.skip(ls.len() as int), header@, in_sect)
            =~= out.deep_view());
    }
    let ghost base = out.deep_view();
    let ghost base_vec = out@;
    proof {
        crate::bytes::lemma_deep_elems(&out);
    }
    let empty_line: Vec<u8> = Vec::new();
    out.push(empty_line);
    let mut hdr2: Vec<u8> = Vec::new();
    hdr2.push(91u8);
    append_bytes(&mut hdr2, db_name);
    hdr2.push(93u8);
    out.push(hdr2);
    let mut sig_level: Vec<u8> = Vec::new();
    sig_level.push(83u8);
    sig_level.push(105u8);
    sig_level.push(103u8);
    sig_level.push(76u8);
    sig_level.push(101u8);
    sig_level.push(118u8);
    sig_level.push(101u8);
    sig_level.push(108u8);
    sig_level.push(32u8);
    sig_level.push(61u8);
    sig_level.push(32u8);
    sig_level.push(79u8);
    sig_level.push(112u8);
    sig_level.push(116u8);
    sig_level.push(105u8);
    sig_level.push(111u8);
    sig_level.push(110u8);
    sig_level.push(97u8);
    sig_level.push(108u8);
    sig_level.push(32u8);
    sig_level.push(84u8);
    sig_level.push(114u8);
    sig_level.push(117u8);
    sig_level.push(115u8);
    sig_level.push(116u8);
    sig_level.push(65u8);
    sig_level.push(108u8);
    sig_level.push(108u8);
    out.push(sig_level);
    let mut server: Vec<u8> = Vec::new();
    server.push(83u8);
    server.push(101u8);
    server.push(114u8);
    server.push(118u8);
    server.push(101u8);
    server.push(114u8);
    server.push(32u8);
    server.push(61u8);
    server.push(32u8);
    server.push(102u8);
    server.push(105u8);
    server.push(108u8);
    server.push(101u8);
    server.push(58u8);
    server.push(47u8);
    server.push(47u8);
    append_bytes(&mut server, local_dir);
    out.push(server);
    proof {
        crate::bytes::lemma_deep_elems(&out);
        let target = filter_section(ls, section_header(db_name@), false) + own_section(
            db_name@,
            local_dir@,
        );
        assert(out@.len() == base_vec.len() + 4);
        assert forall|x: int| 0 <= x < out@.len() implies out.deep_view()[x] == target[x] by {
            if x < base_vec.len() {
                assert(out@[x] == base_vec[x]);
                assert(base[x] == base_vec[x]@);
            } else if x == base_vec.len() {
                assert(out@[x]@ =~= Seq::<u8>::empty());
            } else if x == base_vec.len() + 1 {
                assert(out@[x]@ =~= section_header(db_name@));
            } else if x == base_vec.len() + 2 {
                assert(out@[x]@ =~= own_section(db_name@, local_dir@)[2]);
            } else {
                assert(out@[x]@ =~= own_section(db_name@, local_dir@)[3]);
            }
        }
        assert(out.deep_view() =~= target);
    }
    out
}

/// The bytes of `"GPGKEY="`.
pub open spec fn gpg_key_marker() -> Seq<u8> {
    seq![71u8, 80u8, 71u8, 75u8, 69u8, 89u8, 61u8]
}

/// The signing key read from the makepkg configuration: whatever follows
/// the first `GPGKEY=` of the first line carrying one; none when no line
/// carries one or the first carrier has nothing after it.
pub fn extract_gpg_key(lines: &Vec<Vec<u8>>) -> (r: Option<Vec<u8>>)
    ensures
        match r {
            Some(v) => exists|i: int|
                {
                    &&& 0 <= i < lines.deep_view().len()
                    &&& occurs(#[trigger] lines.deep_view()[i], gpg_key_marker())
                    &&& (forall|j: int|
                        0 <= j < i ==> !occurs(#[trigger] lines.deep_view()[j], gpg_key_marker()))
                    &&& exists|q: int|
                        occurs_at(lines.deep_view()[i], gpg_key_marker(), q) && v@
                            == lines.deep_view()[i].skip(q + 7) && v@.len() > 0
                },
            None => (forall|i: int|
                0 <= i < lines.deep_view().len() ==> !occurs(
                    #[trigger] lines.deep_view()[i],
                    gpg_key_marker(),
                )) || (exists|i: int|
                {
                    &&& 0 <= i < lines.deep_view().len()
                    &&& occurs(#[trigger] lines.deep_view()[i], gpg_key_marker())
                    &&& exists|q: int|
                        occurs_at(lines.deep_view()[i], gpg_key_marker(), q)
                            && lines.deep_view()[i].len() == q + 7
                }),
        },
{
    let mut marker: Vec<u8> = Vec::new();
    marker.push(71u8);
    marker.push(80u8);
    marker.push(71u8);
    marker.push(75u8);
    marker.push(69u8);
    marker.push(89u8);
    marker.push(61u8);
    proof {
        assert(marker@ =~= gpg_key_marker());
    }
    let mut i: usize = 0;
    while i < lines.len()
        invariant
            i <= lines@.len(),
            marker@ == gpg_key_marker(),
            forall|j: int| 0 <= j < i ==> !occurs(#[trigger] lines.deep_view()[j], gpg_key_marker()),
        decreases lines@.len() - i,
    {
        proof {
            assert(lines.deep_view()[i as int] =~= lines@[i as int]@);
        }
        match crate::bytes::find(lines[i].as_slice(), marker.as_slice()) {
            Some(q) => {
                let n = lines[i].len();
                proof {
                    assert(occurs_at(lines.deep_view()[i as int], gpg_key_marker(), q as int));
                    assert(occurs(lines.deep_view()[i as int], gpg_key_marker()));
                    assert(gpg_key_marker().len() == 7);
                    assert(q + 7 <= n);
                }
                if q + 7 < n {
                    let v = copy_range(lines[i].as_slice(), q + 7, n);
                    proof {
                        assert(v@ =~= lines.deep_view()[i as int].skip(q + 7));
                    }
                    return Some(v);
                } else {
                    proof {
                        assert(lines.deep_view()[i as int].len() == q + 7);
                    }
                    return None;
                }
            },
            None => {},
        }
        i = i + 1;
    }
    None
}

/// A quote byte of the makepkg configuration's extension value.
pub open spec fn is_quote(c: u8) -> bool {
    c == 34 || c == 39 || c == 124
}

/// The bytes of `"PKGEXT="`.
pub open spec fn pkg_ext_marker() -> Seq<u8> {
    seq![80u8, 75u8, 71u8, 69u8, 88u8, 84u8, 61u8]
}

/// The package extension read from the makepkg configuration: on the first
/// line carrying `PKGEXT=`, the bytes between the quote that follows
/// (after any spaces) and the last quote of the line.  None when no line
/// carries the marker or the quotes do not enclose anything.
pub fn extract_pkg_ext(lines: &Vec<Vec<u8>>) -> (r: Option<Vec<u8>>)
    ensures
        match r {
            Some(v) => exists|i: int, p: int, q0: int, q1: int|
                #![trigger occurs_at(lines.deep_view()[i], pkg_ext_marker(), p), lines.deep_view()[i][q0], lines.deep_view()[i][q1]]
                {
                    &&& 0 <= i < lines.deep_view().len()
                    &&& occurs_at(lines.deep_view()[i], pkg_ext_marker(), p)
                    &&& p + 7 <= q0 < q1 < lines.deep_view()[i].len()
                    &&& is_quote(lines.deep_view()[i][q0])
                    &&& is_quote(lines.deep_view()[i][q1])
                    &&& (forall|z: int|
                        q1 < z < lines.deep_view()[i].len() ==> !is_quote(
                            lines.deep_view()[i][z],
                        ))
                    &&& v@ == lines.deep_view()[i].subrange(q0 + 1, q1)
                    &&& v@.len() > 0
                },
            None => true,
        },
{
    let mut marker: Vec<u8> = Vec::new();
    marker.push(80u8);
    marker.push(75u8);
    marker.push(71u8);
    marker.push(69u8);
    marker.push(88u8);
    marker.push(84u8);
    marker.push(61u8);
    proof {
        assert(marker@ =~= pkg_ext_marker());
    }
    let mut i: usize = 0;
    while i < lines.len()
        invariant
            i <= lines@.len(),
            marker@ == pkg_ext_marker(),
        decreases lines@.len() - i,
    {
        proof {
            assert(lines.deep_view()[i as int] =~= lines@[i as int]@);
        }
        let line = &lines[i];
        match crate::bytes::find(line.as_slice(), marker.as_slice()) {
            Some(p) => {
                let n = line.len();
                proof {
                    assert(p + 7 <= n);
                }
                // skip spaces after the marker
                let mut q0: usize = p + 7;
                while q0 < n && line[q0] == 32
                    invariant
                        p + 7 <= q0 <= n,
                        n == line@.len(),
                    decreases n - q0,
                {
                    q0 = q0 + 1;
                }
                if q0 >= n {
                    return None;
                }
                let c = line[q0];
                if !(c == 34 || c == 39 || c == 124) {
                    return None;
                }
                // the last quote of the line, by upward scan
                let mut q1: usize = 0;
                let mut found = false;
                let mut y: usize = q0 + 1;
                while y < n
                    invariant
                        q0 + 1 <= y <= n,
                        n == line@.len(),
                        q0 < n,
                        found ==> q0 + 1 <= q1 < y && is_quote(line@[q1 as int]) && (forall|w: int|
                            q1 < w < y ==> !is_quote(line@[w])),
                        !found ==> (forall|w: int| q0 + 1 <= w < y ==> !is_quote(line@[w])),
                    decreases n - y,
                {
                    let d = line[y];
                    if d == 34 || d == 39 || d == 124 {
                        q1 = y;
                        found = true;
                    }
                    y = y + 1;
                }
                if !found {
                    return None;
                }
                if q1 <= q0 + 1 {
                    return None;
                }
                let v = copy_range(line.as_slice(), q0 + 1, q1);
                proof {
                    let dv = lines.deep_view()[i as int];
                    assert(v@ =~= dv.subrange(q0 + 1, q1 as int));
                    assert(occurs_at(dv, pkg_ext_marker(), p as int));
                    assert(is_quote(dv[q0 as int]));
                    assert(is_quote(dv[q1 as int]));
                }
                return Some(v);
            },
            None => {},
        }
        i = i + 1;
    }
    None
}

/// The bytes of `"BUILDENV"`.
pub open spec fn buildenv_marker() -> Seq<u8> {
    seq![66u8, 85u8, 73u8, 76u8, 68u8, 69u8, 78u8, 86u8]
}

/// The bytes of `"distcc"`.
pub open spec fn distcc_marker() -> Seq<u8> {
    seq![100u8, 105u8, 115u8, 116u8, 99u8, 99u8]
}

/// A line that switches distributed builds on: before any `#` it assigns
/// `BUILDENV` and, somewhere after the `=` and before any closing `)`,
/// names `distcc` not immediately negated by `!`.
pub open spec fn distcc_line(line: Seq<u8>) -> bool {
    exists|b: int, e: int, d: int|
        #![trigger occurs_at(line, buildenv_marker(), b), line[e], occurs_at(line, distcc_marker(), d)]
        {
            &&& occurs_at(line, buildenv_marker(), b)
            &&& (forall|h: int| 0 <= h < b ==> line[h] != 35)
            &&& b + 8 <= e < line.len() && line[e] == 61
            &&& (forall|w: int| b + 8 <= w < e ==> line[w] == 32)
            &&& occurs_at(line, distcc_marker(), d)
            &&& e + 1 < d
            &&& (forall|z: int| e < z < d ==> line[z] != 41)
            &&& line[d - 1] != 33
        }
}

/// Whether the makepkg configuration switches distributed builds on: some
/// line is a distcc-enabling `BUILDENV` assignment.
pub fn detect_distcc(lines: &Vec<Vec<u8>>) -> (r: bool)
    ensures
        r <==> exists|i: int|
            0 <= i < lines.deep_view().len() && distcc_line(#[trigger] lines.deep_view()[i]),
{
    let mut i: usize = 0;
    while i < lines.len()
        invariant
            i <= lines@.len(),
            forall|j: int| 0 <= j < i ==> !distcc_line(#[trigger] lines.deep_view()[j]),
        decreases lines@.len() - i,
    {
        proof {
            assert(lines.deep_view()[i as int] =~= lines@[i as int]@);
        }
        if line_has_distcc(lines[i].as_slice()) {
            return true;
        }
        i = i + 1;
    }
    false
}

/// Whether one line is a distcc-enabling `BUILDENV` assignment.
fn line_has_distcc(line: &[u8]) -> (r: bool)
    ensures
        r == distcc_line(line@),
{
    let n = line.len();
    if n < 16 {
        proof {
            if distcc_line(line@) {
                let (b2, e, d) = choose|b2: int, e: int, d: int|
                    #![trigger occurs_at(line@, buildenv_marker(), b2), line@[e], occurs_at(line@, distcc_marker(), d)]
                    {
                        &&& occurs_at(line@, buildenv_marker(), b2)
                        &&& (forall|h: int| 0 <= h < b2 ==> line@[h] != 35)
                        &&& b2 + 8 <= e < line@.len() && line@[e] == 61
                        &&& (forall|w: int| b2 + 8 <= w < e ==> line@[w] == 32)
                        &&& occurs_at(line@, distcc_marker(), d)
                        &&& e + 1 < d
                        &&& (forall|z: int| e < z < d ==> line@[z] != 41)
                        &&& line@[d - 1] != 33
                    };
                assert(false);
            }
        }
        return false;
    }
    let benv = buildenv_lit();
    let dcc = distcc_lit();
    let mut b: usize = 0;
    // try every assignment position with a comment-free prefix
    while b < n
        invariant
            b <= n,
            n == line@.len(),
            n >= 16,
            benv@ == buildenv_marker(),
            dcc@ == distcc_marker(),
            forall|b2: int, e: int, d: int|
                #![trigger occurs_at(line@, buildenv_marker(), b2), line@[e], occurs_at(line@, distcc_marker(), d)]
                {
                    &&& occurs_at(line@, buildenv_marker(), b2)
                    &&& 0 <= b2 < b
                    &&& (forall|h: int| 0 <= h < b2 ==> line@[h] != 35)
                    &&& b2 + 8 <= e < line@.len() && line@[e] == 61
                    &&& (forall|w: int| b2 + 8 <= w < e ==> line@[w] == 32)
                    &&& occurs_at(line@, distcc_marker(), d)
                    &&& e + 1 < d
                    &&& (forall|z: int| e < z < d ==> line@[z] != 41)
                } ==> line@[d - 1] == 33,
        decreases n - b,
    {
        if n - b >= 8 && matches_at(line, benv.as_slice(), b) {
            if crate::bytes::range_free_of(line, 0, b, 35) {
                // skip spaces, expect '='
                let mut e: usize = b + 8;
                while e < n && line[e] == 32
                    invariant
                        b + 8 <= e <= n,
                        n == line@.len(),
                        forall|w: int| b + 8 <= w < e ==> line@[w] == 32,
                    decreases n - e,
                {
                    e = e + 1;
                }
                if e < n && line[e] == 61 && e <= n - 8 {
                    // try every later position for the tool's name
                    let mut d: usize = e + 2;
                    while d <= n - 6
                        invariant
                            e + 2 <= d <= n - 5,
                            e + 8 <= n,
                            n == line@.len(),
                            dcc@ == distcc_marker(),
                            occurs_at(line@, buildenv_marker(), b as int),
                            forall|h: int| 0 <= h < b ==> line@[h] != 35,
                            b + 8 <= e < n,
                            line@[e as int] == 61,
                            forall|w: int| b + 8 <= w < e ==> line@[w] == 32,
                            forall|d2: int|
                                #![trigger occurs_at(line@, distcc_marker(), d2)]
                                {
                                    &&& occurs_at(line@, distcc_marker(), d2)
                                    &&& e + 1 < d2 < d
                                    &&& (forall|z: int| e < z < d2 ==> line@[z] != 41)
                                } ==> line@[d2 - 1] == 33,
                        decreases n - d,
                    {
                        if matches_at(line, dcc.as_slice(), d) {
                            if crate::bytes::range_free_of(line, e + 1, d, 41) && line[d - 1]
                                != 33 {
                                proof {
                                    assert(occurs_at(line@, distcc_marker(), d as int));
                                    assert(line@[d - 1] != 33);
                                    assert(distcc_line(line@));
                                }
                                return true;
                            }
                        }
                        d = d + 1;
                    }
                }
            }
        }
        b = b + 1;
    }
    proof {
        if distcc_line(line@) {
            let (b2, e, d) = choose|b2: int, e: int, d: int|
                #![trigger occurs_at(line@, buildenv_marker(), b2), line@[e], occurs_at(line@, distcc_marker(), d)]
                {
                    &&& occurs_at(line@, buildenv_marker(), b2)
                    &&& (forall|h: int| 0 <= h < b2 ==> line@[h] != 35)
                    &&& b2 + 8 <= e < line@.len() && line@[e] == 61
                    &&& (forall|w: int| b2 + 8 <= w < e ==> line@[w] == 32)
                    &&& occurs_at(line@, distcc_marker(), d)
                    &&& e + 1 < d
                    &&& (forall|z: int| e < z < d ==> line@[z] != 41)
                    &&& line@[d - 1] != 33
                };
            assert(false);
        }
    }
    false
}

fn buildenv_lit() -> (r: Vec<u8>)
    ensures
        r@ == buildenv_marker(),
{
    let mut v: Vec<u8> = Vec::new();
    v.push(66u8);
    v.push(85u8);
    v.push(73u8);
    v.push(76u8);
    v.push(68u8);
    v.push(69u8);
    v.push(78u8);
    v.push(86u8);
    proof {
        assert(v@ =~= buildenv_marker());
    }
    v
}

fn distcc_lit() -> (r: Vec<u8>)
    ensures
        r@ == distcc_marker(),
{
    let mut v: Vec<u8> = Vec::new();
    v.push(100u8);
    v.push(105u8);
    v.push(115u8);
    v.push(116u8);
    v.push(99u8);
    v.push(99u8);
    proof {
        assert(v@ =~= distcc_marker());
    }
    v
}

/// The first candidate that exists: the per-repository configuration file,
/// then the shared one, then the system default.
pub fn first_existing(exists_flags: &Vec<bool>) -> (r: Option<usize>)
    ensures
        match r {
            Some(i) => i < exists_flags@.len() && exists_flags@[i as int] && forall|j: int|
                0 <= j < i ==> !exists_flags@[j],
            None => forall|j: int| 0 <= j < exists_flags@.len() ==> !exists_flags@[j],
        },
{
    let mut i: usize = 0;
    while i < exists_flags.len()
        invariant
            i <= exists_flags@.len(),
            forall|j: int| 0 <= j < i ==> !exists_flags@[j],
        decreases exists_flags@.len() - i,
    {
        if exists_flags[i] {
            return Some(i);
        }
        i = i + 1;
    }
    None
}

} // verus!
