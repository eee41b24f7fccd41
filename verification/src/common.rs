//! Shared values: supported architectures and well-known paths.

use crate::bytes::{append_bytes, bytes_eq, dec_digits, fmt_u64};
use vstd::prelude::*;

verus! {

/// Supported machine architectures.
#[allow(non_camel_case_types)]
#[derive(Clone, Copy, Debug, PartialEq, Eq, Structural)]
pub enum Arch {
    any,
    aarch64,
    armv7h,
    x86_64,
    Unknown,
}

/// The bytes of each architecture name.
pub open spec fn arch_name(a: Arch) -> Seq<u8> {
    match a {
        Arch::any => seq![97u8, 110u8, 121u8],
        Arch::aarch64 => seq![97u8, 97u8, 114u8, 99u8, 104u8, 54u8, 52u8],
        Arch::armv7h => seq![97u8, 114u8, 109u8, 118u8, 55u8, 104u8],
        Arch::x86_64 => seq![120u8, 56u8, 54u8, 95u8, 54u8, 52u8],
        Arch::Unknown => seq![117u8, 110u8, 107u8, 110u8, 111u8, 119u8, 110u8],
    }
}

/// The architecture a platform name denotes; the platform calls the 32-bit
/// ARM family `arm`.
pub open spec fn arch_of(s: Seq<u8>) -> Arch {
    if s == seq![97u8, 110u8, 121u8] {
        Arch::any
    } else if s == seq![97u8, 97u8, 114u8, 99u8, 104u8, 54u8, 52u8] {
        Arch::aarch64
    } else if s == seq![97u8, 114u8, 109u8] {
        Arch::armv7h
    } else if s == seq![120u8, 56u8, 54u8, 95u8, 54u8, 52u8] {
        Arch::x86_64
    } else {
        Arch::Unknown
    }
}

fn lit_any() -> (r: Vec<u8>)
    ensures
        r@ == seq![97u8, 110u8, 121u8],
{
    let mut v: Vec<u8> = Vec::new();
    v.push(97u8);
    v.push(110u8);
    v.push(121u8);
    proof {
        assert(v@ =~= seq![97u8, 110u8, 121u8]);
    }
    v
}

fn lit_aarch64() -> (r: Vec<u8>)
    ensures
        r@ == seq![97u8, 97u8, 114u8, 99u8, 104u8, 54u8, 52u8],
{
    let mut v: Vec<u8> = Vec::new();
    v.push(97u8);
    v.push(97u8);
    v.push(114u8);
    v.push(99u8);
    v.push(104u8);
    v.push(54u8);
    v.push(52u8);
    proof {
        assert(v@ =~= seq![97u8, 97u8, 114u8, 99u8, 104u8, 54u8, 52u8]);
    }
    v
}

fn lit_arm() -> (r: Vec<u8>)
    ensures
        r@ == seq![97u8, 114u8, 109u8],
{
    let mut v: Vec<u8> = Vec::new();
    v.push(97u8);
    v.push(114u8);
    v.push(109u8);
    proof {
        assert(v@ =~= seq![97u8, 114u8, 109u8]);
    }
    v
}

fn lit_armv7h() -> (r: Vec<u8>)
    ensures
        r@ == seq![97u8, 114u8, 109u8, 118u8, 55u8, 104u8],
{
    let mut v: Vec<u8> = Vec::new();
    v.push(97u8);
    v.push(114u8);
    v.push(109u8);
    v.push(118u8);
    v.push(55u8);
    v.push(104u8);
    proof {
        assert(v@ =~= seq![97u8, 114u8, 109u8, 118u8, 55u8, 104u8]);
    }
    v
}

fn lit_x86_64() -> (r: Vec<u8>)
    ensures
        r@ == seq![120u8, 56u8, 54u8, 95u8, 54u8, 52u8],
{
    let mut v: Vec<u8> = Vec::new();
    v.push(120u8);
    v.push(56u8);
    v.push(54u8);
    v.push(95u8);
    v.push(54u8);
    v.push(52u8);
    proof {
        assert(v@ =~= seq![120u8, 56u8, 54u8, 95u8, 54u8, 52u8]);
    }
    v
}

fn lit_unknown() -> (r: Vec<u8>)
    ensures
        r@ == seq![117u8, 110u8, 107u8, 110u8, 111u8, 119u8, 110u8],
{
    let mut v: Vec<u8> = Vec::new();
    v.push(117u8);
    v.push(110u8);
    v.push(107u8);
    v.push(110u8);
    v.push(111u8);
    v.push(119u8);
    v.push(110u8);
    proof {
        assert(v@ =~= seq![117u8, 110u8, 107u8, 110u8, 111u8, 119u8, 110u8]);
    }
    v
}

impl Arch {
    /// Reads an architecture from a platform name.
    pub fn from_bytes(s: &[u8]) -> (r: Arch)
        ensures
            r == arch_of(s@),
    {
        if bytes_eq(s, lit_any().as_slice()) {
            Arch::any
        } else if bytes_eq(s, lit_aarch64().as_slice()) {
            Arch::aarch64
        } else if bytes_eq(s, lit_arm().as_slice()) {
            Arch::armv7h
        } else if bytes_eq(s, lit_x86_64().as_slice()) {
            Arch::x86_64
        } else {
            Arch::Unknown
        }
    }

    /// The architecture's name.
    pub fn as_bytes(&self) -> (r: Vec<u8>)
        ensures
            r@ == arch_name(*self),
    {
        match self {
            Arch::any => lit_any(),
            Arch::aarch64 => lit_aarch64(),
            Arch::armv7h => lit_armv7h(),
            Arch::x86_64 => lit_x86_64(),
            Arch::Unknown => lit_unknown(),
        }
    }
}

/// The engine's own directory under a base cache or config directory.
pub open spec fn repman_dir_view(base: Seq<u8>) -> Seq<u8> {
    base + seq![47u8, 114u8, 101u8, 112u8, 109u8, 97u8, 110u8]
}

/// Joins the engine's directory name onto a base directory.
pub fn repman_dir(base: &[u8]) -> (r: Vec<u8>)
    ensures
        r@ == repman_dir_view(base@),
{
    let mut v: Vec<u8> = Vec::new();
    append_bytes(&mut v, base);
    v.push(47u8);
    v.push(114u8);
    v.push(101u8);
    v.push(112u8);
    v.push(109u8);
    v.push(97u8);
    v.push(110u8);
    proof {
        assert(v@ =~= repman_dir_view(base@));
    }
    v
}

/// The directory holding the per-repository lock files.
pub open spec fn locks_dir_view(cache_dir: Seq<u8>) -> Seq<u8> {
    cache_dir + seq![47u8, 108u8, 111u8, 99u8, 107u8, 115u8]
}

/// The lock-file directory under the cache directory.
pub fn locks_dir(cache_dir: &[u8]) -> (r: Vec<u8>)
    ensures
        r@ == locks_dir_view(cache_dir@),
{
    let mut v: Vec<u8> = Vec::new();
    append_bytes(&mut v, cache_dir);
    v.push(47u8);
    v.push(108u8);
    v.push(111u8);
    v.push(99u8);
    v.push(107u8);
    v.push(115u8);
    proof {
        assert(v@ =~= locks_dir_view(cache_dir@));
    }
    v
}

/// The lock file of one repository.
pub open spec fn lock_file_view(locks: Seq<u8>, name: Seq<u8>) -> Seq<u8> {
    locks + seq![47u8] + name
}

/// The path of one repository's lock file.
pub fn lock_file_path(locks: &[u8], name: &[u8]) -> (r: Vec<u8>)
    ensures
        r@ == lock_file_view(locks@, name@),
{
    let mut v: Vec<u8> = Vec::new();
    append_bytes(&mut v, locks);
    v.push(47u8);
    append_bytes(&mut v, name);
    proof {
        assert(v@ =~= lock_file_view(locks@, name@));
    }
    v
}

/// The per-process temporary directory `CACHE/tmp/PID`.
pub open spec fn tmp_dir_view(cache_dir: Seq<u8>, pid: u64) -> Seq<u8> {
    cache_dir + seq![47u8, 116u8, 109u8, 112u8, 47u8] + dec_digits(pid as nat)
}

/// The temporary directory of the running process.
pub fn tmp_dir(cache_dir: &[u8], pid: u64) -> (r: Vec<u8>)
    ensures
        r@ == tmp_dir_view(cache_dir@, pid),
{
    let mut v: Vec<u8> = Vec::new();
    append_bytes(&mut v, cache_dir);
    v.push(47u8);
    v.push(116u8);
    v.push(109u8);
    v.push(112u8);
    v.push(47u8);
    let digits = fmt_u64(pid);
    append_bytes(&mut v, digits.as_slice());
    proof {
        assert(v@ =~= tmp_dir_view(cache_dir@, pid));
    }
    v
}

} // verus!
