//! The protected-file set: names that are never exported, never deleted by a
//! restore wipe, and never overwritten by an extracted archive entry.
//!
//! Membership is decided by an entry's base name (the part after the last
//! slash), applied identically on the export and import sides.

use vstd::prelude::*;
use vstd::string::StrSliceExecFns;
use vstd::utf8::encode_utf8;

use crate::bytestr::bytes_eq;

verus! {

/// Byte value of the path separator `/`.
pub open spec fn slash() -> u8 {
    47u8
}

/// Name of the local configuration file.
pub open spec fn config_file_name() -> Seq<u8> {
    encode_utf8("config.yml"@)
}

/// Name of the signing-secret file.
pub open spec fn secret_file_name() -> Seq<u8> {
    encode_utf8(".jwt_secret"@)
}

/// Name of the staging/temporary subdirectory.
pub open spec fn temp_dir_name() -> Seq<u8> {
    encode_utf8("temp"@)
}

/// True when `name` belongs to the protected-file set.
pub open spec fn is_protected_name(name: Seq<u8>) -> bool {
    ||| name == config_file_name()
    ||| name == secret_file_name()
    ||| name == temp_dir_name()
}

/// True when any position of `p` holds a slash.
pub open spec fn has_slash(p: Seq<u8>) -> bool {
    exists|i: int| 0 <= i < p.len() && p[i] == slash()
}

/// The base name of a relative path: the part after the last slash, or the
/// whole path when it holds none.
pub open spec fn basename_of(p: Seq<u8>) -> Seq<u8>
    decreases p.len(),
{
    if p.len() == 0 {
        p
    } else if has_slash(p) {
        basename_of(p.skip(1))
    } else {
        p
    }
}

/// The top-level component of a relative path: the part before the first
/// slash, or the whole path when it holds none.
pub open spec fn top_name_of(p: Seq<u8>) -> Seq<u8>
    decreases p.len(),
{
    if p.len() == 0 {
        p
    } else if p[0] == slash() {
        Seq::empty()
    } else {
        seq![p[0]] + top_name_of(p.skip(1))
    }
}

/// Decides membership of a base name in the protected-file set.
pub fn is_protected(name: &[u8]) -> (r: bool)
    ensures
        r == is_protected_name(name@),
{
    let cfg: Vec<u8> = "config.yml".as_bytes_vec();
    let sec: Vec<u8> = ".jwt_secret".as_bytes_vec();
    let tmp: Vec<u8> = "temp".as_bytes_vec();
    bytes_eq(name, cfg.as_slice()) || bytes_eq(name, sec.as_slice()) || bytes_eq(
        name,
        tmp.as_slice(),
    )
}

/// Computes the base name of a relative path.
pub fn basename(p: &[u8]) -> (r: Vec<u8>)
    ensures
        r@ == basename_of(p@),
{
    let n: usize = p.len();
    let mut cut: usize = 0;
    let mut i: usize = 0;
    while i < n
        invariant
            i <= n,
            n == p@.len(),
            cut <= i,
            cut > 0 ==> p@[cut - 1] == slash(),
            forall|j: int| cut <= j < i ==> p@[j] != slash(),
        decreases n - i,
    {
        if p[i] == 47u8 {
            cut = i + 1;
        }
        i = i + 1;
    }
    let mut r: Vec<u8> = Vec::new();
    let mut k: usize = cut;
    while k < n
        invariant
            cut <= k <= n,
            n == p@.len(),
            r@ =~= p@.subrange(cut as int, k as int),
        decreases n - k,
    {
        r.push(p[k]);
        k = k + 1;
    }
    proof {
        lemma_basename_suffix(p@, cut as int);
        assert(r@ =~= p@.subrange(cut as int, n as int));
    }
    r
}

/// The base name of a path equals its suffix after the last slash.
proof fn lemma_basename_suffix(p: Seq<u8>, cut: int)
    requires
        0 <= cut <= p.len(),
        cut > 0 ==> p[cut - 1] == slash(),
        forall|j: int| cut <= j < p.len() ==> p[j] != slash(),
    ensures
        basename_of(p) == p.subrange(cut, p.len() as int),
    decreases p.len(),
{
    if p.len() == 0 {
        assert(basename_of(p) =~= p.subrange(cut, p.len() as int));
    } else if cut == 0 {
        assert(!has_slash(p));
        assert(basename_of(p) =~= p.subrange(cut, p.len() as int));
    } else {
        assert(has_slash(p)) by {
            assert(p[cut - 1] == slash());
        }
        lemma_basename_suffix(p.skip(1), cut - 1);
        assert(p.skip(1).subrange(cut - 1, p.skip(1).len() as int) =~= p.subrange(
            cut,
            p.len() as int,
        ));
    }
}

/// Computes the top-level component of a relative path.
pub fn top_name(p: &[u8]) -> (r: Vec<u8>)
    ensures
        r@ == top_name_of(p@),
{
    let n: usize = p.len();
    let mut r: Vec<u8> = Vec::new();
    let mut i: usize = 0;
    while i < n
        invariant
            i <= n,
            n == p@.len(),
            r@ =~= p@.subrange(0, i as int),
            forall|j: int| 0 <= j < i ==> p@[j] != slash(),
        decreases n - i,
    {
        if p[i] == 47u8 {
            proof {
                lemma_top_name_prefix(p@, i as int);
            }
            return r;
        }
        r.push(p[i]);
        i = i + 1;
    }
    proof {
        lemma_top_name_prefix(p@, n as int);
    }
    r
}

/// The top-level component of a path equals its prefix before the first slash.
proof fn lemma_top_name_prefix(p: Seq<u8>, cut: int)
    requires
        0 <= cut <= p.len(),
        cut < p.len() ==> p[cut] == slash(),
        forall|j: int| 0 <= j < cut ==> p[j] != slash(),
    ensures
        top_name_of(p) == p.subrange(0, cut),
    decreases p.len(),
{
    if p.len() == 0 {
        assert(top_name_of(p) =~= p.subrange(0, cut));
    } else if cut == 0 {
        assert(top_name_of(p) =~= p.subrange(0, cut));
    } else {
        lemma_top_name_prefix(p.skip(1), cut - 1);
        assert(seq![p[0]] + p.skip(1).subrange(0, cut - 1) =~= p.subrange(0, cut));
    }
}


/// True when `p` holds a `..` path component.
pub open spec fn has_dotdot(p: Seq<u8>) -> bool {
    exists|i: int|
        0 <= i && i + 2 <= p.len() && #[trigger] p[i] == 46u8 && p[i + 1] == 46u8 && (i == 0 || p[
            i - 1] == slash()) && (i + 2 == p.len() || p[i + 2] == slash())
}

/// True when `p` stays under the directory it is resolved against: it is
/// non-empty, relative, and free of `..` components.
pub open spec fn safe_rel_path(p: Seq<u8>) -> bool {
    &&& p.len() > 0
    &&& p[0] != slash()
    &&& !has_dotdot(p)
}

/// Decides whether a path is safe to resolve under a destination
/// directory.
pub fn is_safe_rel_path(p: &[u8]) -> (r: bool)
    ensures
        r == safe_rel_path(p@),
{
    let n: usize = p.len();
    if n == 0 || p[0] == 47u8 {
        return false;
    }
    let mut i: usize = 0;
    while i < n
        invariant
            i <= n,
            n == p@.len(),
            forall|j: int|
                0 <= j < i ==> !(j + 2 <= p@.len() && #[trigger] p@[j] == 46u8 && p@[j + 1]
                    == 46u8 && (j == 0 || p@[j - 1] == slash()) && (j + 2 == p@.len() || p@[j + 2]
                    == slash())),
        decreases n - i,
    {
        if n - i >= 2 && p[i] == 46u8 && p[i + 1] == 46u8 && (i == 0 || p[i - 1] == 47u8) && (n
            - i == 2 || p[i + 2] == 47u8) {
            proof {
                assert(has_dotdot(p@)) by {
                    assert(p@[i as int] == 46u8 && p@[i + 1] == 46u8);
                }
            }
            return false;
        }
        i = i + 1;
    }
    proof {
        assert(!has_dotdot(p@));
    }
    true
}

} // verus!
