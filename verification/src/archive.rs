//! The portable tar archive format: serializing a sequence of named entries
//! into 512-byte-block archives, and reading such archives back.
//!
//! One pair of spec functions defines the format: [`spec_pack`] gives the
//! exact bytes written for a sequence of entries, [`spec_parse`] the entries
//! that a byte sequence denotes. The executable packer and parser are proved
//! against them, and [`lemma_parse_pack`] shows the round trip.

use vstd::prelude::*;

use vstd::pervasive::VecAdditionalExecFns;

use crate::octal::{is_octal_digit, leading_spaces, oct_digit, octal_value, parse_octal_field, pow8, push_octal_field, spec_octal_field, spec_parse_octal};
use crate::protect::slash;

verus! {

/// One archive member: a relative path, a directory flag, and file bytes.
pub struct TarEntry {
    pub path: Vec<u8>,
    pub is_dir: bool,
    pub data: Vec<u8>,
}

/// The mathematical image of a [`TarEntry`].
#[verifier::ext_equal]
pub struct TarEntryView {
    pub path: Seq<u8>,
    pub is_dir: bool,
    pub data: Seq<u8>,
}

impl View for TarEntry {
    type V = TarEntryView;

    open spec fn view(&self) -> TarEntryView {
        TarEntryView { path: self.path@, is_dir: self.is_dir, data: self.data@ }
    }
}

/// The views of a sequence of entries.
pub open spec fn entries_view(es: Seq<TarEntry>) -> Seq<TarEntryView> {
    es.map_values(|e: TarEntry| e@)
}

/// A well-formed archive member: the path fits the header name field, holds
/// no NUL byte, does not end in a slash, and the data length fits eleven
/// octal digits. Directories carry no data.
pub open spec fn wf_entry(e: TarEntryView) -> bool {
    &&& 1 <= e.path.len() <= 100
    &&& (forall|i: int| 0 <= i < e.path.len() ==> e.path[i] != 0u8)
    &&& e.path.last() != slash()
    &&& (e.is_dir ==> e.data.len() == 0)
    &&& e.data.len() < pow8(11)
}

/// All entries of a sequence are well formed.
pub open spec fn wf_entries(es: Seq<TarEntryView>) -> bool {
    forall|i: int| 0 <= i < es.len() ==> wf_entry(#[trigger] es[i])
}

/// A sequence of `n` zero bytes.
pub open spec fn zeros(n: nat) -> Seq<u8> {
    Seq::new(n, |i: int| 0u8)
}

/// Bytes of padding that follow `n` bytes of member data, up to the next
/// 512-byte block boundary.
pub open spec fn pad_len(n: nat) -> nat {
    ((512 - (n % 512)) % 512) as nat
}

/// The header type flag: `'5'` for a directory, `'0'` for a regular file.
pub open spec fn typeflag_of(is_dir: bool) -> u8 {
    if is_dir {
        53u8
    } else {
        48u8
    }
}

/// The recorded permission bits: `0o755` for directories, `0o644` for files.
pub open spec fn mode_value(is_dir: bool) -> nat {
    if is_dir {
        493
    } else {
        420
    }
}

/// Byte `i` of the header block before the checksum is filled in; the
/// checksum field holds eight ASCII spaces.
pub open spec fn raw_header_byte(e: TarEntryView, i: int) -> u8 {
    if 0 <= i < 100 {
        if i < e.path.len() {
            e.path[i]
        } else {
            0u8
        }
    } else if i < 108 {
        spec_octal_field(mode_value(e.is_dir), 7)[i - 100]
    } else if i < 116 {
        spec_octal_field(0, 7)[i - 108]
    } else if i < 124 {
        spec_octal_field(0, 7)[i - 116]
    } else if i < 136 {
        spec_octal_field(e.data.len(), 11)[i - 124]
    } else if i < 148 {
        spec_octal_field(0, 11)[i - 136]
    } else if i < 156 {
        32u8
    } else if i == 156 {
        typeflag_of(e.is_dir)
    } else if i == 257 {
        117u8
    } else if i == 258 {
        115u8
    } else if i == 259 {
        116u8
    } else if i == 260 {
        97u8
    } else if i == 261 {
        114u8
    } else if i == 263 || i == 264 {
        48u8
    } else {
        0u8
    }
}

/// The sum of the first `n` raw header bytes.
pub open spec fn raw_sum(e: TarEntryView, n: int) -> int
    decreases n,
{
    if n <= 0 {
        0
    } else {
        raw_sum(e, n - 1) + raw_header_byte(e, n - 1)
    }
}

/// The header checksum: the byte sum of the block with the checksum field
/// read as spaces.
pub open spec fn header_checksum(e: TarEntryView) -> nat {
    raw_sum(e, 512) as nat
}

/// Byte `i` of the finished header block.
pub open spec fn header_byte(e: TarEntryView, i: int) -> u8 {
    if 148 <= i < 155 {
        spec_octal_field(header_checksum(e), 6)[i - 148]
    } else if i == 155 {
        32u8
    } else {
        raw_header_byte(e, i)
    }
}

/// The 512-byte header block of an entry.
pub open spec fn spec_header(e: TarEntryView) -> Seq<u8> {
    Seq::new(512, |i: int| header_byte(e, i))
}

/// The bytes one entry contributes to an archive: header block, data, and
/// zero padding to the next block boundary.
pub open spec fn spec_pack_entry(e: TarEntryView) -> Seq<u8> {
    spec_header(e) + e.data + zeros(pad_len(e.data.len()))
}

/// The archive bytes of the entries from index `i` on, ending in two zero
/// end-of-archive blocks.
pub open spec fn spec_pack_from(es: Seq<TarEntryView>, i: int) -> Seq<u8>
    decreases es.len() - i,
{
    if i < 0 || i >= es.len() {
        zeros(1024)
    } else {
        spec_pack_entry(es[i]) + spec_pack_from(es, i + 1)
    }
}

/// The archive bytes of a sequence of entries.
pub open spec fn spec_pack(es: Seq<TarEntryView>) -> Seq<u8> {
    spec_pack_from(es, 0)
}

/// Appends `n` copies of `b` to `out`.
fn push_repeat(out: &mut Vec<u8>, b: u8, n: usize)
    ensures
        final(out)@ == old(out)@ + Seq::new(n as nat, |i: int| b),
{
    let mut i: usize = 0;
    while i < n
        invariant
            i <= n,
            out@ =~= old(out)@ + Seq::new(i as nat, |j: int| b),
        decreases n - i,
    {
        out.push(b);
        i = i + 1;
    }
    proof {
        assert(out@ =~= old(out)@ + Seq::new(n as nat, |i: int| b));
    }
}

/// Appends a byte slice to `out`.
fn push_bytes(out: &mut Vec<u8>, s: &[u8])
    ensures
        final(out)@ == old(out)@ + s@,
{
    let n: usize = s.len();
    let mut i: usize = 0;
    while i < n
        invariant
            i <= n,
            n == s@.len(),
            out@ =~= old(out)@ + s@.subrange(0, i as int),
        decreases n - i,
    {
        out.push(s[i]);
        i = i + 1;
    }
    proof {
        assert(out@ =~= old(out)@ + s@);
    }
}

/// Builds the 512-byte header block of an entry.
pub fn make_header(e: &TarEntry) -> (h: Vec<u8>)
    requires
        wf_entry(e@),
    ensures
        h@ == spec_header(e@),
{
    let mut h: Vec<u8> = Vec::new();
    push_bytes(&mut h, e.path.as_slice());
    push_repeat(&mut h, 0u8, 100 - e.path.len());
    let mode: u64 = if e.is_dir {
        493
    } else {
        420
    };
    push_octal_field(&mut h, mode, 7);
    push_octal_field(&mut h, 0, 7);
    push_octal_field(&mut h, 0, 7);
    proof {
        crate::octal::lemma_pow8_pos(11);
    }
    push_octal_field(&mut h, e.data.len() as u64, 11);
    push_octal_field(&mut h, 0, 11);
    push_repeat(&mut h, 32u8, 8);
    if e.is_dir {
        h.push(53u8);
    } else {
        h.push(48u8);
    }
    push_repeat(&mut h, 0u8, 100);
    h.push(117u8);
    h.push(115u8);
    h.push(116u8);
    h.push(97u8);
    h.push(114u8);
    h.push(0u8);
    h.push(48u8);
    h.push(48u8);
    push_repeat(&mut h, 0u8, 247);
    proof {
        assert(h@ =~= Seq::new(512, |i: int| raw_header_byte(e@, i)));
    }
    let ghost raw = h@;
    let mut sum: u32 = 0;
    let mut i: usize = 0;
    while i < 512
        invariant
            i <= 512,
            h@ == raw,
            h@.len() == 512,
            forall|j: int| 0 <= j < 512 ==> h@[j] == raw_header_byte(e@, j),
            sum <= 255 * i,
            sum == raw_sum(e@, i as int),
        decreases 512 - i,
    {
        sum = sum + (h[i] as u32);
        i = i + 1;
    }
    let mut chk: Vec<u8> = Vec::new();
    push_octal_field(&mut chk, sum as u64, 6);
    h.set(148, chk[0]);
    h.set(149, chk[1]);
    h.set(150, chk[2]);
    h.set(151, chk[3]);
    h.set(152, chk[4]);
    h.set(153, chk[5]);
    h.set(154, chk[6]);
    h.set(155, 32u8);
    proof {
        assert(h@ =~= spec_header(e@));
    }
    h
}

/// Serializes the entries into one archive byte vector.
pub fn pack_entries(entries: &Vec<TarEntry>) -> (out: Vec<u8>)
    requires
        wf_entries(entries_view(entries@)),
    ensures
        out@ == spec_pack(entries_view(entries@)),
{
    let ghost evs = entries_view(entries@);
    let mut out: Vec<u8> = Vec::new();
    let n: usize = entries.len();
    let mut i: usize = 0;
    while i < n
        invariant
            i <= n,
            n == entries@.len(),
            evs == entries_view(entries@),
            wf_entries(evs),
            spec_pack(evs) == out@ + spec_pack_from(evs, i as int),
        decreases n - i,
    {
        let ghost before = out@;
        proof {
            assert(evs[i as int] == entries@[i as int]@);
        }
        let header = make_header(&entries[i]);
        push_bytes(&mut out, header.as_slice());
        push_bytes(&mut out, entries[i].data.as_slice());
        let rem: usize = entries[i].data.len() % 512;
        let pad: usize = if rem == 0 {
            0
        } else {
            512 - rem
        };
        push_repeat(&mut out, 0u8, pad);
        proof {
            assert(Seq::new(pad as nat, |j: int| 0u8) =~= zeros(pad_len(evs[i as int].data.len())));
            assert(out@ =~= before + spec_pack_entry(evs[i as int]));
            assert(spec_pack(evs) == out@ + spec_pack_from(evs, i + 1)) by {
                assert(spec_pack_from(evs, i as int) == spec_pack_entry(evs[i as int])
                    + spec_pack_from(evs, i + 1));
                assert(before + (spec_pack_entry(evs[i as int]) + spec_pack_from(evs, i + 1)) =~= (
                before + spec_pack_entry(evs[i as int])) + spec_pack_from(evs, i + 1));
            }
        }
        i = i + 1;
    }
    let ghost before_end = out@;
    push_repeat(&mut out, 0u8, 1024);
    proof {
        assert(Seq::new(1024nat, |j: int| 0u8) =~= zeros(1024));
        assert(out@ =~= spec_pack(evs));
    }
    out
}


/// True when every byte of `s` is zero.
pub open spec fn is_zero_block(s: Seq<u8>) -> bool {
    forall|i: int| 0 <= i < s.len() ==> s[i] == 0u8
}

/// The number of bytes of `s` before its first NUL byte.
pub open spec fn first_nul(s: Seq<u8>) -> nat
    decreases s.len(),
{
    if s.len() == 0 || s[0] == 0u8 {
        0
    } else {
        (1 + first_nul(s.skip(1))) as nat
    }
}

/// Drops one trailing slash from a directory member name, if present.
pub open spec fn strip_dir_slash(p: Seq<u8>) -> Seq<u8> {
    if p.len() > 0 && p.last() == slash() {
        p.take(p.len() - 1)
    } else {
        p
    }
}

/// Byte `i` of a header block with the checksum field read as spaces.
pub open spec fn spaced_byte(s: Seq<u8>, i: int) -> u8 {
    if 148 <= i < 156 {
        32u8
    } else {
        s[i]
    }
}

/// The sum of the first `n` bytes of a header block, with the checksum field
/// read as spaces.
pub open spec fn spaced_sum_upto(s: Seq<u8>, n: int) -> int
    decreases n,
{
    if n <= 0 {
        0
    } else {
        spaced_sum_upto(s, n - 1) + spaced_byte(s, n - 1)
    }
}

/// The member that a 512-byte header block denotes: its name (up to the
/// first NUL, one trailing slash dropped for directories), whether it is a
/// directory, and its data length. `None` when the name is empty, a numeric
/// field is malformed, the checksum does not match, or the type flag is
/// neither a regular file nor a directory.
pub open spec fn spec_parse_header(s: Seq<u8>) -> Option<(Seq<u8>, bool, nat)> {
    let name_field = s.subrange(0, 100);
    let raw_name = name_field.subrange(0, first_nul(name_field) as int);
    let size_opt = spec_parse_octal(s.subrange(124, 136));
    let chk_opt = spec_parse_octal(s.subrange(148, 156));
    let t = s[156];
    if raw_name.len() == 0 {
        None
    } else if size_opt is None {
        None
    } else if chk_opt is None || chk_opt->0 != spaced_sum_upto(s, 512) {
        None
    } else if t == 48u8 || t == 0u8 {
        Some((raw_name, false, size_opt->0))
    } else if t == 53u8 {
        if size_opt->0 != 0 {
            None
        } else if strip_dir_slash(raw_name).len() == 0 {
            None
        } else {
            Some((strip_dir_slash(raw_name), true, 0))
        }
    } else {
        None
    }
}

/// The members that an archive byte sequence denotes. Entries are read
/// block-wise until the bytes end or an all-zero block is reached; anything
/// after an all-zero block is ignored. `None` when a header block is
/// malformed or a member's data is cut short.
pub open spec fn spec_parse(b: Seq<u8>) -> Option<Seq<TarEntryView>>
    decreases b.len(),
{
    if b.len() == 0 {
        Some(Seq::empty())
    } else if b.len() < 512 {
        None
    } else if is_zero_block(b.take(512)) {
        Some(Seq::empty())
    } else {
        match spec_parse_header(b.take(512)) {
            None => None,
            Some(ph) => {
                let size = ph.2;
                if b.len() < 512 + size {
                    None
                } else {
                    let data = b.subrange(512, 512 + size as int);
                    let consumed = 512 + size + pad_len(size);
                    let rest = if b.len() <= consumed {
                        Seq::<u8>::empty()
                    } else {
                        b.skip(consumed as int)
                    };
                    match spec_parse(rest) {
                        None => None,
                        Some(tail) => Some(
                            seq![TarEntryView { path: ph.0, is_dir: ph.1, data }] + tail,
                        ),
                    }
                }
            },
        }
    }
}

/// Prefixes already-read members onto the outcome of reading the remainder.
pub open spec fn prepend_parsed(
    acc: Seq<TarEntryView>,
    rest: Option<Seq<TarEntryView>>,
) -> Option<Seq<TarEntryView>> {
    match rest {
        None => None,
        Some(t) => Some(acc + t),
    }
}

/// Decides whether a 512-byte block is all zero.
fn check_zero_block(block: &[u8]) -> (r: bool)
    requires
        block@.len() == 512,
    ensures
        r == is_zero_block(block@),
{
    let mut j: usize = 0;
    while j < 512
        invariant
            j <= 512,
            block@.len() == 512,
            forall|t: int| 0 <= t < j ==> block@[t] == 0u8,
        decreases 512 - j,
    {
        if block[j] != 0u8 {
            proof {
                assert(!is_zero_block(block@)) by {
                    assert(block@[j as int] != 0u8);
                }
            }
            return false;
        }
        j = j + 1;
    }
    true
}

/// The first NUL of `s` sits at `i` when everything before `i` is non-NUL
/// and `i` is a NUL or the end.
proof fn lemma_first_nul_at(s: Seq<u8>, i: int)
    requires
        0 <= i <= s.len(),
        forall|j: int| 0 <= j < i ==> s[j] != 0u8,
        i < s.len() ==> s[i] == 0u8,
    ensures
        first_nul(s) == i,
    decreases i,
{
    if i > 0 {
        lemma_first_nul_at(s.skip(1), i - 1);
    }
}

/// Reads one 512-byte header block, mirroring [`spec_parse_header`].
fn parse_header(block: &[u8]) -> (r: Option<(Vec<u8>, bool, u64)>)
    requires
        block@.len() == 512,
    ensures
        match r {
            Some(p) => spec_parse_header(block@) == Some((p.0@, p.1, p.2 as nat)),
            None => spec_parse_header(block@) is None,
        },
{
    let ghost name_field = block@.subrange(0, 100);
    let mut nend: usize = 0;
    while nend < 100 && block[nend] != 0u8
        invariant
            nend <= 100,
            block@.len() == 512,
            forall|j: int| 0 <= j < nend ==> block@[j] != 0u8,
        decreases 100 - nend,
    {
        nend = nend + 1;
    }
    proof {
        lemma_first_nul_at(name_field, nend as int);
    }
    if nend == 0 {
        return None;
    }
    let mut name: Vec<u8> = Vec::new();
    let mut k: usize = 0;
    while k < nend
        invariant
            k <= nend,
            nend <= 100,
            block@.len() == 512,
            name@ =~= block@.subrange(0, k as int),
        decreases nend - k,
    {
        name.push(block[k]);
        k = k + 1;
    }
    proof {
        assert(name@ =~= name_field.subrange(0, first_nul(name_field) as int));
    }
    let size_opt = parse_octal_field(&block[124..136]);
    let size: u64 = match size_opt {
        Some(v) => v,
        None => {
            return None;
        },
    };
    let mut sum: u32 = 0;
    let mut i: usize = 0;
    while i < 512
        invariant
            i <= 512,
            block@.len() == 512,
            sum <= 255 * i,
            sum == spaced_sum_upto(block@, i as int),
        decreases 512 - i,
    {
        if 148 <= i && i < 156 {
            sum = sum + 32;
        } else {
            sum = sum + (block[i] as u32);
        }
        i = i + 1;
    }
    let chk_opt = parse_octal_field(&block[148..156]);
    let chk: u64 = match chk_opt {
        Some(v) => v,
        None => {
            return None;
        },
    };
    if chk != (sum as u64) {
        return None;
    }
    let t: u8 = block[156];
    if t == 48u8 || t == 0u8 {
        Some((name, false, size))
    } else if t == 53u8 {
        if size != 0 {
            return None;
        }
        let last: u8 = name[name.len() - 1];
        if last == 47u8 {
            let _ = name.pop();
            proof {
                assert(name@ =~= strip_dir_slash(name_field.subrange(
                    0,
                    first_nul(name_field) as int,
                )));
            }
        }
        if name.len() == 0 {
            return None;
        }
        Some((name, true, 0))
    } else {
        None
    }
}

/// Reads a whole archive, mirroring [`spec_parse`].
#[verifier::rlimit(100)]
pub fn parse_entries(b: &[u8]) -> (r: Option<Vec<TarEntry>>)
    ensures
        match r {
            Some(es) => spec_parse(b@) == Some(entries_view(es@)),
            None => spec_parse(b@) is None,
        },
{
    let n: usize = b.len();
    let mut out: Vec<TarEntry> = Vec::new();
    let mut pos: usize = 0;
    proof {
        assert(b@.skip(0) =~= b@);
        assert(entries_view(out@) =~= Seq::<TarEntryView>::empty());
    }
    loop
        invariant
            pos <= n,
            n == b@.len(),
            spec_parse(b@) == prepend_parsed(entries_view(out@), spec_parse(b@.skip(pos as int))),
        decreases n - pos,
    {
        let ghost s = b@.skip(pos as int);
        if n - pos == 0 {
            proof {
                assert(entries_view(out@) + Seq::<TarEntryView>::empty() =~= entries_view(out@));
            }
            return Some(out);
        }
        if n - pos < 512 {
            return None;
        }
        proof {
            assert(s.take(512) =~= b@.subrange(pos as int, pos + 512));
        }
        if check_zero_block(&b[pos..pos + 512]) {
            proof {
                assert(entries_view(out@) + Seq::<TarEntryView>::empty() =~= entries_view(out@));
            }
            return Some(out);
        }
        let ph = parse_header(&b[pos..pos + 512]);
        match ph {
            None => {
                return None;
            },
            Some((path, is_dir, size_u64)) => {
                if size_u64 > ((n - pos - 512) as u64) {
                    return None;
                }
                let size: usize = size_u64 as usize;
                let mut data: Vec<u8> = Vec::new();
                let mut k: usize = pos + 512;
                while k < pos + 512 + size
                    invariant
                        pos + 512 <= k <= pos + 512 + size,
                        pos + 512 + size <= n,
                        n == b@.len(),
                        data@ =~= b@.subrange(pos + 512, k as int),
                    decreases pos + 512 + size - k,
                {
                    data.push(b[k]);
                    k = k + 1;
                }
                let rem: usize = size % 512;
                let pad: usize = if rem == 0 {
                    0
                } else {
                    512 - rem
                };
                let base: usize = pos + 512 + size;
                let new_pos: usize = if pad > n - base {
                    n
                } else {
                    base + pad
                };
                let entry = TarEntry { path, is_dir, data };
                let ghost old_out = out@;
                let ghost ev = entry@;
                out.push(entry);
                proof {
                    let size_n = size as nat;
                    let consumed = 512 + size_n + pad_len(size_n);
                    assert(s.subrange(512, 512 + size_n as int) =~= b@.subrange(
                        pos + 512,
                        pos + 512 + size_n as int,
                    ));
                    let rest = if s.len() <= consumed {
                        Seq::<u8>::empty()
                    } else {
                        s.skip(consumed as int)
                    };
                    assert(rest =~= b@.skip(new_pos as int)) by {
                        if s.len() <= consumed {
                            assert(new_pos == n);
                        } else {
                            assert(s.skip(consumed as int) =~= b@.skip(pos + consumed));
                        }
                    }
                    assert(spec_parse(s) == match spec_parse(rest) {
                        None => None::<Seq<TarEntryView>>,
                        Some(tail) => Some(seq![ev] + tail),
                    });
                    assert(entries_view(out@) =~= entries_view(old_out) + seq![ev]);
                    assert forall|tail: Seq<TarEntryView>|
                        (entries_view(old_out) + (seq![ev] + tail)) =~= (entries_view(old_out)
                            + seq![ev]) + tail by {};
                    assert(spec_parse(b@) == prepend_parsed(
                        entries_view(out@),
                        spec_parse(b@.skip(new_pos as int)),
                    ));
                }
                pos = new_pos;
            },
        }
    }
}


/// The digit bytes of [`spec_octal_field`], without the trailing NUL.
pub open spec fn oct_digits(v: nat, w: nat) -> Seq<u8> {
    Seq::new(w, |i: int| oct_digit(v, (w - 1 - i) as nat))
}

/// Reading `w` octal digits of `v` onto `acc` yields `acc * 8^w` plus the
/// low `w` octal places of `v`.
proof fn lemma_octal_value_digits(v: nat, w: nat, acc: nat, tail: Seq<u8>)
    requires
        tail.len() == 0 || !is_octal_digit(tail[0]),
    ensures
        octal_value(oct_digits(v, w) + tail, acc) == acc * pow8(w) + (v % pow8(w)),
    decreases w,
{
    crate::octal::lemma_pow8_pos(w);
    if w == 0 {
        assert(oct_digits(v, 0) + tail =~= tail);
        assert(v % pow8(0) == 0);
    } else {
        let s = oct_digits(v, w) + tail;
        let p = pow8((w - 1) as nat);
        crate::octal::lemma_pow8_pos((w - 1) as nat);
        let m = (v / p) % 8;
        let d = oct_digit(v, (w - 1) as nat);
        assert(s[0] == d);
        assert(is_octal_digit(d));
        let acc2 = (acc * 8 + (d - 48)) as nat;
        assert(acc2 == acc * 8 + m);
        assert(s.skip(1) =~= oct_digits(v, (w - 1) as nat) + tail);
        lemma_octal_value_digits(v, (w - 1) as nat, acc2, tail);
        assert(v % (p * 8) == p * ((v / p) % 8) + v % p) by {
            vstd::arithmetic::div_mod::lemma_mod_breakdown(v as int, p as int, 8);
        }
        assert(pow8(w) == 8 * p);
        assert(acc2 * p == acc * (8 * p) + m * p) by (nonlinear_arith)
            requires
                acc2 == acc * 8 + m,
        ;
        assert(v % (p * 8) == v % (8 * p));
        assert(octal_value(s, acc) == octal_value(s.skip(1), acc2));
        assert(octal_value(s.skip(1), acc2) == acc2 * p + (v % p));
        assert(acc2 * p + (v % p) == acc * pow8(w) + (v % pow8(w)));
    }
}

/// An exact octal field followed by a non-digit byte reads back as its
/// value.
proof fn lemma_parse_octal_field_exact(v: nat, w: nat, extra: Seq<u8>)
    requires
        w >= 1,
        v < pow8(w),
    ensures
        spec_parse_octal(spec_octal_field(v, w) + extra) == Some(v),
{
    let s = spec_octal_field(v, w) + extra;
    let tail = seq![0u8] + extra;
    assert(s =~= oct_digits(v, w) + tail);
    assert(s[0] == oct_digit(v, (w - 1) as nat));
    assert(48 <= s[0] <= 55);
    assert(leading_spaces(s) == 0);
    assert(s.skip(0) =~= s);
    lemma_octal_value_digits(v, w, 0, tail);
    crate::octal::lemma_pow8_pos(w);
    vstd::arithmetic::div_mod::lemma_small_mod(v, pow8(w));
    assert(octal_value(s, 0) == v);
}

/// The raw header byte sum over `n` bytes sits between zero and `255 * n`.
proof fn lemma_raw_sum_bound(e: TarEntryView, n: int)
    requires
        0 <= n,
    ensures
        0 <= raw_sum(e, n) <= 255 * n,
    decreases n,
{
    if n > 0 {
        lemma_raw_sum_bound(e, n - 1);
    }
}

/// When a block matches the raw header bytes outside the checksum field,
/// its spaced sum equals the raw sum.
proof fn lemma_spaced_sum_eq(e: TarEntryView, s: Seq<u8>, n: int)
    requires
        n <= s.len(),
        forall|i: int| 0 <= i < n ==> spaced_byte(s, i) == raw_header_byte(e, i),
    ensures
        spaced_sum_upto(s, n) == raw_sum(e, n),
    decreases n,
{
    if n > 0 {
        lemma_spaced_sum_eq(e, s, n - 1);
    }
}

/// The value of `pow8(6)`.
proof fn lemma_pow8_6()
    ensures
        pow8(6) == 262144,
{
    reveal_with_fuel(pow8, 7);
}

/// A packed header block reads back as its entry's name, kind, and size.
proof fn lemma_parse_header_of_packed(e: TarEntryView)
    requires
        wf_entry(e),
    ensures
        spec_parse_header(spec_header(e)) == Some((e.path, e.is_dir, e.data.len())),
{
    let s = spec_header(e);
    let name_field = s.subrange(0, 100);
    assert(forall|j: int| 0 <= j < e.path.len() ==> name_field[j] == e.path[j]);
    assert(e.path.len() < 100 ==> name_field[e.path.len() as int] == 0u8);
    lemma_first_nul_at(name_field, e.path.len() as int);
    assert(name_field.subrange(0, e.path.len() as int) =~= e.path);
    assert(s.subrange(124, 136) =~= spec_octal_field(e.data.len(), 11) + Seq::<u8>::empty());
    lemma_parse_octal_field_exact(e.data.len(), 11, Seq::empty());
    assert(spec_parse_octal(s.subrange(124, 136)) == Some(e.data.len()));
    lemma_raw_sum_bound(e, 512);
    let chk = header_checksum(e);
    lemma_pow8_6();
    assert(chk < pow8(6));
    assert(s.subrange(148, 156) =~= spec_octal_field(chk, 6) + seq![32u8]);
    lemma_parse_octal_field_exact(chk, 6, seq![32u8]);
    assert(spec_parse_octal(s.subrange(148, 156)) == Some(chk));
    assert(forall|i: int| 0 <= i < 512 ==> spaced_byte(s, i) == raw_header_byte(e, i));
    lemma_spaced_sum_eq(e, s, 512);
    assert(spaced_sum_upto(s, 512) == chk as int);
    assert(s[156] == typeflag_of(e.is_dir));
    if e.is_dir {
        assert(strip_dir_slash(e.path) == e.path);
    }
}

/// Every packed tail is at least the two end-of-archive blocks long.
proof fn lemma_pack_from_min_len(es: Seq<TarEntryView>, i: int)
    ensures
        spec_pack_from(es, i).len() >= 1024,
    decreases es.len() - i,
{
    if 0 <= i < es.len() {
        lemma_pack_from_min_len(es, i + 1);
    }
}

/// Reading a packed archive from entry `i` on yields exactly the packed
/// entries.
proof fn lemma_parse_pack_from(es: Seq<TarEntryView>, i: int)
    requires
        wf_entries(es),
        0 <= i <= es.len(),
    ensures
        spec_parse(spec_pack_from(es, i)) == Some(es.skip(i)),
    decreases es.len() - i,
{
    let b = spec_pack_from(es, i);
    if i == es.len() {
        assert(b == zeros(1024));
        assert(is_zero_block(b.take(512)));
        assert(es.skip(i) =~= Seq::<TarEntryView>::empty());
    } else {
        let e = es[i];
        assert(wf_entry(e));
        let size = e.data.len();
        let entry_len = 512 + size + pad_len(size);
        assert(spec_pack_entry(e).len() == entry_len);
        lemma_pack_from_min_len(es, i + 1);
        assert(b.len() >= entry_len + 1024);
        assert(b.take(512) =~= spec_header(e));
        assert(b.take(512)[0] == header_byte(e, 0));
        assert(header_byte(e, 0) == e.path[0]);
        assert(e.path[0] != 0u8);
        assert(!is_zero_block(b.take(512)));
        lemma_parse_header_of_packed(e);
        assert(spec_parse_header(b.take(512)) == Some((e.path, e.is_dir, size)));
        assert(b.subrange(512, 512 + size as int) =~= e.data);
        let consumed = 512 + size + pad_len(size);
        assert(b.len() > consumed);
        assert(b.skip(consumed as int) =~= spec_pack_from(es, i + 1));
        lemma_parse_pack_from(es, i + 1);
        let parsed = TarEntryView { path: e.path, is_dir: e.is_dir, data: b.subrange(512, 512 + size as int) };
        assert(parsed =~= e);
        assert(seq![e] + es.skip(i + 1) =~= es.skip(i));
        assert(spec_parse(b) == Some(es.skip(i)));
    }
}

/// Round trip: an archive packed from well-formed entries reads back as
/// exactly those entries.
pub proof fn lemma_parse_pack(es: Seq<TarEntryView>)
    requires
        wf_entries(es),
    ensures
        spec_parse(spec_pack(es)) == Some(es),
{
    lemma_parse_pack_from(es, 0);
    assert(es.skip(0) =~= es);
}


/// The value of `pow8(11)`, the bound of the size field.
proof fn lemma_pow8_11()
    ensures
        pow8(11) == 0x2_0000_0000,
{
    reveal_with_fuel(pow8, 12);
}

/// Decides whether one entry is well formed.
pub fn check_entry_wf(e: &TarEntry) -> (r: bool)
    ensures
        r == wf_entry(e@),
{
    proof {
        lemma_pow8_11();
    }
    let n: usize = e.path.len();
    if n < 1 || n > 100 {
        return false;
    }
    if e.path[n - 1] == 47u8 {
        return false;
    }
    if e.is_dir && e.data.len() > 0 {
        return false;
    }
    if (e.data.len() as u64) >= 0x2_0000_0000u64 {
        return false;
    }
    let mut i: usize = 0;
    while i < n
        invariant
            i <= n,
            n == e.path@.len(),
            forall|j: int| 0 <= j < i ==> e.path@[j] != 0u8,
        decreases n - i,
    {
        if e.path[i] == 0u8 {
            proof {
                assert(!wf_entry(e@)) by {
                    assert(e.path@[i as int] == 0u8);
                }
            }
            return false;
        }
        i = i + 1;
    }
    true
}

/// Decides whether every entry of a directory snapshot is well formed.
pub fn check_entries_wf(es: &Vec<TarEntry>) -> (r: bool)
    ensures
        r == wf_entries(entries_view(es@)),
{
    let n: usize = es.len();
    let mut i: usize = 0;
    while i < n
        invariant
            i <= n,
            n == es@.len(),
            forall|j: int| 0 <= j < i ==> wf_entry(#[trigger] entries_view(es@)[j]),
        decreases n - i,
    {
        proof {
            assert(entries_view(es@)[i as int] == es@[i as int]@);
        }
        if !check_entry_wf(&es[i]) {
            proof {
                assert(!wf_entries(entries_view(es@))) by {
                    assert(!wf_entry(entries_view(es@)[i as int]));
                }
            }
            return false;
        }
        i = i + 1;
    }
    true
}


/// Serializes one entry: its header block, data, and padding. Streaming
/// producers write entries one at a time and finish with
/// [`end_of_archive`].
pub fn pack_entry(e: &TarEntry) -> (out: Vec<u8>)
    requires
        wf_entry(e@),
    ensures
        out@ == spec_pack_entry(e@),
{
    let mut out = make_header(e);
    push_bytes(&mut out, e.data.as_slice());
    let rem: usize = e.data.len() % 512;
    let pad: usize = if rem == 0 {
        0
    } else {
        512 - rem
    };
    push_repeat(&mut out, 0u8, pad);
    proof {
        assert(Seq::new(pad as nat, |j: int| 0u8) =~= zeros(pad_len(e@.data.len())));
        assert(out@ =~= spec_pack_entry(e@));
    }
    out
}

/// The end-of-archive marker: two all-zero blocks.
pub fn end_of_archive() -> (out: Vec<u8>)
    ensures
        out@ == zeros(1024),
{
    let mut out: Vec<u8> = Vec::new();
    push_repeat(&mut out, 0u8, 1024);
    proof {
        assert(out@ =~= zeros(1024));
    }
    out
}

} // verus!
