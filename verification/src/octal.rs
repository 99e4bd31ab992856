//! Fixed-width octal number fields as used by tar header blocks.

use vstd::arithmetic::div_mod::lemma_div_denominator;
use vstd::pervasive::VecAdditionalExecFns;
use vstd::prelude::*;

verus! {

/// Eight to the power `k`.
pub open spec fn pow8(k: nat) -> nat
    decreases k,
{
    if k == 0 {
        1
    } else {
        8 * pow8((k - 1) as nat)
    }
}

/// `pow8` is positive.
pub proof fn lemma_pow8_pos(k: nat)
    ensures
        pow8(k) >= 1,
    decreases k,
{
    if k > 0 {
        lemma_pow8_pos((k - 1) as nat);
    }
}

/// The ASCII octal digit holding the `k`-th least significant octal place of
/// `v`.
pub open spec fn oct_digit(v: nat, k: nat) -> u8 {
    (48 + ((v / pow8(k)) % 8)) as u8
}

/// A fixed-width octal rendering of `v`: `width` ASCII digits, most
/// significant first, followed by one NUL byte.
pub open spec fn spec_octal_field(v: nat, width: nat) -> Seq<u8> {
    Seq::new(width, |i: int| oct_digit(v, (width - 1 - i) as nat)) + seq![0u8]
}

/// True when `b` is an ASCII octal digit.
pub open spec fn is_octal_digit(b: u8) -> bool {
    48 <= b <= 55
}

/// Accumulates the leading octal digits of `s` onto `acc`, stopping at the
/// first byte that is not an octal digit.
pub open spec fn octal_value(s: Seq<u8>, acc: nat) -> nat
    decreases s.len(),
{
    if s.len() == 0 || !is_octal_digit(s[0]) {
        acc
    } else {
        octal_value(s.skip(1), (acc * 8 + (s[0] - 48)) as nat)
    }
}

/// The count of leading ASCII space bytes of `s`.
pub open spec fn leading_spaces(s: Seq<u8>) -> nat
    decreases s.len(),
{
    if s.len() == 0 || s[0] != 32u8 {
        0
    } else {
        1 + leading_spaces(s.skip(1))
    }
}

/// The number that a tar octal field denotes: leading spaces are skipped, at
/// least one octal digit must follow, and the value stops at the first
/// non-digit byte.
pub open spec fn spec_parse_octal(s: Seq<u8>) -> Option<nat> {
    let t = s.skip(leading_spaces(s) as int);
    if t.len() == 0 || !is_octal_digit(t[0]) {
        None
    } else {
        Some(octal_value(t, 0))
    }
}

/// Appends the fixed-width octal rendering of `v` to `out`.
pub fn push_octal_field(out: &mut Vec<u8>, v: u64, width: usize)
    requires
        1 <= width <= 16,
    ensures
        final(out)@ == old(out)@ + spec_octal_field(v as nat, width as nat),
{
    let mut tmp: Vec<u8> = vec![0u8; width];
    let mut x: u64 = v;
    let mut j: usize = 0;
    proof {
        assert(pow8(0) == 1);
    }
    while j < width
        invariant
            j <= width,
            width <= 16,
            tmp@.len() == width,
            x as nat == (v as nat) / pow8(j as nat),
            forall|t: int| 0 <= t < j ==> tmp@[width - 1 - t] == #[trigger] oct_digit(v as nat, t as nat),
        decreases width - j,
    {
        let d: u64 = x % 8;
        tmp.set(width - 1 - j, (48 + d) as u8);
        proof {
            lemma_pow8_pos(j as nat);
            lemma_div_denominator(v as int, pow8(j as nat) as int, 8);
        }
        x = x / 8;
        j = j + 1;
    }
    let mut i: usize = 0;
    while i < width
        invariant
            i <= width,
            tmp@.len() == width,
            forall|t: int| 0 <= t < width ==> tmp@[width - 1 - t] == #[trigger] oct_digit(v as nat, t as nat),
            out@ =~= old(out)@ + tmp@.subrange(0, i as int),
        decreases width - i,
    {
        out.push(tmp[i]);
        i = i + 1;
    }
    out.push(0u8);
    proof {
        assert(out@ =~= old(out)@ + spec_octal_field(v as nat, width as nat));
    }
}

/// Reads a tar octal field out of `s`, mirroring [`spec_parse_octal`] while
/// capping accepted values at 16 octal digits.
pub fn parse_octal_field(s: &[u8]) -> (r: Option<u64>)
    requires
        s@.len() <= 16,
    ensures
        match r {
            Some(v) => spec_parse_octal(s@) == Some(v as nat),
            None => spec_parse_octal(s@) is None,
        },
{
    let n: usize = s.len();
    let mut i: usize = 0;
    proof {
        assert(s@.skip(0) =~= s@);
    }
    while i < n && s[i] == 32u8
        invariant
            i <= n,
            n == s@.len(),
            forall|j: int| 0 <= j < i ==> s@[j] == 32u8,
            leading_spaces(s@) == i + leading_spaces(s@.skip(i as int)),
        decreases n - i,
    {
        proof {
            lemma_leading_spaces_step(s@, i as int);
        }
        i = i + 1;
    }
    proof {
        lemma_leading_spaces_stop(s@, i as int);
    }
    if i == n || !(48 <= s[i] && s[i] <= 55) {
        return None;
    }
    let mut acc: u64 = 0;
    let ghost t0 = s@.skip(i as int);
    let mut k: usize = i;
    while k < n && 48 <= s[k] && s[k] <= 55
        invariant
            i <= k <= n,
            n == s@.len(),
            n <= 16,
            t0 == s@.skip(i as int),
            (acc as nat) < pow8((k - i) as nat),
            octal_value(t0, 0) == octal_value(s@.skip(k as int), acc as nat),
        decreases n - k,
    {
        proof {
            lemma_octal_value_step(s@, k as int, acc as nat);
            lemma_pow8_mono((k - i) as nat, 15);
            lemma_pow8_15();
        }
        acc = acc * 8 + ((s[k] - 48) as u64);
        k = k + 1;
    }
    proof {
        assert(octal_value(s@.skip(k as int), acc as nat) == acc as nat);
    }
    Some(acc)
}

/// Skipping one leading space advances the space count by one.
proof fn lemma_leading_spaces_step(s: Seq<u8>, i: int)
    requires
        0 <= i < s.len(),
        s[i] == 32u8,
        leading_spaces(s) == i + leading_spaces(s.skip(i)),
    ensures
        leading_spaces(s) == i + 1 + leading_spaces(s.skip(i + 1)),
{
    assert(s.skip(i).skip(1) =~= s.skip(i + 1));
}

/// When the byte at `i` is not a space, the space count stops at `i`.
proof fn lemma_leading_spaces_stop(s: Seq<u8>, i: int)
    requires
        0 <= i <= s.len(),
        leading_spaces(s) == i + leading_spaces(s.skip(i)),
        i < s.len() ==> s[i] != 32u8,
    ensures
        leading_spaces(s) == i,
{
}

/// Consuming one octal digit multiplies the accumulator by eight.
proof fn lemma_octal_value_step(s: Seq<u8>, k: int, acc: nat)
    requires
        0 <= k < s.len(),
        is_octal_digit(s[k]),
    ensures
        octal_value(s.skip(k), acc) == octal_value(s.skip(k + 1), (acc * 8 + (s[k] - 48)) as nat),
{
    assert(s.skip(k)[0] == s[k]);
    assert(s.skip(k).skip(1) =~= s.skip(k + 1));
}

/// `pow8` is monotone.
proof fn lemma_pow8_mono(a: nat, b: nat)
    requires
        a <= b,
    ensures
        pow8(a) <= pow8(b),
    decreases b,
{
    if a < b {
        lemma_pow8_mono(a, (b - 1) as nat);
    }
}

/// The value of `pow8(15)`.
proof fn lemma_pow8_15()
    ensures
        pow8(15) == 0x2000_0000_0000,
{
    reveal_with_fuel(pow8, 16);
}

} // verus!
