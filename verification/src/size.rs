//! Human-readable byte counts, as `{:.1}` prints the quotient of two `f64`s.
use vstd::prelude::*;
use crate::text::{append_chars, chars_of, decimal, digit, digit_char, push_decimal, string_of};

verus! {

/// Smallest power of two that, dividing `b`, leaves fewer than 53 significant bits
/// (the step between neighbouring `f64` values around `b`).
pub open spec fn f64_step(b: nat) -> nat
    decreases b,
{
    if b < 0x20_0000_0000_0000 {
        1
    } else {
        2 * f64_step(b / 2)
    }
}

/// `num / den` rounded to the nearest integer, ties to the even one.
pub open spec fn round_half_even(num: nat, den: nat) -> nat
    recommends
        den > 0,
{
    let q = num / den;
    let r = num % den;
    if 2 * r > den || (2 * r == den && q % 2 == 1) {
        q + 1
    } else {
        q
    }
}

/// The integer that `b as f64` holds: `b` rounded to the nearest multiple of `f64_step(b)`,
/// ties to even.
pub open spec fn f64_of(b: nat) -> nat {
    round_half_even(b, f64_step(b)) * f64_step(b)
}

/// What `{:.1}` prints for the exact quotient `v / unit` (rounded to tenths, ties to even).
pub open spec fn one_decimal(v: nat, unit: nat) -> Seq<char> {
    let t = round_half_even(v * 10, unit);
    decimal(t / 10).push('.').push(digit_char(t % 10))
}

pub open spec fn kib() -> nat { 1024 }
pub open spec fn mib() -> nat { 1024 * 1024 }
pub open spec fn gib() -> nat { 1024 * 1024 * 1024 }

/// `bytes` as `1.5 GB`, `12.0 MB`, `3.2 KB` (one decimal, the unit being the largest of
/// GB, MB, KB that `bytes` reaches) or `512 B`.
pub open spec fn human_size_spec(bytes: nat) -> Seq<char> {
    if bytes >= gib() {
        one_decimal(f64_of(bytes), gib()) + " GB"@
    } else if bytes >= mib() {
        one_decimal(f64_of(bytes), mib()) + " MB"@
    } else if bytes >= kib() {
        one_decimal(f64_of(bytes), kib()) + " KB"@
    } else {
        decimal(bytes) + " B"@
    }
}

/// Below 2^53 every byte count is exact as an `f64`, so the shown size is the exact
/// quotient rounded to tenths.
pub proof fn lemma_small_counts_exact(b: nat)
    requires
        b < 0x20_0000_0000_0000,
    ensures
        f64_of(b) == b,
{
    assert(f64_step(b) == 1);
    assert(b / 1 == b && b % 1 == 0) by (nonlinear_arith);
}

/// `num / den` rounded to the nearest integer, ties to even.
fn round_half_even_u128(num: u128, den: u128) -> (r: u128)
    requires
        den > 0,
        num < 0x1_0000_0000_0000_0000_0000_0000_0000,
    ensures
        r == round_half_even(num as nat, den as nat),
{
    let q = num / den;
    let rem = num % den;
    assert(q <= num) by (nonlinear_arith)
        requires q == num / den, den > 0;
    if rem > den - rem || (rem == den - rem && q % 2 == 1) {
        q + 1
    } else {
        q
    }
}

/// The integer value of `b as f64`.
fn f64_value(b: u64) -> (v: u128)
    ensures
        v == f64_of(b as nat),
        v <= 0x2_0000_0000_0000_0000,
{
    let mut n: u64 = b;
    let mut s: u64 = 1;
    while n >= 0x20_0000_0000_0000
        invariant
            s > 0,
            s < 4096,
            n == b / s,
            s * n <= b,
            f64_step(b as nat) == s * f64_step(n as nat),
        decreases n,
    {
        let ghost n0 = n;
        let ghost s0 = s;
        assert(s0 < 2048) by (nonlinear_arith)
            requires s0 * n0 <= b, n0 >= 0x20_0000_0000_0000, b < 0x1_0000_0000_0000_0000;
        proof {
            vstd::arithmetic::div_mod::lemma_div_denominator(b as int, s0 as int, 2);
        }
        n = n / 2;
        s = s * 2;
        assert(f64_step(n0 as nat) == 2 * f64_step(n as nat));
        assert(s0 * (2 * f64_step(n as nat)) == s * f64_step(n as nat)) by (nonlinear_arith)
            requires s == s0 * 2;
        assert(s * n <= b) by (nonlinear_arith)
            requires s == s0 * 2, n == n0 / 2, s0 * n0 <= b;
    }
    assert(f64_step(n as nat) == 1);
    assert(f64_step(b as nat) == s as nat) by (nonlinear_arith)
        requires f64_step(b as nat) == s * f64_step(n as nat), f64_step(n as nat) == 1;
    let q = round_half_even_u128(b as u128, s as u128);
    assert(q <= (b as int) / (s as int) + 1);
    assert(q * (s as u128) <= 0x2_0000_0000_0000_0000) by (nonlinear_arith)
        requires q <= (b as int) / (s as int) + 1, s > 0, s < 4096, b < 0x1_0000_0000_0000_0000;
    q * (s as u128)
}

/// Appends `v / unit` with one decimal, as `{:.1}` prints it.
fn push_one_decimal(out: &mut Vec<char>, v: u128, unit: u128)
    requires
        v <= 0x2_0000_0000_0000_0000,
        unit >= 1024,
    ensures
        final(out)@ == old(out)@ + one_decimal(v as nat, unit as nat),
{
    let t = round_half_even_u128(v * 10, unit);
    assert(t <= (v * 10) / (unit as int) + 1);
    assert((v * 10) / (unit as int) <= (v * 10) / 1024) by (nonlinear_arith)
        requires unit >= 1024, v >= 0;
    let whole = t / 10;
    assert(whole < 0x1_0000_0000_0000_0000);
    push_decimal(out, whole as u64);
    out.push('.');
    out.push(digit((t % 10) as u64));
    assert(final(out)@ =~= old(out)@ + one_decimal(v as nat, unit as nat)) by {
        assert(whole as u64 as nat == t as nat / 10);
    }
}

/// Formats a byte count for people (see `human_size_spec`).
pub fn human_size(bytes: u64) -> (r: String)
    ensures
        r@ == human_size_spec(bytes as nat),
{
    let mut out: Vec<char> = Vec::new();
    if bytes >= 1024 * 1024 * 1024 {
        push_one_decimal(&mut out, f64_value(bytes), 1024 * 1024 * 1024);
        let unit = chars_of(" GB");
        append_chars(&mut out, unit.as_slice());
    } else if bytes >= 1024 * 1024 {
        push_one_decimal(&mut out, f64_value(bytes), 1024 * 1024);
        let unit = chars_of(" MB");
        append_chars(&mut out, unit.as_slice());
    } else if bytes >= 1024 {
        push_one_decimal(&mut out, f64_value(bytes), 1024);
        let unit = chars_of(" KB");
        append_chars(&mut out, unit.as_slice());
    } else {
        push_decimal(&mut out, bytes);
        let unit = chars_of(" B");
        append_chars(&mut out, unit.as_slice());
    }
    assert(out@ =~= human_size_spec(bytes as nat));
    string_of(out.as_slice())
}

} // verus!
