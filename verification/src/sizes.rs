//! Sizes and times as people read them.
//!
//! A size is shown with two decimals, as a 64-bit floating-point number would be:
//! a number of 2 to the 53 or more is first rounded to 53 significant bits.
use crate::text::{decimal, digit, push_decimal};
use vstd::arithmetic::power2::{
    lemma2_to64, lemma2_to64_rest, lemma_pow2_pos, lemma_pow2_unfold, pow2,
};
use vstd::prelude::*;
use vstd::string::*;

verus! {

/// Half-way cases go to the even neighbour: `num / den`, rounded to an integer.
pub open spec fn rounded(num: nat, den: nat) -> nat {
    let q = num / den;
    let r = num % den;
    if 2 * r > den || (2 * r == den && q % 2 == 1) {
        q + 1
    } else {
        q
    }
}

/// The least of `unit`, twice `unit`, and so on, that leaves fewer than 54 bits of
/// `n`.
pub open spec fn unit_for(n: nat, unit: nat) -> nat
    decreases n / unit,
{
    if unit == 0 || n / unit < 0x20_0000_0000_0000 {
        unit
    } else {
        proof {
            lemma_half(n, unit);
        }
        unit_for(n, 2 * unit)
    }
}

pub proof fn lemma_half(n: nat, unit: nat)
    requires
        unit > 0,
        n / unit >= 2,
    ensures
        n / (2 * unit) < n / unit,
        n / (2 * unit) == (n / unit) / 2,
{
    vstd::arithmetic::div_mod::lemma_div_denominator(n as int, unit as int, 2);
    assert(unit * 2 == 2 * unit) by (nonlinear_arith);
}

/// `n` as a 64-bit floating-point number holds it.
pub open spec fn as_float(n: nat) -> nat {
    let unit = unit_for(n, 1);
    rounded(n, unit) * unit
}

/// A number below 2 to the 53 is held as it is.
pub proof fn lemma_float_exact(n: nat)
    requires
        n < 0x20_0000_0000_0000,
    ensures
        as_float(n) == n,
{
    assert(unit_for(n, 1) == 1);
    assert(rounded(n, 1) == n);
    assert(rounded(n, 1) * 1 == n);
}

pub proof fn lemma_unit_close(n: nat, unit: nat)
    requires
        unit == 1 || unit * 0x10_0000_0000_0000 <= n,
        unit > 0,
    ensures
        unit_for(n, unit) == 1 || unit_for(n, unit) * 0x10_0000_0000_0000 <= n,
        unit_for(n, unit) > 0,
    decreases n / unit,
{
    if n / unit >= 0x20_0000_0000_0000 {
        lemma_half(n, unit);
        vstd::arithmetic::div_mod::lemma_fundamental_div_mod(n as int, unit as int);
        let q = n / unit;
        assert((2 * unit) * 0x10_0000_0000_0000 <= n) by (nonlinear_arith)
            requires
                n == unit * q + n as int % unit as int,
                n as int % unit as int >= 0,
                q >= 0x20_0000_0000_0000,
        ;
        lemma_unit_close(n, 2 * unit);
    }
}

/// A number is held with an error of at most one in 2 to the 52.
pub proof fn lemma_float_close(n: nat)
    ensures
        as_float(n) <= n + n / 0x10_0000_0000_0000,
{
    lemma_unit_close(n, 1);
    let unit = unit_for(n, 1);
    let q = n / unit;
    let r = n % unit;
    vstd::arithmetic::div_mod::lemma_fundamental_div_mod(n as int, unit as int);
    if unit == 1 {
        assert(r == 0);
        assert(q * unit == n) by (nonlinear_arith)
            requires
                n == unit * q + r,
                r == 0,
        ;
    } else {
        assert((q + 1) * unit <= n + unit) by (nonlinear_arith)
            requires
                n == unit * q + r,
                r >= 0,
        ;
        assert(q * unit <= n) by (nonlinear_arith)
            requires
                n == unit * q + r,
                r >= 0,
        ;
        assert(unit <= n / 0x10_0000_0000_0000);
    }
}

proof fn lemma_unit_most(n: nat, unit: nat, d: nat)
    requires
        unit > 0,
        n / (unit * pow2(d)) < 0x20_0000_0000_0000,
    ensures
        unit_for(n, unit) <= unit * pow2(d),
    decreases d,
{
    lemma_pow2_pos(d);
    assert(unit <= unit * pow2(d)) by (nonlinear_arith)
        requires
            pow2(d) >= 1,
    ;
    if n / unit >= 0x20_0000_0000_0000 {
        if d == 0 {
            lemma2_to64();
            assert(unit * 1 == unit);
        }
        lemma_pow2_unfold(d);
        assert((2 * unit) * pow2((d - 1) as nat) == unit * pow2(d)) by (nonlinear_arith)
            requires
                pow2(d) == 2 * pow2((d - 1) as nat),
        ;
        lemma_half(n, unit);
        lemma_unit_most(n, 2 * unit, (d - 1) as nat);
    }
}

proof fn lemma_unit_least(n: nat, unit: nat, d: nat)
    requires
        unit > 0,
        n / (unit * pow2(d)) >= 0x20_0000_0000_0000,
    ensures
        unit_for(n, unit) >= unit * pow2(d + 1),
    decreases d,
{
    lemma_pow2_pos(d);
    assert(unit <= unit * pow2(d)) by (nonlinear_arith)
        requires
            pow2(d) >= 1,
    ;
    vstd::arithmetic::div_mod::lemma_div_is_ordered_by_denominator(
        n as int,
        unit as int,
        (unit * pow2(d)) as int,
    );
    lemma_half(n, unit);
    lemma_pow2_unfold(d + 1);
    assert(unit * pow2(d + 1) == (2 * unit) * pow2(d)) by (nonlinear_arith)
        requires
            pow2(d + 1) == 2 * pow2(d),
    ;
    if d == 0 {
        lemma2_to64();
        assert((2 * unit) * 1 == 2 * unit);
        lemma_unit_grows(n, 2 * unit);
    } else {
        lemma_pow2_unfold(d);
        assert((2 * unit) * pow2((d - 1) as nat) == unit * pow2(d)) by (nonlinear_arith)
            requires
                pow2(d) == 2 * pow2((d - 1) as nat),
        ;
        lemma_unit_least(n, 2 * unit, (d - 1) as nat);
        assert((2 * unit) * pow2(d) == (2 * unit) * pow2(((d - 1) as nat) + 1));
    }
}

proof fn lemma_unit_grows(n: nat, unit: nat)
    requires
        unit > 0,
    ensures
        unit_for(n, unit) >= unit,
    decreases n / unit,
{
    if n / unit >= 0x20_0000_0000_0000 {
        lemma_half(n, unit);
        lemma_unit_grows(n, 2 * unit);
    }
}

/// The bound that sums of 64-bit numbers do not leave: what is added at 2 to the
/// 118 is less than half of the last bit that is held there.
pub proof fn lemma_float_ceiling(n: nat)
    requires
        n <= 0x40_0000_0000_0000_0000_0000_0000_0000 + 0x2_0000_0000_0000_0000,
    ensures
        as_float(n) <= 0x40_0000_0000_0000_0000_0000_0000_0000,
{
    lemma2_to64();
    lemma2_to64_rest();
    lemma_pow2_unfold(65);
    lemma_pow2_unfold(66);
    let unit = unit_for(n, 1);
    lemma_unit_grows(n, 1);
    assert(1 * pow2(65) == 0x2_0000_0000_0000_0000);
    assert(1 * pow2(66) == 0x4_0000_0000_0000_0000);
    if n < 0x40_0000_0000_0000_0000_0000_0000_0000 {
        lemma_unit_most(n, 1, 65);
        lemma_unit_fits(n, 1);
        let q = rounded(n, unit);
        assert(q * unit <= 0x20_0000_0000_0000 * 0x2_0000_0000_0000_0000) by (nonlinear_arith)
            requires
                q <= 0x20_0000_0000_0000,
                unit <= 0x2_0000_0000_0000_0000,
        ;
    } else {
        lemma_unit_most(n, 1, 66);
        lemma_unit_least(n, 1, 65);
        assert(unit == 0x4_0000_0000_0000_0000);
    }
}

proof fn lemma_unit_fits(n: nat, unit: nat)
    requires
        unit > 0,
    ensures
        n / unit_for(n, unit) < 0x20_0000_0000_0000,
    decreases n / unit,
{
    if n / unit >= 0x20_0000_0000_0000 {
        lemma_half(n, unit);
        lemma_unit_fits(n, 2 * unit);
    }
}

/// How often `v` can be divided by 1024 before it is below 1024, but at most
/// `most` times.
pub open spec fn scale(v: nat, most: nat) -> nat
    decreases most,
{
    if most == 0 || v < 1024 {
        0
    } else {
        1 + scale(v / 1024, (most - 1) as nat)
    }
}

/// 1024 to the power `k`.
pub open spec fn kilo(k: nat) -> nat
    decreases k,
{
    if k == 0 {
        1
    } else {
        1024 * kilo((k - 1) as nat)
    }
}

/// A number of hundredths, with two decimals.
pub open spec fn two_decimals(hundredths: nat) -> Seq<char> {
    decimal(hundredths / 100) + seq!['.', digit(hundredths / 10 % 10), digit(hundredths % 10)]
}

/// The name of a unit.
pub open spec fn unit_name(k: nat) -> Seq<char> {
    if k == 0 {
        "B"@
    } else if k == 1 {
        "KB"@
    } else if k == 2 {
        "MB"@
    } else if k == 3 {
        "GB"@
    } else {
        "TB"@
    }
}

/// `bytes` with two decimals, in the largest unit up to `most` that leaves a
/// number of at least 1.
pub open spec fn scaled_text(bytes: nat, most: nat) -> Seq<char> {
    let v = as_float(bytes);
    let k = scale(v, most);
    two_decimals(rounded(100 * v, kilo(k))) + " "@ + unit_name(k)
}

/// A size as people read it, up to terabytes; bytes without decimals.
pub open spec fn size_text(bytes: nat) -> Seq<char> {
    if as_float(bytes) < 1024 {
        decimal(bytes) + " "@ + unit_name(0)
    } else {
        scaled_text(bytes, 4)
    }
}

/// A duration as people read it.
pub open spec fn uptime_text(s: nat) -> Seq<char> {
    if s < 60 {
        decimal(s) + " 秒"@
    } else if s < 3600 {
        decimal(s / 60) + " 分 "@ + decimal(s % 60) + " 秒"@
    } else {
        decimal(s / 3600) + " 时 "@ + decimal(s % 3600 / 60) + " 分"@
    }
}

/// `num / den`, rounded to an integer.
pub fn round_div(num: u128, den: u128) -> (r: u128)
    requires
        0 < den <= 0x4000_0000_0000_0000_0000_0000_0000_0000,
    ensures
        r == rounded(num as nat, den as nat),
        r <= num / den + 1,
{
    let q = num / den;
    let r = num % den;
    assert(q <= num) by {
        vstd::arithmetic::div_mod::lemma_div_is_ordered_by_denominator(num as int, 1, den as int);
    }
    if 2 * r > den || (2 * r == den && q % 2 == 1) {
        proof {
            vstd::arithmetic::div_mod::lemma_fundamental_div_mod(num as int, den as int);
            assert(q < 0xffff_ffff_ffff_ffff_ffff_ffff_ffff_ffff) by (nonlinear_arith)
                requires
                    num == den * q + r,
                    r > 0,
                    den > 0,
                    num <= 0xffff_ffff_ffff_ffff_ffff_ffff_ffff_ffff,
            ;
        }
        q + 1
    } else {
        q
    }
}

/// `n` as a 64-bit floating-point number holds it.
pub fn float_of(n: u128) -> (r: u128)
    requires
        n <= 0x100_0000_0000_0000_0000_0000_0000_0000,
    ensures
        r == as_float(n as nat),
        r <= 2 * n,
{
    let mut unit: u128 = 1;
    while n / unit >= 0x20_0000_0000_0000
        invariant
            n <= 0x100_0000_0000_0000_0000_0000_0000_0000,
            unit >= 1,
            unit == 1 || unit <= n,
            unit_for(n as nat, 1) == unit_for(n as nat, unit as nat),
        decreases n / unit,
    {
        let ghost q = n / unit;
        proof {
            vstd::arithmetic::div_mod::lemma_fundamental_div_mod(n as int, unit as int);
            assert(2 * unit <= n) by (nonlinear_arith)
                requires
                    n == unit * q + n as int % unit as int,
                    n as int % unit as int >= 0,
                    q >= 2,
                    unit >= 1,
            ;
            lemma_half(n as nat, unit as nat);
        }
        unit = 2 * unit;
    }
    let ghost r = n as int % unit as int;
    let q = round_div(n, unit);
    proof {
        let whole = n as int / unit as int;
        vstd::arithmetic::div_mod::lemma_fundamental_div_mod(n as int, unit as int);
        assert(q * unit <= n + unit) by (nonlinear_arith)
            requires
                q <= whole + 1,
                n == unit * whole + r,
                r >= 0,
                unit >= 1,
        ;
        if n == 0 {
            assert(q * unit == 0) by (nonlinear_arith)
                requires
                    q == 0,
            ;
        }
    }
    q * unit
}

/// Appends the decimal notation of a number.
pub fn push_wide(out: &mut String, n: u128)
    ensures
        final(out)@ == old(out)@ + decimal(n as nat),
    decreases n,
{
    let d = (48u8 + (n % 10) as u8) as char;
    if n >= 10 {
        push_wide(out, n / 10);
    }
    out.push(d);
    assert(out@ =~= old(out)@ + decimal(n as nat));
}

/// Appends a number of hundredths, with two decimals.
pub fn push_two_decimals(out: &mut String, hundredths: u128)
    ensures
        final(out)@ == old(out)@ + two_decimals(hundredths as nat),
{
    let ghost start = out@;
    push_wide(out, hundredths / 100);
    out.push('.');
    out.push((48u8 + (hundredths / 10 % 10) as u8) as char);
    out.push((48u8 + (hundredths % 10) as u8) as char);
    assert(out@ =~= start + two_decimals(hundredths as nat));
}

fn push_scaled(out: &mut String, bytes: u64, most: u8)
    requires
        1 <= most <= 4,
    ensures
        final(out)@ == old(out)@ + scaled_text(bytes as nat, most as nat),
{
    let ghost start = out@;
    let v = float_of(bytes as u128);
    let ghost target = scale(v as nat, most as nat);
    let mut k: u8 = 0;
    let mut left: u128 = v;
    let mut den: u128 = 1;
    while k < most && left >= 1024
        invariant
            k <= most <= 4,
            left <= v <= 0x2_0000_0000_0000_0000,
            target == scale(v as nat, most as nat),
            target == k + scale(left as nat, (most - k) as nat),
            den == kilo(k as nat),
            den <= 0x100_0000_0000,
            k == 0 ==> den == 1,
            k == 1 ==> den == 1024,
            k == 2 ==> den == 0x10_0000,
            k == 3 ==> den == 0x4000_0000,
            k == 4 ==> den == 0x100_0000_0000,
            k == 0 ==> left == v,
        decreases most - k,
    {
        left = left / 1024;
        den = den * 1024;
        k += 1;
    }
    let hundredths = round_div(100 * v, den);
    assert(target == k);
    push_two_decimals(out, hundredths);
    out.append(" ");
    match k {
        0 => out.append("B"),
        1 => out.append("KB"),
        2 => out.append("MB"),
        3 => out.append("GB"),
        _ => out.append("TB"),
    }
    assert(out@ =~= start + scaled_text(bytes as nat, most as nat));
}

/// A size as people read it: bytes as they are, larger sizes with two decimals in
/// the largest unit up to terabytes.
pub fn human_readable_size(bytes: u64) -> (r: String)
    ensures
        r@ == size_text(bytes as nat),
{
    let v = float_of(bytes as u128);
    let mut out = String::new();
    if v < 1024 {
        push_decimal(&mut out, bytes);
        out.append(" ");
        out.append("B");
        assert(out@ =~= size_text(bytes as nat));
    } else {
        push_scaled(&mut out, bytes, 4);
        assert(out@ =~= size_text(bytes as nat));
    }
    out
}

/// A size as people read it, with two decimals, in the largest unit up to
/// gigabytes.
pub fn fmt_bytes(bytes: u64) -> (r: String)
    ensures
        r@ == scaled_text(bytes as nat, 3),
{
    let mut out = String::new();
    push_scaled(&mut out, bytes, 3);
    assert(out@ =~= scaled_text(bytes as nat, 3));
    out
}

/// A duration as people read it: seconds, minutes and seconds, or hours and
/// minutes.
pub fn fmt_uptime(s: u64) -> (r: String)
    ensures
        r@ == uptime_text(s as nat),
{
    let mut out = String::new();
    if s < 60 {
        push_decimal(&mut out, s);
        out.append(" 秒");
    } else if s < 3600 {
        push_decimal(&mut out, s / 60);
        out.append(" 分 ");
        push_decimal(&mut out, s % 60);
        out.append(" 秒");
    } else {
        push_decimal(&mut out, s / 3600);
        out.append(" 时 ");
        push_decimal(&mut out, s % 3600 / 60);
        out.append(" 分");
    }
    assert(out@ =~= uptime_text(s as nat));
    out
}

} // verus!
