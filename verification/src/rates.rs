//! Parts of a whole, and parts of a whole in percent.
//!
//! Both are taken as 64-bit floating-point arithmetic would have them: the numbers,
//! their quotient, and a hundred times that are each rounded to 53 significant
//! bits.
use crate::sizes::{
    as_float, float_of, lemma_float_exact, lemma_half, lemma_unit_close, push_two_decimals,
    push_wide, round_div, rounded, two_decimals, unit_for,
};
use crate::text::{decimal, digit};
use vstd::prelude::*;
use vstd::string::*;

verus! {

/// The least of `s`, twice `s`, and so on, so that `s` times `num / den` has 53 bits
/// before the point.
pub open spec fn stretch(num: nat, den: nat, s: nat) -> nat
    decreases 0x20_0000_0000_0000 * den - num * s,
{
    if num == 0 || s == 0 || num * s >= 0x10_0000_0000_0000 * den {
        s
    } else {
        proof {
            assert(num * (2 * s) == 2 * (num * s) && num * s > 0) by (nonlinear_arith)
                requires
                    num > 0,
                    s > 0,
            ;
        }
        stretch(num, den, 2 * s)
    }
}

/// `part` in percent of `whole`, as numerator and denominator; 0 of nothing.
pub open spec fn percentage(part: nat, whole: nat) -> (nat, nat) {
    if whole == 0 {
        (0, 1)
    } else {
        let (m, s) = quotient(as_float(part), as_float(whole));
        (as_float(100 * m), s)
    }
}

/// `num / den`, rounded to 53 significant bits, as numerator and denominator.
pub open spec fn quotient(num: nat, den: nat) -> (nat, nat) {
    let s = stretch(num, den, 1);
    (rounded(num * s, den), s)
}

/// Whether the [`quotient`] of `p` and `q` is at most that of `a` and `b`.
pub open spec fn not_above(p: nat, q: nat, a: nat, b: nat) -> bool {
    quotient(p, q).0 * quotient(a, b).1 <= quotient(a, b).0 * quotient(p, q).1
}

/// What stretching leads to: 53 bits, unless there were more at first.
proof fn lemma_stretch(num: nat, den: nat, s: nat)
    requires
        num > 0,
        den > 0,
        s > 0,
    ensures
        stretch(num, den, s) >= s,
        num * stretch(num, den, s) >= 0x10_0000_0000_0000 * den,
        num * s < 0x10_0000_0000_0000 * den ==> stretch(num, den, s) >= 2 * s && num * stretch(
            num,
            den,
            s,
        ) < 0x20_0000_0000_0000 * den,
    decreases 0x20_0000_0000_0000 * den - num * s,
{
    if num * s < 0x10_0000_0000_0000 * den {
        assert(num * (2 * s) == 2 * (num * s) && num * s > 0) by (nonlinear_arith)
            requires
                num > 0,
                s > 0,
        ;
        lemma_stretch(num, den, 2 * s);
    }
}

/// Two stretches are the same, or one is at least twice the other; the greater
/// quotient needs no more.
proof fn lemma_stretches(a: nat, b: nat, c: nat, d: nat, s: nat)
    requires
        a > 0,
        b > 0,
        c > 0,
        d > 0,
        s > 0,
    ensures
        stretch(a, b, s) == stretch(c, d, s) || 2 * stretch(a, b, s) <= stretch(c, d, s) || 2
            * stretch(c, d, s) <= stretch(a, b, s),
        2 * stretch(a, b, s) <= stretch(c, d, s) ==> 2 * stretch(a, b, s) == stretch(c, d, s) || 4
            * stretch(a, b, s) <= stretch(c, d, s),
        a * d <= c * b ==> stretch(c, d, s) <= stretch(a, b, s),
    decreases 0x20_0000_0000_0000 * b - a * s,
{
    lemma_stretch(a, b, s);
    lemma_stretch(c, d, s);
    if a * s >= 0x10_0000_0000_0000 * b {
        lemma_stretch(c, d, 2 * s);
        if a * d <= c * b {
            assert(c * s >= 0x10_0000_0000_0000 * d) by (nonlinear_arith)
                requires
                    a * s >= 0x10_0000_0000_0000 * b,
                    a * d <= c * b,
                    b > 0,
            ;
        }
    } else if c * s < 0x10_0000_0000_0000 * d {
        assert(a * (2 * s) == 2 * (a * s) && a * s > 0) by (nonlinear_arith)
            requires
                a > 0,
                s > 0,
        ;
        assert(c * (2 * s) == 2 * (c * s) && c * s > 0) by (nonlinear_arith)
            requires
                c > 0,
                s > 0,
        ;
        lemma_stretches(a, b, c, d, 2 * s);
    }
}

/// A greater fraction is not rounded to less.
proof fn lemma_rounded_order(n: nat, d: nat, m: nat, e: nat)
    requires
        d > 0,
        e > 0,
        n * e <= m * d,
    ensures
        rounded(n, d) <= rounded(m, e),
{
    let q1 = n / d;
    let r1 = n % d;
    let q2 = m / e;
    let r2 = m % e;
    vstd::arithmetic::div_mod::lemma_fundamental_div_mod(n as int, d as int);
    vstd::arithmetic::div_mod::lemma_fundamental_div_mod(m as int, e as int);
    assert(q1 <= q2) by (nonlinear_arith)
        requires
            n * e <= m * d,
            n == d * q1 + r1,
            m == e * q2 + r2,
            0 <= r1,
            r2 < e,
            d > 0,
            e > 0,
    ;
    if q1 == q2 {
        assert(r1 * e <= r2 * d) by (nonlinear_arith)
            requires
                n * e <= m * d,
                n == d * q1 + r1,
                m == e * q1 + r2,
        ;
        if 2 * r1 > d {
            assert(2 * r2 > e) by (nonlinear_arith)
                requires
                    2 * r1 > d,
                    r1 * e <= r2 * d,
                    d > 0,
                    e > 0,
            ;
        }
        if 2 * r1 == d {
            assert(2 * r2 >= e) by (nonlinear_arith)
                requires
                    2 * r1 == d,
                    r1 * e <= r2 * d,
                    d > 0,
                    e > 0,
            ;
        }
    }
}

/// What is at least a whole number is not rounded below it.
proof fn lemma_rounded_least(n: nat, d: nat, low: nat)
    requires
        d > 0,
        low * d <= n,
    ensures
        low <= rounded(n, d),
{
    assert((low * d) * d <= n * d) by (nonlinear_arith)
        requires
            low * d <= n,
    ;
    lemma_rounded_order(low * d, d, n, d);
    lemma_rounded_whole(low, d);
}

/// What is at most a whole number is not rounded above it.
proof fn lemma_rounded_most(n: nat, d: nat, high: nat)
    requires
        d > 0,
        n <= high * d,
    ensures
        rounded(n, d) <= high,
{
    assert(n * d <= (high * d) * d) by (nonlinear_arith)
        requires
            n <= high * d,
    ;
    lemma_rounded_order(n, d, high * d, d);
    lemma_rounded_whole(high, d);
}

proof fn lemma_rounded_whole(k: nat, d: nat)
    requires
        d > 0,
    ensures
        rounded(k * d, d) == k,
{
    vstd::arithmetic::div_mod::lemma_div_multiples_vanish(k as int, d as int);
    vstd::arithmetic::div_mod::lemma_mod_multiples_basic(k as int, d as int);
    assert(k * d == d * k) by (nonlinear_arith);
}

/// Of two fractions the greater one has no smaller [`quotient`].
pub proof fn law_quotient_order(a: nat, b: nat, c: nat, d: nat)
    requires
        a > 0,
        b > 0,
        c > 0,
        d > 0,
        a * d <= c * b,
    ensures
        not_above(a, b, c, d),
{
    let x = stretch(a, b, 1);
    let y = stretch(c, d, 1);
    lemma_stretch(a, b, 1);
    lemma_stretch(c, d, 1);
    lemma_stretches(a, b, c, d, 1);
    let m = rounded(a * x, b);
    let n = rounded(c * y, d);
    if x == y {
        assert((a * x) * d <= (c * y) * b) by (nonlinear_arith)
            requires
                x == y,
                a * d <= c * b,
        ;
        lemma_rounded_order(a * x, b, c * y, d);
        assert(m * y <= n * x) by (nonlinear_arith)
            requires
                m <= n,
                x == y,
        ;
    } else {
        assert(a * 1 < 0x10_0000_0000_0000 * b) by {
            if a * 1 >= 0x10_0000_0000_0000 * b {
                assert(x == 1);
            }
        }
        lemma_rounded_most(a * x, b, 0x20_0000_0000_0000);
        lemma_rounded_least(c * y, d, 0x10_0000_0000_0000);
        assert(m * y <= n * x) by (nonlinear_arith)
            requires
                m <= 0x20_0000_0000_0000,
                n >= 0x10_0000_0000_0000,
                2 * y <= x,
        ;
    }
}

/// What is not above a fraction is not above a greater one.
pub proof fn law_not_above_order(p: nat, q: nat, a: nat, b: nat, c: nat, d: nat)
    requires
        a > 0,
        b > 0,
        c > 0,
        d > 0,
        a * d <= c * b,
        not_above(p, q, a, b),
    ensures
        not_above(p, q, c, d),
{
    law_quotient_order(a, b, c, d);
    lemma_stretch(a, b, 1);
    let (m1, s1) = quotient(p, q);
    let (m2, s2) = quotient(a, b);
    let (m3, s3) = quotient(c, d);
    assert((m1 * s3) * s2 <= (m3 * s1) * s2) by (nonlinear_arith)
        requires
            m1 * s2 <= m2 * s1,
            m2 * s3 <= m3 * s2,
    ;
    assert(m1 * s3 <= m3 * s1) by (nonlinear_arith)
        requires
            (m1 * s3) * s2 <= (m3 * s1) * s2,
            s2 > 0,
    ;
}

/// A fraction that is greater by one part in 2 to the 51 has a greater [`quotient`].
pub proof fn law_quotient_apart(p: nat, q: nat, a: nat, b: nat)
    requires
        0 < p <= q,
        0 < a <= b,
        (p * b - a * q) * 0x8_0000_0000_0000 >= a * q,
    ensures
        !not_above(p, q, a, b),
{
    let x = stretch(p, q, 1);
    let y = stretch(a, b, 1);
    lemma_stretch(p, q, 1);
    lemma_stretch(a, b, 1);
    assert(a * q > 0) by (nonlinear_arith)
        requires
            a > 0,
            q > 0,
    ;
    assert(a * q <= p * b);
    lemma_stretches(a, b, p, q, 1);
    lemma_stretches(p, q, a, b, 1);
    let m = rounded(p * x, q);
    let n = rounded(a * y, b);
    if x == y {
        assert(p * x * b >= a * x * q + 2 * b * q) by (nonlinear_arith)
            requires
                (p * b - a * q) * 0x8_0000_0000_0000 >= a * q,
                a * x >= 0x10_0000_0000_0000 * b,
                q > 0,
        ;
        assert((p * x) * b >= (a * y + 2 * b) * q) by (nonlinear_arith)
            requires
                p * x * b >= a * x * q + 2 * b * q,
                x == y,
        ;
        lemma_floor_order((a * y + 2 * b) as nat, b, p * x, q);
        vstd::arithmetic::div_mod::lemma_hoist_over_denominator((a * y) as int, 2, b);
        assert(2 * b == b * 2) by (nonlinear_arith);
        assert((a * y + 2 * b) as int / (b as int) == (a * y) as int / (b as int) + 2);
        assert(m > n);
        assert(m * y > n * x) by (nonlinear_arith)
            requires
                m > n,
                x == y,
                x > 0,
        ;
    } else {
        assert(2 * x <= y);
        lemma_rounded_least(p * x, q, 0x10_0000_0000_0000);
        lemma_rounded_most(a * y, b, 0x20_0000_0000_0000);
        if y == 2 * x && n == 0x20_0000_0000_0000 {
            let r = (a * y) % b;
            let f = (a * y) / b;
            vstd::arithmetic::div_mod::lemma_fundamental_div_mod((a * y) as int, b as int);
            assert(f >= 0x1f_ffff_ffff_ffff);
            assert(a * y >= 0x1f_ffff_ffff_ffff * b) by (nonlinear_arith)
                requires
                    a * y == b * f + r,
                    f >= 0x1f_ffff_ffff_ffff,
                    r >= 0,
            ;
            assert(p * x >= 0x10_0000_0000_0001 * q) by {
                lemma_step_up(p as int, q as int, a as int, b as int, x as int, y as int);
            }
            lemma_rounded_least(p * x, q, 0x10_0000_0000_0001);
        }
        assert(m * y > n * x) by (nonlinear_arith)
            requires
                m >= 0x10_0000_0000_0000,
                n <= 0x20_0000_0000_0000,
                2 * x <= y,
                x > 0,
                y == 2 * x && n == 0x20_0000_0000_0000 ==> m >= 0x10_0000_0000_0001,
        ;
    }
}

proof fn lemma_step_up(p: int, q: int, a: int, b: int, x: int, y: int)
    requires
        q > 0,
        b > 0,
        x > 0,
        p > 0,
        a > 0,
        y == 2 * x,
        a * y >= 0x1f_ffff_ffff_ffff * b,
        (p * b - a * q) * 0x8_0000_0000_0000 >= a * q,
    ensures
        p * x >= 0x10_0000_0000_0001 * q,
{
    let k = 0x8_0000_0000_0000int;
    let u = p * x;
    let v = a * x;
    assert(2 * v >= 0x1f_ffff_ffff_ffff * b) by (nonlinear_arith)
        requires
            v == a * x,
            y == 2 * x,
            a * y >= 0x1f_ffff_ffff_ffff * b,
    ;
    assert(k * (u * b) >= (k + 1) * (v * q)) by (nonlinear_arith)
        requires
            u == p * x,
            v == a * x,
            (p * b - a * q) * k >= a * q,
            x > 0,
    ;
    assert(2 * (v * q) >= 0x1f_ffff_ffff_ffff * (b * q)) by (nonlinear_arith)
        requires
            2 * v >= 0x1f_ffff_ffff_ffff * b,
            q > 0,
    ;
    assert(b * q >= 0) by (nonlinear_arith)
        requires
            b > 0,
            q > 0,
    ;
    let ub = u * b;
    let vq = v * q;
    let bq = b * q;
    assert(0x8_0000_0000_0000 * ub >= 0x8_0000_0000_0001 * vq);
    assert(2 * vq >= 0x1f_ffff_ffff_ffff * bq);
    assert(ub >= 0x10_0000_0000_0001 * bq);
    assert(u >= 0x10_0000_0000_0001 * q) by (nonlinear_arith)
        requires
            u * b >= 0x10_0000_0000_0001 * (b * q),
            b > 0,
    ;
}

/// A greater fraction has no smaller whole part.
proof fn lemma_floor_order(n: nat, d: nat, m: nat, e: nat)
    requires
        d > 0,
        e > 0,
        n * e <= m * d,
    ensures
        n / d <= m / e,
{
    let q1 = n / d;
    let r1 = n % d;
    let q2 = m / e;
    let r2 = m % e;
    vstd::arithmetic::div_mod::lemma_fundamental_div_mod(n as int, d as int);
    vstd::arithmetic::div_mod::lemma_fundamental_div_mod(m as int, e as int);
    assert(q1 <= q2) by (nonlinear_arith)
        requires
            n * e <= m * d,
            n == d * q1 + r1,
            m == e * q2 + r2,
            0 <= r1,
            r2 < e,
            d > 0,
            e > 0,
    ;
}

/// Nothing is not above anything.
pub proof fn lemma_zero_not_above(q: nat, a: nat, b: nat)
    requires
        q > 0,
    ensures
        not_above(0, q, a, b),
{
    assert(0nat * 1nat == 0nat);
    lemma_rounded_whole(0, q);
    assert(0nat * q == 0) by (nonlinear_arith);
    let s = stretch(a, b, 1);
    let m = quotient(a, b).0;
    assert(0nat * s <= m * 1nat) by (nonlinear_arith);
}

/// At least one part in `u32::MAX` has a [`share`].
pub proof fn lemma_part_stretch(p: nat, q: nat)
    requires
        0 < p <= q <= u32::MAX,
    ensures
        stretch(p, q, 1) < SHARE_STRETCH,
{
    let x = stretch(p, q, 1);
    lemma_stretch(p, q, 1);
    assert(x < 0x20_0000_0000_0000_0000_0000) by (nonlinear_arith)
        requires
            p * x < 0x20_0000_0000_0000 * q,
            p >= 1,
            q <= 0xffff_ffff,
    ;
}

/// The [`quotient`] of `num` and `den`; nothing where it is so small that its
/// denominator is above [`SHARE_STRETCH`].
pub fn share(num: u128, den: u128) -> (r: Option<(u128, u128)>)
    requires
        0 < num <= 0x100_0000_0000_0000_0000_0000_0000_0000,
        0 < den <= 0x100_0000_0000_0000_0000_0000_0000_0000,
    ensures
        is_share(r, num as nat, den as nat),
{
    let mut q: u128 = num / den;
    let mut rem: u128 = num % den;
    let mut s: u128 = 1;
    proof {
        vstd::arithmetic::div_mod::lemma_fundamental_div_mod(num as int, den as int);
        assert(q <= num) by {
            vstd::arithmetic::div_mod::lemma_div_is_ordered_by_denominator(
                num as int,
                1,
                den as int,
            );
        }
        assert(den * q == q * den) by (nonlinear_arith);
    }
    while q < 0x10_0000_0000_0000 && s <= SHARE_STRETCH / 2
        invariant
            0 < num,
            0 < den <= 0x100_0000_0000_0000_0000_0000_0000_0000,
            q <= 0x100_0000_0000_0000_0000_0000_0000_0000,
            num * s == q * den + rem,
            rem < den,
            1 <= s <= SHARE_STRETCH,
            stretch(num as nat, den as nat, 1) == stretch(num as nat, den as nat, s as nat),
        decreases SHARE_STRETCH - s,
    {
        proof {
            assert(num * s < 0x10_0000_0000_0000 * den) by (nonlinear_arith)
                requires
                    num * s == q * den + rem,
                    rem < den,
                    q < 0x10_0000_0000_0000,
            ;
            assert(num * (2 * s) == (2 * q) * den + 2 * rem) by (nonlinear_arith)
                requires
                    num * s == q * den + rem,
            ;
            assert((2 * q) * den + den == (2 * q + 1) * den) by (nonlinear_arith);
        }
        rem = 2 * rem;
        q = 2 * q;
        if rem >= den {
            rem = rem - den;
            q = q + 1;
        }
        s = 2 * s;
    }
    proof {
        lemma_stretch(num as nat, den as nat, s as nat);
        assert(num * s >= 0x10_0000_0000_0000 * den <==> q >= 0x10_0000_0000_0000) by (nonlinear_arith)
            requires
                num * s == q * den + rem,
                0 <= rem < den,
        ;
        vstd::arithmetic::div_mod::lemma_fundamental_div_mod_converse(
            num * s,
            den as int,
            q as int,
            rem as int,
        );
    }
    if q < 0x10_0000_0000_0000 {
        return None;
    }
    if 2 * rem > den || (2 * rem == den && q % 2 == 1) {
        Some((q + 1, s))
    } else {
        Some((q, s))
    }
}

/// The greatest denominator of a [`share`]: 2 to the 87.
pub const SHARE_STRETCH: u128 = 0x80_0000_0000_0000_0000_0000;

/// What [`share`] returns.
pub open spec fn is_share(r: Option<(u128, u128)>, num: nat, den: nat) -> bool {
    match r {
        Some((m, s)) => (m as nat, s as nat) == quotient(num, den) && s <= SHARE_STRETCH,
        None => stretch(num, den, 1) > SHARE_STRETCH,
    }
}

/// Whether the quotient `a` of `p` and `q`, which is at least one part in
/// `u32::MAX`, is at most the share `b` of `num` and `den`.
pub(crate) fn is_not_above(
    a: (u128, u128),
    b: &Option<(u128, u128)>,
    p: Ghost<nat>,
    q: Ghost<nat>,
    num: Ghost<nat>,
    den: Ghost<nat>,
) -> (r: bool)
    requires
        0 < p@ <= q@ <= u32::MAX,
        num@ > 0,
        den@ > 0,
        (a.0 as nat, a.1 as nat) == quotient(p@, q@),
        is_share(*b, num@, den@),
    ensures
        r == not_above(p@, q@, num@, den@),
{
    proof {
        let x = stretch(p@, q@, 1);
        let y = stretch(num@, den@, 1);
        lemma_stretch(p@, q@, 1);
        lemma_stretch(num@, den@, 1);
        lemma_stretches(p@, q@, num@, den@, 1);
        lemma_rounded_least(p@ * x, q@, 0x10_0000_0000_0000);
        lemma_rounded_most(p@ * x, q@, 0x20_0000_0000_0000);
        let m = quotient(p@, q@).0;
        let n = quotient(num@, den@).0;
        lemma_rounded_least(num@ * y, den@, 0x10_0000_0000_0000);
        assert(x < 0x20_0000_0000_0000_0000_0000) by (nonlinear_arith)
            requires
                p@ * x < 0x20_0000_0000_0000 * q@,
                p@ >= 1,
                q@ <= 0xffff_ffff,
        ;
        if y > 1 {
            lemma_rounded_most(num@ * y, den@, 0x20_0000_0000_0000);
        }
        if 2 * y <= x {
            assert(m * y <= n * x) by (nonlinear_arith)
                requires
                    m <= 0x20_0000_0000_0000,
                    n >= 0x10_0000_0000_0000,
                    2 * y <= x,
            ;
        } else if x == y {
            assert(m * y <= n * x <==> m <= n) by (nonlinear_arith)
                requires
                    x == y,
                    x > 0,
            ;
        } else if y == 2 * x {
            assert(m * y <= n * x <==> 2 * m <= n) by (nonlinear_arith)
                requires
                    y == 2 * x,
                    x > 0,
            ;
        } else {
            assert(4 * x <= y);
            assert(m * y > n * x) by (nonlinear_arith)
                requires
                    m >= 0x10_0000_0000_0000,
                    n <= 0x20_0000_0000_0000,
                    4 * x <= y,
                    x > 0,
            ;
        }
    }
    match b {
        None => false,
        Some((n, y)) => if *y < a.1 {
            true
        } else if *y == a.1 {
            a.0 <= *n
        } else if *y / 2 == a.1 {
            2 * a.0 <= *n
        } else {
            false
        },
    }
}

/// A number of tenths, with one decimal.
pub open spec fn one_decimal(tenths: nat) -> Seq<char> {
    decimal(tenths / 10) + seq!['.', digit(tenths % 10)]
}

/// `part` in percent of `whole`, with one decimal.
pub open spec fn percent_text(part: nat, whole: nat) -> Seq<char> {
    let (n, d) = percentage(part, whole);
    one_decimal(rounded(10 * n, d))
}

/// `part` in percent of `whole`, with two decimals.
pub open spec fn exact_percent_text(part: nat, whole: nat) -> Seq<char> {
    let (n, d) = percentage(part, whole);
    two_decimals(rounded(100 * n, d))
}

/// A number that is not 0 is not held as 0.
pub proof fn lemma_float_positive(n: nat)
    requires
        n > 0,
    ensures
        as_float(n) > 0,
{
    lemma_unit(n, 1);
    let unit = unit_for(n, 1);
    assert(rounded(n, unit) >= 1) by {
        assert(n / unit >= 1) by {
            vstd::arithmetic::div_mod::lemma_div_non_zero(n as int, unit as int);
        }
    }
    assert(rounded(n, unit) * unit > 0) by (nonlinear_arith)
        requires
            rounded(n, unit) >= 1,
            unit >= 1,
    ;
}

proof fn lemma_unit(n: nat, unit: nat)
    requires
        1 <= unit <= n,
    ensures
        1 <= unit_for(n, unit) <= n,
    decreases n / unit,
{
    if n / unit >= 0x20_0000_0000_0000 {
        lemma_half(n, unit);
        vstd::arithmetic::div_mod::lemma_fundamental_div_mod(n as int, unit as int);
        let q = n / unit;
        assert(2 * unit <= n) by (nonlinear_arith)
            requires
                n == unit * q + n as int % unit as int,
                n as int % unit as int >= 0,
                q >= 2,
                unit >= 1,
        ;
        lemma_unit(n, 2 * unit);
    }
}

/// `part` in percent of `whole`, as numerator and denominator.
fn percent(part: u64, whole: u128) -> (r: (u128, u128))
    requires
        whole <= 0x2_0000_0000_0000_0000,
    ensures
        (r.0 as nat, r.1 as nat) == percentage(part as nat, whole as nat),
        r.0 <= 0x1_0000_0000_0000_0000_0000,
        0 < r.1 <= 0x4000_0000_0000_0000_0000_0000_0000_0000,
{
    if whole == 0 {
        return (0, 1);
    }
    proof {
        lemma_float_positive(whole as nat);
    }
    let p = float_of(part as u128);
    let w = float_of(whole);
    let mut num: u128 = p;
    let mut s: u128 = 1;
    while num > 0 && num < 0x10_0000_0000_0000 * w
        invariant
            0 < w <= 0x4_0000_0000_0000_0000,
            num == p * s,
            s >= 1,
            p > 0 ==> s <= num,
            p == 0 ==> s == 1,
            s == 1 ==> num <= 0x2_0000_0000_0000_0000,
            s > 1 ==> num < 0x20_0000_0000_0000 * w,
            stretch(p as nat, w as nat, 1) == stretch(p as nat, w as nat, s as nat),
        decreases 0x20_0000_0000_0000 * w - num,
    {
        assert(2 * num == p * (2 * s) && p > 0) by (nonlinear_arith)
            requires
                num == p * s,
                num > 0,
        ;
        num = 2 * num;
        s = 2 * s;
    }
    let m = round_div(num, w);
    proof {
        assert(num / w <= 0x2_0000_0000_0000_0000) by {
            vstd::arithmetic::div_mod::lemma_fundamental_div_mod(num as int, w as int);
            let q = num as int / w as int;
            assert(q <= 0x2_0000_0000_0000_0000) by (nonlinear_arith)
                requires
                    num == w * q + num as int % w as int,
                    num as int % w as int >= 0,
                    num <= 0x2_0000_0000_0000_0000 || num < 0x20_0000_0000_0000 * w,
                    w > 0,
            ;
        }
    }
    (float_of(100 * m), s)
}

/// `part` in percent of `whole`, with one decimal; 0 of nothing.
pub fn show_percent(part: u64, whole: u128) -> (r: String)
    requires
        whole <= 0x2_0000_0000_0000_0000,
    ensures
        r@ == percent_text(part as nat, whole as nat),
{
    let (n, d) = percent(part, whole);
    let tenths = round_div(10 * n, d);
    let mut out = String::new();
    push_wide(&mut out, tenths / 10);
    out.push('.');
    out.push((48u8 + (tenths % 10) as u8) as char);
    assert(out@ =~= one_decimal(tenths as nat));
    out
}

/// `part` in percent of `whole`, with two decimals; 0 of nothing.
pub fn show_exact_percent(part: u64, whole: u128) -> (r: String)
    requires
        whole <= 0x2_0000_0000_0000_0000,
    ensures
        r@ == exact_percent_text(part as nat, whole as nat),
{
    let (n, d) = percent(part, whole);
    let mut out = String::new();
    push_two_decimals(&mut out, round_div(100 * n, d));
    assert(out@ =~= two_decimals(rounded((100 * n) as nat, d as nat)));
    out
}

/// Rounding is off by at most half.
proof fn lemma_rounded_near(num: nat, den: nat)
    requires
        den > 0,
    ensures
        -(den as int) <= 2 * (rounded(num, den) * den - num) <= den as int,
{
    vstd::arithmetic::div_mod::lemma_fundamental_div_mod(num as int, den as int);
    let q = num / den;
    assert((q + 1) * den == den * q + den) by (nonlinear_arith);
    assert(q * den == den * q) by (nonlinear_arith);
}

/// A hundred times a number of 53 bits is held with an error below 200.
proof fn lemma_hundred_near(m: nat)
    requires
        m <= 0x20_0000_0000_0000,
    ensures
        -200 <= as_float(100 * m) - 100 * m <= 200,
{
    let n = 100 * m;
    lemma_unit_close(n, 1);
    let unit = unit_for(n, 1);
    assert(unit <= 200) by (nonlinear_arith)
        requires
            unit == 1 || unit * 0x10_0000_0000_0000 <= n,
            n <= 100 * 0x20_0000_0000_0000,
    ;
    lemma_rounded_near(n, unit);
}

/// How far a percentage is off: `n / d` and `100 * part / whole` differ by little.
proof fn lemma_percentage(part: nat, whole: nat)
    requires
        0 < part <= whole,
        whole < 0x20_0000_0000_0000,
    ensures
        percentage(part, whole).1 >= 0x10_0000_0000_0000,
        -250 * whole <= percentage(part, whole).0 * whole - 100 * part * percentage(part, whole).1
            <= 250 * whole,
{
    lemma_float_exact(part);
    lemma_float_exact(whole);
    lemma_stretch(part, whole, 1);
    let (m, s) = quotient(part, whole);
    lemma_rounded_near(part * s, whole);
    lemma_rounded_most(part * s, whole, 0x20_0000_0000_0000);
    lemma_hundred_near(m);
    let n = as_float(100 * m);
    assert(s >= 0x10_0000_0000_0000) by (nonlinear_arith)
        requires
            part * s >= 0x10_0000_0000_0000 * whole,
            part <= whole,
            whole > 0,
    ;
    let e = n - 100 * m;
    let f = m * whole - part * s;
    assert(n * whole - 100 * part * s == e * whole + 100 * f) by (nonlinear_arith)
        requires
            e == n - 100 * m,
            f == m * whole - part * s,
    ;
    assert(-200 * whole <= e * whole <= 200 * whole) by (nonlinear_arith)
        requires
            -200 <= e <= 200,
            whole > 0,
    ;
}

proof fn lemma_percent_near(part: nat, whole: nat, scale: nat, h: nat)
    requires
        0 < part <= whole,
        whole < 0x20_0000_0000_0000,
        scale <= 100,
        h == rounded(scale * percentage(part, whole).0, percentage(part, whole).1),
    ensures
        -(whole as int) < h * whole - scale * 100 * part < whole as int,
{
    let (n, d) = percentage(part, whole);
    lemma_percentage(part, whole);
    lemma_rounded_near(scale * n, d);
    let a = h * d - scale * n;
    let b = n * whole - 100 * part * d;
    let k = scale as int;
    let x = h * whole - k * 100 * part;
    assert(x * d == a * whole + k * b) by (nonlinear_arith)
        requires
            x == h * whole - k * 100 * part,
            a == h * d - k * n,
            b == n * whole - 100 * part * d,
    ;
    assert(-(d * whole) <= 2 * (a * whole) <= d * whole) by (nonlinear_arith)
        requires
            -(d as int) <= 2 * a <= d as int,
            whole > 0,
    ;
    assert(-25000 * whole <= k * b <= 25000 * whole) by (nonlinear_arith)
        requires
            0 <= k <= 100,
            -250 * whole <= b <= 250 * whole,
    ;
    assert(d * whole >= 0x10_0000_0000_0000 * whole) by (nonlinear_arith)
        requires
            d >= 0x10_0000_0000_0000,
            whole > 0,
    ;
    assert(-(d * whole) < x * d < d * whole);
    assert(-(whole as int) < x < whole as int) by (nonlinear_arith)
        requires
            -(d * whole) < x * d < d * whole,
            d > 0,
    ;
}

/// A share is shown in percent, with one decimal or with two, and off by less than one in
/// the last of them.
pub proof fn law_percent(part: nat, whole: nat)
    requires
        part <= whole,
        0 < whole < 0x20_0000_0000_0000,
    ensures
        exists|h: nat|
            {
                &&& -(whole as int) < h * whole - 1000 * part < whole as int
                &&& percent_text(part, whole) == #[trigger] decimal(h / 10) + seq![
                    '.',
                    digit(h % 10),
                ]
            },
        exists|h: nat|
            {
                &&& -(whole as int) < h * whole - 10000 * part < whole as int
                &&& exact_percent_text(part, whole) == #[trigger] decimal(h / 100) + seq![
                    '.',
                    digit(h / 10 % 10),
                    digit(h % 10),
                ]
            },
{
    let (n, d) = percentage(part, whole);
    let t = rounded(10 * n, d);
    let h = rounded(100 * n, d);
    if part > 0 {
        lemma_percent_near(part, whole, 10, t);
        lemma_percent_near(part, whole, 100, h);
    } else {
        lemma_float_exact(0);
        lemma_float_exact(whole);
        assert(0nat * 1 == 0);
        lemma_rounded_near(0, whole);
        assert(0nat / whole == 0 && 0nat % whole == 0);
        assert(percentage(0, whole) == (0nat, 1nat));
        assert(0 * whole == 0);
    }
    assert(percent_text(part, whole) == decimal(t / 10) + seq!['.', digit(t % 10)]);
    assert(exact_percent_text(part, whole) == decimal(h / 100) + seq![
        '.',
        digit(h / 10 % 10),
        digit(h % 10),
    ]);
}

/// Nothing of nothing is shown as zero.
pub proof fn law_percent_none(part: nat)
    ensures
        percent_text(part, 0) == decimal(0) + seq!['.', digit(0)],
        exact_percent_text(part, 0) == decimal(0) + seq!['.', digit(0), digit(0)],
{
}

} // verus!
