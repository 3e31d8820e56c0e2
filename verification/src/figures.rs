//! Rounded figures: what `format!("{:.1}", n as f64 / 1e6)` and its like show, in integers.
//!
//! A count is taken to the nearest double, divided to the nearest double, and shown to the
//! nearest figure of so many decimal places; each time a tie goes to the even neighbour.

use vstd::arithmetic::power2::{lemma_pow2, lemma_pow2_unfold, pow2};
use vstd::prelude::*;

use crate::text::{decimal, decimal_of, digit, digit_char};

verus! {

/// Integers below this are doubles.
pub const TWO_53: u64 = 0x20_0000_0000_0000;

/// Doubles have this many or more units in their last place.
pub const TWO_52: u64 = 0x10_0000_0000_0000;

/// The integer nearest to `num / den`; the even one of two that are equally near.
pub open spec fn nearest(num: nat, den: nat) -> nat {
    let floor = num / den;
    let rest = num % den;
    if 2 * rest < den || (2 * rest == den && floor % 2 == 0) {
        floor
    } else {
        floor + 1
    }
}

/// How often `n` must be halved to lie below 2^53.
pub open spec fn excess(n: nat) -> nat
    decreases n,
{
    if n < TWO_53 {
        0
    } else {
        1 + excess(n / 2)
    }
}

/// The double nearest to `n`.
pub open spec fn double(n: nat) -> nat {
    nearest(n, pow2(excess(n))) * pow2(excess(n))
}

/// How often `n` must be doubled to reach `floor`.
pub open spec fn scaling(n: nat, floor: nat) -> nat
    decreases
            (if n >= floor {
                0
            } else {
                floor - n
            }),
{
    if n == 0 || n >= floor {
        0
    } else {
        1 + scaling(2 * n, floor)
    }
}

/// The double nearest to `n / unit` has this significand, to be divided by
/// `pow2(scaling(n, 2^52 * unit))`.
pub open spec fn quotient(n: nat, unit: nat) -> nat {
    nearest(n * pow2(scaling(n, TWO_52 as nat * unit)), unit)
}

/// The count `n` in units of `unit`, to the nearest `1 / parts`, as a number of such parts.
pub open spec fn rounded(n: nat, unit: nat, parts: nat) -> nat {
    let f = double(n);
    nearest(quotient(f, unit) * parts, pow2(scaling(f, TWO_52 as nat * unit)))
}

/// A number of hundredths, tenths or ones in decimal notation, with two, one or no decimal
/// place.
pub open spec fn with_places(x: nat, places: nat) -> Seq<char> {
    if places == 0 {
        decimal(x)
    } else if places == 1 {
        decimal(x / 10).push('.').push(digit_char((x % 10) as int))
    } else {
        decimal(x / 100).push('.').push(digit_char((x / 10 % 10) as int)).push(
            digit_char((x % 10) as int),
        )
    }
}

/// How many parts so many decimal places divide one into.
pub open spec fn parts_of(places: nat) -> nat {
    if places == 0 {
        1
    } else if places == 1 {
        10
    } else {
        100
    }
}

/// The count `n` in units of `unit`, shown with so many decimal places.
pub open spec fn figure(n: nat, unit: nat, places: nat) -> Seq<char> {
    with_places(rounded(n, unit, parts_of(places)), places)
}

fn nearest_of(num: u128, den: u128) -> (r: u128)
    requires
        0 < den < 0x1_0000_0000_0000_0000_0000_0000_0000,
        num < 0x1_0000_0000_0000_0000_0000_0000_0000,
    ensures
        r == nearest(num as nat, den as nat),
{
    let floor: u128 = num / den;
    let rest: u128 = num % den;
    if 2 * rest < den || (2 * rest == den && floor % 2 == 0) {
        floor
    } else {
        floor + 1
    }
}

proof fn lemma_nearest_bounds(num: nat, den: nat)
    requires
        den > 0,
    ensures
        num / den <= nearest(num, den) <= num / den + 1,
        nearest(num, den) * den <= num + den,
        num % den == 0 ==> nearest(num, den) * den == num,
{
    let floor = num / den;
    let rest = num % den;
    assert(num == floor * den + rest && 0 <= rest < den) by (nonlinear_arith)
        requires
            den > 0,
            floor == num / den,
            rest == num % den,
    ;
    assert((floor + 1) * den == floor * den + den) by (nonlinear_arith);
}

/// The double nearest to a count.
fn double_of(n: u64) -> (r: u128)
    ensures
        r == double(n as nat),
        r < 0x2_0000_0000_0000_0000,
        r >= 1 || n == 0,
        n < TWO_53 ==> r == n,
{
    let mut m: u64 = n;
    let mut p: u128 = 1;
    let ghost mut j: nat = 0;
    proof {
        lemma_pow2(0);
        vstd::arithmetic::power::lemma_pow0(2);
    }
    while m >= TWO_53
        invariant
            p == pow2(j),
            excess(n as nat) == j + excess(m as nat),
            m * p <= n,
            1 <= p,
            p == 1 || TWO_52 <= m,
            p == 1 ==> j == 0 && m == n,
        decreases m,
    {
        let ghost half = m / 2;
        proof {
            lemma_pow2_unfold((j + 1) as nat);
            assert(half * (2 * p) <= m * p) by (nonlinear_arith)
                requires
                    2 * half <= m,
                    p >= 0,
            ;
            assert(p <= n) by (nonlinear_arith)
                requires
                    m * p <= n,
                    m >= 1,
                    p >= 1,
            ;
            j = j + 1;
        }
        m = m / 2;
        p = p * 2;
    }
    proof {
        assert(p <= 0x1000) by {
            if p != 1 {
                assert(p <= 0x1000) by (nonlinear_arith)
                    requires
                        m * p <= n,
                        m >= 0x10_0000_0000_0000,
                        n < 0x1_0000_0000_0000_0000,
                ;
            }
        }
        lemma_nearest_bounds(n as nat, p as nat);
    }
    let q: u128 = nearest_of(n as u128, p);
    proof {
        if n > 0 {
            assert(m >= 1);
            assert(n as nat / p as nat >= 1) by (nonlinear_arith)
                requires
                    n >= m * p,
                    m >= 1,
                    p >= 1,
            ;
            assert(q * p >= 1) by (nonlinear_arith)
                requires
                    q >= 1,
                    p >= 1,
            ;
        }
    }
    q * p
}

/// The count `n` in units of `unit`, to the nearest `1 / parts`.
fn rounded_of(n: u64, unit: u64, parts: u64) -> (r: u128)
    requires
        n > 0,
        1_000 <= unit <= 1_000_000,
        n < TWO_53 || unit == 1_000_000,
        1 <= parts <= 100,
    ensures
        r == rounded(n as nat, unit as nat, parts as nat),
        r < 0x8000_0000_0000_0000,
{
    let f: u128 = double_of(n);
    let floor: u128 = TWO_52 as u128 * unit as u128;
    let mut s: u128 = f;
    let mut p: u128 = 1;
    let ghost mut k: nat = 0;
    proof {
        lemma_pow2(0);
        vstd::arithmetic::power::lemma_pow0(2);
        assert(f < floor);
    }
    while s < floor
        invariant
            f >= 1,
            floor == TWO_52 * unit,
            1_000 <= unit <= 1_000_000,
            p == pow2(k),
            s == f * p,
            1 <= p <= s,
            s < 2 * floor,
            scaling(f as nat, floor as nat) == k + scaling(s as nat, floor as nat),
        decreases
                (if s >= floor {
                    0
                } else {
                    floor - s
                }),
    {
        proof {
            lemma_pow2_unfold((k + 1) as nat);
            assert(f * (2 * p) == 2 * (f * p)) by (nonlinear_arith);
            k = k + 1;
        }
        s = s * 2;
        p = p * 2;
    }
    let m: u128 = nearest_of(s, unit as u128);
    proof {
        lemma_nearest_bounds(s as nat, unit as nat);
        assert(m <= 0x20_0000_0000_0001) by {
            assert(s as nat / unit as nat <= 0x20_0000_0000_0000) by (nonlinear_arith)
                requires
                    s < 2 * (0x10_0000_0000_0000 * unit),
                    unit > 0,
            ;
        }
        assert(m * parts <= 0x20_0000_0000_0001 * 100) by (nonlinear_arith)
            requires
                m <= 0x20_0000_0000_0001,
                parts <= 100,
        ;
        lemma_nearest_bounds((m * parts) as nat, p as nat);
        assert((m * parts) as nat / p as nat <= m * parts) by (nonlinear_arith)
            requires
                p >= 1,
        ;
    }
    nearest_of(m * parts as u128, p)
}

/// The count `n` in units of `unit`, shown with so many decimal places.
pub fn figure_of(n: u64, unit: u64, places: u8) -> (r: String)
    requires
        n > 0,
        1_000 <= unit <= 1_000_000,
        n < TWO_53 || unit == 1_000_000,
        places <= 2,
    ensures
        r@ == figure(n as nat, unit as nat, places as nat),
{
    let parts: u64 = if places == 0 {
        1
    } else if places == 1 {
        10
    } else {
        100
    };
    let x: u128 = rounded_of(n, unit, parts);
    if places == 0 {
        decimal_of(x)
    } else if places == 1 {
        let mut s = decimal_of(x / 10);
        s.push('.');
        s.push(digit((x % 10) as u8));
        s
    } else {
        let mut s = decimal_of(x / 100);
        s.push('.');
        s.push(digit((x / 10 % 10) as u8));
        s.push(digit((x % 10) as u8));
        s
    }
}

/// Rounding goes to a nearest integer: off by no more than half, and to the even one of two that
/// are equally near.
pub proof fn rounding_goes_to_the_nearest(num: nat, den: nat)
    requires
        den > 0,
    ensures
        2 * (nearest(num, den) * den - num) <= den,
        2 * (num - nearest(num, den) * den) <= den,
        2 * (nearest(num, den) * den - num) == den || 2 * (num - nearest(num, den) * den) == den
            ==> nearest(num, den) % 2 == 0,
{
    let floor = num / den;
    let rest = num % den;
    assert(num == floor * den + rest && 0 <= rest < den) by (nonlinear_arith)
        requires
            den > 0,
            floor == num / den,
            rest == num % den,
    ;
    assert((floor + 1) * den == floor * den + den) by (nonlinear_arith);
}

/// Counts below 2^53 are shown from their exact value.
pub proof fn small_counts_are_exact(n: nat)
    requires
        n < 0x20_0000_0000_0000,
    ensures
        double(n) == n,
{
    lemma_pow2(0);
    vstd::arithmetic::power::lemma_pow0(2);
    assert(pow2(0) == 1);
    assert(n / 1 == n && n % 1 == 0) by (nonlinear_arith);
    assert(n * 1 == n);
}

/// A figure reads back as the number of parts that it shows: the digits before the point are
/// the whole, and those behind it the parts of one.
pub proof fn figures_read_back(x: nat)
    ensures
        crate::text::number_of(with_places(x, 0)) == x,
        ({
            let s = with_places(x, 1);
            &&& s.len() >= 3 && s[s.len() - 2] == '.'
            &&& 10 * crate::text::number_of(s.take(s.len() - 2)) + (s.last() as int - 48) == x
        }),
        ({
            let s = with_places(x, 2);
            &&& s.len() >= 4 && s[s.len() - 3] == '.'
            &&& 100 * crate::text::number_of(s.take(s.len() - 3)) + 10 * (s[s.len() - 2] as int - 48)
                + (s.last() as int - 48) == x
        }),
{
    crate::text::decimal_notation_reads_back(x);
    crate::text::decimal_notation_reads_back(x / 10);
    crate::text::decimal_notation_reads_back(x / 100);
    let s = with_places(x, 1);
    assert(s.take(s.len() - 2) =~= decimal(x / 10));
    let t = with_places(x, 2);
    assert(t.take(t.len() - 3) =~= decimal(x / 100));
    assert(x == 100 * (x / 100) + 10 * (x / 10 % 10) + x % 10);
}

/// A figure is less than one unit of its last place away from the count.
pub proof fn figures_are_close(n: nat, unit: nat, places: nat)
    requires
        0 < n < 0x20_0000_0000_0000,
        1_000 <= unit <= 1_000_000,
        places <= 2,
    ensures
        ({
            let parts: nat = if places == 0 {
                1
            } else if places == 1 {
                10
            } else {
                100
            };
            let x = rounded(n, unit, parts);
            &&& figure(n, unit, places) == with_places(x, places)
            &&& -(unit as int) < x * unit - n * parts < unit
        }),
{
    let parts: nat = if places == 0 {
        1
    } else if places == 1 {
        10
    } else {
        100
    };
    small_counts_are_exact(n);
    let floor = TWO_52 as nat * unit;
    let k = scaling(n, floor);
    lemma_scaling_reaches(n, floor);
    let p = pow2(k);
    let q = quotient(n, unit);
    let x = rounded(n, unit, parts);
    assert(p > 0 && p >= 500) by {
        vstd::arithmetic::power2::lemma_pow2_pos(k);
        assert(p >= 500) by (nonlinear_arith)
            requires
                n * p >= 0x10_0000_0000_0000 * unit,
                unit >= 1_000,
                n < 0x20_0000_0000_0000,
        ;
    }
    rounding_goes_to_the_nearest(n * p, unit);
    rounding_goes_to_the_nearest(q * parts, p);
    let a = q * unit - n * p;
    let b = x * p - q * parts;
    assert(2 * (x * unit - n * parts) * p == 2 * b * unit + 2 * a * parts) by (nonlinear_arith)
        requires
            a == q * unit - n * p,
            b == x * p - q * parts,
    ;
    assert(-(p * unit) - unit * parts <= 2 * b * unit + 2 * a * parts <= p * unit + unit * parts)
        by (nonlinear_arith)
        requires
            -(unit as int) <= 2 * a <= unit,
            -(p as int) <= 2 * b <= p,
            unit > 0,
            parts > 0,
    ;
    assert(p * unit + unit * parts < 2 * unit * p) by (nonlinear_arith)
        requires
            parts <= 100,
            p >= 500,
            unit > 0,
    ;
    assert(-(unit as int) < x * unit - n * parts < unit) by (nonlinear_arith)
        requires
            2 * (x * unit - n * parts) * p < 2 * unit * p,
            2 * (x * unit - n * parts) * p > -(2 * unit * p),
            p > 0,
    ;
}

proof fn lemma_scaling_reaches(n: nat, floor: nat)
    requires
        n > 0,
    ensures
        n * pow2(scaling(n, floor)) >= floor,
    decreases
            (if n >= floor {
                0
            } else {
                floor - n
            }),
{
    if n >= floor {
        lemma_pow2(0);
        vstd::arithmetic::power::lemma_pow0(2);
        assert(n * 1 == n);
    } else {
        lemma_scaling_reaches(2 * n, floor);
        let k = scaling(2 * n, floor);
        lemma_pow2_unfold((k + 1) as nat);
        assert(n * (2 * pow2(k)) == 2 * n * pow2(k)) by (nonlinear_arith);
    }
}

proof fn lemma_excess(n: nat)
    ensures
        excess(n) > 0 ==> n >= 0x10_0000_0000_0000 * pow2(excess(n)),
    decreases n,
{
    if n >= TWO_53 {
        lemma_excess(n / 2);
        let e = excess(n / 2);
        lemma_pow2_unfold((e + 1) as nat);
        lemma_pow2(0);
        vstd::arithmetic::power::lemma_pow0(2);
        assert(pow2(e + 1) == 2 * pow2(e));
    }
}

/// The largest counts, too, are shown in millions by less than one million and a few thousand
/// off.
pub proof fn large_figures_are_close(n: nat, places: nat)
    requires
        0x20_0000_0000_0000 <= n <= u64::MAX,
        places <= 2,
    ensures
        ({
            let parts: nat = if places == 0 {
                1
            } else if places == 1 {
                10
            } else {
                100
            };
            let x = rounded(n, 1_000_000, parts);
            &&& figure(n, 1_000_000, places) == with_places(x, places)
            &&& -1_000_000 - 2_048 * parts < x * 1_000_000 - n * parts < 1_000_000 + 2_048 * parts
        }),
{
    let parts: nat = if places == 0 {
        1
    } else if places == 1 {
        10
    } else {
        100
    };
    let unit: nat = 1_000_000;
    lemma_excess(n);
    let e = pow2(excess(n));
    vstd::arithmetic::power2::lemma_pow2_pos(excess(n));
    rounding_goes_to_the_nearest(n, e);
    let f = double(n);
    assert(e <= 0x1000) by (nonlinear_arith)
        requires
            n >= 0x10_0000_0000_0000 * e,
            n <= 0xffff_ffff_ffff_ffff,
    ;
    assert(-2048 <= f - n <= 2048);
    let floor = TWO_52 as nat * unit;
    let k = scaling(f, floor);
    lemma_scaling_reaches(f, floor);
    let p = pow2(k);
    let q = quotient(f, unit);
    let x = rounded(n, unit, parts);
    vstd::arithmetic::power2::lemma_pow2_pos(k);
    assert(p >= 200) by (nonlinear_arith)
        requires
            f * p >= 0x10_0000_0000_0000 * 1_000_000,
            f <= 0x1_0000_0000_0000_0800,
    ;
    rounding_goes_to_the_nearest(f * p, unit);
    rounding_goes_to_the_nearest(q * parts, p);
    let a = q * unit - f * p;
    let b = x * p - q * parts;
    assert(2 * (x * unit - f * parts) * p == 2 * b * unit + 2 * a * parts) by (nonlinear_arith)
        requires
            a == q * unit - f * p,
            b == x * p - q * parts,
    ;
    assert(-(2 * unit * p) < 2 * b * unit + 2 * a * parts < 2 * unit * p) by (nonlinear_arith)
        requires
            -(unit as int) <= 2 * a <= unit,
            -(p as int) <= 2 * b <= p,
            unit == 1_000_000,
            p >= 200,
            0 < parts <= 100,
    ;
    assert(-(unit as int) < x * unit - f * parts < unit) by (nonlinear_arith)
        requires
            2 * (x * unit - f * parts) * p < 2 * unit * p,
            2 * (x * unit - f * parts) * p > -(2 * unit * p),
            p > 0,
    ;
    assert(-(2_048 * parts) <= f * parts - n * parts <= 2_048 * parts) by (nonlinear_arith)
        requires
            -2_048 <= f - n <= 2_048,
            parts > 0,
    ;
}

/// A count that is not too large is shown by the nearest figure with so many decimal places.
pub proof fn figures_are_nearest(n: nat, unit: nat, places: nat)
    requires
        0 < n < 45_000_000_000_000,
        1_000 <= unit <= 1_000_000,
        places <= 2,
    ensures
        ({
            let parts: nat = if places == 0 {
                1
            } else if places == 1 {
                10
            } else {
                100
            };
            let x = rounded(n, unit, parts);
            &&& figure(n, unit, places) == with_places(x, places)
            &&& -(unit as int) <= 2 * (x * unit - n * parts) <= unit
        }),
{
    let parts: nat = if places == 0 {
        1
    } else if places == 1 {
        10
    } else {
        100
    };
    small_counts_are_exact(n);
    let floor = TWO_52 as nat * unit;
    let k = scaling(n, floor);
    lemma_scaling_reaches(n, floor);
    let p = pow2(k);
    vstd::arithmetic::power2::lemma_pow2_pos(k);
    let q = quotient(n, unit);
    let x = rounded(n, unit, parts);
    rounding_goes_to_the_nearest(n * p, unit);
    rounding_goes_to_the_nearest(q * parts, p);
    let a = q * unit - n * p;
    let b = x * p - q * parts;
    let d = x * unit - n * parts;
    assert(2 * d * p == 2 * b * unit + 2 * a * parts) by (nonlinear_arith)
        requires
            a == q * unit - n * p,
            b == x * p - q * parts,
            d == x * unit - n * parts,
    ;
    assert(-(p * unit) - unit * parts <= 2 * b * unit + 2 * a * parts <= p * unit + unit * parts)
        by (nonlinear_arith)
        requires
            -(unit as int) <= 2 * a <= unit,
            -(p as int) <= 2 * b <= p,
            unit > 0,
            parts > 0,
    ;
    assert(unit * parts < p) by (nonlinear_arith)
        requires
            n * p >= 0x10_0000_0000_0000 * unit,
            n < 45_000_000_000_000,
            parts <= 100,
            unit > 0,
            p > 0,
    ;
    assert(-(unit as int) <= 2 * d <= unit) by (nonlinear_arith)
        requires
            2 * d * p < p * unit + p,
            2 * d * p > -(p * unit) - p,
            p > 0,
    ;
}

} // verus!
