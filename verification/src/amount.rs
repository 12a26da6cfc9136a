//! Byte counts and durations as people read them. Quantities are scaled in double precision, with
//! every rounding made explicit over the integers.

use vstd::prelude::*;

use crate::text::{dec, digit, digits_stand_in_their_places, i64_text, int_text, u64_text};

verus! {

/// The integer nearest to `num / den`; of two equally near ones the even one.
pub open spec fn round_half_even(num: nat, den: nat) -> nat {
    let q = num / den;
    let r = num % den;
    if 2 * r < den || (2 * r == den && q % 2 == 0) {
        q
    } else {
        q + 1
    }
}

/// The distance between neighbouring doubles around the integer `n`, where it is above one: the
/// least power of two that brings `n` under the 53 bits of a significand.
pub open spec fn spacing(n: nat) -> nat
    decreases n,
{
    if n < 0x20_0000_0000_0000 {
        1
    } else {
        2 * spacing(n / 2)
    }
}

/// The double nearest to the integer `n`.
pub open spec fn nearest_double(n: nat) -> nat {
    round_half_even(n, spacing(n)) * spacing(n)
}

/// The double nearest to `num / den / unit`, as a significand and the power of two that divides it.
/// For quotients under the 53 bits of a significand.
pub open spec fn quotient_double(num: nat, den: nat, unit: nat) -> (nat, nat)
    decreases
        (if num >= den * 0x10_0000_0000_0000 {
            0
        } else {
            den * 0x10_0000_0000_0000 - num
        }),
{
    if num >= den * 0x10_0000_0000_0000 || num == 0 {
        (round_half_even(num, den), unit)
    } else {
        quotient_double(2 * num, den, 2 * unit)
    }
}

/// `h` hundredths, with two decimals.
pub open spec fn two_decimals(h: nat) -> Seq<char> {
    crate::text::dec(h / 100) + seq!['.', crate::text::digit(h / 10 % 10), crate::text::digit(
        h % 10,
    )]
}

/// `t` tenths, with one decimal.
pub open spec fn one_decimal(t: nat) -> Seq<char> {
    crate::text::dec(t / 10) + seq!['.', crate::text::digit(t % 10)]
}

/// The largest unit of which `r` bytes make at least one: its size and its name.
pub open spec fn binary_unit(r: nat) -> (nat, Seq<char>) {
    if r < 0x400 {
        (1, " B"@)
    } else if r < 0x10_0000 {
        (0x400, " KiB"@)
    } else if r < 0x4000_0000 {
        (0x10_0000, " MiB"@)
    } else if r < 0x100_0000_0000 {
        (0x4000_0000, " GiB"@)
    } else {
        (0x100_0000_0000, " TiB"@)
    }
}

/// `n` bytes: the plain number under a kibibyte, else two decimals of the largest unit that fits.
pub open spec fn human_text(n: int) -> Seq<char> {
    if n < 0x400 {
        crate::text::int_text(n) + " B"@
    } else {
        let r = nearest_double(n as nat);
        let (size, name) = binary_unit(r);
        two_decimals(round_half_even(100 * r, size)) + name
    }
}

/// How many tenths of an hour `s` seconds are.
pub open spec fn hour_tenths(s: nat) -> nat {
    let (m, unit) = quotient_double(nearest_double(s), 3600, 1);
    round_half_even(10 * m, unit)
}

/// The integer nearest to `num / den`; of two equally near ones the even one.
fn rounded(num: u128, den: u128) -> (r: u128)
    requires
        0 < den < 0x8000_0000_0000_0000_0000_0000_0000_0000,
        num < 0x8000_0000_0000_0000_0000_0000_0000_0000,
    ensures
        r == round_half_even(num as nat, den as nat),
        r <= num / den + 1,
{
    let q: u128 = num / den;
    let r: u128 = num % den;
    proof {
        assert(q <= num) by (nonlinear_arith)
            requires
                q == num / den,
                den > 0,
        ;
    }
    if 2 * r < den || (2 * r == den && q % 2 == 0) {
        q
    } else {
        q + 1
    }
}

/// The distance between neighbouring doubles around `n`, where it is above one.
fn spacing_of(n: u64) -> (r: u64)
    ensures
        r == spacing(n as nat),
        1 <= r,
        r == 1 || r <= n / 0x10_0000_0000_0000,
    decreases n,
{
    if n < 0x20_0000_0000_0000 {
        1
    } else {
        let half: u64 = spacing_of(n / 2);
        2 * half
    }
}

/// The double nearest to `n`.
fn to_double(n: u64) -> (r: u128)
    ensures
        r == nearest_double(n as nat),
        r <= 0x1_0000_0000_0000_0000 + 0x1000,
        n < 0x20_0000_0000_0000 ==> r == n,
        n >= 0x20_0000_0000_0000 ==> r >= 0x10_0000_0000_0000,
        n > 0 ==> r > 0,
{
    let u: u64 = spacing_of(n);
    let q: u128 = rounded(n as u128, u as u128);
    proof {
        let k = n as nat / u as nat;
        assert(k * u <= n) by (nonlinear_arith)
            requires
                k == n as nat / u as nat,
                u > 0,
        ;
        assert(q * u <= (k + 1) * u) by (nonlinear_arith)
            requires
                q <= k + 1,
                u > 0,
        ;
        assert((k + 1) * u == k * u + u) by (nonlinear_arith);
        assert(q * u >= k * u) by (nonlinear_arith)
            requires
                q >= k,
                u > 0,
        ;
        assert(n < k * u + u) by (nonlinear_arith)
            requires
                k == n as nat / u as nat,
                u > 0,
        ;
        if u == 1 {
            assert(n as nat / 1 == n);
            assert(q * u == q) by (nonlinear_arith)
                requires
                    u == 1,
            ;
        }
        if n > 0 {
            assert(k >= 1) by (nonlinear_arith)
                requires
                    k == n as nat / u as nat,
                    0 < u <= n,
            ;
            assert(q * u >= 1) by (nonlinear_arith)
                requires
                    q >= 1,
                    u >= 1,
            ;
        }
    }
    q * (u as u128)
}

/// How many bytes `n` are, as people read it.
pub fn human_bytes(n: i64) -> (r: String)
    ensures
        r@ == human_text(n as int),
{
    if n < 0x400 {
        let mut r: String = i64_text(n);
        r.append(" B");
        return r;
    }
    let v: u128 = to_double(n as u64);
    let (size, name): (u128, &str) = if v < 0x10_0000 {
        (0x400, " KiB")
    } else if v < 0x4000_0000 {
        (0x10_0000, " MiB")
    } else if v < 0x100_0000_0000 {
        (0x4000_0000, " GiB")
    } else {
        (0x100_0000_0000, " TiB")
    };
    let h: u128 = rounded(100 * v, size);
    proof {
        if size == 0x400 {
            assert(100 * v / 0x400 < 0x1_0000_0000);
        } else if size == 0x10_0000 {
            assert(100 * v / 0x10_0000 < 0x1_0000_0000);
        } else if size == 0x4000_0000 {
            assert(100 * v / 0x4000_0000 < 0x1_0000_0000);
        } else {
            assert(100 * v / 0x100_0000_0000 < 0x1_0000_0000);
        }
        assert(h <= 0x1_0000_0000);
    }
    let mut r: String = u64_text((h / 100) as u64);
    r.push('.');
    r.push((0x30u8 + (h / 10 % 10) as u8) as char);
    r.push((0x30u8 + (h % 10) as u8) as char);
    proof {
        assert(v >= 0x400);
        assert(h / 10 % 10 < 10 && h % 10 < 10);
        assert(r@ =~= dec((h / 100) as nat) + seq!['.', digit((h / 10 % 10) as nat), digit(
            (h % 10) as nat,
        )]);
    }
    r.append(name);
    r
}

/// How many hours `s` seconds are, with one decimal.
pub fn hours_text(s: u64) -> (r: String)
    ensures
        r@ == one_decimal(hour_tenths(s as nat)),
{
    let v: u128 = to_double(s);
    let mut a: u128 = v;
    let mut unit: u128 = 1;
    while a < 3600 * 0x10_0000_0000_0000 && a != 0
        invariant
            a < 0x10_0000_0000_0000_0000,
            v > 0 ==> a > 0,
            1 <= unit,
            unit <= a || unit == 1,
            quotient_double(v as nat, 3600, 1) == quotient_double(a as nat, 3600, unit as nat),
        decreases
            (if a >= 3600 * 0x10_0000_0000_0000 {
                0
            } else {
                3600 * 0x10_0000_0000_0000 - a
            }),
    {
        a = 2 * a;
        unit = 2 * unit;
    }
    let m: u128 = rounded(a, 3600);
    let t: u128 = rounded(10 * m, unit);
    let mut r: String = u64_text((t / 10) as u64);
    r.push('.');
    r.push((0x30u8 + (t % 10) as u8) as char);
    proof {
        assert(r@ =~= one_decimal(t as nat));
    }
    r
}

/// Rounding moves a quotient by no more than one half.
pub proof fn rounding_is_to_the_nearest(num: nat, den: nat)
    requires
        den > 0,
    ensures
        -(den as int) <= 2 * (round_half_even(num, den) * den - num) <= den,
{
    let q = num / den;
    let r = num % den;
    assert(num == q * den + r) by (nonlinear_arith)
        requires
            den > 0,
            q == num / den,
            r == num % den,
    ;
    assert((q + 1) * den == q * den + den) by (nonlinear_arith);
}

/// A double is never further from an integer than half the distance to the next double, and under
/// fifty-four bits it is the integer itself.
pub proof fn doubles_are_near(n: nat)
    ensures
        -(spacing(n) as int) <= 2 * (nearest_double(n) - n) <= spacing(n),
        n < 0x20_0000_0000_0000 ==> nearest_double(n) == n,
{
    lemma_spacing_positive(n);
    rounding_is_to_the_nearest(n, spacing(n));
    if n < 0x20_0000_0000_0000 {
        assert(n / 1 == n);
        assert(round_half_even(n, 1) * 1 == n) by (nonlinear_arith)
            requires
                round_half_even(n, 1) == n,
        ;
    }
}

proof fn lemma_spacing_positive(n: nat)
    ensures
        spacing(n) > 0,
    decreases n,
{
    if n >= 0x20_0000_0000_0000 {
        lemma_spacing_positive(n / 2);
    }
}

/// Decimals stand in their places behind the point.
pub proof fn decimals_stand_in_their_places(h: nat)
    ensures
        ({
            let s = two_decimals(h);
            let n = s.len() as int;
            &&& n >= 4
            &&& s.take(n - 3) == dec(h / 100)
            &&& s[n - 3] == '.'
            &&& s[n - 2] as int == 0x30 + (h / 10) % 10
            &&& s[n - 1] as int == 0x30 + h % 10
        }),
        ({
            let s = one_decimal(h);
            let n = s.len() as int;
            &&& n >= 3
            &&& s.take(n - 2) == dec(h / 10)
            &&& s[n - 2] == '.'
            &&& s[n - 1] as int == 0x30 + h % 10
        }),
{
    digits_stand_in_their_places(h / 100, 0);
    digits_stand_in_their_places(h / 10, 0);
    assert(two_decimals(h).take(two_decimals(h).len() - 3) =~= dec(h / 100));
    assert(one_decimal(h).take(one_decimal(h).len() - 2) =~= dec(h / 10));
}

/// Bytes are counted in the largest unit of which there is at least one, in hundredths that are the
/// nearest to the true number, and of two equally near ones the even one. Under a kibibyte the bytes
/// themselves are counted.
pub proof fn bytes_are_counted_to_the_nearest(n: int, h: nat, size: nat, name: Seq<char>)
    requires
        n < 0x20_0000_0000_0000,
        (size == 1024 && name == " KiB"@ && 1024 <= n < 1048576) || (size == 1048576 && name
            == " MiB"@ && 1048576 <= n < 1073741824) || (size == 1073741824 && name == " GiB"@
            && 1073741824 <= n < 1099511627776) || (size == 1099511627776 && name == " TiB"@
            && 1099511627776 <= n) || n < 1024,
        n >= 1024 ==> -size <= 2 * (h * size - 100 * n) <= size,
        n >= 1024 && (2 * (h * size - 100 * n) == size || 2 * (h * size - 100 * n) == -size) ==> h
            % 2 == 0,
    ensures
        n < 1024 ==> human_text(n) == int_text(n) + " B"@,
        n >= 1024 ==> human_text(n) == two_decimals(h) + name,
{
    if n >= 1024 {
        doubles_are_near(n as nat);
        assert(round_half_even((100 * n) as nat, size) == h) by {
            if size == 1024 {
                assert((100 * n) as nat / 1024 <= h <= (100 * n) as nat / 1024 + 1);
            } else if size == 1048576 {
                assert((100 * n) as nat / 1048576 <= h <= (100 * n) as nat / 1048576 + 1);
            } else if size == 1073741824 {
                assert((100 * n) as nat / 1073741824 <= h <= (100 * n) as nat / 1073741824 + 1);
            } else {
                assert((100 * n) as nat / 1099511627776 <= h <= (100 * n) as nat / 1099511627776
                    + 1);
            }
        }
    }
}

/// Beyond the integers that doubles hold exactly, bytes are counted in tebibytes, and the hundredths
/// are the nearest to a number that is no more than five hundred and twelve bytes off.
pub proof fn huge_byte_counts_are_near(n: int)
    requires
        0x20_0000_0000_0000 <= n <= 0x7fff_ffff_ffff_ffff,
    ensures
        exists|h: nat, r: nat|
            human_text(n) == #[trigger] two_decimals(h) + " TiB"@ && -512 <= #[trigger] off(r, n)
                <= 512 && -1099511627776 <= 2 * (h * 1099511627776 - 100 * r) <= 1099511627776,
{
    let r = nearest_double(n as nat);
    let h = round_half_even(100 * r, 1099511627776);
    doubles_are_near(n as nat);
    assert(is_power_of_two(1024)) by {
        reveal_with_fuel(is_power_of_two, 11);
    }
    lemma_spacing_bound(n as nat, 1024);
    rounding_is_to_the_nearest(100 * r, 1099511627776);
    assert(off(r, n) == r - n);
    assert(human_text(n) == two_decimals(h) + " TiB"@);
}

/// How far a number is from another.
pub open spec fn off(r: nat, n: int) -> int {
    r - n
}

/// Whether `p` is a power of two.
spec fn is_power_of_two(p: nat) -> bool
    decreases p,
{
    p == 1 || (p > 1 && p % 2 == 0 && is_power_of_two(p / 2))
}

proof fn lemma_spacing_bound(n: nat, p: nat)
    requires
        is_power_of_two(p),
        n < 0x20_0000_0000_0000 * p,
    ensures
        spacing(n) <= p,
    decreases n,
{
    if n >= 0x20_0000_0000_0000 {
        lemma_spacing_bound(n / 2, p / 2);
    }
}

/// By how much a quotient was scaled up before it was rounded.
proof fn lemma_quotient(num: nat, den: nat, unit: nat) -> (f: nat)
    requires
        den > 0,
        unit > 0,
    ensures
        f > 0,
        quotient_double(num, den, unit).1 == unit * f,
        -(den as int) <= 2 * (quotient_double(num, den, unit).0 * den - num * f) <= den,
        num > 0 ==> num * f >= den * 0x10_0000_0000_0000,
    decreases
        (if num >= den * 0x10_0000_0000_0000 {
            0
        } else {
            den * 0x10_0000_0000_0000 - num
        }),
{
    if num >= den * 0x10_0000_0000_0000 || num == 0 {
        rounding_is_to_the_nearest(num, den);
        assert(unit * 1 == unit && num * 1 == num) by (nonlinear_arith);
        1
    } else {
        let g = lemma_quotient(2 * num, den, 2 * unit);
        assert((2 * unit) * g == unit * (2 * g)) by (nonlinear_arith);
        assert((2 * num) * g == num * (2 * g)) by (nonlinear_arith);
        2 * g
    }
}

/// Tenths of an hour, of three hundred and sixty seconds each, are the nearest to the true number for
/// any time that people plan for; and for no time at all are they off by an hour.
pub proof fn hours_are_counted_to_the_nearest(s: nat)
    requires
        s <= u64::MAX,
    ensures
        s < 0x100_0000_0000 ==> -180 <= 360 * hour_tenths(s) - s <= 180,
        -3600 < 360 * hour_tenths(s) - s < 3600,
{
    let r = nearest_double(s);
    doubles_are_near(s);
    assert(is_power_of_two(2048)) by {
        reveal_with_fuel(is_power_of_two, 12);
    }
    lemma_spacing_bound(s, 2048);
    let f = lemma_quotient(r, 3600, 1);
    let (m, unit) = quotient_double(r, 3600, 1);
    assert(unit == f);
    let t = hour_tenths(s);
    rounding_is_to_the_nearest(10 * m, f);
    let e = 360 * t - r;
    assert(e * f == 360 * (t * f) - r * f) by (nonlinear_arith)
        requires
            e == 360 * t - r,
    ;
    assert(-(180 * f + 1800) <= e * f <= 180 * f + 1800);
    assert(-1980 <= e <= 1980) by (nonlinear_arith)
        requires
            -(180 * f + 1800) <= e * f <= 180 * f + 1800,
            f >= 1,
    ;
    if 0 < s < 0x100_0000_0000 {
        assert(f > 1800) by (nonlinear_arith)
            requires
                r * f >= 3600 * 0x10_0000_0000_0000,
                r < 0x100_0000_0000,
        ;
        assert(-181 < e < 181) by (nonlinear_arith)
            requires
                -(180 * f + 1800) <= e * f <= 180 * f + 1800,
                f > 1800,
        ;
    }
    if s == 0 {
        assert(r == 0);
        assert(m == 0);
        assert(t == 0);
    }
}

}
