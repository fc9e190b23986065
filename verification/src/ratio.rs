//! Fractions in decimal and in percent, to the digit that floating-point arithmetic gives.
use crate::text;
use vstd::arithmetic::power2::*;
use vstd::prelude::*;

verus! {

/// `num / den` rounded to the nearest integer, a tie to the even one.
pub open spec fn round_even(num: nat, den: nat) -> nat {
    let q = num / den;
    let r = num % den;
    if 2 * r < den || (2 * r == den && q % 2 == 0) {
        q
    } else {
        q + 1
    }
}

/// How many doublings, `s` of them done already, bring `n / d` to at least 2^52.
pub open spec fn doublings(n: nat, d: nat, s: nat) -> nat
    decreases 84 - s,
{
    if s >= 84 || n * pow2(s) >= d * 0x10_0000_0000_0000 {
        s
    } else {
        doublings(n, d, s + 1)
    }
}

/// The significand of the double nearest to `n / d`; that double is
/// `significand(n, d) / 2^doublings(n, d, 0)`.
pub open spec fn significand(n: nat, d: nat) -> nat {
    round_even(n * pow2(doublings(n, d, 0)), d)
}

/// The double nearest to `n / d`, in units of `1 / unit`, rounded to an integer.
pub open spec fn scaled(n: nat, d: nat, unit: nat) -> nat {
    round_even(significand(n, d) * unit, pow2(doublings(n, d, 0)))
}

/// `n / d` with four digits after the point.
pub open spec fn four_places(n: nat, d: nat) -> Seq<char> {
    let q = scaled(n, d, 10000);
    text::decimal(q / 10000).push('.') + text::padded(q % 10000, 4)
}

pub fn round_even_of(num: u128, den: u128) -> (r: u128)
    requires
        0 < den < 0x4000_0000_0000_0000_0000_0000_0000_0000,
        num < 0x4000_0000_0000_0000_0000_0000_0000_0000,
    ensures
        r == round_even(num as nat, den as nat),
        r <= num / den + 1,
        r <= num + 1,
{
    let q: u128 = num / den;
    let r: u128 = num % den;
    assert(q <= num) by (nonlinear_arith)
        requires
            q == num / den,
            den > 0,
            num >= 0,
    ;
    if 2 * r < den || (2 * r == den && q % 2 == 0) {
        q
    } else {
        q + 1
    }
}

/// `n / d` to four places, for `n` and `d` above zero.
pub fn four_places_text(n: u32, d: u32) -> (r: String)
    requires
        n > 0,
        d > 0,
    ensures
        r@ == four_places(n as nat, d as nat),
{
    let bound: u128 = d as u128 * 0x10_0000_0000_0000;
    let mut top: u128 = n as u128;
    let mut power: u128 = 1;
    let ghost mut s: nat = 0;
    proof {
        lemma2_to64();
        assert(pow2(0) == 1);
    }
    while top < bound
        invariant
            n > 0,
            0 < d,
            bound == d * 0x10_0000_0000_0000,
            bound < 0x10_0000_0000_0000_0000_0000,
            s <= 84,
            power == pow2(s),
            power <= top,
            top == n * pow2(s),
            s == 84 ==> top >= bound,
            top < 2 * bound,
            doublings(n as nat, d as nat, 0) == doublings(n as nat, d as nat, s),
        decreases 84 - s,
    {
        proof {
            lemma_pow2_unfold(s + 1);
            assert(n * pow2(s + 1) == 2 * (n * pow2(s))) by (nonlinear_arith)
                requires
                    pow2(s + 1) == 2 * pow2(s),
            ;
        }
        top = 2 * top;
        power = 2 * power;
        proof {
            s = s + 1;
            if s == 84 {
                lemma_pow2_84();
                assert(top >= pow2(84)) by (nonlinear_arith)
                    requires
                        top == n * pow2(84),
                        n >= 1,
                        pow2(84) >= 0,
                ;
            }
        }
    }
    proof {
        assert(doublings(n as nat, d as nat, s) == s);
        lemma_pow2_pos(s);
    }
    let m = round_even_of(top, d as u128);
    assert(top / (d as u128) < 0x20_0000_0000_0000) by (nonlinear_arith)
        requires
            d > 0,
            top < d * 0x20_0000_0000_0000,
    ;
    let q = round_even_of(m * 10000, power);
    let mut out = text::decimal_text((q / 10000) as u64);
    out.push('.');
    let tail = text::padded_text((q % 10000) as u64, 4);
    out.append(tail.as_str());
    out
}

proof fn lemma_pow2_84()
    ensures
        pow2(84) == 0x10_0000_0000_0000_0000_0000,
{
    lemma_pow2_adds(32, 52);
    lemma2_to64();
    lemma2_to64_rest();
    assert(0x1_0000_0000int * 0x10_0000_0000_0000int == 0x10_0000_0000_0000_0000_0000int) by (nonlinear_arith);
}

/// How many halvings, `k` of them done already, bring `n` below 2^24.
pub open spec fn halvings(n: nat, k: nat) -> nat
    decreases 64 - k,
{
    if k >= 64 || n < 0x100_0000 * pow2(k) {
        k
    } else {
        halvings(n, k + 1)
    }
}

/// The single-precision number nearest to `n`.
pub open spec fn single(n: nat) -> nat {
    round_even(n, pow2(halvings(n, 0))) * pow2(halvings(n, 0))
}

/// How many doublings, `s` of them done already, bring `n / d` to at least 2^23.
pub open spec fn single_doublings(n: nat, d: nat, s: nat) -> nat
    decreases 88 - s,
{
    if s >= 88 || n * pow2(s) >= d * 0x80_0000 {
        s
    } else {
        single_doublings(n, d, s + 1)
    }
}

/// The significand of the single-precision number nearest to `n / d`; that number is
/// `single_significand(n, d) / 2^single_doublings(n, d, 0)`.
pub open spec fn single_significand(n: nat, d: nat) -> nat {
    round_even(n * pow2(single_doublings(n, d, 0)), d)
}

/// `n` of `d` in whole percent, as single precision has it: both are rounded, so is their
/// quotient, and so is a hundred times that.
pub open spec fn single_percent(n: nat, d: nat) -> nat {
    if n == 0 {
        0
    } else {
        let top = single(n);
        let bottom = single(d);
        round_even(
            single(single_significand(top, bottom) * 100),
            pow2(single_doublings(top, bottom, 0)),
        )
    }
}

/// The single-precision number nearest to `n`, which may be 2^64.
fn single_of(n: u64) -> (r: u128)
    ensures
        r == single(n as nat),
        r <= 2 * n,
        n <= 2 * r,
{
    let mut unit: u128 = 1;
    let ghost mut k: nat = 0;
    proof {
        lemma2_to64();
    }
    while n as u128 >= 0x100_0000 * unit
        invariant
            k <= 40,
            unit == pow2(k),
            unit <= 0x100_0000_0000,
            k == 40 ==> unit == 0x100_0000_0000,
            k > 0 ==> n >= 0x80_0000 * unit,
            k == 0 ==> unit == 1,
            halvings(n as nat, 0) == halvings(n as nat, k),
        decreases 40 - k,
    {
        proof {
            assert(k < 40);
            lemma_pow2_unfold(k + 1);
            lemma2_to64();
            lemma2_to64_rest();
            if k + 1 < 40 {
                lemma_pow2_strictly_increases(k + 1, 40);
            }
        }
        unit = 2 * unit;
        proof {
            k = k + 1;
        }
    }
    assert(halvings(n as nat, k) == k);
    let q = round_even_of(n as u128, unit);
    proof {
        let low: int = n as int / unit as int;
        assert(low * unit <= n < low * unit + unit) by (nonlinear_arith)
            requires
                low == n as int / unit as int,
                unit > 0,
                n >= 0,
        ;
        assert(q == low || q == low + 1);
        if k == 0 {
            assert(n as int % 1 == 0);
            assert(q == n);
        } else {
            assert(low >= 1) by (nonlinear_arith)
                requires
                    n >= 0x80_0000 * unit,
                    n < low * unit + unit,
                    unit > 0,
            ;
        }
        assert(q * unit <= 2 * n && n <= 2 * (q * unit)) by (nonlinear_arith)
            requires
                q == low || q == low + 1,
                low * unit <= n < low * unit + unit,
                low >= 1 || (q == n && unit == 1),
                unit > 0,
        ;
    }
    q * unit
}

/// `n` of `d` in whole percent, for `n` below `d`.
pub fn single_percent_of(n: u64, d: u64) -> (r: u64)
    requires
        n < d,
    ensures
        r == single_percent(n as nat, d as nat),
{
    if n == 0 {
        return 0;
    }
    let first = single_of(n);
    let bottom = single_of(d);
    let bound: u128 = bottom * 0x80_0000;
    let mut top: u128 = first;
    let mut power: u128 = 1;
    let ghost mut s: nat = 0;
    proof {
        lemma2_to64();
        lemma_pow2_88();
    }
    while top < bound
        invariant
            0 < first,
            0 < bottom,
            bound == bottom * 0x80_0000,
            bound < 0x100_0000_0000_0000_0000_0000,
            s <= 88,
            power == pow2(s),
            power <= top,
            top == first * pow2(s),
            s == 88 ==> top >= bound,
            top < 2 * bound,
            pow2(88) == 0x100_0000_0000_0000_0000_0000,
            single_doublings(first as nat, bottom as nat, 0) == single_doublings(
                first as nat,
                bottom as nat,
                s,
            ),
        decreases 88 - s,
    {
        proof {
            lemma_pow2_unfold(s + 1);
            assert(first * pow2(s + 1) == 2 * (first * pow2(s))) by (nonlinear_arith)
                requires
                    pow2(s + 1) == 2 * pow2(s),
            ;
        }
        top = 2 * top;
        power = 2 * power;
        proof {
            s = s + 1;
        }
    }
    proof {
        assert(single_doublings(first as nat, bottom as nat, s) == s);
        lemma_pow2_pos(s);
    }
    let share = round_even_of(top, bottom);
    assert(top / bottom < 0x100_0000) by (nonlinear_arith)
        requires
            bottom > 0,
            top < bottom * 0x100_0000,
    ;
    let hundredfold = single_of((share * 100) as u64);
    round_even_of(hundredfold, power) as u64
}

proof fn lemma_pow2_88()
    ensures
        pow2(88) == 0x100_0000_0000_0000_0000_0000,
{
    lemma_pow2_adds(32, 56);
    lemma2_to64();
    lemma2_to64_rest();
    assert(0x1_0000_0000int * 0x100_0000_0000_0000int == 0x100_0000_0000_0000_0000_0000int) by (nonlinear_arith);
}

/// Rounding gives the nearest integer: it is off by no more than a half, and by a half only
/// where it is even.
pub proof fn rounding_gives_the_nearest(num: nat, den: nat)
    requires
        den > 0,
    ensures
        2 * (round_even(num, den) * den - num) <= den,
        2 * (num - round_even(num, den) * den) <= den,
        2 * (round_even(num, den) * den - num) == den || 2 * (num - round_even(num, den) * den)
            == den ==> round_even(num, den) % 2 == 0,
{
    let q = num / den;
    let r = num % den;
    assert(num == q * den + r && 0 <= r < den) by (nonlinear_arith)
        requires
            den > 0,
            q == num / den,
            r == num % den,
    ;
    assert((q + 1) * den == q * den + den) by (nonlinear_arith);
}

/// The four digits behind the point are those of the fraction: the number that is shown, in
/// units of the last digit, is less than one unit off.
pub proof fn four_places_are_of_the_fraction(n: nat, d: nat)
    requires
        0 < n < 0x1_0000_0000,
        0 < d < 0x1_0000_0000,
    ensures
        ({
            let q = scaled(n, d, 10000);
            &&& four_places(n, d) == text::decimal(q / 10000).push('.') + text::padded(
                q % 10000,
                4,
            )
            &&& q * d < 10000 * n + d
            &&& 10000 * n < q * d + d
        }),
{
    let s = doublings(n, d, 0);
    lemma_doublings(n, d, 0);
    lemma_pow2_pos(s);
    let p = pow2(s);
    let m = significand(n, d);
    let q = scaled(n, d, 10000);
    rounding_gives_the_nearest(n * p, d);
    rounding_gives_the_nearest(m * 10000, p);
    assert(p > 20000) by (nonlinear_arith)
        requires
            n * p >= d * 0x10_0000_0000_0000,
            n < 0x1_0000_0000,
            d > 0,
    ;
    assert(q * d < 10000 * n + d && 10000 * n < q * d + d) by (nonlinear_arith)
        requires
            p > 20000,
            d > 0,
            2 * (m * d - n * p) <= d,
            2 * (n * p - m * d) <= d,
            2 * (q * p - m * 10000) <= p,
            2 * (m * 10000 - q * p) <= p,
    ;
}

proof fn lemma_doublings(n: nat, d: nat, s: nat)
    requires
        0 < n,
        0 < d < 0x1_0000_0000,
        s <= 84,
    ensures
        n * pow2(doublings(n, d, s)) >= d * 0x10_0000_0000_0000,
    decreases 84 - s,
{
    if s >= 84 {
        lemma_pow2_84();
        assert(s == 84);
        assert(n * pow2(84) >= pow2(84)) by (nonlinear_arith)
            requires
                n >= 1,
                pow2(84) >= 0,
        ;
    } else if n * pow2(s) < d * 0x10_0000_0000_0000 {
        lemma_doublings(n, d, s + 1);
    }
}

proof fn lemma_halvings(n: nat, k: nat)
    requires
        n < 0x1_0000_0000_0000_0000,
        k <= 64,
        k > 0 ==> n >= 0x80_0000 * pow2(k),
    ensures
        ({
            let h = halvings(n, k);
            &&& pow2(h) > 0
            &&& h > 0 ==> n >= 0x80_0000 * pow2(h)
        }),
    decreases 64 - k,
{
    lemma_pow2_pos(k);
    if k < 64 && n >= 0x100_0000 * pow2(k) {
        lemma_pow2_unfold(k + 1);
        lemma_halvings(n, k + 1);
    }
}

/// A number in single precision is off by no more than one part in 2^24.
proof fn lemma_single_is_near(n: nat)
    requires
        n < 0x1_0000_0000_0000_0000,
    ensures
        0x100_0000 * (single(n) - n) <= n,
        0x100_0000 * (n - single(n)) <= n,
{
    lemma_halvings(n, 0);
    let h = halvings(n, 0);
    let p = pow2(h);
    rounding_gives_the_nearest(n, p);
    if h == 0 {
        lemma2_to64();
        assert(p == 1);
    }
    assert(single(n) == round_even(n, p) * p);
}

proof fn lemma_single_doublings(n: nat, d: nat, s: nat)
    requires
        0 < n,
        0 < d <= 0x1_0000_0000_0000_0000,
        s <= 88,
    ensures
        n * pow2(single_doublings(n, d, s)) >= d * 0x80_0000,
    decreases 88 - s,
{
    if s >= 88 {
        lemma_pow2_88();
        assert(s == 88);
        assert(n * pow2(88) >= pow2(88)) by (nonlinear_arith)
            requires
                n >= 1,
                pow2(88) >= 0,
        ;
    } else if n * pow2(s) < d * 0x80_0000 {
        lemma_single_doublings(n, d, s + 1);
    }
}

/// The bounds of four roundings one behind the other, from above.
proof fn lemma_not_much_more(n: int, d: int, a: int, b: int, m: int, p: int, x: int, q: int)
    requires
        0 < n < d,
        0 < a,
        0 < b,
        0 <= m,
        0 < p,
        0 <= x,
        0 <= q,
        16777216 * (a - n) <= n,
        16777216 * (d - b) <= d,
        16777216 * (m * b - a * p) <= a * p,
        16777216 * (x - 100 * m) <= 100 * m,
        2 * (q * p - x) <= p,
    ensures
        q * d < 100 * n + d,
{
    if q > 0 {
        let k: int = 16777216;
        assert(x * k <= 100 * m * (k + 1));
        assert((2 * q - 1) * p <= 2 * x) by (nonlinear_arith)
            requires
                2 * (q * p - x) <= p,
        ;
        assert((2 * q - 1) * p * k <= 200 * m * (k + 1)) by (nonlinear_arith)
            requires
                (2 * q - 1) * p <= 2 * x,
                x * k <= 100 * m * (k + 1),
                k == 16777216,
        ;
        assert(m * b * k <= a * p * (k + 1)) by (nonlinear_arith)
            requires
                16777216 * (m * b - a * p) <= a * p,
                k == 16777216,
        ;
        let w = (2 * q - 1) * p;
        assert(w * k * (b * k) <= 200 * m * (k + 1) * (b * k)) by (nonlinear_arith)
            requires
                w * k <= 200 * m * (k + 1),
                b > 0,
                k == 16777216,
        ;
        assert(200 * m * (k + 1) * (b * k) == 200 * (k + 1) * (m * b * k)) by (nonlinear_arith);
        assert(200 * (k + 1) * (m * b * k) <= 200 * (k + 1) * (a * p * (k + 1))) by (nonlinear_arith)
            requires
                m * b * k <= a * p * (k + 1),
                k == 16777216,
        ;
        assert(w * k * (b * k) == p * ((2 * q - 1) * b * (k * k))) by (nonlinear_arith)
            requires
                w == (2 * q - 1) * p,
        ;
        assert(200 * (k + 1) * (a * p * (k + 1)) == p * (200 * ((k + 1) * (k + 1)) * a))
            by (nonlinear_arith);
        let left = (2 * q - 1) * b * (k * k);
        let right = 200 * ((k + 1) * (k + 1)) * a;
        assert(left <= right) by (nonlinear_arith)
            requires
                p * left <= p * right,
                p > 0,
        ;
        let kk: int = 281474976710656;
        let k1: int = 281475010265089;
        assert(k * k == kk && (k + 1) * (k + 1) == k1) by (nonlinear_arith)
            requires
                k == 16777216,
                kk == 281474976710656,
                k1 == 281475010265089,
        ;
        let odd = 2 * q - 1;
        assert(odd * b * kk <= 200 * k1 * a);
        assert(b * k >= d * (k - 1));
        assert(a * k <= n * (k + 1));
        assert(odd * (d * (k - 1)) <= odd * (b * k)) by (nonlinear_arith)
            requires
                b * k >= d * (k - 1),
                odd >= 0,
        ;
        let ob = odd * b;
        let od = odd * d;
        assert(odd * (b * k) == ob * k) by (nonlinear_arith)
            requires
                ob == odd * b,
        ;
        assert(odd * (d * (k - 1)) == od * (k - 1)) by (nonlinear_arith)
            requires
                od == odd * d,
        ;
        assert(ob * 281474976710656 <= 56295002053017800 * a) by (nonlinear_arith)
            requires
                odd * b * kk <= 200 * k1 * a,
                ob == odd * b,
                kk == 281474976710656,
                k1 == 281475010265089,
        ;
        assert(od * 16777215 <= ob * 16777216);
        assert(a * 16777216 <= n * 16777217);
        assert(od < 200 * n + d) by (nonlinear_arith)
            requires
                od * 16777215 <= ob * 16777216,
                ob * 281474976710656 <= 56295002053017800 * a,
                a * 16777216 <= n * 16777217,
                0 < n < d,
        ;
        assert(2 * (q * d) - d == od) by (nonlinear_arith)
            requires
                od == odd * d,
                odd == 2 * q - 1,
        ;
    } else {
        assert(q * d == 0) by (nonlinear_arith)
            requires
                q == 0,
        ;
    }
}

/// The same from below.
proof fn lemma_not_much_less(n: int, d: int, a: int, b: int, m: int, p: int, x: int, q: int)
    requires
        0 < n < d,
        0 < a,
        0 < b,
        0 <= m,
        0 < p,
        0 <= x,
        0 <= q,
        16777216 * (n - a) <= n,
        16777216 * (b - d) <= d,
        16777216 * (a * p - m * b) <= a * p,
        16777216 * (100 * m - x) <= 100 * m,
        2 * (x - q * p) <= p,
    ensures
        100 * n < q * d + d,
{
    let k: int = 16777216;
    let odd = 2 * q + 1;
    assert(odd * p >= 2 * x) by (nonlinear_arith)
        requires
            2 * (x - q * p) <= p,
            odd == 2 * q + 1,
    ;
    assert(x * k >= 100 * m * (k - 1));
    let w = odd * p;
    assert(w * k >= 200 * m * (k - 1)) by (nonlinear_arith)
        requires
            w >= 2 * x,
            x * k >= 100 * m * (k - 1),
            k == 16777216,
    ;
    assert(m * b * k >= a * p * (k - 1)) by (nonlinear_arith)
        requires
            16777216 * (a * p - m * b) <= a * p,
            k == 16777216,
    ;
    assert(w * k * (b * k) >= 200 * m * (k - 1) * (b * k)) by (nonlinear_arith)
        requires
            w * k >= 200 * m * (k - 1),
            b > 0,
            k == 16777216,
    ;
    assert(200 * m * (k - 1) * (b * k) == 200 * (k - 1) * (m * b * k)) by (nonlinear_arith);
    assert(200 * (k - 1) * (m * b * k) >= 200 * (k - 1) * (a * p * (k - 1))) by (nonlinear_arith)
        requires
            m * b * k >= a * p * (k - 1),
            k == 16777216,
    ;
    assert(w * k * (b * k) == p * (odd * b * (k * k))) by (nonlinear_arith)
        requires
            w == odd * p,
    ;
    assert(200 * (k - 1) * (a * p * (k - 1)) == p * (200 * ((k - 1) * (k - 1)) * a))
        by (nonlinear_arith);
    let left = odd * b * (k * k);
    let right = 200 * ((k - 1) * (k - 1)) * a;
    assert(left >= right) by (nonlinear_arith)
        requires
            p * left >= p * right,
            p > 0,
    ;
    let kk: int = 281474976710656;
    let k1: int = 281474943156225;
    assert(k * k == kk && (k - 1) * (k - 1) == k1) by (nonlinear_arith)
        requires
            k == 16777216,
            kk == 281474976710656,
            k1 == 281474943156225,
    ;
    assert(b * k <= d * (k + 1));
    assert(a * k >= n * (k - 1));
    let ob = odd * b;
    let od = odd * d;
    assert(odd * (d * (k + 1)) >= odd * (b * k)) by (nonlinear_arith)
        requires
            b * k <= d * (k + 1),
            odd >= 0,
    ;
    assert(odd * (b * k) == ob * k) by (nonlinear_arith)
        requires
            ob == odd * b,
    ;
    assert(odd * (d * (k + 1)) == od * (k + 1)) by (nonlinear_arith)
        requires
            od == odd * d,
    ;
    assert(ob * 281474976710656 >= 56294988631245000 * a) by (nonlinear_arith)
        requires
            odd * b * kk >= 200 * k1 * a,
            ob == odd * b,
            kk == 281474976710656,
            k1 == 281474943156225,
    ;
    assert(od * 16777217 >= ob * 16777216);
    assert(a * 16777216 >= n * 16777215);
    assert(200 * n < od + d);
    assert(2 * (q * d) + d == od) by (nonlinear_arith)
        requires
            od == odd * d,
            odd == 2 * q + 1,
    ;
}

/// A share in percent is that of the two numbers: it is less than one percent off, whatever
/// single precision loses. Nothing is zero percent.
pub proof fn percent_is_of_the_share(n: u64, d: u64)
    requires
        n < d,
    ensures
        single_percent(n as nat, d as nat) * d < 100 * n + d,
        100 * n < single_percent(n as nat, d as nat) * d + d,
        n == 0 ==> single_percent(n as nat, d as nat) == 0,
        single_percent(n as nat, d as nat) <= 100,
{
    let q = single_percent(n as nat, d as nat);
    if n > 0 {
        let a = single(n as nat);
        let b = single(d as nat);
        lemma_single_is_near(n as nat);
        lemma_single_is_near(d as nat);
        lemma_single_top(d as nat);
        let s = single_doublings(a, b, 0);
        let p = pow2(s);
        lemma_pow2_pos(s);
        lemma_single_doublings(a, b, 0);
        let m = single_significand(a, b);
        rounding_gives_the_nearest(a * p, b);
        lemma_significand_is_small(a, b);
        lemma_single_is_near(m * 100);
        let x = single(m * 100);
        rounding_gives_the_nearest(x, p);
        assert(q == round_even(x, p));
        lemma_not_much_more(
            n as int,
            d as int,
            a as int,
            b as int,
            m as int,
            p as int,
            x as int,
            q as int,
        );
        lemma_not_much_less(
            n as int,
            d as int,
            a as int,
            b as int,
            m as int,
            p as int,
            x as int,
            q as int,
        );
    } else {
        assert(q * d == 0) by (nonlinear_arith)
            requires
                q == 0,
        ;
    }
    assert(q <= 100) by (nonlinear_arith)
        requires
            q * d < 100 * n + d,
            n < d,
            d > 0,
    ;
}

/// No 64-bit number is rounded past 2^64.
proof fn lemma_single_top(n: nat)
    requires
        0 < n < 0x1_0000_0000_0000_0000,
    ensures
        0 < single(n) <= 0x1_0000_0000_0000_0000,
{
    lemma_single_is_near(n);
    lemma_halvings(n, 0);
    let h = halvings(n, 0);
    let p = pow2(h);
    rounding_gives_the_nearest(n, p);
    let top: nat = 0x1_0000_0000_0000_0000;
    if single(n) > top {
        lemma_pow2_divides_top(h, n);
        let q = round_even(n, p);
        let t = top / p;
        assert(t * p == top) by (nonlinear_arith)
            requires
                top % p == 0,
                t == top / p,
                p > 0,
        ;
        assert(q >= t + 1) by (nonlinear_arith)
            requires
                q * p > t * p,
                p > 0,
        ;
        assert(q * p >= t * p + p) by (nonlinear_arith)
            requires
                q >= t + 1,
                p > 0,
        ;
    }
}

proof fn lemma_pow2_divides_top(h: nat, n: nat)
    requires
        n < 0x1_0000_0000_0000_0000,
        h > 0 ==> n >= 0x80_0000 * pow2(h),
    ensures
        0x1_0000_0000_0000_0000nat % pow2(h) == 0,
{
    lemma2_to64();
    lemma2_to64_rest();
    if h > 64 {
        lemma_pow2_strictly_increases(64, h);
    } else {
        lemma_pow2_adds(h, (64 - h) as nat);
        lemma_pow2_pos(h);
        let p = pow2(h);
        let r = pow2((64 - h) as nat);
        assert((r * p) % p == 0) by (nonlinear_arith)
            requires
                p > 0,
        ;
        assert(p * r == r * p) by (nonlinear_arith);
    }
}

proof fn lemma_significand_is_small(a: nat, b: nat)
    requires
        0 < a <= 4 * b,
        0 < b <= 0x1_0000_0000_0000_0000,
    ensures
        single_significand(a, b) <= 0x100_0000 + 1,
{
    let s = single_doublings(a, b, 0);
    lemma2_to64();
    lemma_below_twice(a, b, 0);
    let p = pow2(s);
    rounding_gives_the_nearest(a * p, b);
    let m = single_significand(a, b);
    assert(m <= 0x100_0000 + 1) by (nonlinear_arith)
        requires
            2 * (m * b - a * p) <= b,
            a * p < b * 0x100_0000,
            b > 0,
    ;
}

proof fn lemma_below_twice(a: nat, b: nat, s: nat)
    requires
        0 < b,
        a * pow2(s) < b * 0x100_0000,
    ensures
        a * pow2(single_doublings(a, b, s)) < b * 0x100_0000,
    decreases 88 - s,
{
    if s < 88 && a * pow2(s) < b * 0x80_0000 {
        lemma_pow2_unfold(s + 1);
        assert(a * pow2(s + 1) == 2 * (a * pow2(s))) by (nonlinear_arith)
            requires
                pow2(s + 1) == 2 * pow2(s),
        ;
        lemma_below_twice(a, b, s + 1);
    }
}

} // verus!
