//! Quotients rounded as binary floating point rounds them, in integer arithmetic.
//!
//! A double is a whole multiple of a power of two. Here it is written as the
//! number of units of 2^-82 that it holds: every double that is zero or at least
//! 2^-30 is a whole number of them.

use vstd::prelude::*;
use vstd::arithmetic::power2::pow2;

verus! {

/// The quotient `a / b` rounded to the nearest integer, a tie to the even one.
pub open spec fn round_half_even(a: int, b: int) -> int {
    let q = a / b;
    let r = a % b;
    if 2 * r > b || (2 * r == b && q % 2 == 1) {
        q + 1
    } else {
        q
    }
}

/// The number of binary digits of `n`.
pub open spec fn bit_length(n: int) -> nat
    decreases n,
{
    if n <= 0 {
        0
    } else {
        1 + bit_length(n / 2)
    }
}

/// How many low binary digits of `n` a significand of 53 digits leaves out.
pub open spec fn excess_bits(n: int) -> nat {
    if bit_length(n) > 53 {
        (bit_length(n) - 53) as nat
    } else {
        0
    }
}

/// The double nearest to `num / den`, a tie to the even significand, in units of
/// 2^-82, for a quotient that is zero or at least 2^-30.
pub open spec fn nearest_double(num: int, den: int) -> int {
    let scaled = num * pow2(82);
    let step = pow2(excess_bits(scaled / den));
    round_half_even(scaled, den * step) * step
}

/// Scaling both sides of a quotient does not change how it is rounded.
pub proof fn lemma_round_scale(a: int, b: int, k: int)
    requires
        a >= 0,
        b > 0,
        k > 0,
    ensures
        round_half_even(a * k, b * k) == round_half_even(a, b),
{
    let q = a / b;
    let r = a % b;
    vstd::arithmetic::div_mod::lemma_fundamental_div_mod(a, b);
    assert(a * k == q * (b * k) + r * k) by (nonlinear_arith)
        requires
            a == b * q + r,
    ;
    assert(0 <= r * k < b * k) by (nonlinear_arith)
        requires
            0 <= r < b,
            k > 0,
    ;
    vstd::arithmetic::div_mod::lemma_fundamental_div_mod_converse(a * k, b * k, q, r * k);
    assert((2 * r > b) == (2 * (r * k) > b * k)) by (nonlinear_arith)
        requires
            k > 0,
    ;
    assert((2 * r == b) == (2 * (r * k) == b * k)) by (nonlinear_arith)
        requires
            k > 0,
    ;
}

/// A whole quotient is not changed by rounding.
pub proof fn lemma_round_exact(a: int, b: int)
    requires
        b > 0,
    ensures
        round_half_even(a * b, b) == a,
{
    vstd::arithmetic::div_mod::lemma_fundamental_div_mod_converse(a * b, b, a, 0);
}

/// Between which powers of two a number of so many binary digits lies.
pub proof fn lemma_bit_length_bounds(n: int)
    requires
        n > 0,
    ensures
        bit_length(n) > 0,
        pow2((bit_length(n) - 1) as nat) <= n < pow2(bit_length(n)),
    decreases n,
{
    vstd::arithmetic::power2::lemma_pow2_unfold(bit_length(n));
    if n == 1 {
        assert(bit_length(0) == 0);
        assert(bit_length(1) == 1);
        vstd::arithmetic::power2::lemma2_to64();
    } else {
        lemma_bit_length_bounds(n / 2);
        vstd::arithmetic::power2::lemma_pow2_unfold(bit_length(n / 2));
    }
}

proof fn lemma_bit_length_is(n: int, b: nat)
    requires
        b > 0,
        pow2((b - 1) as nat) <= n < pow2(b),
    ensures
        bit_length(n) == b,
{
    vstd::arithmetic::power2::lemma_pow2_pos((b - 1) as nat);
    lemma_bit_length_bounds(n);
    let l = bit_length(n);
    if l < b {
        if l < b - 1 {
            vstd::arithmetic::power2::lemma_pow2_strictly_increases(l, (b - 1) as nat);
        }
    } else if b < l {
        if b < l - 1 {
            vstd::arithmetic::power2::lemma_pow2_strictly_increases(b, (l - 1) as nat);
        }
    }
}

/// Scaling by 2^82, and adding less than that, adds 82 binary digits.
pub proof fn lemma_bit_length_scaled(n: int, low: int)
    requires
        n > 0,
        0 <= low < pow2(82),
    ensures
        bit_length(n * pow2(82) + low) == bit_length(n) + 82,
{
    let b = bit_length(n);
    lemma_bit_length_bounds(n);
    vstd::arithmetic::power2::lemma_pow2_adds((b - 1) as nat, 82);
    vstd::arithmetic::power2::lemma_pow2_adds(b, 82);
    let p = pow2(82) as int;
    let lo = pow2((b - 1) as nat) as int;
    let hi = pow2(b) as int;
    assert(lo * p <= n * p + low < hi * p) by (nonlinear_arith)
        requires
            lo <= n,
            n + 1 <= hi,
            0 <= low < p,
    ;
    lemma_bit_length_is(n * pow2(82) + low, b + 82);
}

/// The number of binary digits of `n`.
fn count_bits(n: u128) -> (r: u32)
    ensures
        r == bit_length(n as int),
        r <= 128,
{
    let mut m: u128 = n;
    let mut r: u32 = 0;
    proof {
        vstd::arithmetic::power2::lemma_pow2_unfold(128);
        vstd::arithmetic::power2::lemma2_to64();
        vstd::arithmetic::power2::lemma2_to64_rest();
        vstd::arithmetic::power2::lemma_pow2_adds(64, 64);
        lemma_bit_length_at_most(n as int, 128);
    }
    while m > 0
        invariant
            bit_length(n as int) == r + bit_length(m as int),
            bit_length(n as int) <= 128,
        decreases m,
    {
        m = m / 2;
        r = r + 1;
    }
    r
}

proof fn lemma_bit_length_at_most(n: int, b: nat)
    requires
        n < pow2(b),
    ensures
        bit_length(n) <= b,
{
    if n > 0 {
        lemma_bit_length_bounds(n);
        let l = bit_length(n);
        if b < l - 1 {
            vstd::arithmetic::power2::lemma_pow2_strictly_increases(b, (l - 1) as nat);
        }
    }
}

/// Two to the power `e`.
fn power_of_two(e: u32) -> (r: u128)
    requires
        e < 128,
    ensures
        r == pow2(e as nat),
        r > 0,
{
    let mut r: u128 = 1;
    let mut i: u32 = 0;
    proof {
        vstd::arithmetic::power2::lemma2_to64();
    }
    while i < e
        invariant
            i <= e < 128,
            r == pow2(i as nat),
            r > 0,
        decreases e - i,
    {
        proof {
            vstd::arithmetic::power2::lemma_pow2_unfold((i + 1) as nat);
            if i + 1 < 127 {
                vstd::arithmetic::power2::lemma_pow2_strictly_increases((i + 1) as nat, 127);
            }
            vstd::arithmetic::power2::lemma2_to64_rest();
            vstd::arithmetic::power2::lemma2_to64();
            vstd::arithmetic::power2::lemma_pow2_adds(63, 64);
        }
        r = r * 2;
        i = i + 1;
    }
    r
}

/// `a / b` rounded to the nearest integer, a tie to the even one.
pub fn rounded_quotient(a: u128, b: u128) -> (r: u128)
    requires
        b > 0,
        a <= u128::MAX / 2,
        b <= u128::MAX / 2,
    ensures
        r == round_half_even(a as int, b as int),
        r <= a + 1,
{
    let q: u128 = a / b;
    let m: u128 = a % b;
    proof {
        assert(q <= a) by (nonlinear_arith)
            requires
                q == a / b,
                b > 0,
        ;
    }
    if 2 * m > b || (2 * m == b && q % 2 == 1) {
        q + 1
    } else {
        q
    }
}

/// The value of an integer as a double: `r` with `r * 2^82` units.
pub fn integer_as_double(n: u64) -> (r: u128)
    ensures
        r * pow2(82) == nearest_double(n as int, 1),
        r <= 0x1_0000_0000_0000_0000,
        n < 0x20_0000_0000_0000 ==> r == n,
        (r as int) % (pow2(excess_bits(r as int)) as int) == 0,
        n == 0 <==> r == 0,
{
    let bits: u32 = count_bits(n as u128);
    let ghost p = pow2(82) as int;
    proof {
        vstd::arithmetic::power2::lemma2_to64();
        vstd::arithmetic::power2::lemma2_to64_rest();
        vstd::arithmetic::power2::lemma_pow2_pos(82);
        lemma_bit_length_at_most(n as int, 64);
        assert(n * p / 1 == n * p);
    }
    if bits <= 53 {
        proof {
            assert(pow2(0) == 1);
            if n == 0 {
                assert(0 * p == 0) by (nonlinear_arith);
                assert(bit_length(0) == 0);
                lemma_round_exact(0, 1);
            } else {
                lemma_bit_length_scaled(n as int, 0);
                let e = excess_bits(n * p);
                assert(e == bits + 29);
                vstd::arithmetic::power2::lemma_pow2_adds(e, (53 - bits) as nat);
                vstd::arithmetic::power2::lemma_pow2_pos(e);
                let step = pow2(e) as int;
                let d = pow2((53 - bits) as nat) as int;
                assert(n * p == (n * d) * step) by (nonlinear_arith)
                    requires
                        p == step * d,
                ;
                lemma_round_exact(n * d, step);
            }
            if n >= 0x20_0000_0000_0000 {
                lemma_bit_length_bounds(n as int);
                if bits < 53 {
                    vstd::arithmetic::power2::lemma_pow2_strictly_increases(bits as nat, 53);
                }
            }
        }
        n as u128
    } else {
        let low: u32 = bits - 53;
        let step: u128 = power_of_two(low);
        proof {
            lemma_bit_length_scaled(n as int, 0);
            vstd::arithmetic::power2::lemma_pow2_adds(82, low as nat);
            lemma_bit_length_bounds(n as int);
            if low < 11 {
                vstd::arithmetic::power2::lemma_pow2_strictly_increases(low as nat, 11);
            }
            lemma_round_scale(n as int, step as int, p);
            assert(excess_bits(n * p) == 82 + low);
            assert(p * step == step * p) by (nonlinear_arith);
        }
        let q: u128 = rounded_quotient(n as u128, step);
        proof {
            lemma_significand(n, bits as nat, step as int);
            let s = step as int;
            assert(q * s * p == q * (p * s)) by (nonlinear_arith);
        }
        q * step
    }
}

/// Rounding `n` to 53 binary digits gives a number of that many digits, or the
/// next power of two.
proof fn lemma_significand(n: u64, bits: nat, step: int)
    requires
        bits == bit_length(n as int),
        53 < bits <= 64,
        step == pow2((bits - 53) as nat),
    ensures
        ({
            let r = round_half_even(n as int, step) * step;
            &&& 0 < r <= 0x1_0000_0000_0000_0000
            &&& r % (pow2(excess_bits(r)) as int) == 0
            &&& n >= 0x20_0000_0000_0000
        }),
{
    let q = round_half_even(n as int, step);
    let r = q * step;
    vstd::arithmetic::power2::lemma2_to64();
    vstd::arithmetic::power2::lemma2_to64_rest();
    lemma_bit_length_bounds(n as int);
    vstd::arithmetic::power2::lemma_pow2_pos((bits - 53) as nat);
    vstd::arithmetic::power2::lemma_pow2_adds((bits - 53) as nat, 52);
    vstd::arithmetic::power2::lemma_pow2_adds((bits - 53) as nat, 53);
    if 53 < bits - 1 {
        vstd::arithmetic::power2::lemma_pow2_strictly_increases(53, (bits - 1) as nat);
    }
    if bits < 64 {
        vstd::arithmetic::power2::lemma_pow2_strictly_increases(bits, 64);
    }
    let lo = pow2(52) as int;
    let hi = pow2(53) as int;
    vstd::arithmetic::div_mod::lemma_fundamental_div_mod(n as int, step);
    let d = n as int / step;
    let m = n as int % step;
    assert(lo <= d < hi) by (nonlinear_arith)
        requires
            n == step * d + m,
            0 <= m < step,
            step * lo <= n < step * hi,
    ;
    assert(lo <= q <= hi);
    assert(lo * step <= r <= hi * step) by (nonlinear_arith)
        requires
            r == q * step,
            lo <= q <= hi,
            step > 0,
    ;
    assert(hi * step == pow2(bits)) by (nonlinear_arith)
        requires
            pow2(bits) == step * hi,
    ;
    assert(lo * step == pow2((bits - 1) as nat)) by (nonlinear_arith)
        requires
            pow2((bits - 1) as nat) == step * lo,
    ;
    vstd::arithmetic::power2::lemma_pow2_pos((bits - 1) as nat);
    if q < hi {
        assert(r < hi * step) by (nonlinear_arith)
            requires
                r == q * step,
                q < hi,
                step > 0,
        ;
        lemma_bit_length_is(r, bits);
        vstd::arithmetic::div_mod::lemma_fundamental_div_mod_converse(r, step, q, 0);
    } else {
        vstd::arithmetic::power2::lemma_pow2_unfold((bits + 1) as nat);
        lemma_bit_length_is(r, bits + 1);
        let e = (bits - 52) as nat;
        vstd::arithmetic::power2::lemma_pow2_adds(e, 52);
        vstd::arithmetic::power2::lemma_pow2_pos(e);
        let big = pow2(e) as int;
        assert(r == lo * big) by (nonlinear_arith)
            requires
                r == pow2(bits),
                pow2(bits) == big * lo,
        ;
        vstd::arithmetic::div_mod::lemma_fundamental_div_mod_converse(r, big, lo, 0);
    }
}

/// A billionth part as a double, in units of 2^-82.
pub fn billionths_as_double(nanos: u32) -> (r: u128)
    requires
        nanos < 1_000_000_000,
    ensures
        r == nearest_double(nanos as int, 1_000_000_000),
        r < pow2(82),
{
    let unit: u128 = power_of_two(82);
    proof {
        vstd::arithmetic::power2::lemma2_to64();
        vstd::arithmetic::power2::lemma2_to64_rest();
        vstd::arithmetic::power2::lemma_pow2_adds(64, 18);
    }
    assert(nanos * unit <= 1_000_000_000 * unit) by (nonlinear_arith)
        requires
            nanos < 1_000_000_000,
    ;
    let scaled: u128 = nanos as u128 * unit;
    let floor: u128 = scaled / 1_000_000_000;
    let bits: u32 = count_bits(floor);
    proof {
        lemma_bit_length_at_most(floor as int, 82);
    }
    let low: u32 = if bits > 53 { bits - 53 } else { 0 };
    let step: u128 = power_of_two(low);
    proof {
        if low < 29 {
            vstd::arithmetic::power2::lemma_pow2_strictly_increases(low as nat, 29);
        }
    }
    assert(1_000_000_000 <= 1_000_000_000 * step <= 1_000_000_000 * 0x2000_0000) by (nonlinear_arith)
        requires
            1 <= step <= 0x2000_0000,
    ;
    let q: u128 = rounded_quotient(scaled, 1_000_000_000 * step);
    proof {
        lemma_fraction_below_one(nanos as int, step as int, unit as int, low as nat);
    }
    q * step
}

/// Rounding keeps a fraction with nine decimals below one.
proof fn lemma_fraction_below_one(nanos: int, step: int, unit: int, low: nat)
    requires
        0 <= nanos < 1_000_000_000,
        step == pow2(low),
        low <= 29,
        unit == pow2(82),
    ensures
        round_half_even(nanos * unit, 1_000_000_000 * step) * step < unit,
        round_half_even(nanos * unit, 1_000_000_000 * step) >= 0,
{
    let b = 1_000_000_000 * step;
    let a = nanos * unit;
    let q = a / b;
    let m = a % b;
    vstd::arithmetic::power2::lemma2_to64();
    vstd::arithmetic::power2::lemma2_to64_rest();
    vstd::arithmetic::power2::lemma_pow2_pos(low);
    vstd::arithmetic::power2::lemma_pow2_adds(low, (82 - low) as nat);
    vstd::arithmetic::power2::lemma_pow2_adds(29, 53);
    vstd::arithmetic::power2::lemma_pow2_adds(53, 29);
    if low < 29 {
        vstd::arithmetic::power2::lemma_pow2_strictly_increases(low, 29);
    }
    assert(0 <= a <= 999_999_999 * unit) by (nonlinear_arith)
        requires
            a == nanos * unit,
            0 <= nanos <= 999_999_999,
            unit >= 0,
    ;
    vstd::arithmetic::div_mod::lemma_fundamental_div_mod(a, b);
    assert(b > 0);
    assert(q >= 0) by (nonlinear_arith)
        requires
            a == b * q + m,
            m < b,
            a >= 0,
            b > 0,
    ;
    let r = round_half_even(a, b);
    // The rounded quotient exceeds the exact one by less than one.
    assert(r * b <= a + b) by (nonlinear_arith)
        requires
            r <= q + 1,
            a == b * q + m,
            0 <= m,
            b > 0,
    ;
    assert(1_000_000_000 * (r * step) == r * b) by (nonlinear_arith)
        requires
            b == 1_000_000_000 * step,
    ;
    assert(1_000_000_000 * (r * step) <= 999_999_999 * unit + 1_000_000_000 * step);
    assert(step <= 0x2000_0000);
    assert(pow2(53) == 0x20_0000_0000_0000);
    assert(unit == 0x2000_0000 * 0x20_0000_0000_0000);
}

/// The hundredths that a decimal form with two places shows of a time span that
/// is held as a double number of seconds.
pub open spec fn second_hundredths(secs: int, nanos: int) -> int {
    let sum = nearest_double(secs, 1) + nearest_double(nanos, 1_000_000_000);
    round_half_even(100 * nearest_double(sum, pow2(82) as int), pow2(82) as int)
}

/// Computes `second_hundredths`.
pub fn hundredths_of_seconds(secs: u64, nanos: u32) -> (r: u128)
    requires
        0 < secs,
        nanos < 1_000_000_000,
    ensures
        r == second_hundredths(secs as int, nanos as int),
{
    let whole: u128 = integer_as_double(secs);
    let part: u128 = billionths_as_double(nanos);
    let ghost p = pow2(82) as int;
    proof {
        vstd::arithmetic::power2::lemma2_to64();
        vstd::arithmetic::power2::lemma2_to64_rest();
        vstd::arithmetic::power2::lemma_pow2_pos(82);
        lemma_bit_length_scaled(whole as int, part as int);
        let n = whole * p + part;
        assert(n >= 0) by (nonlinear_arith)
            requires
                n == whole * p + part,
                p > 0,
        ;
        vstd::arithmetic::div_mod::lemma_fundamental_div_mod_converse(n * p, p, n, 0);
        let e = excess_bits(n);
        assert(e == bit_length(whole as int) + 29);
        vstd::arithmetic::power2::lemma_pow2_pos(e);
        assert(p * pow2(e) == pow2(e) * p) by (nonlinear_arith);
        lemma_round_scale(n, pow2(e) as int, p);
        assert(nearest_double(n, p) == round_half_even(n, pow2(e) as int) * pow2(e));
    }
    let bits: u32 = count_bits(whole);
    if bits <= 53 {
        let free: u32 = 53 - bits;
        let low: u32 = bits + 29;
        let step: u128 = power_of_two(low);
        let lift: u128 = power_of_two(free);
        proof {
            vstd::arithmetic::power2::lemma_pow2_adds(low as nat, free as nat);
            lemma_bit_length_bounds(whole as int);
            vstd::arithmetic::power2::lemma_pow2_adds(bits as nat, free as nat);
            let l = lift as int;
            assert(whole * l < pow2(bits as nat) * l) by (nonlinear_arith)
                requires
                    whole < pow2(bits as nat),
                    l > 0,
            ;
            vstd::arithmetic::power2::lemma_pow2_adds(64, 18);
            assert(whole * l < 0x20_0000_0000_0000);
            assert(whole * l >= 0) by (nonlinear_arith)
                requires
                    l > 0,
            ;
            assert(part as int / step as int <= part) by (nonlinear_arith)
                requires
                    step > 0,
                    part >= 0,
            ;
        }
        let head: u128 = whole * lift + part / step;
        let rest: u128 = part % step;
        proof {
            let s = step as int;
            let l = lift as int;
            let n = whole * p + part;
            vstd::arithmetic::div_mod::lemma_fundamental_div_mod(part as int, s);
            assert(n == s * head + rest) by (nonlinear_arith)
                requires
                    n == whole * p + part,
                    p == s * l,
                    head == whole * l + part as int / s,
                    part == s * (part as int / s) + rest,
            ;
            vstd::arithmetic::div_mod::lemma_fundamental_div_mod_converse(n, s, head as int, rest as int);
        }
        let q: u128 = if 2 * rest > step || (2 * rest == step && head % 2 == 1) { head + 1 } else {
            head
        };
        proof {
            let s = step as int;
            let l = lift as int;
            assert(100 * (q * s) == (100 * q) * s) by (nonlinear_arith);
            assert(l * s == p) by (nonlinear_arith)
                requires
                    p == s * l,
            ;
            lemma_round_scale(100 * q as int, l, s);
        }
        rounded_quotient(100 * q, lift)
    } else {
        proof {
            let n = whole * p + part;
            let e = excess_bits(whole as int);
            let s = pow2(e) as int;
            let k = whole as int / s;
            vstd::arithmetic::power2::lemma_pow2_adds(e, 82);
            vstd::arithmetic::power2::lemma_pow2_pos(e);
            vstd::arithmetic::power2::lemma_pow2_unfold(e);
            vstd::arithmetic::power2::lemma_pow2_pos((e - 1) as nat);
            vstd::arithmetic::div_mod::lemma_fundamental_div_mod(whole as int, s);
            let step = pow2(e + 82) as int;
            assert(step >= 2 * p) by (nonlinear_arith)
                requires
                    step == s * p,
                    s >= 2,
                    p > 0,
            ;
            assert(n == step * k + part) by (nonlinear_arith)
                requires
                    n == whole * p + part,
                    whole == s * k,
                    step == s * p,
            ;
            vstd::arithmetic::div_mod::lemma_fundamental_div_mod_converse(n, step, k, part as int);
            assert(excess_bits(n) == e + 82);
            assert(round_half_even(n, step) == k);
            assert(k * step == whole * p) by (nonlinear_arith)
                requires
                    whole == s * k,
                    step == s * p,
            ;
            assert(100 * (whole * p) == (100 * whole) * p) by (nonlinear_arith);
            lemma_round_exact(100 * whole as int, p);
        }
        100 * whole
    }
}

/// The hundredths that a decimal form with two places shows of `n / den`, where
/// the quotient is computed in double precision and `den` is a power of two.
pub open spec fn quotient_hundredths(n: int, den: int) -> int {
    round_half_even(100 * nearest_double(n, 1), pow2(82) * den)
}

/// Computes `quotient_hundredths`.
pub fn hundredths_of_quotient(n: u64, den: u64) -> (r: u128)
    requires
        den > 0,
    ensures
        r == quotient_hundredths(n as int, den as int),
{
    let whole: u128 = integer_as_double(n);
    proof {
        let p = pow2(82) as int;
        vstd::arithmetic::power2::lemma_pow2_pos(82);
        assert(100 * (whole * p) == (100 * whole) * p) by (nonlinear_arith);
        assert(p * den == den * p) by (nonlinear_arith);
        lemma_round_scale(100 * whole as int, den as int, p);
    }
    rounded_quotient(100 * whole, den as u128)
}

} // verus!
