//! Numbers that are read and written.

use vstd::prelude::*;

use vstd::arithmetic::power2::pow2;

use crate::rounding::{
    bit_length, excess_bits, lemma_bit_length_bounds, lemma_round_exact, lemma_round_scale, lemma_bit_length_scaled,
    nearest_double, quotient_hundredths, round_half_even, second_hundredths,
};
use crate::settings::{digits_value, joined_path, request_size, signed_number, unsigned_number};
use crate::units::{bytes_text, decimal, duration_text, two_places};

verus! {

/// Whether a text is one decimal digit or more.
pub open spec fn is_number(s: Seq<char>) -> bool {
    s.len() > 0 && forall|i: int| 0 <= i < s.len() ==> '0' <= #[trigger] s[i] <= '9'
}

/// A further digit makes a number ten times as large and adds itself.
pub proof fn law_digits(s: Seq<char>, c: char)
    ensures
        digits_value(Seq::<char>::empty()) == 0,
        digits_value(s.push(c)) == 10 * digits_value(s) + (c as int - '0' as int),
{
    assert(s.push(c).drop_last() =~= s);
}

/// An unsigned number is read where it is made of digits, behind one `+` or none, and is
/// not too large; its value is that of the digits.
pub proof fn law_unsigned_number(digits: Seq<char>, limit: int)
    ensures
        is_number(digits) && digits_value(digits) <= limit ==> unsigned_number(digits, limit)
            == Some(digits_value(digits)) && unsigned_number(seq!['+'] + digits, limit) == Some(
            digits_value(digits),
        ),
        is_number(digits) && digits_value(digits) > limit ==> unsigned_number(digits, limit) is None
            && unsigned_number(seq!['+'] + digits, limit) is None,
        !is_number(digits) ==> unsigned_number(seq!['+'] + digits, limit) is None,
        !is_number(digits) && (digits.len() == 0 || digits[0] != '+') ==> unsigned_number(
            digits,
            limit,
        ) is None,
{
    assert((seq!['+'] + digits).skip(1) =~= digits);
    if is_number(digits) {
        assert('0' <= digits[0] <= '9');
        assert forall|i: int| 0 <= i < digits.len() implies crate::settings::is_digit(
            #[trigger] digits[i],
        ) by {}
    } else if digits.len() > 0 {
        let i = choose|i: int| 0 <= i < digits.len() && !('0' <= #[trigger] digits[i] <= '9');
        assert(!crate::settings::is_digit(digits[i]));
    }
}

/// A signed number is read in the same way, with `-` for a negative one, where it has at
/// most 32 bits.
pub proof fn law_signed_number(digits: Seq<char>, s: Seq<char>)
    ensures
        is_number(digits) && digits_value(digits) <= 0x8000_0000 ==> signed_number(
            seq!['-'] + digits,
        ) == Some(-digits_value(digits)),
        is_number(digits) && digits_value(digits) > 0x8000_0000 ==> signed_number(
            seq!['-'] + digits,
        ) is None,
        !is_number(digits) ==> signed_number(seq!['-'] + digits) is None,
        s.len() == 0 || s[0] != '-' ==> signed_number(s) == unsigned_number(s, 0x7fff_ffff),
{
    assert((seq!['-'] + digits).skip(1) =~= digits);
    if is_number(digits) {
        assert forall|i: int| 0 <= i < digits.len() implies crate::settings::is_digit(
            #[trigger] digits[i],
        ) by {}
    } else if digits.len() > 0 {
        let i = choose|i: int| 0 <= i < digits.len() && !('0' <= #[trigger] digits[i] <= '9');
        assert(!crate::settings::is_digit(digits[i]));
    }
}

/// The size limit of a request is the number that is set, and one gibibyte where none is.
pub proof fn law_request_size(text: Seq<char>)
    ensures
        request_size(None) == 1024 * 1024 * 1024,
        unsigned_number(text, usize::MAX as int) is None ==> request_size(Some(text)) == 1024 * 1024
            * 1024,
        unsigned_number(text, usize::MAX as int) is Some ==> request_size(Some(text))
            == unsigned_number(text, usize::MAX as int)->0,
{
}

/// A name in a directory stands behind it and one slash, and an absolute one stands alone.
pub proof fn law_path_in_a_directory(dir: Seq<char>, name: Seq<char>)
    ensures
        joined_path(dir, seq!['/'] + name) == seq!['/'] + name,
        name.len() == 0 || name[0] != '/' ==> {
            &&& joined_path(dir.push('/'), name) == dir.push('/') + name
            &&& dir.len() > 0 && dir.last() != '/' ==> joined_path(dir, name) == dir.push('/')
                + name
            &&& joined_path(Seq::<char>::empty(), name) == name
        },
{
    assert(Seq::<char>::empty() + name =~= name);
}

/// The decimal notation of a number is made of digits, without a zero in front, and reads
/// back as the number.
pub proof fn law_decimal_reads_back(n: int)
    requires
        n >= 0,
    ensures
        is_number(decimal(n)),
        digits_value(decimal(n)) == n,
        n > 0 ==> decimal(n)[0] != '0',
        n == 0 ==> decimal(n) == seq!['0'],
    decreases n,
{
    if n < 10 {
        let c = (0x30 + n) as char;
        law_digits(Seq::empty(), c);
        assert(Seq::<char>::empty().push(c) =~= seq![c]);
    } else {
        law_decimal_reads_back(n / 10);
        let c = (0x30 + n % 10) as char;
        law_digits(decimal(n / 10), c);
        assert forall|i: int| 0 <= i < decimal(n).len() implies '0' <= #[trigger] decimal(n)[i]
            <= '9' by {
            if i < decimal(n / 10).len() {
                assert(decimal(n)[i] == decimal(n / 10)[i]);
            }
        }
    }
}

/// Two decimals are written behind the point, always both.
pub proof fn law_two_places(whole: int, tens: int, ones: int)
    requires
        whole >= 0,
        0 <= tens < 10,
        0 <= ones < 10,
    ensures
        two_places(100 * whole + 10 * tens + ones) == decimal(whole).push('.') + decimal(tens)
            + decimal(ones),
{
    let h = 100 * whole + 10 * tens + ones;
    assert(h / 100 == whole);
    assert(h / 10 == 10 * whole + tens);
    assert(h / 10 % 10 == tens);
    assert(h % 10 == ones);
    assert(two_places(h) =~= decimal(whole).push('.') + decimal(tens) + decimal(ones));
}

/// A size is written in bytes below one kilobyte, in kilobytes below one megabyte, and
/// else in megabytes, each of them 1024 of the one before.
pub proof fn law_units_of_size(bytes: int)
    ensures
        bytes < 1024 ==> bytes_text(bytes) == decimal(bytes) + " B"@,
        1024 <= bytes < 1048576 ==> bytes_text(bytes) == two_places(
            quotient_hundredths(bytes, 1024),
        ) + " KB"@,
        1048576 <= bytes ==> bytes_text(bytes) == two_places(quotient_hundredths(bytes, 1048576))
            + " MB"@,
{
}

/// A time span is written in whole milliseconds below one second, and else in seconds.
pub proof fn law_units_of_time(secs: int, millis: int, nanos: int)
    requires
        0 <= nanos < 1_000_000,
    ensures
        secs <= 0 ==> duration_text(secs, 1_000_000 * millis + nanos) == decimal(millis) + "ms"@,
        secs > 0 ==> duration_text(secs, nanos) == two_places(second_hundredths(secs, nanos))
            + "s"@,
{
    assert((1_000_000 * millis + nanos) / 1_000_000 == millis);
}

/// A rounded quotient is at most one half away from the quotient, and even where it is just
/// that.
pub proof fn law_rounding_is_to_the_nearest(a: int, b: int)
    requires
        a >= 0,
        b > 0,
    ensures
        ({
            let r = round_half_even(a, b);
            &&& -b <= 2 * (r * b - a) <= b
            &&& 2 * (r * b - a) == b || 2 * (r * b - a) == -b ==> r % 2 == 0
        }),
{
    let q = a / b;
    let m = a % b;
    vstd::arithmetic::div_mod::lemma_fundamental_div_mod(a, b);
    assert(q * b == b * q) by (nonlinear_arith);
    assert((q + 1) * b == b * q + b) by (nonlinear_arith);
}

/// How many binary digits a number has.
pub proof fn law_binary_digits(n: int)
    ensures
        n <= 0 ==> bit_length(n) == 0,
        n > 0 ==> bit_length(n) > 0 && pow2((bit_length(n) - 1) as nat) <= n < pow2(bit_length(n)),
        bit_length(n) <= 53 ==> excess_bits(n) == 0,
        bit_length(n) > 53 ==> excess_bits(n) == bit_length(n) - 53,
{
    if n > 0 {
        lemma_bit_length_bounds(n);
    }
}

/// The double for a quotient is the nearest that its binary digits allow, and the even one
/// of two.
pub proof fn law_double_is_the_nearest(num: int, den: int)
    requires
        num >= 0,
        den > 0,
    ensures
        ({
            let scaled = num * pow2(82);
            let step = pow2(excess_bits(scaled / den)) as int;
            let units = nearest_double(num, den);
            exists|k: int| #[trigger]
                (k * step) == units && -(den * step) <= 2 * (k * (den * step) - scaled) <= den
                    * step && (2 * (k * (den * step) - scaled) == den * step || 2 * (k * (den
                    * step) - scaled) == -(den * step) ==> k % 2 == 0)
        }),
{
    let scaled = num * pow2(82);
    let e = excess_bits(scaled / den);
    let step = pow2(e) as int;
    vstd::arithmetic::power2::lemma_pow2_pos(e);
    vstd::arithmetic::power2::lemma_pow2_pos(82);
    let p = pow2(82) as int;
    assert(num * p >= 0) by (nonlinear_arith)
        requires
            num >= 0,
            p > 0,
    ;
    assert(den * step > 0) by (nonlinear_arith)
        requires
            den > 0,
            step > 0,
    ;
    law_rounding_is_to_the_nearest(scaled, den * step);
    let k = round_half_even(scaled, den * step);
    assert(k * step == nearest_double(num, den));
}

proof fn lemma_small_integer(n: int)
    requires
        0 <= n < 0x20_0000_0000_0000,
    ensures
        nearest_double(n, 1) == n * pow2(82),
{
    let p = pow2(82) as int;
    vstd::arithmetic::power2::lemma2_to64();
    vstd::arithmetic::power2::lemma2_to64_rest();
    vstd::arithmetic::power2::lemma_pow2_pos(82);
    assert(n * p / 1 == n * p);
    if n == 0 {
        assert(0 * p == 0) by (nonlinear_arith);
        assert(bit_length(0) == 0);
        lemma_round_exact(0, 1);
    } else {
        lemma_bit_length_scaled(n, 0);
        lemma_bit_length_bounds(n);
        let bits = bit_length(n);
        if bits > 53 {
            if bits - 1 > 53 {
                vstd::arithmetic::power2::lemma_pow2_strictly_increases(53, (bits - 1) as nat);
            }
        }
        let e = excess_bits(n * p);
        assert(e == bits + 29);
        vstd::arithmetic::power2::lemma_pow2_adds(e, (53 - bits) as nat);
        vstd::arithmetic::power2::lemma_pow2_pos(e);
        let step = pow2(e) as int;
        let d = pow2((53 - bits) as nat) as int;
        assert(n * p == (n * d) * step) by (nonlinear_arith)
            requires
                p == step * d,
        ;
        lemma_round_exact(n * d, step);
    }
}

/// The hundredths that are shown of a size are at most one half away from what it is, and
/// even where they are just that, for every size below 2^53 bytes.
pub proof fn law_size_is_shown_to_the_nearest(n: int, den: int)
    requires
        0 <= n < 0x20_0000_0000_0000,
        den > 0,
    ensures
        ({
            let h = quotient_hundredths(n, den);
            &&& -den <= 2 * (h * den - 100 * n) <= den
            &&& 2 * (h * den - 100 * n) == den || 2 * (h * den - 100 * n) == -den ==> h % 2 == 0
        }),
{
    let p = pow2(82) as int;
    vstd::arithmetic::power2::lemma_pow2_pos(82);
    lemma_small_integer(n);
    assert(100 * (n * p) == (100 * n) * p) by (nonlinear_arith);
    assert(p * den == den * p) by (nonlinear_arith);
    lemma_round_scale(100 * n, den, p);
    law_rounding_is_to_the_nearest(100 * n, den);
}

/// The hundredths that are shown of any size are the nearest to those of the double for it.
pub proof fn law_size_is_shown_as_its_double(n: int, den: int)
    requires
        n >= 0,
        den > 0,
    ensures
        ({
            let whole = pow2(82) * den;
            let held = nearest_double(n, 1);
            let h = quotient_hundredths(n, den);
            &&& -whole <= 2 * (h * whole - 100 * held) <= whole
            &&& 2 * (h * whole - 100 * held) == whole || 2 * (h * whole - 100 * held) == -whole
                ==> h % 2 == 0
        }),
{
    let p = pow2(82) as int;
    vstd::arithmetic::power2::lemma_pow2_pos(82);
    assert(p * den > 0) by (nonlinear_arith)
        requires
            p > 0,
            den > 0,
    ;
    lemma_double_is_positive(n, 1);
    law_rounding_is_to_the_nearest(100 * nearest_double(n, 1), p * den);
}

/// The hundredths that are shown of a time span are the nearest to those of the double for
/// it, which is the nearest to the sum of the doubles for its seconds and for the rest.
pub proof fn law_time_is_shown_to_the_nearest(secs: int, nanos: int)
    requires
        secs >= 0,
        nanos >= 0,
    ensures
        ({
            let unit = pow2(82) as int;
            let sum = nearest_double(secs, 1) + nearest_double(nanos, 1_000_000_000);
            let held = nearest_double(sum, unit);
            let h = second_hundredths(secs, nanos);
            &&& -unit <= 2 * (h * unit - 100 * held) <= unit
            &&& 2 * (h * unit - 100 * held) == unit || 2 * (h * unit - 100 * held) == -unit ==> h
                % 2 == 0
        }),
{
    let unit = pow2(82) as int;
    vstd::arithmetic::power2::lemma_pow2_pos(82);
    let sum = nearest_double(secs, 1) + nearest_double(nanos, 1_000_000_000);
    lemma_double_is_positive(secs, 1);
    lemma_double_is_positive(nanos, 1_000_000_000);
    lemma_double_is_positive(sum, unit);
    law_rounding_is_to_the_nearest(100 * nearest_double(sum, unit), unit);
}

proof fn lemma_double_is_positive(num: int, den: int)
    requires
        num >= 0,
        den > 0,
    ensures
        nearest_double(num, den) >= 0,
{
    let p = pow2(82) as int;
    let scaled = num * p;
    let e = excess_bits(scaled / den);
    let step = pow2(e) as int;
    vstd::arithmetic::power2::lemma_pow2_pos(e);
    vstd::arithmetic::power2::lemma_pow2_pos(82);
    assert(scaled >= 0) by (nonlinear_arith)
        requires
            scaled == num * p,
            num >= 0,
            p > 0,
    ;
    assert(den * step > 0) by (nonlinear_arith)
        requires
            den > 0,
            step > 0,
    ;
    let q = scaled / (den * step);
    assert(q >= 0) by (nonlinear_arith)
        requires
            q == scaled / (den * step),
            scaled >= 0,
            den * step > 0,
    ;
    let r = round_half_even(scaled, den * step);
    assert(r * step >= 0) by (nonlinear_arith)
        requires
            r >= 0,
            step > 0,
    ;
}

} // verus!
