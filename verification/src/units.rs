//! Human-readable sizes and time spans.

use vstd::prelude::*;
use vstd::string::StringExecFns;

use crate::rounding::{hundredths_of_quotient, hundredths_of_seconds};

verus! {

/// The decimal digit `d`.
pub open spec fn digit(d: int) -> char {
    (0x30 + d) as char
}

/// `n` in decimal notation.
pub open spec fn decimal(n: int) -> Seq<char>
    decreases n,
{
    if n < 10 {
        seq![digit(n)]
    } else {
        decimal(n / 10).push(digit(n % 10))
    }
}

/// `h` hundredths in decimal notation with two places.
pub open spec fn two_places(h: int) -> Seq<char> {
    decimal(h / 100).push('.').push(digit(h / 10 % 10)).push(digit(h % 10))
}

/// What `format_bytes_length` returns.
pub open spec fn bytes_text(bytes: int) -> Seq<char> {
    if bytes < 1024 {
        decimal(bytes) + " B"@
    } else if bytes < 1024 * 1024 {
        two_places(crate::rounding::quotient_hundredths(bytes, 1024)) + " KB"@
    } else {
        two_places(crate::rounding::quotient_hundredths(bytes, 1024int * 1024)) + " MB"@
    }
}

/// What `format_duration` returns for a time span of `secs` seconds and `nanos`
/// billionths.
pub open spec fn duration_text(secs: int, nanos: int) -> Seq<char> {
    if secs > 0 {
        two_places(crate::rounding::second_hundredths(secs, nanos)) + "s"@
    } else {
        decimal(nanos / 1_000_000) + "ms"@
    }
}

/// The character of a digit.
fn digit_char(d: u8) -> (r: char)
    requires
        d < 10,
    ensures
        r == digit(d as int),
{
    (0x30 + d) as char
}

/// Appends `n` in decimal notation.
pub fn append_decimal(out: &mut String, n: u128)
    ensures
        final(out)@ == old(out)@ + decimal(n as int),
    decreases n,
{
    if n >= 10 {
        append_decimal(out, n / 10);
    }
    out.push(digit_char((n % 10) as u8));
    assert(out@ =~= old(out)@ + decimal(n as int));
}

/// Appends `h` hundredths in decimal notation with two places.
fn append_two_places(out: &mut String, h: u128)
    ensures
        final(out)@ == old(out)@ + two_places(h as int),
{
    append_decimal(out, h / 100);
    out.push('.');
    out.push(digit_char((h / 10 % 10) as u8));
    out.push(digit_char((h % 10) as u8));
    assert(out@ =~= old(out)@ + two_places(h as int));
}

/// A number of bytes as text: whole bytes below one kilobyte, then kilobytes and
/// megabytes with two places.
pub fn format_bytes_length(bytes: usize) -> (r: String)
    ensures
        r@ == bytes_text(bytes as int),
{
    let mut out = String::new();
    if bytes < 1024 {
        append_decimal(&mut out, bytes as u128);
        out.append(" B");
    } else if bytes < 1024 * 1024 {
        append_two_places(&mut out, hundredths_of_quotient(bytes as u64, 1024));
        out.append(" KB");
    } else {
        append_two_places(&mut out, hundredths_of_quotient(bytes as u64, 1024 * 1024));
        out.append(" MB");
    }
    assert(out@ =~= bytes_text(bytes as int));
    out
}

/// The whole seconds that a time span holds.
pub uninterp spec fn whole_seconds(duration: std::time::Duration) -> u64;

/// The billionths of a second that a time span holds beyond its whole seconds.
pub uninterp spec fn extra_nanoseconds(duration: std::time::Duration) -> u32;

/// `Duration::as_secs` gives the whole seconds of a time span.
pub assume_specification[ std::time::Duration::as_secs ](duration: &std::time::Duration) -> (r: u64)
    ensures
        r == whole_seconds(*duration),
;

/// `Duration::subsec_nanos` gives what a time span holds beyond its whole seconds,
/// in billionths, always fewer than a full second of them.
pub assume_specification[ std::time::Duration::subsec_nanos ](
    duration: &std::time::Duration,
) -> (r: u32)
    ensures
        r == extra_nanoseconds(*duration),
        r < 1_000_000_000,
;

/// A time span of `secs` seconds and `nanos` billionths as text: milliseconds
/// below one second, then seconds with two places.
pub fn format_seconds(secs: u64, nanos: u32) -> (r: String)
    requires
        nanos < 1_000_000_000,
    ensures
        r@ == duration_text(secs as int, nanos as int),
{
    let mut out = String::new();
    if secs > 0 {
        append_two_places(&mut out, hundredths_of_seconds(secs, nanos));
        out.append("s");
    } else {
        append_decimal(&mut out, (nanos / 1_000_000) as u128);
        out.append("ms");
    }
    assert(out@ =~= duration_text(secs as int, nanos as int));
    out
}

/// A time span as text.
pub fn format_duration(duration: std::time::Duration) -> (r: String)
    ensures
        r@ == duration_text(
            whole_seconds(duration) as int,
            extra_nanoseconds(duration) as int,
        ),
{
    format_seconds(duration.as_secs(), duration.subsec_nanos())
}

} // verus!
