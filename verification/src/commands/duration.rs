//! Durations as texts.

use crate::cache;
use crate::text;
use vstd::prelude::*;

verus! {

/// Two digits.
pub open spec fn two_digits(n: nat) -> Seq<char> {
    seq![text::digit_of(n / 10 % 10), text::digit_of(n % 10)]
}

/// A fraction of a billion, and a power of two, doubled until the fraction has 53
/// significant bits.
pub open spec fn scaled(n: nat, p: nat) -> (nat, nat)
    decreases 0x20_0000_0000_0000 * 1_000_000_000 - n,
{
    if n == 0 || n >= 0x10_0000_0000_0000 * 1_000_000_000 {
        (n, p)
    } else {
        scaled(2 * n, 2 * p)
    }
}

/// The number of parts of a second that numbers with 53 significant bits tell
/// apart next to `secs`.
pub open spec fn resolution(secs: nat) -> nat {
    if secs >= 32 {
        0x8000_0000_0000
    } else if secs >= 16 {
        0x1_0000_0000_0000
    } else if secs >= 8 {
        0x2_0000_0000_0000
    } else if secs >= 4 {
        0x4_0000_0000_0000
    } else if secs >= 2 {
        0x8_0000_0000_0000
    } else {
        0x10_0000_0000_0000
    }
}

/// Seconds and nanoseconds as a number with 53 significant bits, in parts of a
/// second: the fraction is rounded first, then the sum.
pub open spec fn parts_of_second(secs: nat, nanos: nat) -> nat {
    let (n, p) = scaled(0x10_0000_0000_0000 * nanos, 0x10_0000_0000_0000);
    let m = cache::rounded(n, 1_000_000_000);
    cache::rounded(secs * p + m, p / resolution(secs))
}

/// Seconds with two decimals.
pub open spec fn decimals(secs: nat, nanos: nat) -> nat {
    cache::rounded(100 * parts_of_second(secs, nanos), resolution(secs))
}

/// A duration: minutes and seconds, seconds with two decimals, or milliseconds.
pub open spec fn duration_text(secs: u64, nanos: u32) -> Seq<char> {
    if secs >= 60 {
        text::decimal((secs / 60) as nat) + "m "@ + two_digits((secs % 60) as nat) + "s"@
    } else if secs >= 1 {
        let h = decimals(secs as nat, nanos as nat);
        text::decimal(h / 100) + "."@ + two_digits(h % 100) + "s"@
    } else {
        text::decimal((nanos / 1_000_000) as nat) + "ms"@
    }
}

fn push_two_digits(out: &mut String, n: u128)
    requires
        n < 100,
    ensures
        final(out)@ == old(out)@ + two_digits(n as nat),
{
    let ghost before = out@;
    let tens: u8 = (n / 10) as u8 + 48;
    let ones: u8 = (n % 10) as u8 + 48;
    out.push(tens as char);
    out.push(ones as char);
    assert(out@ =~= before + two_digits(n as nat));
}

fn scale(nanos: u32) -> (r: (u128, u128))
    requires
        nanos < 1_000_000_000,
    ensures
        (r.0 as nat, r.1 as nat) == scaled(
            0x10_0000_0000_0000 * nanos as nat,
            0x10_0000_0000_0000,
        ),
        r.0 < 0x20_0000_0000_0000 * 1_000_000_000,
        0x10_0000_0000_0000 <= r.1 < 0x20_0000_0000_0000 * 1_000_000_000,
{
    let mut p: u128 = 0x10_0000_0000_0000;
    let mut n: u128 = p * (nanos as u128);
    let limit: u128 = 0x10_0000_0000_0000 * 1_000_000_000;
    while n != 0 && n < limit
        invariant
            limit == 0x10_0000_0000_0000 * 1_000_000_000,
            n < 2 * limit,
            0x10_0000_0000_0000 <= p < 2 * limit,
            n == nanos * p,
            scaled(n as nat, p as nat) == scaled(
                0x10_0000_0000_0000 * nanos as nat,
                0x10_0000_0000_0000,
            ),
        decreases 2 * limit - n,
    {
        assert(p <= n) by (nonlinear_arith)
            requires
                n == nanos * p,
                n != 0,
                p >= 0,
                nanos >= 0,
        ;
        assert(2 * n == nanos * (2 * p)) by (nonlinear_arith)
            requires
                n == nanos * p,
        ;
        n = 2 * n;
        p = 2 * p;
    }
    (n, p)
}

fn resolution_at(secs: u64) -> (r: u128)
    ensures
        r == resolution(secs as nat),
        0x8000_0000_0000 <= r <= 0x10_0000_0000_0000,
{
    if secs >= 32 {
        0x8000_0000_0000
    } else if secs >= 16 {
        0x1_0000_0000_0000
    } else if secs >= 8 {
        0x2_0000_0000_0000
    } else if secs >= 4 {
        0x4_0000_0000_0000
    } else if secs >= 2 {
        0x8_0000_0000_0000
    } else {
        0x10_0000_0000_0000
    }
}

fn hundredths(secs: u64, nanos: u32) -> (r: u128)
    requires
        secs < 60,
        nanos < 1_000_000_000,
    ensures
        r == decimals(secs as nat, nanos as nat),
{
    let scaled_parts: (u128, u128) = scale(nanos);
    let n: u128 = scaled_parts.0;
    let p: u128 = scaled_parts.1;
    let m: u128 = cache::round_quotient(n, 1_000_000_000);
    let res: u128 = resolution_at(secs);
    assert(secs * p <= 60 * (0x20_0000_0000_0000 * 1_000_000_000)) by (nonlinear_arith)
        requires
            secs < 60,
            0 <= p < 0x20_0000_0000_0000 * 1_000_000_000,
    ;
    let unit: u128 = p / res;
    assert(0 < unit < 0x8000_0000_0000_0000) by (nonlinear_arith)
        requires
            unit == p / res,
            0x8000_0000_0000 <= res <= 0x10_0000_0000_0000,
            0x10_0000_0000_0000 <= p < 0x20_0000_0000_0000 * 1_000_000_000,
    ;
    let parts: u128 = cache::round_quotient((secs as u128) * p + m, unit);
    cache::round_quotient(100 * parts, res)
}

/// A duration of seconds and nanoseconds.
pub fn format_duration(secs: u64, nanos: u32) -> (r: String)
    requires
        nanos < 1_000_000_000,
    ensures
        r@ == duration_text(secs, nanos),
{
    if secs >= 60 {
        let mut out = text::u64_text(secs / 60);
        out.append("m ");
        push_two_digits(&mut out, (secs % 60) as u128);
        out.append("s");
        out
    } else if secs >= 1 {
        let h: u128 = hundredths(secs, nanos);
        let mut out = text::u128_text(h / 100);
        out.append(".");
        push_two_digits(&mut out, h % 100);
        out.append("s");
        out
    } else {
        text::cat(text::u64_text((nanos / 1_000_000) as u64).as_str(), "ms")
    }
}

/// A minute and more is shown in minutes and seconds, less than a second in
/// thousandths.
pub proof fn law_minutes_and_thousandths(m: u64, s: u64, nanos: u32)
    requires
        m > 0,
        s < 60,
        m * 60 + s <= u64::MAX,
        nanos < 1_000_000_000,
    ensures
        duration_text((m * 60 + s) as u64, nanos) == text::decimal(m as nat) + "m "@ + two_digits(
            s as nat,
        ) + "s"@,
        two_digits(s as nat).len() == 2,
        text::digits_value(two_digits(s as nat)) == s,
        duration_text(0, nanos) == text::decimal((nanos / 1_000_000) as nat) + "ms"@,
{
    let t = (m * 60 + s) as u64;
    assert(t / 60 == m && t % 60 == s);
    let d = two_digits(s as nat);
    let n = s as nat;
    assert(n / 10 < 10);
    assert(n / 10 % 10 == n / 10);
    assert(d.drop_last() =~= seq![text::digit_of(n / 10 % 10)]);
    assert(d.last() == text::digit_of(n % 10));
    assert(d.drop_last().drop_last() =~= Seq::empty());
    assert(d.drop_last().last() == text::digit_of(n / 10 % 10));
    assert(text::digit_value(text::digit_of(n / 10 % 10)) == n / 10);
    assert(text::digit_value(text::digit_of(n % 10)) == n % 10);
    assert(text::digits_value(d.drop_last().drop_last()) == 0);
    assert(text::digits_value(d.drop_last()) == n / 10);
}

} // verus!
