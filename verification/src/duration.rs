//! Human-readable run times: `1.23µs`, `12.3ms`, `123ms`, `1.50s`,
//! `2m05s`, and (for transcript run-time lines) `1h02m`, `2d01h`.
//!
//! Sub-minute values keep three significant digits: two decimals below 10
//! units, one below 100, none above; the last digit is rounded half up on the
//! exact value of the duration in nanoseconds.
use vstd::prelude::*;

use crate::chars::{decimal, push_decimal, string_from};

verus! {

pub open spec fn pow10(d: nat) -> nat
    decreases d,
{
    if d == 0 { 1 } else { 10 * pow10((d - 1) as nat) }
}

/// `s` padded on the left with `'0'` to at least `width` characters.
pub open spec fn zero_pad(s: Seq<char>, width: nat) -> Seq<char> {
    if s.len() >= width { s } else { Seq::new((width - s.len()) as nat, |i: int| '0') + s }
}

/// `q / 10^d` written with exactly `d` decimals.
pub open spec fn fixed_point(q: nat, d: nat) -> Seq<char> {
    if d == 0 {
        decimal(q)
    } else {
        decimal(q / pow10(d)) + seq!['.'] + zero_pad(decimal(q % pow10(d)), d)
    }
}

/// `ns / unit` rounded half up to `d` decimals, scaled by `10^d`.
pub open spec fn scaled_round(ns: nat, unit: nat, d: nat) -> nat {
    (2 * ns * pow10(d) + unit) / (2 * unit)
}

/// Decimals kept for a value of `ns / unit` units: 0 from 100 units, 1 from 10.
pub open spec fn decimals_for(ns: nat, unit: nat) -> nat {
    if ns >= 100 * unit { 0 } else if ns >= 10 * unit { 1 } else { 2 }
}

pub open spec fn micro_sign() -> char {
    '\u{b5}'
}

/// The sub-minute part shared by both formats.
pub open spec fn sub_minute(ns: nat) -> Seq<char> {
    if ns < 1_000_000 {
        fixed_point(scaled_round(ns, 1000, decimals_for(ns, 1000)), decimals_for(ns, 1000)) + seq![
            micro_sign(),
            's',
        ]
    } else if ns < 1_000_000_000 {
        fixed_point(
            scaled_round(ns, 1_000_000, decimals_for(ns, 1_000_000)),
            decimals_for(ns, 1_000_000),
        ) + seq!['m', 's']
    } else {
        let d: nat = if ns >= 10_000_000_000 { 1 } else { 2 };
        fixed_point(scaled_round(ns, 1_000_000_000, d), d) + seq!['s']
    }
}

/// Two quantities joined as `{a}{ua}{b:02}{ub}`.
pub open spec fn pair_units(a: nat, ua: char, b: nat, ub: char) -> Seq<char> {
    decimal(a) + seq![ua] + zero_pad(decimal(b), 2) + seq![ub]
}

/// The history-search format: minutes and seconds from one minute on.
pub open spec fn duration_text(ns: nat) -> Seq<char> {
    if ns < 60_000_000_000 {
        sub_minute(ns)
    } else {
        let secs = ns / 1_000_000_000;
        pair_units(secs / 60, 'm', secs % 60, 's')
    }
}

/// The transcript run-time format: like `duration_text`, then hours and
/// minutes from one hour, days and hours from one day.
pub open spec fn runtime_text(ns: nat) -> Seq<char> {
    let secs = ns / 1_000_000_000;
    if ns < 60_000_000_000 {
        sub_minute(ns)
    } else if secs < 3600 {
        pair_units(secs / 60, 'm', secs % 60, 's')
    } else if secs < 86_400 {
        pair_units(secs / 3600, 'h', (secs % 3600) / 60, 'm')
    } else {
        pair_units(secs / 86_400, 'd', (secs % 86_400) / 3600, 'h')
    }
}

fn pow10_exec(d: u64) -> (r: u64)
    requires
        d <= 2,
    ensures
        r == pow10(d as nat),
        1 <= r <= 100,
{
    reveal_with_fuel(pow10, 3);
    if d == 0 { 1 } else if d == 1 { 10 } else { 100 }
}

fn push_zero_padded(dst: &mut Vec<char>, n: u64, width: usize)
    ensures
        final(dst)@ == old(dst)@ + zero_pad(decimal(n as nat), width as nat),
{
    let mut digits: Vec<char> = Vec::new();
    push_decimal(&mut digits, n);
    assert(digits@ =~= decimal(n as nat));
    if digits.len() < width {
        let mut k: usize = 0;
        let pad = width - digits.len();
        while k < pad
            invariant
                k <= pad,
                dst@ == old(dst)@ + Seq::new(k as nat, |i: int| '0'),
            decreases pad - k,
        {
            dst.push('0');
            k += 1;
            assert(dst@ =~= old(dst)@ + Seq::new(k as nat, |i: int| '0'));
        }
    }
    let ghost before = dst@;
    let mut j: usize = 0;
    while j < digits.len()
        invariant
            j <= digits.len(),
            dst@ == before + digits@.take(j as int),
        decreases digits.len() - j,
    {
        dst.push(digits[j]);
        j += 1;
        assert(dst@ =~= before + digits@.take(j as int));
    }
    assert(digits@.take(digits.len() as int) =~= digits@);
    assert(dst@ =~= old(dst)@ + zero_pad(decimal(n as nat), width as nat));
}

fn push_fixed(dst: &mut Vec<char>, q: u64, d: u64)
    requires
        d <= 2,
    ensures
        final(dst)@ == old(dst)@ + fixed_point(q as nat, d as nat),
{
    if d == 0 {
        push_decimal(dst, q);
    } else {
        let p = pow10_exec(d);
        push_decimal(dst, q / p);
        dst.push('.');
        let ghost mid = dst@;
        push_zero_padded(dst, q % p, d as usize);
        assert(dst@ =~= old(dst)@ + fixed_point(q as nat, d as nat));
    }
}

fn push_sub_minute(dst: &mut Vec<char>, ns: u64)
    requires
        ns < 60_000_000_000,
    ensures
        final(dst)@ == old(dst)@ + sub_minute(ns as nat),
{
    let (unit, d): (u64, u64) = if ns < 1_000_000 {
        (1000, if ns >= 100_000 { 0 } else if ns >= 10_000 { 1 } else { 2 })
    } else if ns < 1_000_000_000 {
        (1_000_000, if ns >= 100_000_000 { 0 } else if ns >= 10_000_000 { 1 } else { 2 })
    } else {
        (1_000_000_000, if ns >= 10_000_000_000 { 1 } else { 2 })
    };
    let p = pow10_exec(d);
    assert(2 * ns * p + unit <= 2 * 60_000_000_000 * 100 + 1_000_000_000) by (nonlinear_arith)
        requires
            ns < 60_000_000_000,
            p <= 100,
            unit <= 1_000_000_000,
    ;
    let q = (2 * ns * p + unit) / (2 * unit);
    let ghost before = dst@;
    push_fixed(dst, q, d);
    if ns < 1_000_000 {
        dst.push('\u{b5}');
        dst.push('s');
    } else if ns < 1_000_000_000 {
        dst.push('m');
        dst.push('s');
    } else {
        dst.push('s');
    }
    assert(dst@ =~= old(dst)@ + sub_minute(ns as nat));
}

fn push_pair(dst: &mut Vec<char>, a: u64, ua: char, b: u64, ub: char)
    ensures
        final(dst)@ == old(dst)@ + pair_units(a as nat, ua, b as nat, ub),
{
    push_decimal(dst, a);
    dst.push(ua);
    push_zero_padded(dst, b, 2);
    dst.push(ub);
    assert(dst@ =~= old(dst)@ + pair_units(a as nat, ua, b as nat, ub));
}

/// Formats a run time for history-search metadata and the busy indicator.
pub fn format_duration_ns(duration_ns: u64) -> (r: String)
    ensures
        r@ == duration_text(duration_ns as nat),
{
    let mut out: Vec<char> = Vec::new();
    if duration_ns < 60_000_000_000 {
        push_sub_minute(&mut out, duration_ns);
    } else {
        let secs = duration_ns / 1_000_000_000;
        push_pair(&mut out, secs / 60, 'm', secs % 60, 's');
    }
    assert(out@ =~= duration_text(duration_ns as nat));
    string_from(out.as_slice())
}

/// Formats a run time for the transcript's run-time lines.
pub fn format_runtime(duration_ns: u64) -> (r: String)
    ensures
        r@ == runtime_text(duration_ns as nat),
{
    let mut out: Vec<char> = Vec::new();
    let secs = duration_ns / 1_000_000_000;
    if duration_ns < 60_000_000_000 {
        push_sub_minute(&mut out, duration_ns);
    } else if secs < 3600 {
        push_pair(&mut out, secs / 60, 'm', secs % 60, 's');
    } else if secs < 86_400 {
        push_pair(&mut out, secs / 3600, 'h', (secs % 3600) / 60, 'm');
    } else {
        push_pair(&mut out, secs / 86_400, 'd', (secs % 86_400) / 3600, 'h');
    }
    assert(out@ =~= runtime_text(duration_ns as nat));
    string_from(out.as_slice())
}

/// Below one hour the transcript's run-time format and the history-search
/// format write the same text.
pub proof fn law_runtime_matches_duration_below_an_hour(ns: nat)
    requires
        ns < 3_600_000_000_000,
    ensures
        runtime_text(ns) == duration_text(ns),
{
}

/// From one minute on, the history-search format writes the whole minutes,
/// `m`, the remaining seconds as exactly two digits, and `s`: the minutes
/// times sixty plus the seconds are the whole seconds of the duration.
pub proof fn law_minutes_and_two_digit_seconds(ns: nat)
    requires
        ns >= 60_000_000_000,
    ensures
        ({
            let secs = ns / 1_000_000_000;
            let m = secs / 60;
            let sec = secs % 60;
            &&& duration_text(ns) == decimal(m) + seq!['m'] + seq![
                crate::chars::digit_char(sec / 10),
                crate::chars::digit_char(sec % 10),
            ] + seq!['s']
            &&& m * 60 + sec == secs
            &&& sec < 60
        }),
{
    let secs = ns / 1_000_000_000;
    let sec = secs % 60;
    reveal_with_fuel(decimal, 2);
    if sec < 10 {
        assert(zero_pad(decimal(sec), 2) =~= seq!['0', crate::chars::digit_char(sec)]);
    } else {
        assert(sec / 10 < 10);
        assert(zero_pad(decimal(sec), 2) =~= seq![
            crate::chars::digit_char(sec / 10),
            crate::chars::digit_char(sec % 10),
        ]);
    }
}

/// The value shown below one minute is rounded half up: `q`, the shown
/// value scaled by `10^d`, is the one whose distance from the exact value
/// `ns / unit * 10^d` is at most one half, and the larger of two equally
/// near.
pub proof fn law_sub_minute_rounds_half_up(ns: nat, unit: nat, d: nat)
    requires
        unit > 0,
    ensures
        ({
            let q = scaled_round(ns, unit, d);
            &&& 2 * q * unit <= 2 * ns * pow10(d) + unit
            &&& 2 * ns * pow10(d) + unit < 2 * q * unit + 2 * unit
        }),
{
    let x: int = (2 * ns * pow10(d) + unit) as int;
    let y: int = (2 * unit) as int;
    vstd::arithmetic::div_mod::lemma_fundamental_div_mod(x, y);
    assert(0 <= x % y < y);
    let q = scaled_round(ns, unit, d);
    assert(q == x / y);
    assert(2 * q * unit == y * (x / y)) by (nonlinear_arith)
        requires y == 2 * unit, q == x / y;
}

/// The unit a run time below one minute is written in: microseconds below
/// one millisecond, milliseconds below one second, seconds from there.
pub proof fn law_sub_minute_units(ns: nat)
    requires
        ns < 60_000_000_000,
    ensures
        ({
            let t = duration_text(ns);
            let n = t.len() as int;
            &&& n >= 3 && t[n - 1] == 's'
            &&& ns < 1_000_000 <==> t[n - 2] == micro_sign()
            &&& 1_000_000 <= ns < 1_000_000_000 <==> t[n - 2] == 'm'
        }),
{
    let t = duration_text(ns);
    let unit: nat = if ns < 1_000_000 { 1000 } else if ns < 1_000_000_000 { 1_000_000 } else { 1_000_000_000 };
    let d: nat = if ns < 1_000_000_000 { decimals_for(ns, unit) } else if ns >= 10_000_000_000 { 1 } else { 2 };
    let f = fixed_point(scaled_round(ns, unit, d), d);
    lemma_fixed_point_digits(scaled_round(ns, unit, d), d);
    assert(f.len() >= 1);
    if ns < 1_000_000_000 {
        assert(t == f + seq![if ns < 1_000_000 { micro_sign() } else { 'm' }, 's']);
    } else {
        assert(t == f + seq!['s']);
        assert(t[t.len() - 2] == f.last());
    }
}

/// Text of a fixed-point value ends in a digit.
proof fn lemma_fixed_point_digits(q: nat, d: nat)
    ensures
        fixed_point(q, d).len() >= 1,
        fixed_point(q, d).last() != micro_sign() && fixed_point(q, d).last() != 'm',
{
    lemma_decimal_last(q);
    if d > 0 {
        lemma_decimal_last(q % pow10(d));
        let z = zero_pad(decimal(q % pow10(d)), d);
        assert(z.last() == decimal(q % pow10(d)).last());
    }
}

proof fn lemma_decimal_last(n: nat)
    ensures
        decimal(n).len() >= 1,
        decimal(n).last() != micro_sign() && decimal(n).last() != 'm',
    decreases n,
{
    if n >= 10 {
        lemma_decimal_last(n / 10);
    }
}

} // verus!
