//! Human-readable renderings of durations, byte counts and plain counts.

use vstd::arithmetic::power::{lemma_pow_increases, pow as spec_pow};
use vstd::prelude::*;

use crate::text::{decimal, padded_digits, push_decimal, push_padded_digits};

verus! {

/// The unit of a duration in milliseconds: the value scaled to tenths of the
/// unit (thousandths for sub-second values), the number of fractional digits
/// that scaled value carries, and the unit suffix.
pub open spec fn duration_unit(ms: nat) -> (nat, nat, char) {
    if ms < 1000 {
        (ms, 3, 's')
    } else if ms < 60 * 1000 {
        (ms / 100, 1, 's')
    } else if ms < 60 * 60 * 1000 {
        (ms / (60 * 100), 1, 'm')
    } else if ms < 24 * 60 * 60 * 1000 {
        (ms / (60 * 60 * 100), 1, 'h')
    } else {
        (ms / (24 * 60 * 60 * 100), 1, 'd')
    }
}

/// A fixed-point value `n / 10^pos` with its trailing fractional zeros removed.
pub open spec fn strip_zeros(n: nat, pos: nat) -> (nat, nat)
    decreases pos,
{
    if pos > 0 && n % 10 == 0 {
        strip_zeros(n / 10, (pos - 1) as nat)
    } else {
        (n, pos)
    }
}

/// The fixed-point value `n / 10^pos` in decimal: the integer part, then a
/// point and exactly `pos` fractional digits when there are any.
pub open spec fn fixed_point_text(n: nat, pos: nat) -> Seq<char> {
    let int_part = decimal(n / (spec_pow(10, pos) as nat));
    if pos != 0 && n != 0 {
        int_part + seq!['.'] + padded_digits(n, pos)
    } else {
        int_part
    }
}

/// The text of a duration of `ms` milliseconds.
pub open spec fn duration_text(ms: nat) -> Seq<char> {
    let (n, pos, unit) = duration_unit(ms);
    let (m, q) = strip_zeros(n, pos);
    fixed_point_text(m, q).push(unit)
}

/// Repeated rounding division of `v` by `base` while it is at least `base`
/// and a larger unit is left; `units` counts the units still available.
/// Each step rounds up when the remainder reaches `half`.
pub open spec fn scaled(v: nat, units: nat, base: nat, half: nat) -> (nat, nat)
    decreases units,
{
    if units == 0 || v < base {
        (v, units)
    } else {
        scaled(v / base + (v % base) / half, (units - 1) as nat, base, half)
    }
}

/// The suffix of the unit reached with `units` larger units still available.
pub open spec fn unit_suffix(units: nat) -> Seq<char> {
    if units == 0 {
        seq!['T']
    } else if units == 1 {
        seq!['G']
    } else if units == 2 {
        seq!['M']
    } else if units == 3 {
        seq!['K']
    } else {
        Seq::empty()
    }
}

/// A count in units of `base`, up to the fourth power of `base` ("T").
pub open spec fn scaled_text(n: nat, base: nat, half: nat) -> Seq<char> {
    let (v, units) = scaled(n, 4, base, half);
    decimal(v) + unit_suffix(units)
}

/// The text of a byte count (binary units).
pub open spec fn bytes_text(n: nat) -> Seq<char> {
    scaled_text(n, 1024, 513)
}

/// The text of a plain count (decimal units).
pub open spec fn number_text(n: nat) -> Seq<char> {
    scaled_text(n, 1000, 501)
}

/// `n` to the power `p`.
pub fn pow(n: u64, p: u32) -> (r: u64)
    requires
        spec_pow(n as int, p as nat) <= u64::MAX,
    ensures
        r == spec_pow(n as int, p as nat),
{
    let mut num: u64 = 1;
    let mut i: u32 = 0;
    proof {
        reveal(spec_pow);
    }
    while i < p
        invariant
            i <= p,
            num == spec_pow(n as int, i as nat),
            spec_pow(n as int, p as nat) <= u64::MAX,
        decreases p - i,
    {
        proof {
            reveal(spec_pow);
            if n > 0 {
                lemma_pow_increases(n as nat, (i + 1) as nat, p as nat);
            }
            assert(spec_pow(n as int, (i + 1) as nat) == n * spec_pow(n as int, i as nat));
        }
        num = num * n;
        i = i + 1;
    }
    num
}

/// Renders a duration in milliseconds with the largest fitting unit among
/// seconds, minutes, hours and days ("0.999s", "1.5m", "1d").
pub fn format_duration(duration: u64) -> (r: String)
    ensures
        r@ == duration_text(duration as nat),
{
    let (mut n, mut pos, unit): (u64, u32, &str) = if duration < 1000 {
        proof { reveal_strlit("s"); }
        (duration, 3, "s")
    } else if duration < 60 * 1000 {
        proof { reveal_strlit("s"); }
        (duration / 100, 1, "s")
    } else if duration < 60 * 60 * 1000 {
        proof { reveal_strlit("m"); }
        (duration / (60 * 100), 1, "m")
    } else if duration < 24 * 60 * 60 * 1000 {
        proof { reveal_strlit("h"); }
        (duration / (60 * 60 * 100), 1, "h")
    } else {
        proof { reveal_strlit("d"); }
        (duration / (24 * 60 * 60 * 100), 1, "d")
    };
    let ghost unit_char = duration_unit(duration as nat).2;
    assert(unit@ == seq![unit_char]);
    assert(strip_zeros(n as nat, pos as nat) == strip_zeros(
        duration_unit(duration as nat).0,
        duration_unit(duration as nat).1,
    ));
    while pos > 0 && n % 10 == 0
        invariant
            pos <= 3,
            strip_zeros(n as nat, pos as nat) == strip_zeros(
                duration_unit(duration as nat).0,
                duration_unit(duration as nat).1,
            ),
        decreases pos,
    {
        n = n / 10;
        pos = pos - 1;
    }
    proof {
        reveal(spec_pow);
        lemma_pow_increases(10, pos as nat, 3);
        assert(spec_pow(10, 0) == 1);
        assert(spec_pow(10, 1) == 10);
        assert(spec_pow(10, 2) == 100);
        assert(spec_pow(10, 3) == 1000);
    }
    let mut s = String::new();
    push_decimal(&mut s, n / pow(10, pos));
    if pos != 0 && n != 0 {
        proof { reveal_strlit("."); }
        s.append(".");
        push_padded_digits(&mut s, n, pos);
    }
    s.append(unit);
    assert(s@ =~= duration_text(duration as nat));
    s
}

fn format_scaled(n: u64, base: u64, half: u64) -> (r: String)
    requires
        2 <= base,
        base <= 2 * half,
    ensures
        r@ == scaled_text(n as nat, base as nat, half as nat),
{
    let mut v = n;
    let mut units: u32 = 4;
    while v >= base && units != 0
        invariant
            2 <= base <= 2 * half,
            units <= 4,
            scaled(v as nat, units as nat, base as nat, half as nat) == scaled(
                n as nat,
                4,
                base as nat,
                half as nat,
            ),
        decreases units,
    {
        proof {
            assert((v % base) / half <= 1) by (nonlinear_arith)
                requires
                    2 <= base <= 2 * half,
                    v % base < base,
            ;
            assert(v / base + 1 <= v) by (nonlinear_arith)
                requires
                    2 <= base <= v,
            ;
        }
        v = v / base + (v % base) / half;
        units = units - 1;
    }
    let mut s = String::new();
    push_decimal(&mut s, v);
    let suffix: &str = if units == 0 {
        proof { reveal_strlit("T"); }
        "T"
    } else if units == 1 {
        proof { reveal_strlit("G"); }
        "G"
    } else if units == 2 {
        proof { reveal_strlit("M"); }
        "M"
    } else if units == 3 {
        proof { reveal_strlit("K"); }
        "K"
    } else {
        proof { reveal_strlit(""); }
        ""
    };
    s.append(suffix);
    assert(s@ =~= scaled_text(n as nat, base as nat, half as nat));
    s
}

/// Renders a byte count in binary units ("1K" is 1024), rounding half up at
/// each step and going no further than "T".
pub fn format_bytes(bytes: u64) -> (r: String)
    ensures
        r@ == bytes_text(bytes as nat),
{
    format_scaled(bytes, 1024, 513)
}

/// Renders a count in decimal units ("1K" is 1000), rounding half up at each
/// step and going no further than "T".
pub fn format_number(number: u64) -> (r: String)
    ensures
        r@ == number_text(number as nat),
{
    format_scaled(number, 1000, 501)
}

} // verus!
