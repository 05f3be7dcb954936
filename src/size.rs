//! Human-readable file sizes.
use vstd::prelude::*;

use crate::text::{decimal, push_decimal};

verus! {

pub open spec fn pow1024(i: nat) -> nat
    decreases i,
{
    if i == 0 {
        1
    } else {
        1024 * pow1024((i - 1) as nat)
    }
}

/// The last unit, "X", takes every size beyond the petabyte range.
pub const LAST_UNIT: usize = 6;

/// The unit index, counting from `i`: the first one in which the size reads below 1000.
pub open spec fn unit_from(bytes: nat, i: nat) -> nat
    decreases LAST_UNIT - i,
{
    if i >= LAST_UNIT || bytes < 1000 * pow1024(i) {
        i
    } else {
        unit_from(bytes, i + 1)
    }
}

/// The index into B, K, M, G, T, P, X of the unit a size is shown in.
pub open spec fn size_unit(bytes: nat) -> nat {
    unit_from(bytes, 0)
}

/// The size in hundredths of its unit: exact in bytes, else rounded to the nearest
/// hundredth, halves up.
pub open spec fn size_hundredths_of(bytes: nat) -> nat {
    let u = size_unit(bytes);
    if u == 0 {
        bytes * 100
    } else {
        (bytes * 200 + pow1024(u)) / (2 * pow1024(u))
    }
}

pub open spec fn unit_suffix(u: nat) -> Seq<char> {
    if u == 0 {
        seq!['B']
    } else if u == 1 {
        seq!['K']
    } else if u == 2 {
        seq!['M']
    } else if u == 3 {
        seq!['G']
    } else if u == 4 {
        seq!['T']
    } else if u == 5 {
        seq!['P']
    } else {
        seq!['X']
    }
}

proof fn lemma_pow1024_values()
    ensures
        pow1024(0) == 1,
        pow1024(1) == 1024,
        pow1024(2) == 1048576,
        pow1024(3) == 1073741824,
        pow1024(4) == 1099511627776,
        pow1024(5) == 1125899906842624,
        pow1024(6) == 1152921504606846976,
{
    reveal_with_fuel(pow1024, 7);
}

fn unit_str(u: usize) -> (r: &'static str)
    ensures
        r@ == unit_suffix(u as nat),
{
    if u == 0 {
        proof { reveal_strlit("B"); }
        "B"
    } else if u == 1 {
        proof { reveal_strlit("K"); }
        "K"
    } else if u == 2 {
        proof { reveal_strlit("M"); }
        "M"
    } else if u == 3 {
        proof { reveal_strlit("G"); }
        "G"
    } else if u == 4 {
        proof { reveal_strlit("T"); }
        "T"
    } else if u == 5 {
        proof { reveal_strlit("P"); }
        "P"
    } else {
        proof { reveal_strlit("X"); }
        "X"
    }
}

/// A size in its unit: sizes below 1000 bytes stay in bytes; larger ones are divided by
/// 1024 until they read below 1000 (or the last unit is reached), and rounded to
/// hundredths. The result is the value in hundredths of the unit, and the unit's
/// letter (B, K, M, G, T, P or X).
pub fn size_hundredths(size_in_bytes: u64) -> (r: (u64, &'static str))
    ensures
        r.0 as nat == size_hundredths_of(size_in_bytes as nat),
        r.1@ == unit_suffix(size_unit(size_in_bytes as nat)),
{
    proof { lemma_pow1024_values(); }
    let bytes = size_in_bytes as u128;
    let mut unit: usize = 0;
    let mut scale: u128 = 1;
    while unit < LAST_UNIT && bytes >= 1000 * scale
        invariant
            unit <= LAST_UNIT,
            scale as nat == pow1024(unit as nat),
            bytes == size_in_bytes as u128,
            size_unit(bytes as nat) == unit_from(bytes as nat, unit as nat),
            pow1024(6) == 1152921504606846976,
            scale <= pow1024(6),
            pow1024(unit as nat) <= pow1024(6),
        decreases LAST_UNIT - unit,
    {
        assert(pow1024((unit + 1) as nat) == 1024 * pow1024(unit as nat));
        proof {
            reveal_with_fuel(pow1024, 7);
        }
        scale = scale * 1024;
        unit = unit + 1;
    }
    let value: u128 = if unit == 0 {
        bytes * 100
    } else {
        (bytes * 200 + scale) / (2 * scale)
    };
    proof {
        if unit > 0 {
            assert(value <= bytes * 200 + scale);
        }
    }
    assert(value <= u64::MAX as u128) by (nonlinear_arith)
        requires
            unit == 0 ==> value == bytes * 100 && bytes < 1000,
            unit > 0 ==> value == (bytes * 200 + scale) / (2 * scale) && scale >= 1024,
            bytes <= u64::MAX as u128,
            scale <= 1152921504606846976,
    {
        if unit > 0 {
            assert((bytes * 200 + scale) / (2 * scale) <= (bytes * 200 + scale) / 2048);
        }
    }
    (value as u64, unit_str(unit))
}

/// The fractional part of a value in hundredths, as a number prints it: nothing for a
/// whole number, else a '.' and one or two digits without a trailing zero.
pub open spec fn fraction_text(h: nat) -> Seq<char> {
    let f = h % 100;
    if f == 0 {
        Seq::empty()
    } else if f % 10 == 0 {
        seq!['.'] + decimal(f / 10)
    } else {
        seq!['.'] + decimal(f / 10) + decimal(f % 10)
    }
}

/// The text of a size: its value in its unit, a space, and the unit's letter.
pub open spec fn size_text(bytes: nat) -> Seq<char> {
    let h = size_hundredths_of(bytes);
    decimal(h / 100) + fraction_text(h) + seq![' '] + unit_suffix(size_unit(bytes))
}

/// The text of a size, such as "999 B", "0.98 K" or "16 X".
pub fn size_string(size_in_bytes: u64) -> (r: String)
    ensures
        r@ == size_text(size_in_bytes as nat),
{
    let (h, suffix) = size_hundredths(size_in_bytes);
    let mut out = String::new();
    push_decimal(&mut out, h / 100);
    let f = h % 100;
    if f != 0 {
        proof { reveal_strlit("."); }
        out.append(".");
        push_decimal(&mut out, f / 10);
        if f % 10 != 0 {
            push_decimal(&mut out, f % 10);
        }
    }
    proof { reveal_strlit(" "); }
    out.append(" ");
    out.append(suffix);
    assert(out@ =~= size_text(size_in_bytes as nat));
    out
}

} // verus!
