//! Numeric cells. A 64-bit IEEE-754 float is held as its bit pattern; a NaN
//! pattern stands for a null cell. Ordering follows the float's numeric value,
//! with `-0.0` and `+0.0` equal, and nulls below every real value.
use std::cmp::Ordering;
use vstd::prelude::*;

verus! {

pub const SIGN_MASK: u64 = 0x8000_0000_0000_0000;

pub const MAGNITUDE_MASK: u64 = 0x7fff_ffff_ffff_ffff;

pub const EXPONENT_MASK: u64 = 0x7ff0_0000_0000_0000;

pub const FRACTION_MASK: u64 = 0x000f_ffff_ffff_ffff;

/// Bits of `0.0`, the stored form of `false` in a boolean column.
pub const FALSE_BITS: u64 = 0;

/// Bits of `1.0`, the stored form of `true` in a boolean column.
pub const TRUE_BITS: u64 = 0x3ff0_0000_0000_0000;

/// Bits of the canonical quiet NaN, the stored form of a null cell.
pub const NULL_BITS: u64 = 0x7ff8_0000_0000_0000;

/// The bit pattern is a NaN, i.e. a null cell.
pub open spec fn is_null_spec(b: u64) -> bool {
    (b & EXPONENT_MASK) == EXPONENT_MASK && (b & FRACTION_MASK) != 0
}

/// A key whose integer order is the numeric order of non-NaN floats.
pub open spec fn num_key(b: u64) -> int {
    if (b & SIGN_MASK) != 0 {
        -((b & MAGNITUDE_MASK) as int)
    } else {
        (b & MAGNITUDE_MASK) as int
    }
}

pub open spec fn int_order(x: int, y: int) -> Ordering {
    if x < y {
        Ordering::Less
    } else if x > y {
        Ordering::Greater
    } else {
        Ordering::Equal
    }
}

/// Null-minimal order of two numeric cells: nulls are equal to each other
/// and below every real value; real values compare numerically.
pub open spec fn num_order(a: u64, b: u64) -> Ordering {
    if is_null_spec(a) && is_null_spec(b) {
        Ordering::Equal
    } else if is_null_spec(a) {
        Ordering::Less
    } else if is_null_spec(b) {
        Ordering::Greater
    } else {
        int_order(num_key(a), num_key(b))
    }
}

/// Whether the cell is null (a NaN pattern).
pub fn is_null(b: u64) -> (r: bool)
    ensures
        r == is_null_spec(b),
{
    (b & EXPONENT_MASK) == EXPONENT_MASK && (b & FRACTION_MASK) != 0
}

/// Compares the numeric values of two non-null cells.
pub fn compare_values(a: u64, b: u64) -> (r: Ordering)
    ensures
        r == int_order(num_key(a), num_key(b)),
{
    let ma = a & MAGNITUDE_MASK;
    let mb = b & MAGNITUDE_MASK;
    let na = (a & SIGN_MASK) != 0;
    let nb = (b & SIGN_MASK) != 0;
    let ka: i128 = if na { -(ma as i128) } else { ma as i128 };
    let kb: i128 = if nb { -(mb as i128) } else { mb as i128 };
    if ka < kb {
        Ordering::Less
    } else if ka > kb {
        Ordering::Greater
    } else {
        Ordering::Equal
    }
}

/// Null-minimal comparison of two numeric cells.
pub fn compare_cells(a: u64, b: u64) -> (r: Ordering)
    ensures
        r == num_order(a, b),
{
    let an = is_null(a);
    let bn = is_null(b);
    if an && bn {
        Ordering::Equal
    } else if an {
        Ordering::Less
    } else if bn {
        Ordering::Greater
    } else {
        compare_values(a, b)
    }
}

} // verus!
