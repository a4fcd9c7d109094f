//! Conversion between geographic coordinates and pixel offsets in a
//! geo-referenced image, over an exact fixed-point representation of angles.
//!
//! Angles, pixel offsets and the zoom level are all held as [`Fixed`] values:
//! integer counts of `1 / UNIT` units. All arithmetic is exact integer
//! arithmetic; where a division must round, it rounds as Euclidean division
//! does, and the contracts say so.

use vstd::prelude::*;

pub mod latlon;

pub use latlon::Location;
pub use latlon::ParseError;
pub use latlon::mod_positive;
pub use latlon::parse_lat;
pub use latlon::parse_lon;

verus! {

/// Number of raw fixed-point units per whole degree (or per whole pixel).
pub const UNIT: i128 = 1_000_000_000;

/// Largest pixel dimension a frame may be built with; keeps every raw pixel
/// offset inside the frame well below the fixed-point range.
pub const MAX_DIM: usize = 0xffff_ffff;

/// Largest magnitude the zoom level may have, so that scaling a pixel offset
/// by the zoom never leaves the fixed-point range.
pub const ZOOM_LIMIT: i128 = 0x7fff_ffff_ffff_ffff;

/// An exact fixed-point number: `raw` counts units of `1 / UNIT`.
#[derive(Clone, Copy, Debug, PartialEq, Eq, Structural)]
pub struct Fixed {
    pub raw: i128,
}

impl View for Fixed {
    type V = int;

    open spec fn view(&self) -> int {
        self.raw as int
    }
}

impl Fixed {
    /// Wrap a raw count of `1 / UNIT` units.
    pub fn from_raw(raw: i128) -> (r: Fixed)
        ensures
            r@ == raw,
    {
        Fixed { raw }
    }

    /// The fixed-point representation of the integer `v`.
    pub fn from_int(v: i64) -> (r: Fixed)
        ensures
            r@ == v * UNIT,
    {
        Fixed { raw: (v as i128) * UNIT }
    }
}

/// Euclidean division extended to divisors of either sign: the quotient that
/// leaves a remainder in `[0, |b|)`. For `b > 0` this is plain `/`.
pub open spec fn ediv(a: int, b: int) -> int
    recommends
        b != 0,
{
    if b > 0 {
        a / b
    } else {
        -(a / -b)
    }
}

/// For a positive divisor, the Euclidean quotient lies between 0 and the
/// dividend, whichever sign the dividend has.
pub proof fn lemma_div_bounds(a: int, b: int)
    requires
        1 <= b,
    ensures
        0 <= a ==> 0 <= a / b <= a,
        a < 0 ==> a <= a / b <= -1,
{
    vstd::arithmetic::div_mod::lemma_fundamental_div_mod(a, b);
    vstd::arithmetic::div_mod::lemma_mod_division_less_than_divisor(a, b);
    let q = a / b;
    let r = a % b;
    if 0 <= a {
        vstd::arithmetic::div_mod::lemma_div_pos_is_pos(a, b);
        assert(b * q >= q) by (nonlinear_arith)
            requires
                1 <= b,
                0 <= q,
        ;
    } else {
        assert(q <= -1) by (nonlinear_arith)
            requires
                1 <= b,
                b * q < 0,
        ;
        assert(q * (b - 1) <= -(b - 1)) by (nonlinear_arith)
            requires
                q <= -1,
                1 <= b,
        ;
        assert(a - q == q * (b - 1) + r) by (nonlinear_arith)
            requires
                a == b * q + r,
        ;
    }
}

/// Euclidean remainder on raw values: the result is in `[0, m)`.
pub(crate) fn euclid_rem(a: i128, m: i128) -> (r: i128)
    requires
        0 < m,
    ensures
        r == a as int % m as int,
        0 <= r < m,
{
    proof {
        vstd::arithmetic::div_mod::lemma_mod_division_less_than_divisor(a as int, m as int);
    }
    match a.checked_rem_euclid(m) {
        Some(r) => r,
        None => {
            proof {
                assert(false);
            }
            0
        },
    }
}

/// Euclidean quotient by a positive divisor.
pub(crate) fn euclid_div_pos(a: i128, b: i128) -> (q: i128)
    requires
        0 < b,
    ensures
        q == a as int / b as int,
        0 <= a ==> 0 <= q <= a,
        a < 0 ==> a <= q <= -1,
{
    proof {
        lemma_div_bounds(a as int, b as int);
    }
    match a.checked_div_euclid(b) {
        Some(q) => q,
        None => {
            proof {
                assert(false);
            }
            0
        },
    }
}

/// Euclidean quotient by a divisor of either sign, following [`ediv`].
pub(crate) fn euclid_div(a: i128, b: i128) -> (q: i128)
    requires
        b != 0,
        i128::MIN < a,
        i128::MIN < b,
    ensures
        q == ediv(a as int, b as int),
        0 <= a ==> -a <= q <= a,
        a < 0 ==> a <= q <= -a,
{
    if b > 0 {
        euclid_div_pos(a, b)
    } else {
        let q1 = euclid_div_pos(a, -b);
        -q1
    }
}

} // verus!

