//! The coordinate frame: construction, pixel-to-geographic and
//! geographic-to-pixel transforms, and the angle normalization they rest on.
//!
//! A frame maps pixel offset `(0, 0)` to the anchor `(start_lat, start_lon)`;
//! one pixel step on either axis is worth `zoom_level` degrees. Pixel x maps
//! to latitude and pixel y to longitude; that unusual axis pairing is part of
//! the frame's contract and is kept exactly.

use vstd::prelude::*;
use vstd::arithmetic::div_mod::lemma_add_mod_noop;
use vstd::arithmetic::div_mod::lemma_div_pos_is_pos;
use vstd::arithmetic::div_mod::lemma_fundamental_div_mod;
use vstd::arithmetic::div_mod::lemma_mod_division_less_than_divisor;
use vstd::arithmetic::div_mod::lemma_mod_multiples_vanish;
use vstd::arithmetic::div_mod::lemma_small_mod;
use vstd::arithmetic::div_mod::lemma_sub_mod_noop;
use vstd::arithmetic::div_mod::lemma_div_multiples_vanish;
use crate::Fixed;
use crate::UNIT;
use crate::MAX_DIM;
use crate::ZOOM_LIMIT;
use crate::ediv;
use crate::euclid_rem;
use crate::euclid_div_pos;
use crate::euclid_div;

verus! {

/// Raw value of 90 degrees: half the span latitudes are wrapped into.
pub const LAT_OFFSET: i128 = 90 * UNIT;

/// Raw value of 180 degrees: the span latitudes are wrapped into.
pub const LAT_SPAN: i128 = 180 * UNIT;

/// Raw value of 180 degrees: half the span longitudes are wrapped into.
pub const LON_OFFSET: i128 = 180 * UNIT;

/// Raw value of 360 degrees: the span longitudes are wrapped into.
pub const LON_SPAN: i128 = 360 * UNIT;

/// A latitude wrapped into the canonical range `[-90, 90)` degrees.
pub open spec fn norm_lat(v: int) -> int {
    (v + LAT_OFFSET) % (LAT_SPAN as int) - LAT_OFFSET
}

/// A longitude wrapped into the canonical range `[-180, 180)` degrees.
pub open spec fn norm_lon(v: int) -> int {
    (v + LON_OFFSET) % (LON_SPAN as int) - LON_OFFSET
}

/// A raw pixel offset scaled by the raw zoom level: `x * z` whole raw units,
/// rounded down to a raw value.
pub open spec fn scale_by_zoom(x: int, z: int) -> int {
    (x * z) / (UNIT as int)
}

/// Half of a frame's extent along one axis, in raw degrees: `dim * z / 2`,
/// rounded down once on the raw value.
pub open spec fn half_extent(dim: int, z: int) -> int {
    (dim * z) / 2
}

/// Every normalized latitude lies in `[-90, 90)` degrees.
pub proof fn lemma_norm_lat_range(v: int)
    ensures
        -LAT_OFFSET <= norm_lat(v) < LAT_OFFSET,
{
    lemma_mod_division_less_than_divisor(v + LAT_OFFSET, LAT_SPAN as int);
}

/// Every normalized longitude lies in `[-180, 180)` degrees.
pub proof fn lemma_norm_lon_range(v: int)
    ensures
        -LON_OFFSET <= norm_lon(v) < LON_OFFSET,
{
    lemma_mod_division_less_than_divisor(v + LON_OFFSET, LON_SPAN as int);
}

/// A latitude already in the canonical range is left exactly as it is.
pub proof fn lemma_norm_lat_canonical(v: int)
    requires
        -LAT_OFFSET <= v < LAT_OFFSET,
    ensures
        norm_lat(v) == v,
{
    lemma_small_mod((v + LAT_OFFSET) as nat, LAT_SPAN as nat);
}

/// A longitude already in the canonical range is left exactly as it is.
pub proof fn lemma_norm_lon_canonical(v: int)
    requires
        -LON_OFFSET <= v < LON_OFFSET,
    ensures
        norm_lon(v) == v,
{
    lemma_small_mod((v + LON_OFFSET) as nat, LON_SPAN as nat);
}

/// Normalization only reads its argument modulo the span.
proof fn lemma_norm_lat_congruent(a: int, b: int)
    requires
        a % (LAT_SPAN as int) == b % (LAT_SPAN as int),
    ensures
        norm_lat(a) == norm_lat(b),
{
    lemma_add_mod_noop(a, LAT_OFFSET as int, LAT_SPAN as int);
    lemma_add_mod_noop(b, LAT_OFFSET as int, LAT_SPAN as int);
    lemma_small_mod(LAT_OFFSET as nat, LAT_SPAN as nat);
}

/// Normalization only reads its argument modulo the span.
proof fn lemma_norm_lon_congruent(a: int, b: int)
    requires
        a % (LON_SPAN as int) == b % (LON_SPAN as int),
    ensures
        norm_lon(a) == norm_lon(b),
{
    lemma_add_mod_noop(a, LON_OFFSET as int, LON_SPAN as int);
    lemma_add_mod_noop(b, LON_OFFSET as int, LON_SPAN as int);
    lemma_small_mod(LON_OFFSET as nat, LON_SPAN as nat);
}

/// Wrap a raw latitude into the canonical range.
fn norm_lat_exec(v: i128) -> (r: i128)
    ensures
        r == norm_lat(v as int),
        -LAT_OFFSET <= r < LAT_OFFSET,
{
    let vm = euclid_rem(v, LAT_SPAN);
    let r = euclid_rem(vm + LAT_OFFSET, LAT_SPAN) - LAT_OFFSET;
    proof {
        vstd::arithmetic::div_mod::lemma_mod_twice(v as int, LAT_SPAN as int);
        lemma_norm_lat_congruent(vm as int, v as int);
    }
    r
}

/// Wrap a raw longitude into the canonical range.
fn norm_lon_exec(v: i128) -> (r: i128)
    ensures
        r == norm_lon(v as int),
        -LON_OFFSET <= r < LON_OFFSET,
{
    let vm = euclid_rem(v, LON_SPAN);
    let r = euclid_rem(vm + LON_OFFSET, LON_SPAN) - LON_OFFSET;
    proof {
        vstd::arithmetic::div_mod::lemma_mod_twice(v as int, LON_SPAN as int);
        lemma_norm_lon_congruent(vm as int, v as int);
    }
    r
}

/// Euclidean modulo on fixed-point values: the result is in `[0, b)`, so a
/// negative dividend wraps forward. Ordinary truncating modulo would not.
pub fn mod_positive(a: Fixed, b: Fixed) -> (r: Fixed)
    requires
        b@ > 0,
    ensures
        r@ == a@ % b@,
        0 <= r@ < b@,
{
    Fixed { raw: euclid_rem(a.raw, b.raw) }
}

/// Wrap a latitude into the canonical range `[-90, 90)` degrees.
pub fn parse_lat(lat: Fixed) -> (r: Fixed)
    ensures
        r@ == norm_lat(lat@),
        -LAT_OFFSET <= r@ < LAT_OFFSET,
{
    Fixed { raw: norm_lat_exec(lat.raw) }
}

/// Wrap a longitude into the canonical range `[-180, 180)` degrees.
pub fn parse_lon(lon: Fixed) -> (r: Fixed)
    ensures
        r@ == norm_lon(lon@),
        -LON_OFFSET <= r@ < LON_OFFSET,
{
    Fixed { raw: norm_lon_exec(lon.raw) }
}

/// A caller-input violation: a zero zoom level at construction, or a pixel
/// coordinate beyond an axis bound in either transform.
#[derive(Clone, Copy, Debug, PartialEq, Eq, Structural)]
pub enum ParseError {
    /// The zoom level handed to a constructor was exactly zero.
    NonZero(Fixed),
    /// A pixel coordinate, given or computed, exceeded the axis bound; the
    /// bound and the offending value are carried for diagnostics.
    OutOfRange(usize, Fixed),
}

/// A geo-referenced image frame: the geographic coordinate of pixel `(0, 0)`,
/// the pixel dimensions, and the degrees one pixel step is worth.
#[derive(Clone, Copy, Debug)]
pub struct Location {
    pub start_lat: Fixed,
    pub start_lon: Fixed,
    pub width: usize,
    pub height: usize,
    pub zoom_level: Fixed,
}

impl Location {
    /// What both constructors establish and every value keeps: the anchor is
    /// canonical, the zoom is non-zero, and dimensions and zoom are small
    /// enough that every transform stays inside the fixed-point range.
    pub open spec fn wf(self) -> bool {
        &&& -LAT_OFFSET <= self.start_lat@ < LAT_OFFSET
        &&& -LON_OFFSET <= self.start_lon@ < LON_OFFSET
        &&& self.zoom_level@ != 0
        &&& -ZOOM_LIMIT <= self.zoom_level@ <= ZOOM_LIMIT
        &&& self.width <= MAX_DIM
        &&& self.height <= MAX_DIM
    }

    /// The latitude the forward transform assigns to pixel offset `x`.
    pub open spec fn forward_lat(self, x: int) -> int {
        norm_lat(self.start_lat@ + scale_by_zoom(x, self.zoom_level@))
    }

    /// The longitude the forward transform assigns to pixel offset `y`.
    pub open spec fn forward_lon(self, y: int) -> int {
        norm_lon(self.start_lon@ + scale_by_zoom(y, self.zoom_level@))
    }

    /// The raw pixel offset the inverse transform computes from a latitude.
    pub open spec fn inverse_x(self, lat: int) -> int {
        ediv(((lat - self.start_lat@) % (LAT_SPAN as int)) * UNIT, self.zoom_level@)
    }

    /// The raw pixel offset the inverse transform computes from a longitude.
    pub open spec fn inverse_y(self, lon: int) -> int {
        ediv(((lon - self.start_lon@) % (LON_SPAN as int)) * UNIT, self.zoom_level@)
    }

    /// Build a frame whose pixel `(0, 0)` sits at the given anchor.
    ///
    /// Fails exactly when the zoom level is zero; the anchor is wrapped into
    /// canonical range before it is stored, and the dimensions are trusted as
    /// given.
    pub fn new(lat: Fixed, lon: Fixed, width: usize, height: usize, zoom_level: Fixed) -> (r:
        Result<Location, ParseError>)
        requires
            width <= MAX_DIM,
            height <= MAX_DIM,
            -ZOOM_LIMIT <= zoom_level@ <= ZOOM_LIMIT,
        ensures
            zoom_level@ == 0 ==> r == Err::<Location, ParseError>(ParseError::NonZero(zoom_level)),
            zoom_level@ != 0 ==> (r matches Ok(loc) && loc.start_lat@ == norm_lat(lat@)
                && loc.start_lon@ == norm_lon(lon@) && loc.width == width && loc.height == height
                && loc.zoom_level == zoom_level && loc.wf()),
    {
        if zoom_level.raw == 0 {
            return Err(ParseError::NonZero(zoom_level));
        }
        let start_lat = Fixed { raw: norm_lat_exec(lat.raw) };
        let start_lon = Fixed { raw: norm_lon_exec(lon.raw) };
        Ok(Location { start_lat, start_lon, width, height, zoom_level })
    }

    /// Build a frame whose visual center sits at the given coordinate: each
    /// axis's half-extent, `dim * zoom / 2` rounded down on raw values, is
    /// subtracted from the center before the same wrapping as [`Location::new`].
    ///
    /// Fails exactly when the zoom level is zero.
    pub fn new_center(lat: Fixed, lon: Fixed, width: usize, height: usize, zoom_level: Fixed) -> (r:
        Result<Location, ParseError>)
        requires
            width <= MAX_DIM,
            height <= MAX_DIM,
            -ZOOM_LIMIT <= zoom_level@ <= ZOOM_LIMIT,
        ensures
            zoom_level@ == 0 ==> r == Err::<Location, ParseError>(ParseError::NonZero(zoom_level)),
            zoom_level@ != 0 ==> (r matches Ok(loc) && loc.start_lat@ == norm_lat(
                lat@ - half_extent(width as int, zoom_level@),
            ) && loc.start_lon@ == norm_lon(lon@ - half_extent(height as int, zoom_level@))
                && loc.width == width && loc.height == height && loc.zoom_level == zoom_level
                && loc.wf()),
    {
        if zoom_level.raw == 0 {
            return Err(ParseError::NonZero(zoom_level));
        }
        proof {
            assert((width as i128) * zoom_level.raw <= (MAX_DIM as i128) * ZOOM_LIMIT && (
            width as i128) * zoom_level.raw >= -((MAX_DIM as i128) * ZOOM_LIMIT))
                by (nonlinear_arith)
                requires
                    0 <= (width as i128) <= (MAX_DIM as i128),
                    -ZOOM_LIMIT <= zoom_level.raw <= ZOOM_LIMIT,
            ;
            assert((height as i128) * zoom_level.raw <= (MAX_DIM as i128) * ZOOM_LIMIT && (
            height as i128) * zoom_level.raw >= -((MAX_DIM as i128) * ZOOM_LIMIT))
                by (nonlinear_arith)
                requires
                    0 <= (height as i128) <= (MAX_DIM as i128),
                    -ZOOM_LIMIT <= zoom_level.raw <= ZOOM_LIMIT,
            ;
        }
        let half_lat: i128 = euclid_div_pos((width as i128) * zoom_level.raw, 2);
        let half_lon: i128 = euclid_div_pos((height as i128) * zoom_level.raw, 2);
        let lat_m = euclid_rem(lat.raw, LAT_SPAN);
        let half_lat_m = euclid_rem(half_lat, LAT_SPAN);
        let start_lat = Fixed { raw: norm_lat_exec(lat_m - half_lat_m) };
        proof {
            lemma_sub_mod_noop(lat.raw as int, half_lat as int, LAT_SPAN as int);
            lemma_norm_lat_congruent(
                lat_m - half_lat_m,
                lat.raw - half_extent(width as int, zoom_level.raw as int),
            );
        }
        let lon_m = euclid_rem(lon.raw, LON_SPAN);
        let half_lon_m = euclid_rem(half_lon, LON_SPAN);
        let start_lon = Fixed { raw: norm_lon_exec(lon_m - half_lon_m) };
        proof {
            lemma_sub_mod_noop(lon.raw as int, half_lon as int, LON_SPAN as int);
            lemma_norm_lon_congruent(
                lon_m - half_lon_m,
                lon.raw - half_extent(height as int, zoom_level.raw as int),
            );
        }
        Ok(Location { start_lat, start_lon, width, height, zoom_level })
    }

    /// Pixel offset to geographic coordinate: pixel x is worth `x * zoom`
    /// degrees of latitude past the anchor, pixel y the same in longitude,
    /// each wrapped into canonical range.
    ///
    /// Fails exactly when an axis value exceeds its dimension; the bound is
    /// inclusive, so `x == width` is still accepted. The x axis is checked
    /// first.
    pub fn from_xy(&self, x: Fixed, y: Fixed) -> (r: Result<(Fixed, Fixed), ParseError>)
        requires
            self.wf(),
            x@ >= 0,
            y@ >= 0,
        ensures
            x@ > self.width * UNIT ==> r == Err::<(Fixed, Fixed), ParseError>(
                ParseError::OutOfRange(self.width, x),
            ),
            x@ <= self.width * UNIT && y@ > self.height * UNIT ==> r == Err::<
                (Fixed, Fixed),
                ParseError,
            >(ParseError::OutOfRange(self.height, y)),
            x@ <= self.width * UNIT && y@ <= self.height * UNIT ==> (r matches Ok(p)
                && p.0@ == self.forward_lat(x@) && p.1@ == self.forward_lon(y@)),
    {
        let wl: i128 = (self.width as i128) * UNIT;
        if x.raw > wl {
            return Err(ParseError::OutOfRange(self.width, x));
        }
        let hl: i128 = (self.height as i128) * UNIT;
        if y.raw > hl {
            return Err(ParseError::OutOfRange(self.height, y));
        }
        proof {
            assert(x.raw * self.zoom_level.raw <= ((MAX_DIM as i128) * UNIT) * ZOOM_LIMIT && x.raw
                * self.zoom_level.raw >= -(((MAX_DIM as i128) * UNIT) * ZOOM_LIMIT))
                by (nonlinear_arith)
                requires
                    0 <= x.raw <= (MAX_DIM as i128) * UNIT,
                    -ZOOM_LIMIT <= self.zoom_level.raw <= ZOOM_LIMIT,
            ;
            assert(y.raw * self.zoom_level.raw <= ((MAX_DIM as i128) * UNIT) * ZOOM_LIMIT && y.raw
                * self.zoom_level.raw >= -(((MAX_DIM as i128) * UNIT) * ZOOM_LIMIT))
                by (nonlinear_arith)
                requires
                    0 <= y.raw <= (MAX_DIM as i128) * UNIT,
                    -ZOOM_LIMIT <= self.zoom_level.raw <= ZOOM_LIMIT,
            ;
        }
        let qx: i128 = euclid_div_pos(x.raw * self.zoom_level.raw, UNIT);
        let qy: i128 = euclid_div_pos(y.raw * self.zoom_level.raw, UNIT);
        let lat = Fixed { raw: norm_lat_exec(self.start_lat.raw + qx) };
        let lon = Fixed { raw: norm_lon_exec(self.start_lon.raw + qy) };
        Ok((lat, lon))
    }

    /// Geographic coordinate to pixel offset: the forward distance from the
    /// anchor around each axis's span, divided by the zoom level.
    ///
    /// The distances are taken modulo the full spans, 180 and 360 degrees, so
    /// any latitude and longitude are accepted; fails exactly when a computed
    /// pixel offset exceeds its inclusive dimension bound, x checked first.
    pub fn from_latlon(&self, lat: Fixed, lon: Fixed) -> (r: Result<(Fixed, Fixed), ParseError>)
        requires
            self.wf(),
        ensures
            ({
                let xq = self.inverse_x(lat@);
                let yq = self.inverse_y(lon@);
                &&& (xq > self.width * UNIT ==> r == Err::<(Fixed, Fixed), ParseError>(
                    ParseError::OutOfRange(self.width, (Fixed { raw: xq as i128 })),
                ))
                &&& (xq <= self.width * UNIT && yq > self.height * UNIT ==> r == Err::<
                    (Fixed, Fixed),
                    ParseError,
                >(ParseError::OutOfRange(self.height, (Fixed { raw: yq as i128 }))))
                &&& (xq <= self.width * UNIT && yq <= self.height * UNIT ==> r == Ok::<
                    (Fixed, Fixed),
                    ParseError,
                >(((Fixed { raw: xq as i128 }), (Fixed { raw: yq as i128 }))))
            }),
    {
        let lat_m = euclid_rem(lat.raw, LAT_SPAN);
        let s_lat_m = euclid_rem(self.start_lat.raw, LAT_SPAN);
        let dx = euclid_rem(lat_m - s_lat_m, LAT_SPAN);
        proof {
            lemma_sub_mod_noop(lat.raw as int, self.start_lat.raw as int, LAT_SPAN as int);
        }
        let lon_m = euclid_rem(lon.raw, LON_SPAN);
        let s_lon_m = euclid_rem(self.start_lon.raw, LON_SPAN);
        let dy = euclid_rem(lon_m - s_lon_m, LON_SPAN);
        proof {
            lemma_sub_mod_noop(lon.raw as int, self.start_lon.raw as int, LON_SPAN as int);
        }
        let xq: i128 = euclid_div(dx * UNIT, self.zoom_level.raw);
        let yq: i128 = euclid_div(dy * UNIT, self.zoom_level.raw);
        let wl: i128 = (self.width as i128) * UNIT;
        if xq > wl {
            return Err(ParseError::OutOfRange(self.width, Fixed { raw: xq }));
        }
        let hl: i128 = (self.height as i128) * UNIT;
        if yq > hl {
            return Err(ParseError::OutOfRange(self.height, Fixed { raw: yq }));
        }
        Ok((Fixed { raw: xq }, Fixed { raw: yq }))
    }
}

/// One axis of the round trip: scaling a pixel offset by a positive zoom,
/// wrapping the result past an anchor into the canonical range, taking the
/// forward distance back from the anchor and dividing by the zoom returns the
/// offset exactly, as long as the scaled offset is exact in raw units and
/// smaller than the axis span.
proof fn lemma_round_trip_axis(s: int, z: int, x: int, off: int, span: int)
    requires
        0 < z,
        0 < off,
        span == 2 * off,
        -off <= s < off,
        0 <= x,
        (x * z) % (UNIT as int) == 0,
        x * z < span * UNIT,
    ensures
        ({
            let q = (x * z) / (UNIT as int);
            let wrapped = (s + q + off) % span - off;
            ediv(((wrapped - s) % span) * UNIT, z) == x
        }),
{
    assert(0 <= x * z) by (nonlinear_arith)
        requires
            0 <= x,
            0 < z,
    ;
    let xz = x * z;
    let q = xz / (UNIT as int);
    lemma_fundamental_div_mod(xz, UNIT as int);
    assert(xz == (UNIT as int) * q);
    lemma_div_pos_is_pos(xz, UNIT as int);
    assert(q < span) by (nonlinear_arith)
        requires
            (UNIT as int) * q < span * (UNIT as int),
            0 < (UNIT as int),
    ;
    let a = s + q + off;
    let k = a / span;
    lemma_fundamental_div_mod(a, span);
    let wrapped = a % span - off;
    assert(a % span == a - span * k);
    assert(wrapped - s == q - span * k);
    assert(q - span * k == span * (-k) + q) by (nonlinear_arith);
    lemma_mod_multiples_vanish(-k, q, span);
    lemma_small_mod(q as nat, span as nat);
    assert((wrapped - s) % span == q);
    assert(q * UNIT == z * x) by (nonlinear_arith)
        requires
            (UNIT as int) * q == x * z,
    ;
    lemma_div_multiples_vanish(x, z);
    assert(ediv(q * (UNIT as int), z) == (z * x) / z);
}

/// Round-trip law: for a frame with a positive zoom level and pixel offsets
/// inside the frame, converting pixels to a geographic coordinate and that
/// coordinate back to pixels returns the offsets exactly, provided each scaled
/// offset `x * zoom` is exact in raw units and smaller than its axis span, so
/// that no rounding and no wrap-around aliasing occurs.
pub proof fn lemma_round_trip(loc: Location, x: int, y: int)
    requires
        loc.wf(),
        loc.zoom_level@ > 0,
        0 <= x <= loc.width * UNIT,
        0 <= y <= loc.height * UNIT,
        (x * loc.zoom_level@) % (UNIT as int) == 0,
        x * loc.zoom_level@ < LAT_SPAN * UNIT,
        (y * loc.zoom_level@) % (UNIT as int) == 0,
        y * loc.zoom_level@ < LON_SPAN * UNIT,
    ensures
        loc.inverse_x(loc.forward_lat(x)) == x,
        loc.inverse_y(loc.forward_lon(y)) == y,
{
    lemma_round_trip_axis(
        loc.start_lat@,
        loc.zoom_level@,
        x,
        LAT_OFFSET as int,
        LAT_SPAN as int,
    );
    lemma_round_trip_axis(
        loc.start_lon@,
        loc.zoom_level@,
        y,
        LON_OFFSET as int,
        LON_SPAN as int,
    );
}

} // verus!
