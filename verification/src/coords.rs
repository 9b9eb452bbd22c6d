//! Coordinate transformations between raw input-device positions,
//! viewport-relative draw positions and image-content positions, under a pan
//! offset and a zoom factor.
//!
//! Positions are exact rationals, so the transformations compose without
//! rounding and `to_content` is a true inverse of `to_draw_raw`. A rational
//! is only reduced where a caller asks for it; equality and order are value
//! equality and order (cross multiplication), not equality of components.

use vstd::prelude::*;

verus! {

/// The mathematical value of a [`Frac`]: the rational `num / den`.
pub ghost struct FracView {
    pub num: int,
    pub den: int,
}

/// A well-formed rational keeps its denominator positive.
pub open spec fn frac_wf(a: FracView) -> bool {
    a.den > 0
}

/// Value equality of two rationals with positive denominators.
pub open spec fn frac_eq(a: FracView, b: FracView) -> bool {
    a.num * b.den == b.num * a.den
}

/// Value order of two rationals with positive denominators.
pub open spec fn frac_lt(a: FracView, b: FracView) -> bool {
    a.num * b.den < b.num * a.den
}

/// Value order or equality of two rationals with positive denominators.
pub open spec fn frac_le(a: FracView, b: FracView) -> bool {
    a.num * b.den <= b.num * a.den
}

pub open spec fn frac_add(a: FracView, b: FracView) -> FracView {
    FracView { num: a.num * b.den + b.num * a.den, den: a.den * b.den }
}

pub open spec fn frac_sub(a: FracView, b: FracView) -> FracView {
    FracView { num: a.num * b.den - b.num * a.den, den: a.den * b.den }
}

pub open spec fn frac_mul(a: FracView, b: FracView) -> FracView {
    FracView { num: a.num * b.num, den: a.den * b.den }
}

/// Division keeps the denominator positive by moving the divisor's sign into
/// the numerator.
pub open spec fn frac_div(a: FracView, b: FracView) -> FracView {
    if b.num >= 0 {
        FracView { num: a.num * b.den, den: a.den * b.num }
    } else {
        FracView { num: -(a.num * b.den), den: -(a.den * b.num) }
    }
}

pub open spec fn fits_i128(x: int) -> bool {
    i128::MIN <= x <= i128::MAX
}

/// The components the executable addition computes stay in machine range.
pub open spec fn add_defined(a: FracView, b: FracView) -> bool {
    &&& fits_i128(a.num * b.den)
    &&& fits_i128(b.num * a.den)
    &&& fits_i128(a.num * b.den + b.num * a.den)
    &&& fits_i128(a.den * b.den)
}

/// The components the executable subtraction computes stay in machine range.
pub open spec fn sub_defined(a: FracView, b: FracView) -> bool {
    &&& fits_i128(a.num * b.den)
    &&& fits_i128(b.num * a.den)
    &&& fits_i128(a.num * b.den - b.num * a.den)
    &&& fits_i128(a.den * b.den)
}

/// The components the executable multiplication computes stay in machine range.
pub open spec fn mul_defined(a: FracView, b: FracView) -> bool {
    &&& fits_i128(a.num * b.num)
    &&& fits_i128(a.den * b.den)
}

/// The components the executable division computes stay in machine range.
pub open spec fn div_defined(a: FracView, b: FracView) -> bool {
    &&& fits_i128(a.num * b.den)
    &&& fits_i128(a.den * b.num)
    &&& fits_i128(-(a.num * b.den))
    &&& fits_i128(-(a.den * b.num))
}

/// The products the executable comparisons compute stay in machine range.
pub open spec fn cmp_defined(a: FracView, b: FracView) -> bool {
    &&& fits_i128(a.num * b.den)
    &&& fits_i128(b.num * a.den)
}

/// An exact rational number with a positive denominator.
#[derive(Clone, Copy, Debug)]
pub struct Frac {
    pub num: i128,
    pub den: i128,
}

impl View for Frac {
    type V = FracView;

    open spec fn view(&self) -> FracView {
        FracView { num: self.num as int, den: self.den as int }
    }
}

impl Frac {
    /// The rational `num / den`.
    pub fn new(num: i64, den: i64) -> (r: Frac)
        requires
            den > 0,
        ensures
            r@ == (FracView { num: num as int, den: den as int }),
            frac_wf(r@),
    {
        Frac { num: num as i128, den: den as i128 }
    }

    /// The whole number `n`.
    pub fn from_int(n: i64) -> (r: Frac)
        ensures
            r@ == (FracView { num: n as int, den: 1 }),
            frac_wf(r@),
            frac_eq(r@, FracView { num: n as int, den: 1 }),
    {
        Frac { num: n as i128, den: 1 }
    }

    /// The value `m / 1000`: a content-space position stored in milli-units,
    /// as an exact rational.
    pub fn from_milli(m: i64) -> (r: Frac)
        ensures
            r@ == (FracView { num: m as int, den: 1000 }),
            frac_wf(r@),
    {
        Frac { num: m as i128, den: 1000 }
    }

    pub fn add(self, other: Frac) -> (r: Frac)
        requires
            frac_wf(self@),
            frac_wf(other@),
            add_defined(self@, other@),
        ensures
            r@ == frac_add(self@, other@),
            frac_wf(r@),
    {
        proof {
            assert(self@.den * other@.den > 0) by (nonlinear_arith)
                requires
                    self@.den > 0,
                    other@.den > 0,
            ;
        }
        Frac { num: self.num * other.den + other.num * self.den, den: self.den * other.den }
    }

    pub fn sub(self, other: Frac) -> (r: Frac)
        requires
            frac_wf(self@),
            frac_wf(other@),
            sub_defined(self@, other@),
        ensures
            r@ == frac_sub(self@, other@),
            frac_wf(r@),
    {
        proof {
            assert(self@.den * other@.den > 0) by (nonlinear_arith)
                requires
                    self@.den > 0,
                    other@.den > 0,
            ;
        }
        Frac { num: self.num * other.den - other.num * self.den, den: self.den * other.den }
    }

    pub fn mul(self, other: Frac) -> (r: Frac)
        requires
            frac_wf(self@),
            frac_wf(other@),
            mul_defined(self@, other@),
        ensures
            r@ == frac_mul(self@, other@),
            frac_wf(r@),
    {
        proof {
            assert(self@.den * other@.den > 0) by (nonlinear_arith)
                requires
                    self@.den > 0,
                    other@.den > 0,
            ;
        }
        Frac { num: self.num * other.num, den: self.den * other.den }
    }

    /// Division by a nonzero rational.
    pub fn div(self, other: Frac) -> (r: Frac)
        requires
            frac_wf(self@),
            frac_wf(other@),
            other@.num != 0,
            div_defined(self@, other@),
        ensures
            r@ == frac_div(self@, other@),
            frac_wf(r@),
    {
        if other.num >= 0 {
            proof {
                assert(self@.den * other@.num > 0) by (nonlinear_arith)
                    requires
                        self@.den > 0,
                        other@.num > 0,
                ;
            }
            Frac { num: self.num * other.den, den: self.den * other.num }
        } else {
            proof {
                assert(self@.den * other@.num < 0) by (nonlinear_arith)
                    requires
                        self@.den > 0,
                        other@.num < 0,
                ;
            }
            Frac { num: -(self.num * other.den), den: -(self.den * other.num) }
        }
    }

    /// Whether the two rationals have the same value.
    pub fn value_eq(self, other: Frac) -> (r: bool)
        requires
            frac_wf(self@),
            frac_wf(other@),
            cmp_defined(self@, other@),
        ensures
            r == frac_eq(self@, other@),
    {
        self.num * other.den == other.num * self.den
    }

    /// Whether this rational's value is strictly below the other's.
    pub fn value_lt(self, other: Frac) -> (r: bool)
        requires
            frac_wf(self@),
            frac_wf(other@),
            cmp_defined(self@, other@),
        ensures
            r == frac_lt(self@, other@),
    {
        self.num * other.den < other.num * self.den
    }

    /// Whether this rational's value is at most the other's.
    pub fn value_le(self, other: Frac) -> (r: bool)
        requires
            frac_wf(self@),
            frac_wf(other@),
            cmp_defined(self@, other@),
        ensures
            r == frac_le(self@, other@),
    {
        self.num * other.den <= other.num * self.den
    }

    /// The largest count of milli-units at or below this value: the floor of
    /// `1000 * num / den`, or `None` when that floor does not fit in an
    /// `i64`. Used to store a freshly resolved content position in a
    /// document.
    pub fn floor_milli(self) -> (r: Option<i64>)
        requires
            frac_wf(self@),
            -i128::MAX <= self@.num * 1000 <= i128::MAX,
        ensures
            ({
                let q = (self@.num * 1000) / self@.den;
                if i64::MIN <= q <= i64::MAX {
                    r == Some(q as i64)
                } else {
                    r is None
                }
            }),
    {
        let scaled: i128 = self.num * 1000;
        let ghost q = (self@.num * 1000) / self@.den;
        let floor: i128;
        if scaled >= 0 {
            let mag: u128 = scaled as u128;
            let d: u128 = self.den as u128;
            let quot = mag / d;
            proof {
                assert(quot <= mag) by (nonlinear_arith)
                    requires
                        quot == mag as int / d as int,
                        d >= 1,
                        mag >= 0,
                ;
                assert(quot as int == q);
            }
            floor = quot as i128;
        } else {
            let mag_i: i128 = -scaled;
            let mag: u128 = mag_i as u128;
            let d: u128 = self.den as u128;
            let quot = mag / d;
            let rem = mag % d;
            proof {
                vstd::arithmetic::div_mod::lemma_fundamental_div_mod(mag as int, d as int);
                vstd::arithmetic::div_mod::lemma_mod_bound(mag as int, d as int);
                assert(quot <= mag) by (nonlinear_arith)
                    requires
                        quot == mag as int / d as int,
                        d >= 1,
                        mag >= 0,
                ;
            }
            if rem == 0 {
                proof {
                    assert(scaled as int == (-(quot as int)) * self@.den + 0) by (nonlinear_arith)
                        requires
                            scaled as int == -(mag as int),
                            mag as int == d as int * (quot as int) + rem as int,
                            rem == 0,
                            d as int == self@.den,
                    ;
                    vstd::arithmetic::div_mod::lemma_fundamental_div_mod_converse(
                        scaled as int,
                        self@.den,
                        -(quot as int),
                        0,
                    );
                }
                floor = -(quot as i128);
            } else {
                proof {
                    assert(scaled as int == (-(quot as int) - 1) * self@.den + (self@.den
                        - rem as int)) by (nonlinear_arith)
                        requires
                            scaled as int == -(mag as int),
                            mag as int == d as int * (quot as int) + rem as int,
                            d as int == self@.den,
                    ;
                    vstd::arithmetic::div_mod::lemma_fundamental_div_mod_converse(
                        scaled as int,
                        self@.den,
                        -(quot as int) - 1,
                        self@.den - rem as int,
                    );
                }
                floor = -(quot as i128) - 1;
            }
        }
        proof {
            assert(floor == q);
        }
        if floor >= i64::MIN as i128 && floor <= i64::MAX as i128 {
            Some(floor as i64)
        } else {
            None
        }
    }
}

/// Transitivity of rational value equality, for positive denominators.
pub proof fn lemma_frac_eq_trans(a: FracView, b: FracView, c: FracView)
    requires
        frac_wf(a),
        frac_wf(b),
        frac_wf(c),
        frac_eq(a, b),
        frac_eq(b, c),
    ensures
        frac_eq(a, c),
{
    assert(a.num * c.den == c.num * a.den) by (nonlinear_arith)
        requires
            a.num * b.den == b.num * a.den,
            b.num * c.den == c.num * b.den,
            b.den > 0,
    ;
}

/// Adding a value and then subtracting it again leaves the value unchanged.
pub proof fn lemma_add_sub_cancel(x: FracView, o: FracView)
    requires
        frac_wf(x),
        frac_wf(o),
    ensures
        frac_eq(frac_sub(frac_add(x, o), o), x),
{
    let s = frac_sub(frac_add(x, o), o);
    assert(s.num * x.den == x.num * s.den) by (nonlinear_arith)
        requires
            s == frac_sub(frac_add(x, o), o),
    ;
}

/// Subtracting the same value from equal values gives equal values.
#[verifier::rlimit(50)]
pub proof fn lemma_frac_eq_sub(x: FracView, y: FracView, t: FracView)
    requires
        frac_wf(x),
        frac_wf(y),
        frac_wf(t),
        frac_eq(x, y),
    ensures
        frac_eq(frac_sub(x, t), frac_sub(y, t)),
{
    assert((x.num * t.den - t.num * x.den) * (y.den * t.den) == (x.num * y.den) * (t.den * t.den)
        - (t.num * t.den) * (x.den * y.den)) by (nonlinear_arith);
    assert((y.num * t.den - t.num * y.den) * (x.den * t.den) == (y.num * x.den) * (t.den * t.den)
        - (t.num * t.den) * (x.den * y.den)) by (nonlinear_arith);
    assert((x.num * y.den) * (t.den * t.den) == (y.num * x.den) * (t.den * t.den));
}

/// Dividing equal values by the same nonzero value gives equal values.
pub proof fn lemma_frac_eq_div(x: FracView, y: FracView, z: FracView)
    requires
        frac_wf(x),
        frac_wf(y),
        frac_wf(z),
        z.num != 0,
        frac_eq(x, y),
    ensures
        frac_eq(frac_div(x, z), frac_div(y, z)),
{
    let dx = frac_div(x, z);
    let dy = frac_div(y, z);
    assert(dx.num * dy.den == dy.num * dx.den) by (nonlinear_arith)
        requires
            dx == frac_div(x, z),
            dy == frac_div(y, z),
            z.num != 0,
            x.num * y.den == y.num * x.den,
    ;
}

/// Multiplying by a nonzero value and then dividing by it leaves the value
/// unchanged.
pub proof fn lemma_mul_div_cancel(x: FracView, z: FracView)
    requires
        frac_wf(x),
        frac_wf(z),
        z.num != 0,
    ensures
        frac_eq(frac_div(frac_mul(x, z), z), x),
{
    let d = frac_div(frac_mul(x, z), z);
    assert(d.num * x.den == x.num * d.den) by (nonlinear_arith)
        requires
            d == frac_div(frac_mul(x, z), z),
            z.num != 0,
    ;
}

/// Division by a nonzero value keeps the denominator positive.
pub proof fn lemma_div_wf(x: FracView, z: FracView)
    requires
        frac_wf(x),
        frac_wf(z),
        z.num != 0,
    ensures
        frac_wf(frac_div(x, z)),
{
    assert(frac_wf(frac_div(x, z))) by (nonlinear_arith)
        requires
            x.den > 0,
            z.den > 0,
            z.num != 0,
    ;
}

/// A position: a pair of exact rational coordinates.
#[derive(Clone, Copy, Debug)]
pub struct Pos {
    pub x: Frac,
    pub y: Frac,
}

/// The mathematical value of a [`Pos`].
pub ghost struct PosView {
    pub x: FracView,
    pub y: FracView,
}

impl View for Pos {
    type V = PosView;

    open spec fn view(&self) -> PosView {
        PosView { x: self.x@, y: self.y@ }
    }
}

pub open spec fn pos_wf(p: PosView) -> bool {
    frac_wf(p.x) && frac_wf(p.y)
}

impl Pos {
    pub fn new(x: Frac, y: Frac) -> (r: Pos)
        ensures
            r@.x == x@,
            r@.y == y@,
    {
        Pos { x, y }
    }

    /// A content-space position stored in milli-units, as exact rationals.
    pub fn from_milli(x_milli: i64, y_milli: i64) -> (r: Pos)
        ensures
            r@.x == (FracView { num: x_milli as int, den: 1000 }),
            r@.y == (FracView { num: y_milli as int, den: 1000 }),
            pos_wf(r@),
    {
        Pos { x: Frac::from_milli(x_milli), y: Frac::from_milli(y_milli) }
    }
}

/// Where a content position lands in the viewport: scale by the zoom factor,
/// then add the pan offset. This is the raw draw position, before any
/// cosmetic marker-centering adjustment.
pub open spec fn spec_to_draw_raw(p: FracView, pan: FracView, zoom: FracView) -> FracView {
    frac_add(frac_mul(p, zoom), pan)
}

/// The draw position of a marker: the raw draw position shifted back by half
/// the marker's visual footprint, so the glyph is centered on the position.
pub open spec fn spec_to_draw(p: FracView, pan: FracView, zoom: FracView, half: FracView) -> FracView {
    frac_sub(spec_to_draw_raw(p, pan, zoom), half)
}

/// Which content position a raw input position refers to: subtract the
/// viewport's on-screen origin, subtract the pan offset, then divide by the
/// zoom factor.
pub open spec fn spec_to_content(
    raw: FracView,
    origin: FracView,
    pan: FracView,
    zoom: FracView,
) -> FracView {
    frac_div(frac_sub(frac_sub(raw, origin), pan), zoom)
}

pub open spec fn to_draw_raw_defined(p: FracView, pan: FracView, zoom: FracView) -> bool {
    mul_defined(p, zoom) && add_defined(frac_mul(p, zoom), pan)
}

pub open spec fn to_draw_defined(p: FracView, pan: FracView, zoom: FracView, half: FracView) -> bool {
    to_draw_raw_defined(p, pan, zoom) && sub_defined(spec_to_draw_raw(p, pan, zoom), half)
}

pub open spec fn to_content_defined(
    raw: FracView,
    origin: FracView,
    pan: FracView,
    zoom: FracView,
) -> bool {
    &&& sub_defined(raw, origin)
    &&& sub_defined(frac_sub(raw, origin), pan)
    &&& div_defined(frac_sub(frac_sub(raw, origin), pan), zoom)
}

/// Converts a content position to its raw draw position in the viewport,
/// applying the current pan offset and zoom factor to each axis.
pub fn to_draw_raw(p: Pos, pan: Pos, zoom: Frac) -> (r: Pos)
    requires
        pos_wf(p@),
        pos_wf(pan@),
        frac_wf(zoom@),
        to_draw_raw_defined(p@.x, pan@.x, zoom@),
        to_draw_raw_defined(p@.y, pan@.y, zoom@),
    ensures
        r@.x == spec_to_draw_raw(p@.x, pan@.x, zoom@),
        r@.y == spec_to_draw_raw(p@.y, pan@.y, zoom@),
        pos_wf(r@),
{
    Pos { x: p.x.mul(zoom).add(pan.x), y: p.y.mul(zoom).add(pan.y) }
}

/// Converts a content position to the draw position of its marker, shifting
/// by half the marker's visual footprint so the glyph is centered.
pub fn to_draw(p: Pos, pan: Pos, zoom: Frac, half_marker: Pos) -> (r: Pos)
    requires
        pos_wf(p@),
        pos_wf(pan@),
        frac_wf(zoom@),
        pos_wf(half_marker@),
        to_draw_defined(p@.x, pan@.x, zoom@, half_marker@.x),
        to_draw_defined(p@.y, pan@.y, zoom@, half_marker@.y),
    ensures
        r@.x == spec_to_draw(p@.x, pan@.x, zoom@, half_marker@.x),
        r@.y == spec_to_draw(p@.y, pan@.y, zoom@, half_marker@.y),
        pos_wf(r@),
{
    let raw = to_draw_raw(p, pan, zoom);
    Pos { x: raw.x.sub(half_marker.x), y: raw.y.sub(half_marker.y) }
}

/// Resolves a raw input position to the content position it refers to, given
/// the viewport origin, the pan offset and a nonzero zoom factor.
pub fn to_content(raw: Pos, origin: Pos, pan: Pos, zoom: Frac) -> (r: Pos)
    requires
        pos_wf(raw@),
        pos_wf(origin@),
        pos_wf(pan@),
        frac_wf(zoom@),
        zoom@.num != 0,
        to_content_defined(raw@.x, origin@.x, pan@.x, zoom@),
        to_content_defined(raw@.y, origin@.y, pan@.y, zoom@),
    ensures
        r@.x == spec_to_content(raw@.x, origin@.x, pan@.x, zoom@),
        r@.y == spec_to_content(raw@.y, origin@.y, pan@.y, zoom@),
        pos_wf(r@),
{
    Pos {
        x: raw.x.sub(origin.x).sub(pan.x).div(zoom),
        y: raw.y.sub(origin.y).sub(pan.y).div(zoom),
    }
}

/// Resolving the viewport position where a content position is drawn gives
/// back exactly that content position, for every pan offset, viewport origin
/// and nonzero zoom factor. The raw input position of a draw position is the
/// draw position shifted by the viewport's on-screen origin, which
/// `spec_to_content` subtracts again.
pub proof fn lemma_to_content_inverts_to_draw(
    p: FracView,
    origin: FracView,
    pan: FracView,
    zoom: FracView,
)
    requires
        frac_wf(p),
        frac_wf(origin),
        frac_wf(pan),
        frac_wf(zoom),
        zoom.num != 0,
    ensures
        frac_eq(
            spec_to_content(frac_add(spec_to_draw_raw(p, pan, zoom), origin), origin, pan, zoom),
            p,
        ),
{
    let m = frac_mul(p, zoom);
    let draw = frac_add(m, pan);
    let raw = frac_add(draw, origin);
    let s1 = frac_sub(raw, origin);
    let s2 = frac_sub(s1, pan);
    let r = frac_div(s2, zoom);
    assert(p.den * zoom.den > 0 && (p.den * zoom.den) * pan.den > 0 && ((p.den * zoom.den)
        * pan.den) * origin.den > 0 && (((p.den * zoom.den) * pan.den) * origin.den) * origin.den
        > 0 && ((((p.den * zoom.den) * pan.den) * origin.den) * origin.den) * pan.den > 0 && ((p.den
        * zoom.den) * pan.den) * pan.den > 0) by (nonlinear_arith)
        requires
            p.den > 0,
            origin.den > 0,
            pan.den > 0,
            zoom.den > 0,
    ;
    assert(frac_wf(m) && frac_wf(draw) && frac_wf(raw) && frac_wf(s1) && frac_wf(s2) && frac_wf(
        frac_sub(draw, pan),
    ));
    lemma_add_sub_cancel(draw, origin);
    lemma_frac_eq_sub(s1, draw, pan);
    lemma_add_sub_cancel(m, pan);
    lemma_frac_eq_trans(s2, frac_sub(draw, pan), m);
    lemma_frac_eq_div(s2, m, zoom);
    lemma_mul_div_cancel(p, zoom);
    lemma_div_wf(s2, zoom);
    lemma_div_wf(m, zoom);
    lemma_frac_eq_trans(r, frac_div(m, zoom), p);
}

/// The fixed rectangle occupied by the map viewport on screen: its origin
/// and its size. A raw input position creates a marker only when it falls
/// inside this rectangle.
#[derive(Clone, Copy, Debug)]
pub struct Viewport {
    pub origin: Pos,
    pub width: Frac,
    pub height: Frac,
}

/// The mathematical value of a [`Viewport`].
pub ghost struct ViewportView {
    pub origin: PosView,
    pub width: FracView,
    pub height: FracView,
}

impl View for Viewport {
    type V = ViewportView;

    open spec fn view(&self) -> ViewportView {
        ViewportView { origin: self.origin@, width: self.width@, height: self.height@ }
    }
}

pub open spec fn viewport_wf(vp: ViewportView) -> bool {
    pos_wf(vp.origin) && frac_wf(vp.width) && frac_wf(vp.height)
}

/// Whether a raw position falls inside the map viewport's rectangle.
pub open spec fn spec_in_viewport(vp: ViewportView, p: PosView) -> bool {
    &&& frac_le(vp.origin.x, p.x)
    &&& frac_lt(p.x, frac_add(vp.origin.x, vp.width))
    &&& frac_le(vp.origin.y, p.y)
    &&& frac_lt(p.y, frac_add(vp.origin.y, vp.height))
}

pub open spec fn in_viewport_defined(vp: ViewportView, p: PosView) -> bool {
    &&& cmp_defined(vp.origin.x, p.x)
    &&& add_defined(vp.origin.x, vp.width)
    &&& cmp_defined(p.x, frac_add(vp.origin.x, vp.width))
    &&& cmp_defined(vp.origin.y, p.y)
    &&& add_defined(vp.origin.y, vp.height)
    &&& cmp_defined(p.y, frac_add(vp.origin.y, vp.height))
}

impl Viewport {
    /// Whether a raw position falls inside this viewport's rectangle; used to
    /// gate marker creation so clicks on other interface elements never
    /// create points.
    pub fn contains(&self, p: Pos) -> (r: bool)
        requires
            viewport_wf(self@),
            pos_wf(p@),
            in_viewport_defined(self@, p@),
        ensures
            r == spec_in_viewport(self@, p@),
    {
        let right = self.origin.x.add(self.width);
        let bottom = self.origin.y.add(self.height);
        self.origin.x.value_le(p.x) && p.x.value_lt(right) && self.origin.y.value_le(p.y)
            && p.y.value_lt(bottom)
    }
}

/// Clamps a zoom factor into the configured range `[lo, hi]`, by value.
pub fn clamp_zoom(zoom: Frac, lo: Frac, hi: Frac) -> (r: Frac)
    requires
        frac_wf(zoom@),
        frac_wf(lo@),
        frac_wf(hi@),
        cmp_defined(zoom@, lo@),
        cmp_defined(hi@, zoom@),
    ensures
        frac_lt(zoom@, lo@) ==> r == lo,
        !frac_lt(zoom@, lo@) && frac_lt(hi@, zoom@) ==> r == hi,
        !frac_lt(zoom@, lo@) && !frac_lt(hi@, zoom@) ==> r == zoom,
        frac_wf(r@),
{
    if zoom.value_lt(lo) {
        lo
    } else if hi.value_lt(zoom) {
        hi
    } else {
        zoom
    }
}

} // verus!
