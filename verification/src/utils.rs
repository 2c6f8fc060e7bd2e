//! Geometry shared by every entity: points, sizes, bounding rectangles, the
//! overlap test, and random sampling in a range and on a rectangle's edge.

use vstd::prelude::*;
use crate::fixed::{
    axis_distance, between, ceil_root, ceil_sqrt, distance, is_ceil_root,
    lemma_ceil_root_exists, lemma_trunc_div_bounds, magnitude, scale, scaled, trunc_div, UNIT,
};

verus! {

/// A pair of coordinates: a position, a velocity or an aim target.
#[derive(Clone, Copy, Debug, PartialEq, Eq, Structural)]
pub struct Vec2 {
    pub x: i32,
    pub y: i32,
}

/// A point of the play area.
#[derive(Clone, Copy, Debug, PartialEq, Eq, Structural)]
pub struct Position {
    pub x: i32,
    pub y: i32,
}

/// The extent of a sprite or of the play area.
#[derive(Clone, Copy, Debug, PartialEq, Eq, Structural)]
pub struct Size {
    pub width: i32,
    pub height: i32,
}

/// Axis-aligned rectangle used for overlap tests only: a centre and a size.
#[derive(Clone, Copy, Debug, PartialEq, Eq, Structural)]
pub struct BoundingRect {
    pub x: i32,
    pub y: i32,
    pub width: i32,
    pub height: i32,
}

/// Something that takes part in collisions.
pub trait GetBoundingRect {
    /// The rectangle around the entity's live position.
    spec fn bounding_rect(&self) -> BoundingRect;

    fn get_bounding_rect(&self) -> (rect: BoundingRect)
        ensures
            rect == self.bounding_rect(),
    ;
}

/// Something whose velocity can be overwritten.
pub trait SetSpeed {
    spec fn current_speed(&self) -> Vec2;

    fn set_speed(&mut self, speed: Vec2)
        ensures
            final(self).current_speed() == speed,
    ;
}

/// Something that can be switched off and on.
pub trait IsActive {
    spec fn is_active(&self) -> bool;

    fn get_active(&self) -> (active: bool)
        ensures
            active == self.is_active(),
    ;

    fn set_active(&mut self, active: bool)
        ensures
            final(self).is_active() == active,
    ;
}

/// Two rectangles overlap when, on each axis, the distance between the
/// centres is less than a quarter of the summed sizes.
pub open spec fn overlaps(lhr: BoundingRect, rhr: BoundingRect) -> bool {
    &&& 4 * distance(lhr.x as int, rhr.x as int) < lhr.width + rhr.width
    &&& 4 * distance(lhr.y as int, rhr.y as int) < lhr.height + rhr.height
}

/// The overlap test of the collision checks.
pub fn hit_test(lhr: BoundingRect, rhr: BoundingRect) -> (hit: bool)
    ensures
        hit == overlaps(lhr, rhr),
{
    4 * axis_distance(lhr.x, rhr.x) < lhr.width as i64 + rhr.width as i64 && 4 * axis_distance(
        lhr.y,
        rhr.y,
    ) < lhr.height as i64 + rhr.height as i64
}

/// The overlap test does not depend on the order of its arguments.
pub proof fn lemma_overlaps_symmetric(a: BoundingRect, b: BoundingRect)
    ensures
        overlaps(a, b) == overlaps(b, a),
{
}

/// Number of values a raw sample can take.
pub const SAMPLE_SPAN: u64 = 0x1_0000_0000;

/// The point of `[min, max]` that a raw sample selects: the sample divides
/// the way from `min` to `max` into `SAMPLE_SPAN` parts.
pub open spec fn interpolate(min: int, max: int, sample: int) -> int {
    min + trunc_div((max - min) * sample, SAMPLE_SPAN as int)
}

/// An interpolated point lies between the two ends, and short of `max`
/// unless the ends coincide.
pub proof fn lemma_interpolate_between(min: int, max: int, sample: int)
    requires
        0 <= sample < SAMPLE_SPAN,
    ensures
        between(interpolate(min, max, sample), min, max),
        min < max ==> interpolate(min, max, sample) < max,
        sample == 0 ==> interpolate(min, max, sample) == min,
{
    let span = max - min;
    let product = span * sample;
    lemma_trunc_div_bounds(product, SAMPLE_SPAN as int);
    if span >= 0 {
        assert(0 <= product && (span > 0 ==> product < span * 0x1_0000_0000) && (span == 0
            ==> product == 0)) by (nonlinear_arith)
            requires
                product == span * sample,
                span >= 0,
                0 <= sample < 0x1_0000_0000,
        ;
        assert(product / 0x1_0000_0000 <= span && (span > 0 ==> product / 0x1_0000_0000 < span))
            by (nonlinear_arith)
            requires
                0 <= product,
                span > 0 ==> product < span * 0x1_0000_0000,
                span == 0 ==> product == 0,
                span >= 0,
        ;
    } else {
        let back = -span;
        assert(product <= 0 && -product < back * 0x1_0000_0000 && -product == back * sample)
            by (nonlinear_arith)
            requires
                product == span * sample,
                back == -span,
                back > 0,
                0 <= sample < 0x1_0000_0000,
        ;
        assert((-product) / 0x1_0000_0000 < back) by (nonlinear_arith)
            requires
                0 <= -product < back * 0x1_0000_0000,
        ;
    }
    if sample == 0 {
        assert(product == 0) by (nonlinear_arith)
            requires
                product == span * sample,
                sample == 0,
        ;
    }
}

/// Draws a raw sample: `rand::random::<u32>()`. Nothing is claimed of the
/// value drawn.
#[verifier::external_body]
fn random_sample() -> (sample: u32) {
    rand::random::<u32>()
}

/// Tosses a coin: `rand::random::<bool>()`. Nothing is claimed of the
/// outcome.
#[verifier::external_body]
fn random_coin() -> (heads: bool) {
    rand::random::<bool>()
}

/// The point of the range that `sample` selects.
pub fn sample_in_range(min: i32, max: i32, sample: u32) -> (value: i32)
    ensures
        value == interpolate(min as int, max as int, sample as int),
        between(value as int, min as int, max as int),
{
    let span: i128 = max as i128 - min as i128;
    proof {
        crate::fixed::lemma_product_bound(
            span as int,
            sample as int,
            0x1_0000_0000,
            0x1_0000_0000,
        );
        lemma_interpolate_between(min as int, max as int, sample as int);
    }
    let product: i128 = span * (sample as i128);
    let offset: i128 = product / 0x1_0000_0000;
    (min as i128 + offset) as i32
}

/// A random value of the range: for `min <= max` it lies in `[min, max]`,
/// and it is the point that some raw sample selects.
pub fn random_in_range(min: i32, max: i32) -> (value: i32)
    ensures
        between(value as int, min as int, max as int),
        exists|sample: u32| value == interpolate(min as int, max as int, sample as int),
{
    let sample = random_sample();
    sample_in_range(min, max, sample)
}

/// Whether `point` lies on the border of the rectangle with the given sides.
pub open spec fn on_rect_edge(point: Vec2, left: int, right: int, top: int, bottom: int) -> bool {
    &&& between(point.x as int, left, right)
    &&& between(point.y as int, bottom, top)
    &&& (point.x == left || point.x == right || point.y == top || point.y == bottom)
}

/// The border point that two coin tosses and a raw sample select: the first
/// toss picks between the horizontal and the vertical sides, the second
/// between the two sides of that pair, the sample the place along the side.
pub open spec fn edge_point(
    left: int,
    right: int,
    top: int,
    bottom: int,
    horizontal: bool,
    far: bool,
    sample: int,
) -> (int, int) {
    if horizontal {
        (interpolate(left, right, sample), if far { top } else { bottom })
    } else {
        (if far { right } else { left }, interpolate(bottom, top, sample))
    }
}

/// The border point selected by the given tosses and sample.
pub fn rect_edge_point(
    left: i32,
    right: i32,
    top: i32,
    bottom: i32,
    horizontal: bool,
    far: bool,
    sample: u32,
) -> (point: Vec2)
    ensures
        (point.x as int, point.y as int) == edge_point(
            left as int,
            right as int,
            top as int,
            bottom as int,
            horizontal,
            far,
            sample as int,
        ),
        on_rect_edge(point, left as int, right as int, top as int, bottom as int),
{
    if horizontal {
        let x = sample_in_range(left, right, sample);
        let y = if far { top } else { bottom };
        Vec2 { x, y }
    } else {
        let x = if far { right } else { left };
        let y = sample_in_range(bottom, top, sample);
        Vec2 { x, y }
    }
}

/// A random point on the border of a rectangle.
pub fn random_in_rect_edge(left: i32, right: i32, top: i32, bottom: i32) -> (point: Vec2)
    ensures
        on_rect_edge(point, left as int, right as int, top as int, bottom as int),
        exists|horizontal: bool, far: bool, sample: u32|
            (point.x as int, point.y as int) == edge_point(
                left as int,
                right as int,
                top as int,
                bottom as int,
                horizontal,
                far,
                sample as int,
            ),
{
    let horizontal = random_coin();
    let sample = random_sample();
    let far = random_coin();
    rect_edge_point(left, right, top, bottom, horizontal, far, sample)
}

/// Largest aim offset, on either axis, that `heading` accepts.
pub const AIM_REACH: i64 = 0x2_0000_0000;

/// One whole, squared.
pub const UNIT_SQUARED: i64 = 1_000_000;

/// The direction of the offset `(dx, dy)` as a vector of length one (at most
/// one, after rounding toward zero). A zero offset points up. The angle that
/// turns the up direction into this one, counter-clockwise, is
/// `-atan2(x, y)`.
pub open spec fn heading_of(dx: int, dy: int) -> Vec2 {
    if dx == 0 && dy == 0 {
        Vec2 { x: 0, y: UNIT }
    } else {
        let root = ceil_root((dx * dx + dy * dy) * UNIT_SQUARED);
        Vec2 {
            x: trunc_div(dx * UNIT_SQUARED, root) as i32,
            y: trunc_div(dy * UNIT_SQUARED, root) as i32,
        }
    }
}

/// Whether a vector is no longer than one whole.
pub open spec fn within_unit(v: Vec2) -> bool {
    v.x * v.x + v.y * v.y <= UNIT_SQUARED
}

/// Whether a vector is a facing direction: of length one, as nearly as
/// rounding toward zero allows.
pub open spec fn unit_direction(v: Vec2) -> bool {
    within_unit(v) && nearly_unit(v)
}

/// Decides `unit_direction`.
pub fn is_unit_direction(v: Vec2) -> (unit: bool)
    ensures
        unit == unit_direction(v),
{
    let x: i128 = if v.x >= 0 {
        v.x as i128
    } else {
        -(v.x as i128)
    };
    let y: i128 = if v.y >= 0 {
        v.y as i128
    } else {
        -(v.y as i128)
    };
    assert((x + 1) * (x + 1) <= 0x8000_0001int * 0x8000_0001int && (y + 1) * (y + 1)
        <= 0x8000_0001int * 0x8000_0001int && (x + 1) * (x + 1) >= 0 && (y + 1) * (y + 1) >= 0)
        by (nonlinear_arith)
        requires
            0 <= x <= 0x8000_0000,
            0 <= y <= 0x8000_0000,
    ;
    assert((1000 - 1) * (1000 - 1) == 998_001) by (nonlinear_arith);
    is_within_unit(v) && (x + 1) * (x + 1) + (y + 1) * (y + 1) > 998_001
}

/// The up direction is a facing direction.
pub proof fn lemma_up_is_unit_direction()
    ensures
        unit_direction(Vec2 { x: 0, y: UNIT }),
{
    lemma_up_within_unit();
    assert((0 + 1) * (0 + 1) + (1000 + 1) * (1000 + 1) > (1000 - 1) * (1000 - 1))
        by (nonlinear_arith);
}

/// Decides `within_unit`.
pub fn is_within_unit(v: Vec2) -> (within: bool)
    ensures
        within == within_unit(v),
{
    let x: i128 = v.x as i128;
    let y: i128 = v.y as i128;
    assert(x * x <= 0x8000_0000int * 0x8000_0000int && y * y <= 0x8000_0000int * 0x8000_0000int
        && x * x >= 0 && y * y >= 0) by (nonlinear_arith)
        requires
            -0x8000_0000 <= x <= 0x8000_0000,
            -0x8000_0000 <= y <= 0x8000_0000,
    ;
    x * x + y * y <= UNIT_SQUARED as i128
}

/// The up direction has length one.
pub proof fn lemma_up_within_unit()
    ensures
        within_unit(Vec2 { x: 0, y: UNIT }),
{
    assert(1000 * 1000 == 1_000_000) by (nonlinear_arith);
}

/// A vector no longer than one whole has no component beyond one whole.
pub proof fn lemma_within_unit_components(v: Vec2)
    requires
        within_unit(v),
    ensures
        -UNIT <= v.x <= UNIT,
        -UNIT <= v.y <= UNIT,
{
    let x = v.x as int;
    let y = v.y as int;
    assert(-1000 <= x <= 1000 && -1000 <= y <= 1000) by (nonlinear_arith)
        requires
            x * x + y * y <= 1_000_000,
    ;
}

/// One component of a heading before it is narrowed: it has the sign of the
/// offset on its axis and, together with the other component, a length of at
/// most one whole.
proof fn lemma_heading_parts(dx: int, dy: int, root: int)
    requires
        dx != 0 || dy != 0,
        is_ceil_root((dx * dx + dy * dy) * UNIT_SQUARED, root),
    ensures
        root >= UNIT,
        magnitude(trunc_div(dx * UNIT_SQUARED, root)) <= UNIT,
        magnitude(trunc_div(dy * UNIT_SQUARED, root)) <= UNIT,
        trunc_div(dx * UNIT_SQUARED, root) * trunc_div(dx * UNIT_SQUARED, root) + trunc_div(
            dy * UNIT_SQUARED,
            root,
        ) * trunc_div(dy * UNIT_SQUARED, root) <= UNIT_SQUARED,
        dx >= 0 ==> trunc_div(dx * UNIT_SQUARED, root) >= 0,
        dx <= 0 ==> trunc_div(dx * UNIT_SQUARED, root) <= 0,
        dy >= 0 ==> trunc_div(dy * UNIT_SQUARED, root) >= 0,
        dy <= 0 ==> trunc_div(dy * UNIT_SQUARED, root) <= 0,
{
    let n = (dx * dx + dy * dy) * 1_000_000;
    let sq = dx * dx + dy * dy;
    assert(sq >= 1) by (nonlinear_arith)
        requires
            sq == dx * dx + dy * dy,
            dx != 0 || dy != 0,
    ;
    assert(root >= 1000) by (nonlinear_arith)
        requires
            root >= 0,
            root * root >= sq * 1_000_000,
            sq >= 1,
    ;
    let qx = trunc_div(dx * 1_000_000, root);
    let qy = trunc_div(dy * 1_000_000, root);
    lemma_trunc_div_bounds(dx * 1_000_000, root);
    lemma_trunc_div_bounds(dy * 1_000_000, root);
    let a = magnitude(qx);
    let b = magnitude(qy);
    let mx = magnitude(dx);
    let my = magnitude(dy);
    assert(magnitude(dx * 1_000_000) == mx * 1_000_000);
    assert(magnitude(dy * 1_000_000) == my * 1_000_000);
    assert(a * a * (root * root) <= mx * mx * 1_000_000_000_000) by (nonlinear_arith)
        requires
            0 <= a,
            0 <= root,
            0 <= mx,
            a * root <= mx * 1_000_000,
    ;
    assert(b * b * (root * root) <= my * my * 1_000_000_000_000) by (nonlinear_arith)
        requires
            0 <= b,
            0 <= root,
            0 <= my,
            b * root <= my * 1_000_000,
    ;
    assert(mx * mx == dx * dx && my * my == dy * dy) by (nonlinear_arith)
        requires
            mx == magnitude(dx),
            my == magnitude(dy),
            magnitude(dx) == if dx >= 0 {
                dx
            } else {
                -dx
            },
            magnitude(dy) == if dy >= 0 {
                dy
            } else {
                -dy
            },
    ;
    let rr = root * root;
    assert((a * a + b * b) * rr <= rr * 1_000_000) by (nonlinear_arith)
        requires
            a * a * rr <= mx * mx * 1_000_000_000_000,
            b * b * rr <= my * my * 1_000_000_000_000,
            mx * mx + my * my == sq,
            rr >= sq * 1_000_000,
    ;
    assert(a * a + b * b <= 1_000_000) by (nonlinear_arith)
        requires
            (a * a + b * b) * rr <= rr * 1_000_000,
            rr >= 1,
    ;
    assert(qx * qx == a * a && qy * qy == b * b) by (nonlinear_arith)
        requires
            a == magnitude(qx),
            b == magnitude(qy),
            magnitude(qx) == if qx >= 0 {
                qx
            } else {
                -qx
            },
            magnitude(qy) == if qy >= 0 {
                qy
            } else {
                -qy
            },
    ;
    assert(a <= 1000 && b <= 1000) by (nonlinear_arith)
        requires
            a * a + b * b <= 1_000_000,
            a >= 0,
            b >= 0,
    ;
}

/// Whether a vector, lengthened by a thousandth on each axis, is longer than
/// one whole less a thousandth: it falls short of length one by no more
/// than rounding takes.
pub open spec fn nearly_unit(v: Vec2) -> bool {
    (magnitude(v.x as int) + 1) * (magnitude(v.x as int) + 1) + (magnitude(v.y as int) + 1) * (
    magnitude(v.y as int) + 1) > (UNIT - 1) * (UNIT - 1)
}

/// The two components of a heading before they are narrowed, each
/// lengthened by a thousandth, make a vector longer than one whole less a
/// thousandth.
proof fn lemma_heading_length(dx: int, dy: int, root: int)
    requires
        dx != 0 || dy != 0,
        is_ceil_root((dx * dx + dy * dy) * UNIT_SQUARED, root),
    ensures
        (magnitude(trunc_div(dx * UNIT_SQUARED, root)) + 1) * (magnitude(
            trunc_div(dx * UNIT_SQUARED, root),
        ) + 1) + (magnitude(trunc_div(dy * UNIT_SQUARED, root)) + 1) * (magnitude(
            trunc_div(dy * UNIT_SQUARED, root),
        ) + 1) > (UNIT - 1) * (UNIT - 1),
{
    lemma_heading_parts(dx, dy, root);
    let sq = dx * dx + dy * dy;
    let n = sq * 1_000_000;
    lemma_trunc_div_bounds(dx * 1_000_000, root);
    lemma_trunc_div_bounds(dy * 1_000_000, root);
    let a = magnitude(trunc_div(dx * 1_000_000, root)) + 1;
    let b = magnitude(trunc_div(dy * 1_000_000, root)) + 1;
    let mx = magnitude(dx);
    let my = magnitude(dy);
    assert(magnitude(dx * 1_000_000) == mx * 1_000_000);
    assert(magnitude(dy * 1_000_000) == my * 1_000_000);
    let rr = root * root;
    assert(mx * mx * 1_000_000_000_000 < a * a * rr) by (nonlinear_arith)
        requires
            0 <= mx,
            0 < a,
            0 < root,
            rr == root * root,
            mx * 1_000_000 < a * root,
    ;
    assert(my * my * 1_000_000_000_000 < b * b * rr) by (nonlinear_arith)
        requires
            0 <= my,
            0 < b,
            0 < root,
            rr == root * root,
            my * 1_000_000 < b * root,
    ;
    assert(mx * mx == dx * dx && my * my == dy * dy) by (nonlinear_arith)
        requires
            mx == dx || mx == -dx,
            my == dy || my == -dy,
    ;
    let below = (root - 1) * (root - 1);
    assert(below * 1_000_000 < (a * a + b * b) * rr) by (nonlinear_arith)
        requires
            below < sq * 1_000_000,
            mx * mx * 1_000_000_000_000 < a * a * rr,
            my * my * 1_000_000_000_000 < b * b * rr,
            mx * mx + my * my == sq,
    ;
    assert(below * 1_000_000 >= 998_001 * rr) by (nonlinear_arith)
        requires
            root >= 1000,
            below == (root - 1) * (root - 1),
            rr == root * root,
    ;
    assert(a * a + b * b > 998_001) by (nonlinear_arith)
        requires
            998_001 * rr < (a * a + b * b) * rr,
            rr > 0,
    ;
    assert((1000 - 1) * (1000 - 1) == 998_001) by (nonlinear_arith);
}

/// A heading is no longer than one whole, falls short of that by no more
/// than rounding takes, and points into the quadrant of its offset.
pub proof fn lemma_heading_unit(dx: int, dy: int)
    ensures
        within_unit(heading_of(dx, dy)),
        nearly_unit(heading_of(dx, dy)),
        dx >= 0 ==> heading_of(dx, dy).x >= 0,
        dx <= 0 ==> heading_of(dx, dy).x <= 0,
        dy > 0 ==> heading_of(dx, dy).y >= 0,
        dy < 0 ==> heading_of(dx, dy).y <= 0,
{
    if dx == 0 && dy == 0 {
        lemma_up_within_unit();
        assert((0 + 1) * (0 + 1) + (1000 + 1) * (1000 + 1) > (1000 - 1) * (1000 - 1))
            by (nonlinear_arith);
    } else {
        let n = (dx * dx + dy * dy) * UNIT_SQUARED;
        assert(n >= 0) by (nonlinear_arith)
            requires
                n == (dx * dx + dy * dy) * 1_000_000,
        ;
        lemma_ceil_root_exists(n);
        lemma_heading_parts(dx, dy, ceil_root(n));
        lemma_heading_length(dx, dy, ceil_root(n));
    }
}

/// The direction of the offset `(dx, dy)`.
pub fn heading(dx: i64, dy: i64) -> (direction: Vec2)
    requires
        -AIM_REACH <= dx <= AIM_REACH,
        -AIM_REACH <= dy <= AIM_REACH,
    ensures
        direction == heading_of(dx as int, dy as int),
        unit_direction(direction),
{
    proof {
        lemma_heading_unit(dx as int, dy as int);
    }
    if dx == 0 && dy == 0 {
        proof {
            lemma_up_within_unit();
        }
        return Vec2 { x: 0, y: UNIT };
    }
    let far_x: u128 = if dx >= 0 { dx as u128 } else { (-dx) as u128 };
    let far_y: u128 = if dy >= 0 { dy as u128 } else { (-dy) as u128 };
    assert(far_x * far_x <= 0x2_0000_0000int * 0x2_0000_0000int && far_x * far_x == dx * dx)
        by (nonlinear_arith)
        requires
            far_x == magnitude(dx as int),
            magnitude(dx as int) == if dx >= 0 {
                dx as int
            } else {
                -(dx as int)
            },
            -0x2_0000_0000 <= dx <= 0x2_0000_0000,
    ;
    assert(far_y * far_y <= 0x2_0000_0000int * 0x2_0000_0000int && far_y * far_y == dy * dy)
        by (nonlinear_arith)
        requires
            far_y == magnitude(dy as int),
            magnitude(dy as int) == if dy >= 0 {
                dy as int
            } else {
                -(dy as int)
            },
            -0x2_0000_0000 <= dy <= 0x2_0000_0000,
    ;
    assert(0x2_0000_0000int * 0x2_0000_0000int == 0x4_0000_0000_0000_0000int) by (nonlinear_arith);
    let squares: u128 = far_x * far_x + far_y * far_y;
    let root: u64 = ceil_sqrt(squares * 1_000_000);
    proof {
        lemma_heading_parts(dx as int, dy as int, root as int);
    }
    let x: i64 = (dx * 1_000_000) / (root as i64);
    let y: i64 = (dy * 1_000_000) / (root as i64);
    Vec2 { x: x as i32, y: y as i32 }
}

/// Where a point moving at `speed` is after `dt` milliseconds.
pub open spec fn moved(position: Vec2, speed: Vec2, dt: u16) -> Vec2 {
    Vec2 {
        x: (position.x + scaled(speed.x as int, dt as int)) as i32,
        y: (position.y + scaled(speed.y as int, dt as int)) as i32,
    }
}

/// Whether a coordinate can be stored.
pub open spec fn fits(value: int) -> bool {
    i32::MIN <= value <= i32::MAX
}

/// Moves a point at `speed` for `dt` milliseconds.
pub fn advance(position: Vec2, speed: Vec2, dt: u16) -> (next: Vec2)
    requires
        fits(position.x + scaled(speed.x as int, dt as int)),
        fits(position.y + scaled(speed.y as int, dt as int)),
    ensures
        next == moved(position, speed, dt),
        next.x == position.x + scaled(speed.x as int, dt as int),
        next.y == position.y + scaled(speed.y as int, dt as int),
{
    let x: i64 = position.x as i64 + scale(speed.x, dt as i32);
    let y: i64 = position.y as i64 + scale(speed.y, dt as i32);
    Vec2 { x: x as i32, y: y as i32 }
}

/// How far a point moves in one frame at most, given a bound on its speed.
pub proof fn lemma_step_bound(speed: int, dt: u16, limit: int)
    requires
        magnitude(speed) <= limit,
    ensures
        magnitude(scaled(speed, dt as int)) <= limit * 66,
{
    crate::fixed::lemma_product_bound(speed, dt as int, limit, 65_535);
    lemma_trunc_div_bounds(speed * dt, 1000);
    let step = magnitude(scaled(speed, dt as int));
    assert(step <= limit * 66) by (nonlinear_arith)
        requires
            step * 1000 <= limit * 65_535,
            limit >= 0,
    ;
}

} // verus!
