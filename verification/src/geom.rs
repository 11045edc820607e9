//! Axis-aligned rectangles and the collision resolver.
//!
//! `resolve_collision` is the single geometric primitive of the game: it
//! detects an overlap between a moving rectangle and a static one, pushes
//! the moving rectangle out of the overlap by exactly the overlap extent
//! along one axis, and flips that axis of the velocity away from the static
//! rectangle.  Which axis is corrected follows the overlap's aspect ratio:
//! a wide overlap counts as a vertical collision, any other as horizontal.

use vstd::prelude::*;

verus! {

use crate::DIR_SCALE;

/// Positions of well-formed rectangles stay within this many milli-pixels
/// of the origin, which keeps all resolver arithmetic inside `i64`.
pub const POS_LIMIT: i64 = 1_099_511_627_776;

/// Sizes of well-formed rectangles are bounded by this (about 1049 pixels).
pub const SIZE_LIMIT: i64 = 1_048_576;

/// An axis-aligned rectangle in milli-pixels.  `y` grows downward, as on
/// the screen.
#[derive(Clone, Copy, PartialEq, Eq, Structural, Debug)]
pub struct Rect {
    pub x: i64,
    pub y: i64,
    pub w: i64,
    pub h: i64,
}

/// A velocity direction in `DIR_SCALE` fixed point.
#[derive(Clone, Copy, PartialEq, Eq, Structural, Debug)]
pub struct Vel {
    pub x: i64,
    pub y: i64,
}

pub open spec fn spec_min(a: int, b: int) -> int {
    if a <= b { a } else { b }
}

pub open spec fn spec_max(a: int, b: int) -> int {
    if a >= b { a } else { b }
}

/// A rectangle with positive extent and bounded coordinates.
pub open spec fn rect_wf(r: Rect) -> bool {
    &&& 0 < r.w <= SIZE_LIMIT
    &&& 0 < r.h <= SIZE_LIMIT
    &&& -POS_LIMIT <= r.x <= POS_LIMIT
    &&& -POS_LIMIT <= r.y <= POS_LIMIT
}

/// Velocity components bounded by the unit scale.
pub open spec fn vel_wf(v: Vel) -> bool {
    &&& -DIR_SCALE <= v.x <= DIR_SCALE
    &&& -DIR_SCALE <= v.y <= DIR_SCALE
}

/// Width of the overlap of `a` and `b`; positive exactly when the
/// horizontal spans strictly overlap.
pub open spec fn overlap_w(a: Rect, b: Rect) -> int {
    spec_min(a.x + a.w, b.x + b.w) - spec_max(a.x as int, b.x as int)
}

/// Height of the overlap of `a` and `b`.
pub open spec fn overlap_h(a: Rect, b: Rect) -> int {
    spec_min(a.y + a.h, b.y + b.h) - spec_max(a.y as int, b.y as int)
}

/// Two rectangles collide exactly when both overlap extents are positive;
/// merely touching edges do not collide.
pub open spec fn overlaps(a: Rect, b: Rect) -> bool {
    overlap_w(a, b) > 0 && overlap_h(a, b) > 0
}

/// Sign of a center-to-center distance; zero counts as positive so a
/// perfectly centered hit still picks a consistent direction.
pub open spec fn sign_of(d: int) -> int {
    if d >= 0 { 1int } else { -1int }
}

/// Sign of the x-distance from `a`'s center to `b`'s center (doubled
/// centers, so the comparison is exact in integers).
pub open spec fn to_sign_x(a: Rect, b: Rect) -> int {
    sign_of(2 * b.x + b.w - 2 * a.x - a.w)
}

/// Sign of the y-distance from `a`'s center to `b`'s center.
pub open spec fn to_sign_y(a: Rect, b: Rect) -> int {
    sign_of(2 * b.y + b.h - 2 * a.y - a.h)
}

/// A wide overlap is treated as a vertical collision (the ball hit a top
/// or bottom face); otherwise the collision is horizontal.
pub open spec fn vertical_case(a: Rect, b: Rect) -> bool {
    overlap_w(a, b) > overlap_h(a, b)
}

/// The moving rectangle after positional correction: pushed out of the
/// overlap by exactly the overlap extent along the chosen axis, away from
/// the static rectangle's center.
pub open spec fn rect_after_resolve(a: Rect, b: Rect) -> Rect {
    if vertical_case(a, b) {
        Rect {
            x: a.x,
            y: if to_sign_y(a, b) == 1 { (a.y - overlap_h(a, b)) as i64 } else { (a.y + overlap_h(a, b)) as i64 },
            w: a.w,
            h: a.h,
        }
    } else {
        Rect {
            x: if to_sign_x(a, b) == 1 { (a.x - overlap_w(a, b)) as i64 } else { (a.x + overlap_w(a, b)) as i64 },
            y: a.y,
            w: a.w,
            h: a.h,
        }
    }
}

/// The velocity after the bounce: the chosen axis component becomes its
/// absolute value pointed away from the static rectangle; the other
/// component is untouched.
pub open spec fn vel_after_resolve(a: Rect, v: Vel, b: Rect) -> Vel {
    if vertical_case(a, b) {
        Vel {
            x: v.x,
            y: if to_sign_y(a, b) == 1 { (-abs_of(v.y as int)) as i64 } else { abs_of(v.y as int) as i64 },
        }
    } else {
        Vel {
            x: if to_sign_x(a, b) == 1 { (-abs_of(v.x as int)) as i64 } else { abs_of(v.x as int) as i64 },
            y: v.y,
        }
    }
}

pub open spec fn abs_of(d: int) -> int {
    if d >= 0 { d } else { -d }
}

/// Detects and resolves a collision of the moving rectangle `a` (with
/// velocity `vel`) against the static rectangle `b`.
///
/// With no overlap it returns `false` and leaves both `a` and `vel`
/// untouched.  With an overlap it applies the positional and velocity
/// correction described by `rect_after_resolve` and `vel_after_resolve`
/// and returns `true`.
pub fn resolve_collision(a: &mut Rect, vel: &mut Vel, b: &Rect) -> (hit: bool)
    requires
        rect_wf(*old(a)),
        rect_wf(*b),
        vel_wf(*old(vel)),
    ensures
        hit == overlaps(*old(a), *b),
        !hit ==> *final(a) == *old(a) && *final(vel) == *old(vel),
        hit ==> *final(a) == rect_after_resolve(*old(a), *b),
        hit ==> *final(vel) == vel_after_resolve(*old(a), *old(vel), *b),
        vel_wf(*final(vel)),
        (*final(a)).w == (*old(a)).w && (*final(a)).h == (*old(a)).h,
{
    let ax2: i64 = a.x + a.w;
    let bx2: i64 = b.x + b.w;
    let ay2: i64 = a.y + a.h;
    let by2: i64 = b.y + b.h;

    let ix: i64 = if a.x >= b.x { a.x } else { b.x };
    let ix2: i64 = if ax2 <= bx2 { ax2 } else { bx2 };
    let iy: i64 = if a.y >= b.y { a.y } else { b.y };
    let iy2: i64 = if ay2 <= by2 { ay2 } else { by2 };

    let ow: i64 = ix2 - ix;
    let oh: i64 = iy2 - iy;

    if ow <= 0 || oh <= 0 {
        return false;
    }

    let sx_pos: bool = 2 * b.x + b.w - 2 * a.x - a.w >= 0;
    let sy_pos: bool = 2 * b.y + b.h - 2 * a.y - a.h >= 0;

    assert(0 < ow <= SIZE_LIMIT && 0 < oh <= SIZE_LIMIT);

    let vy_abs: i64 = if vel.y >= 0 { vel.y } else { -vel.y };
    let vx_abs: i64 = if vel.x >= 0 { vel.x } else { -vel.x };

    if ow > oh {
        if sy_pos {
            a.y = a.y - oh;
            vel.y = -vy_abs;
        } else {
            a.y = a.y + oh;
            vel.y = vy_abs;
        }
    } else {
        if sx_pos {
            a.x = a.x - ow;
            vel.x = -vx_abs;
        } else {
            a.x = a.x + ow;
            vel.x = vx_abs;
        }
    }
    assert(*a == rect_after_resolve(*old(a), *b));
    assert(*vel == vel_after_resolve(*old(a), *old(vel), *b));
    true
}

/// The vertical spans of `a` and `b` cross without either strictly
/// containing the other.
pub open spec fn spans_cross_y(a: Rect, b: Rect) -> bool {
    ||| (a.y <= b.y && a.y + a.h <= b.y + b.h)
    ||| (b.y <= a.y && b.y + b.h <= a.y + a.h)
}

/// The horizontal spans of `a` and `b` cross without either strictly
/// containing the other.
pub open spec fn spans_cross_x(a: Rect, b: Rect) -> bool {
    ||| (a.x <= b.x && a.x + a.w <= b.x + b.w)
    ||| (b.x <= a.x && b.x + b.w <= a.x + a.w)
}

/// Positional correction is exact: after a resolved collision the moving
/// rectangle no longer overlaps the static one, provided neither span
/// strictly contains the other on the corrected axis.  (When one span
/// contains the other — a rectangle swallowed whole along that axis — a
/// push by the overlap extent cannot always separate them.)
pub proof fn lemma_resolve_separates(a: Rect, b: Rect)
    requires
        rect_wf(a),
        rect_wf(b),
        overlaps(a, b),
        vertical_case(a, b) ==> spans_cross_y(a, b),
        !vertical_case(a, b) ==> spans_cross_x(a, b),
    ensures
        !overlaps(rect_after_resolve(a, b), b),
{
}

/// A resolved collision moves the moving rectangle along one axis only,
/// and only to within the static rectangle's own extent (widened by the
/// moving rectangle's size).  The round controller uses this to keep every
/// ball's position bounded across a frame.
pub proof fn lemma_resolve_position_bounds(a: Rect, b: Rect)
    requires
        rect_wf(a),
        rect_wf(b),
        overlaps(a, b),
    ensures
        vertical_case(a, b) ==> rect_after_resolve(a, b).x == a.x
            && b.y - a.h <= rect_after_resolve(a, b).y <= b.y + b.h,
        !vertical_case(a, b) ==> rect_after_resolve(a, b).y == a.y
            && b.x - a.w <= rect_after_resolve(a, b).x <= b.x + b.w,
{
}

/// Squared length of a velocity direction, in `DIR_SCALE` fixed point.
pub open spec fn norm_sq(v: Vel) -> int {
    v.x * v.x + v.y * v.y
}

/// A bounce never changes a direction's length: the corrected component is
/// the old component's absolute value with a sign, so the squared length
/// is untouched.
pub proof fn lemma_resolve_preserves_speed(a: Rect, v: Vel, b: Rect)
    requires
        vel_wf(v),
        overlaps(a, b),
    ensures
        norm_sq(vel_after_resolve(a, v, b)) == norm_sq(v),
{
    let w = vel_after_resolve(a, v, b);
    assert(w.x * w.x == v.x * v.x && w.y * w.y == v.y * v.y) by (nonlinear_arith)
        requires
            (w.x == v.x || w.x == abs_of(v.x as int) || w.x == -abs_of(v.x as int)),
            (w.y == v.y || w.y == abs_of(v.y as int) || w.y == -abs_of(v.y as int)),
            abs_of(v.x as int) == if v.x >= 0 { v.x as int } else { -(v.x as int) },
            abs_of(v.y as int) == if v.y >= 0 { v.y as int } else { -(v.y as int) },
    ;
}

} // verus!
