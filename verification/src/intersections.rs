//! The intersection kernel: ray-triangle, ray-box (slab method) and
//! triangle-box (separating axis) tests, all exact over integer coordinates.
//!
//! Distances along a ray are exact rationals in units of the direction's
//! length. Two policies differ deliberately from a floating-point version:
//! a determinant of exactly zero counts as a miss (the exact analogue of the
//! usual epsilon test), and a triangle hit behind the ray origin (t <= 0) is
//! rejected, so that a hit always lies on the forward half-line.

use vstd::prelude::*;
use crate::geometry::{GVec, GRat, Point, Vector, Trigon, Rat};
use crate::geometry::{lemma_abs_mul_le, lemma_cross_component_bounds, lemma_dot_bound};
use crate::geometry::{grat_lt, grat_le};
use crate::bounding_box::BoundingBox;

verus! {

/// |a| over the integers.
pub open spec fn iabs(a: int) -> int {
    if a < 0 { -a } else { a }
}

pub open spec fn smin(a: int, b: int) -> int {
    if a <= b { a } else { b }
}

pub open spec fn smax(a: int, b: int) -> int {
    if a >= b { a } else { b }
}

// ----- ray-triangle ------------------------------------------------------

/// Determinant of the ray-triangle system: `e1 . (d x e2)`.
pub open spec fn tri_det(v: Vector, t: Trigon) -> int {
    t.e1().dot(v.dir().cross(t.e2()))
}

/// Origin of the ray relative to the first vertex.
pub open spec fn tri_tvec(v: Vector, t: Trigon) -> GVec {
    v.orig().sub(t.p0.gv())
}

/// Numerator of the barycentric coordinate `u` (its value is this over the determinant).
pub open spec fn tri_u_num(v: Vector, t: Trigon) -> int {
    tri_tvec(v, t).dot(v.dir().cross(t.e2()))
}

pub open spec fn tri_qvec(v: Vector, t: Trigon) -> GVec {
    tri_tvec(v, t).cross(t.e1())
}

/// Numerator of the barycentric coordinate `v`.
pub open spec fn tri_v_num(v: Vector, t: Trigon) -> int {
    v.dir().dot(tri_qvec(v, t))
}

/// Numerator of the hit distance `t`.
pub open spec fn tri_t_num(v: Vector, t: Trigon) -> int {
    t.e2().dot(tri_qvec(v, t))
}

/// The ray strikes the triangle: non-degenerate system, barycentric
/// coordinates `u, v` within the triangle, and the hit in front of the
/// origin. Each condition is the sign-adjusted exact form of `0 <= u <= 1`,
/// `0 <= v`, `u + v <= 1` and `t > 0`.
pub open spec fn tri_hits(v: Vector, t: Trigon) -> bool {
    let det = tri_det(v, t);
    let un = tri_u_num(v, t);
    let vn = tri_v_num(v, t);
    let tn = tri_t_num(v, t);
    &&& det != 0
    &&& if det > 0 { 0 <= un <= det } else { det <= un <= 0 }
    &&& if det > 0 { 0 <= vn && un + vn <= det } else { vn <= 0 && un + vn >= det }
    &&& if det > 0 { tn > 0 } else { tn < 0 }
}

/// The exact hit distance, as a rational with positive denominator, when the
/// ray strikes the triangle.
pub open spec fn tri_hit(v: Vector, t: Trigon) -> Option<GRat> {
    if tri_hits(v, t) {
        let det = tri_det(v, t);
        let tn = tri_t_num(v, t);
        if det > 0 {
            Some(GRat { num: tn, den: det })
        } else {
            Some(GRat { num: -tn, den: -det })
        }
    } else {
        None
    }
}

/// Exact ray-triangle intersection by the edge-vector parametric test.
/// Returns the hit distance along the ray, in units of the direction's
/// length, or `None` when the ray misses.
pub fn intersection(vector: &Vector, face: &Trigon) -> (r: Option<Rat>)
    requires
        vector.ok(),
        face.ok(),
    ensures
        r.is_some() == tri_hits(*vector, *face),
        r.is_some() ==> r.unwrap().ok() && r.unwrap().gr() == tri_hit(*vector, *face).unwrap(),
{
    let edge1 = Vector::from(face.p1.minus(&face.p0));
    let edge2 = Vector::from(face.p2.minus(&face.p0));

    proof {
        assert(edge1.dir().abs_le(0x20000));
        assert(edge2.dir().abs_le(0x20000));
    }

    let pvec = vector.cross_product(&edge2);
    proof {
        lemma_cross_component_bounds(vector.dir(), edge2.dir(), 0x80000);
        assert(pvec.dir().abs_le(0x80_0000_0000));
    }
    let det = edge1.dot_product(&pvec);
    proof {
        lemma_dot_bound(edge1.dir(), pvec.dir(), 0x20000, 0x80_0000_0000);
        assert(det as int == tri_det(*vector, *face));
    }

    if det == 0 {
        return None;
    }

    let tvec = Vector::from(vector.origin.minus(&face.p0));
    proof {
        assert(tvec.dir().abs_le(0x80000));
    }
    let u_num = tvec.dot_product(&pvec);
    proof {
        lemma_dot_bound(tvec.dir(), pvec.dir(), 0x80000, 0x80_0000_0000);
        assert(u_num as int == tri_u_num(*vector, *face));
    }

    if det > 0 {
        if u_num < 0 || u_num > det {
            return None;
        }
    } else {
        if u_num > 0 || u_num < det {
            return None;
        }
    }

    let qvec = tvec.cross_product(&edge1);
    proof {
        lemma_cross_component_bounds(tvec.dir(), edge1.dir(), 0x80000);
        assert(qvec.dir().abs_le(0x80_0000_0000));
    }
    let v_num = vector.dot_product(&qvec);
    proof {
        lemma_dot_bound(vector.dir(), qvec.dir(), 0x80000, 0x80_0000_0000);
        assert(v_num as int == tri_v_num(*vector, *face));
    }

    if det > 0 {
        if v_num < 0 || u_num + v_num > det {
            return None;
        }
    } else {
        if v_num > 0 || u_num + v_num < det {
            return None;
        }
    }

    let t_num = edge2.dot_product(&qvec);
    proof {
        lemma_dot_bound(edge2.dir(), qvec.dir(), 0x20000, 0x80_0000_0000);
        assert(t_num as int == tri_t_num(*vector, *face));
    }

    if det > 0 {
        if t_num <= 0 {
            return None;
        }
        Some(Rat { num: t_num, den: det })
    } else {
        if t_num >= 0 {
            return None;
        }
        Some(Rat { num: -t_num, den: -det })
    }
}

/// Cyclic rotation of a vector's components.
spec fn rot(v: GVec) -> GVec {
    GVec { x: v.y, y: v.z, z: v.x }
}

/// One component of Cramer's rule for the ray-triangle system, with the
/// cross products and dot products named: expand both sides over the shared
/// product atoms, cancel the diagonal terms, and check the remaining
/// cancellation.
#[verifier::rlimit(50)]
proof fn lemma_cramer_x(e1: GVec, e2: GVec, d: GVec, tv: GVec, qx: int, qy: int, qz: int, px: int, py: int, pz: int, det: int, un: int, vn: int, tn: int)
    requires
        qx == tv.y * e1.z - tv.z * e1.y,
        qy == tv.z * e1.x - tv.x * e1.z,
        qz == tv.x * e1.y - tv.y * e1.x,
        px == d.y * e2.z - d.z * e2.y,
        py == d.z * e2.x - d.x * e2.z,
        pz == d.x * e2.y - d.y * e2.x,
        det == e1.x * px + e1.y * py + e1.z * pz,
        un == tv.x * px + tv.y * py + tv.z * pz,
        vn == d.x * qx + d.y * qy + d.z * qz,
        tn == e2.x * qx + e2.y * qy + e2.z * qz,
    ensures
        det * tv.x + tn * d.x == un * e1.x + vn * e2.x,
{
    assert(det * tv.x == (e1.x * tv.x) * px + (e1.y * tv.x) * py + (e1.z * tv.x) * pz)
        by (nonlinear_arith)
        requires
            det == e1.x * px + e1.y * py + e1.z * pz,
    ;
    assert(tn * d.x == (e2.x * d.x) * qx + (e2.y * d.x) * qy + (e2.z * d.x) * qz)
        by (nonlinear_arith)
        requires
            tn == e2.x * qx + e2.y * qy + e2.z * qz,
    ;
    assert(un * e1.x == (tv.x * e1.x) * px + (tv.y * e1.x) * py + (tv.z * e1.x) * pz)
        by (nonlinear_arith)
        requires
            un == tv.x * px + tv.y * py + tv.z * pz,
    ;
    assert(vn * e2.x == (d.x * e2.x) * qx + (d.y * e2.x) * qy + (d.z * e2.x) * qz)
        by (nonlinear_arith)
        requires
            vn == d.x * qx + d.y * qy + d.z * qz,
    ;
    assert((e1.x * tv.x) * px == (tv.x * e1.x) * px) by (nonlinear_arith);
    assert((e2.x * d.x) * qx == (d.x * e2.x) * qx) by (nonlinear_arith);
    assert((e1.y * tv.x) * py + (e1.z * tv.x) * pz + (e2.y * d.x) * qy + (e2.z * d.x) * qz
        == (tv.y * e1.x) * py + (tv.z * e1.x) * pz + (d.y * e2.x) * qy + (d.z * e2.x) * qz)
        by (nonlinear_arith)
        requires
            qy == tv.z * e1.x - tv.x * e1.z,
            qz == tv.x * e1.y - tv.y * e1.x,
            py == d.z * e2.x - d.x * e2.z,
            pz == d.x * e2.y - d.y * e2.x,
    ;
}

/// The reported hit is geometrically faithful (Cramer's rule): with
/// denominators cleared by the determinant, walking the ray by the
/// reported distance lands exactly on the triangle's plane at the test's
/// barycentric coordinates,
/// `det * (o - p0) + tn * d == un * e1 + vn * e2`.
/// Dividing by the determinant: `o + t d == p0 + u e1 + v e2`, and the
/// sign conditions of `tri_hits` say `0 <= u`, `0 <= v`, `u + v <= 1`, so
/// a reported hit lies on the triangle, at the reported distance along the
/// ray.
pub proof fn lemma_hit_point_on_triangle(v: Vector, t: Trigon)
    ensures
        tri_tvec(v, t).scale(tri_det(v, t)).plus(v.dir().scale(tri_t_num(v, t)))
            == t.e1().scale(tri_u_num(v, t)).plus(t.e2().scale(tri_v_num(v, t))),
{
    let e1 = t.e1();
    let e2 = t.e2();
    let d = v.dir();
    let tv = tri_tvec(v, t);
    let p = d.cross(e2);
    let q = tv.cross(e1);
    let det = tri_det(v, t);
    let un = tri_u_num(v, t);
    let vn = tri_v_num(v, t);
    let tn = tri_t_num(v, t);

    lemma_cramer_x(e1, e2, d, tv, q.x, q.y, q.z, p.x, p.y, p.z, det, un, vn, tn);
    lemma_cramer_x(rot(e1), rot(e2), rot(d), rot(tv), q.y, q.z, q.x, p.y, p.z, p.x, det, un, vn, tn);
    lemma_cramer_x(rot(rot(e1)), rot(rot(e2)), rot(rot(d)), rot(rot(tv)), q.z, q.x, q.y, p.z, p.x, p.y, det, un, vn, tn);
}

// ----- ray-box (slab method) ---------------------------------------------

/// Entry distance of the slab of axis `j`: the smaller of the two crossing
/// distances, as a rational with positive denominator `|d|`.
pub open spec fn slab_lo(o: int, d: int, mn: int, mx: int) -> GRat {
    if d > 0 {
        GRat { num: mn - o, den: d }
    } else {
        GRat { num: o - mx, den: -d }
    }
}

/// Exit distance of the slab of axis `j`.
pub open spec fn slab_hi(o: int, d: int, mn: int, mx: int) -> GRat {
    if d > 0 {
        GRat { num: mx - o, den: d }
    } else {
        GRat { num: o - mn, den: -d }
    }
}

pub open spec fn grat_max(a: GRat, b: GRat) -> GRat {
    if grat_lt(a, b) { b } else { a }
}

pub open spec fn grat_min(a: GRat, b: GRat) -> GRat {
    if grat_lt(b, a) { b } else { a }
}

/// Fold of per-axis entry distances over the active axes (`d != 0`),
/// mirroring the x-then-y-then-z order of the slab walk. `None` when the
/// axis is inactive.
pub open spec fn opt_max(a: Option<GRat>, b: Option<GRat>) -> Option<GRat> {
    match (a, b) {
        (None, _) => b,
        (Some(x), None) => a,
        (Some(x), Some(y)) => Some(grat_max(x, y)),
    }
}

pub open spec fn opt_min(a: Option<GRat>, b: Option<GRat>) -> Option<GRat> {
    match (a, b) {
        (None, _) => b,
        (Some(x), None) => a,
        (Some(x), Some(y)) => Some(grat_min(x, y)),
    }
}

pub open spec fn axis_lo(o: int, d: int, mn: int, mx: int) -> Option<GRat> {
    if d == 0 { None } else { Some(slab_lo(o, d, mn, mx)) }
}

pub open spec fn axis_hi(o: int, d: int, mn: int, mx: int) -> Option<GRat> {
    if d == 0 { None } else { Some(slab_hi(o, d, mn, mx)) }
}

/// An inactive axis (`d == 0`) misses outright unless the origin lies within
/// the slab.
pub open spec fn flat_axis_miss(o: int, d: int, mn: int, mx: int) -> bool {
    d == 0 && (o < mn || o > mx)
}

/// Exact slab-method result: entry distance into the box, or `None`.
/// Misses when some inactive axis puts the origin outside its slab, when the
/// direction is zero, when the running interval empties, or when the exit
/// distance is not strictly positive (a box behind the origin, or a ray
/// leaving the box exactly at its origin, counts as a miss).
pub open spec fn box_hit(v: Vector, mn: GVec, mx: GVec) -> Option<GRat> {
    let o = v.orig();
    let d = v.dir();
    if flat_axis_miss(o.x, d.x, mn.x, mx.x) || flat_axis_miss(o.y, d.y, mn.y, mx.y)
        || flat_axis_miss(o.z, d.z, mn.z, mx.z) || d.is_zero() {
        None
    } else {
        let near = opt_max(opt_max(axis_lo(o.x, d.x, mn.x, mx.x), axis_lo(o.y, d.y, mn.y, mx.y)),
            axis_lo(o.z, d.z, mn.z, mx.z));
        let far = opt_min(opt_min(axis_hi(o.x, d.x, mn.x, mx.x), axis_hi(o.y, d.y, mn.y, mx.y)),
            axis_hi(o.z, d.z, mn.z, mx.z));
        if grat_lt(far.unwrap(), near.unwrap()) || far.unwrap().num <= 0 {
            None
        } else {
            Some(near.unwrap())
        }
    }
}

/// One slab step of the exec walk: entry and exit distances of axis `j` as
/// `Rat` values, already ordered.
fn slab_rats(o: i64, d: i64, mn: i64, mx: i64) -> (r: (Rat, Rat))
    requires
        -0x40000 <= o <= 0x40000,
        -0x80000 <= d <= 0x80000,
        d != 0,
        -0x10000 <= mn <= 0x10000,
        -0x10000 <= mx <= 0x10000,
    ensures
        r.0.ok(),
        r.1.ok(),
        r.0.gr() == slab_lo(o as int, d as int, mn as int, mx as int),
        r.1.gr() == slab_hi(o as int, d as int, mn as int, mx as int),
{
    if d > 0 {
        (Rat { num: (mn as i128) - (o as i128), den: d as i128 },
         Rat { num: (mx as i128) - (o as i128), den: d as i128 })
    } else {
        (Rat { num: (o as i128) - (mx as i128), den: -(d as i128) },
         Rat { num: (o as i128) - (mn as i128), den: -(d as i128) })
    }
}

/// Exact ray-box intersection by the slab method. Returns the entry
/// distance, which may be negative when the origin lies inside the box, in
/// units of the direction's length, or `None` for a miss.
pub fn vector_box_intersection(vector: &Vector, min: &Point, max: &Point) -> (r: Option<Rat>)
    requires
        vector.ok(),
        min.ok(),
        max.ok(),
    ensures
        r.is_some() == box_hit(*vector, min.gv(), max.gv()).is_some(),
        r.is_some() ==> r.unwrap().ok() && r.unwrap().gr() == box_hit(*vector, min.gv(), max.gv()).unwrap(),
{
    let o = vector.origin;
    let mut near: Option<Rat> = None;
    let mut far: Option<Rat> = None;

    if vector.x == 0 {
        if o.x > max.x || o.x < min.x {
            return None;
        }
    } else {
        let (lo, hi) = slab_rats(o.x, vector.x, min.x, max.x);
        near = Some(lo);
        far = Some(hi);
    }

    if vector.y == 0 {
        if o.y > max.y || o.y < min.y {
            return None;
        }
    } else {
        let (lo, hi) = slab_rats(o.y, vector.y, min.y, max.y);
        near = match near {
            None => Some(lo),
            Some(n) => if n.lt(&lo) { Some(lo) } else { Some(n) },
        };
        far = match far {
            None => Some(hi),
            Some(f) => if hi.lt(&f) { Some(hi) } else { Some(f) },
        };
    }

    if vector.z == 0 {
        if o.z > max.z || o.z < min.z {
            return None;
        }
    } else {
        let (lo, hi) = slab_rats(o.z, vector.z, min.z, max.z);
        near = match near {
            None => Some(lo),
            Some(n) => if n.lt(&lo) { Some(lo) } else { Some(n) },
        };
        far = match far {
            None => Some(hi),
            Some(f) => if hi.lt(&f) { Some(hi) } else { Some(f) },
        };
    }

    match (near, far) {
        (Some(n), Some(f)) => {
            if f.lt(&n) || f.le_zero() {
                None
            } else {
                Some(n)
            }
        },
        _ => None,
    }
}

/// Cancel a positive factor on the right of a product inequality.
proof fn lemma_cancel_pos(x: int, y: int, k: int)
    requires
        x * k <= y * k,
        k > 0,
    ensures
        x <= y,
{
    assert(x <= y) by (nonlinear_arith)
        requires
            x * k <= y * k,
            k > 0,
    ;
}

/// A fold of entry distances stays below any bound that every folded value
/// respects.
proof fn lemma_opt_max_below(a: Option<GRat>, b: Option<GRat>, t: GRat)
    requires
        a matches Some(g) ==> grat_le(g, t),
        b matches Some(g) ==> grat_le(g, t),
    ensures
        opt_max(a, b) matches Some(g) ==> grat_le(g, t),
{
}

/// A fold of exit distances stays above any bound that every folded value
/// respects.
proof fn lemma_opt_min_above(a: Option<GRat>, b: Option<GRat>, t: GRat)
    requires
        a matches Some(g) ==> grat_le(t, g),
        b matches Some(g) ==> grat_le(t, g),
    ensures
        opt_min(a, b) matches Some(g) ==> grat_le(t, g),
{
}

/// The slab test never misses a box that the forward ray truly enters:
/// whenever some point `o + (tn/td) * d` of the open forward half-line
/// (`tn/td > 0`) lies in the box, the test reports an entry distance. The
/// hypothesis states membership with denominators cleared, one inequality
/// pair per axis.
pub proof fn lemma_box_hit_complete(v: Vector, mn: GVec, mx: GVec, tn: int, td: int)
    requires
        !v.dir().is_zero(),
        td > 0,
        tn > 0,
        mn.x * td <= v.orig().x * td + tn * v.dir().x,
        v.orig().x * td + tn * v.dir().x <= mx.x * td,
        mn.y * td <= v.orig().y * td + tn * v.dir().y,
        v.orig().y * td + tn * v.dir().y <= mx.y * td,
        mn.z * td <= v.orig().z * td + tn * v.dir().z,
        v.orig().z * td + tn * v.dir().z <= mx.z * td,
    ensures
        box_hit(v, mn, mx).is_some(),
{
    broadcast use vstd::arithmetic::mul::group_mul_is_distributive;
    broadcast use vstd::arithmetic::mul::group_mul_basics;
    broadcast use vstd::arithmetic::mul::lemma_mul_is_commutative;

    let o = v.orig();
    let d = v.dir();
    let t = GRat { num: tn, den: td };

    if d.x == 0 {
        lemma_cancel_pos(mn.x, o.x, td);
        lemma_cancel_pos(o.x, mx.x, td);
    } else {
        assert(grat_le(slab_lo(o.x, d.x, mn.x, mx.x), t));
        assert(grat_le(t, slab_hi(o.x, d.x, mn.x, mx.x)));
    }
    if d.y == 0 {
        lemma_cancel_pos(mn.y, o.y, td);
        lemma_cancel_pos(o.y, mx.y, td);
    } else {
        assert(grat_le(slab_lo(o.y, d.y, mn.y, mx.y), t));
        assert(grat_le(t, slab_hi(o.y, d.y, mn.y, mx.y)));
    }
    if d.z == 0 {
        lemma_cancel_pos(mn.z, o.z, td);
        lemma_cancel_pos(o.z, mx.z, td);
    } else {
        assert(grat_le(slab_lo(o.z, d.z, mn.z, mx.z), t));
        assert(grat_le(t, slab_hi(o.z, d.z, mn.z, mx.z)));
    }

    let lox = axis_lo(o.x, d.x, mn.x, mx.x);
    let loy = axis_lo(o.y, d.y, mn.y, mx.y);
    let loz = axis_lo(o.z, d.z, mn.z, mx.z);
    let hix = axis_hi(o.x, d.x, mn.x, mx.x);
    let hiy = axis_hi(o.y, d.y, mn.y, mx.y);
    let hiz = axis_hi(o.z, d.z, mn.z, mx.z);

    lemma_opt_max_below(lox, loy, t);
    lemma_opt_max_below(opt_max(lox, loy), loz, t);
    lemma_opt_min_above(hix, hiy, t);
    lemma_opt_min_above(opt_min(hix, hiy), hiz, t);

    let near = opt_max(opt_max(lox, loy), loz).unwrap();
    let far = opt_min(opt_min(hix, hiy), hiz).unwrap();

    assert(near.den > 0 && far.den > 0);
    crate::geometry::lemma_grat_le_trans(near, t, far);
    assert(!grat_lt(far, near));
    assert(far.num > 0) by (nonlinear_arith)
        requires
            tn * far.den <= far.num * td,
            tn > 0,
            td > 0,
            far.den > 0,
    ;
}

/// A ray whose origin lies strictly inside the box is reported as a hit,
/// whatever its direction: moving a short forward step keeps the point
/// inside, so the slab test cannot prune it.
pub proof fn lemma_box_hit_from_inside(v: Vector, mn: GVec, mx: GVec)
    requires
        !v.dir().is_zero(),
        mn.x < v.orig().x < mx.x,
        mn.y < v.orig().y < mx.y,
        mn.z < v.orig().z < mx.z,
    ensures
        box_hit(v, mn, mx).is_some(),
{
    let o = v.orig();
    let d = v.dir();
    let td = iabs(d.x) + iabs(d.y) + iabs(d.z);

    assert(mn.x * td <= o.x * td + 1 * d.x) by (nonlinear_arith)
        requires mn.x + 1 <= o.x, -td <= d.x, td > 0;
    assert(o.x * td + 1 * d.x <= mx.x * td) by (nonlinear_arith)
        requires o.x + 1 <= mx.x, d.x <= td, td > 0;
    assert(mn.y * td <= o.y * td + 1 * d.y) by (nonlinear_arith)
        requires mn.y + 1 <= o.y, -td <= d.y, td > 0;
    assert(o.y * td + 1 * d.y <= mx.y * td) by (nonlinear_arith)
        requires o.y + 1 <= mx.y, d.y <= td, td > 0;
    assert(mn.z * td <= o.z * td + 1 * d.z) by (nonlinear_arith)
        requires mn.z + 1 <= o.z, -td <= d.z, td > 0;
    assert(o.z * td + 1 * d.z <= mx.z * td) by (nonlinear_arith)
        requires o.z + 1 <= mx.z, d.z <= td, td > 0;

    lemma_box_hit_complete(v, mn, mx, 1, td);
}

// ----- triangle-box (separating axis test) -------------------------------

/// Projected half-extent of the box onto `axis`: the box's principal axes
/// are the coordinate axes, so the projection radius is the extents weighted
/// by the axis's absolute components.
pub open spec fn proj_r(axis: GVec, e: GVec) -> int {
    e.x * iabs(axis.x) + e.y * iabs(axis.y) + e.z * iabs(axis.z)
}

/// One axis of the separating-axis test, over box-centered vertices
/// `w0, w1, w2`: the triangle's projection interval must meet `[-r, r]`.
pub open spec fn sat_axis_ok(axis: GVec, w0: GVec, w1: GVec, w2: GVec, e: GVec) -> bool {
    let q0 = w0.dot(axis);
    let q1 = w1.dot(axis);
    let q2 = w2.dot(axis);
    smax(smin(smin(q0, q1), q2), -smax(smax(q0, q1), q2)) <= proj_r(axis, e)
}

/// The 13-axis separating-axis overlap test between a triangle and the box
/// `[b.min, b.max]`: the three box axes, the triangle normal, and the nine
/// cross products of box axes with triangle edges. True when no axis
/// separates the two shapes. To keep the box exact on the integer lattice
/// the test works on doubled coordinates: the center is `min + max` and the
/// extents `max - min`, so odd spans round nothing away.
pub open spec fn sat_overlap(t: Trigon, b: BoundingBox) -> bool {
    let c = b.min.gv().plus(b.max.gv());
    let e = b.max.gv().sub(b.min.gv());
    let w0 = t.p0.gv().scale(2).sub(c);
    let w1 = t.p1.gv().scale(2).sub(c);
    let w2 = t.p2.gv().scale(2).sub(c);
    let f0 = w1.sub(w0);
    let f1 = w2.sub(w1);
    let f2 = w0.sub(w2);
    let u0 = GVec { x: 1, y: 0, z: 0 };
    let u1 = GVec { x: 0, y: 1, z: 0 };
    let u2 = GVec { x: 0, y: 0, z: 1 };
    &&& sat_axis_ok(u0.cross(f0), w0, w1, w2, e)
    &&& sat_axis_ok(u0.cross(f1), w0, w1, w2, e)
    &&& sat_axis_ok(u0.cross(f2), w0, w1, w2, e)
    &&& sat_axis_ok(u1.cross(f0), w0, w1, w2, e)
    &&& sat_axis_ok(u1.cross(f1), w0, w1, w2, e)
    &&& sat_axis_ok(u1.cross(f2), w0, w1, w2, e)
    &&& sat_axis_ok(u2.cross(f0), w0, w1, w2, e)
    &&& sat_axis_ok(u2.cross(f1), w0, w1, w2, e)
    &&& sat_axis_ok(u2.cross(f2), w0, w1, w2, e)
    &&& sat_axis_ok(u0, w0, w1, w2, e)
    &&& sat_axis_ok(u1, w0, w1, w2, e)
    &&& sat_axis_ok(u2, w0, w1, w2, e)
    &&& sat_axis_ok(t.normal.dir(), w0, w1, w2, e)
}

/// One axis of the exec separating-axis walk.
fn test_axis(axis: &Vector, v0: &Vector, v1: &Vector, v2: &Vector, e: &Point) -> (r: bool)
    requires
        axis.dir().abs_le(0x10_0000_0000),
        v0.dir().abs_le(0x40000),
        v1.dir().abs_le(0x40000),
        v2.dir().abs_le(0x40000),
        e.gv().abs_le(0x20000),
        e.gv().x >= 0,
        e.gv().y >= 0,
        e.gv().z >= 0,
    ensures
        r == sat_axis_ok(axis.dir(), v0.dir(), v1.dir(), v2.dir(), e.gv()),
{
    let q0 = v0.dot_product(axis);
    let q1 = v1.dot_product(axis);
    let q2 = v2.dot_product(axis);
    proof {
        lemma_dot_bound(v0.dir(), axis.dir(), 0x40000, 0x10_0000_0000);
        lemma_dot_bound(v1.dir(), axis.dir(), 0x40000, 0x10_0000_0000);
        lemma_dot_bound(v2.dir(), axis.dir(), 0x40000, 0x10_0000_0000);
    }

    let ax: i128 = if axis.x < 0 { -(axis.x as i128) } else { axis.x as i128 };
    let ay: i128 = if axis.y < 0 { -(axis.y as i128) } else { axis.y as i128 };
    let az: i128 = if axis.z < 0 { -(axis.z as i128) } else { axis.z as i128 };
    proof {
        lemma_abs_mul_le(e.gv().x, ax as int, 0x20000, 0x10_0000_0000);
        lemma_abs_mul_le(e.gv().y, ay as int, 0x20000, 0x10_0000_0000);
        lemma_abs_mul_le(e.gv().z, az as int, 0x20000, 0x10_0000_0000);
    }
    let rr: i128 = (e.x as i128) * ax + (e.y as i128) * ay + (e.z as i128) * az;

    let mn: i128 = if q0 <= q1 { if q0 <= q2 { q0 } else { q2 } } else { if q1 <= q2 { q1 } else { q2 } };
    let mx: i128 = if q0 >= q1 { if q0 >= q2 { q0 } else { q2 } } else { if q1 >= q2 { q1 } else { q2 } };

    let lo: i128 = if mn >= -mx { mn } else { -mx };
    lo <= rr
}

/// Exact triangle-box overlap by the 13-axis separating-axis test, on
/// doubled coordinates. True when no tested axis separates the triangle
/// from the box `[min, max]`.
pub fn trigon_box_intersection(trigon: &Trigon, bounding_box: &BoundingBox) -> (r: bool)
    requires
        trigon.ok(),
        bounding_box.ok(),
    ensures
        r == sat_overlap(*trigon, *bounding_box),
{
    let c = bounding_box.min.plus(&bounding_box.max);
    let e2 = bounding_box.max.minus(&bounding_box.min);
    let e = &e2;

    let v0 = Vector::from(trigon.p0.plus(&trigon.p0).minus(&c));
    let v1 = Vector::from(trigon.p1.plus(&trigon.p1).minus(&c));
    let v2 = Vector::from(trigon.p2.plus(&trigon.p2).minus(&c));

    let f0 = v1.minus(&v0);
    let f1 = v2.minus(&v1);
    let f2 = v0.minus(&v2);

    let u0 = Vector::new(1, 0, 0);
    let u1 = Vector::new(0, 1, 0);
    let u2 = Vector::new(0, 0, 1);

    proof {
        lemma_cross_component_bounds(trigon.e1(), trigon.e2(), 0x20000);
    }

    let axis_u0_f0 = u0.cross_product(&f0);
    let axis_u0_f1 = u0.cross_product(&f1);
    let axis_u0_f2 = u0.cross_product(&f2);

    let axis_u1_f0 = u1.cross_product(&f0);
    let axis_u1_f1 = u1.cross_product(&f1);
    let axis_u1_f2 = u1.cross_product(&f2);

    let axis_u2_f0 = u2.cross_product(&f0);
    let axis_u2_f1 = u2.cross_product(&f1);
    let axis_u2_f2 = u2.cross_product(&f2);

    if !test_axis(&axis_u0_f0, &v0, &v1, &v2, e) { return false; }
    if !test_axis(&axis_u0_f1, &v0, &v1, &v2, e) { return false; }
    if !test_axis(&axis_u0_f2, &v0, &v1, &v2, e) { return false; }

    if !test_axis(&axis_u1_f0, &v0, &v1, &v2, e) { return false; }
    if !test_axis(&axis_u1_f1, &v0, &v1, &v2, e) { return false; }
    if !test_axis(&axis_u1_f2, &v0, &v1, &v2, e) { return false; }

    if !test_axis(&axis_u2_f0, &v0, &v1, &v2, e) { return false; }
    if !test_axis(&axis_u2_f1, &v0, &v1, &v2, e) { return false; }
    if !test_axis(&axis_u2_f2, &v0, &v1, &v2, e) { return false; }

    if !test_axis(&u0, &v0, &v1, &v2, e) { return false; }
    if !test_axis(&u1, &v0, &v1, &v2, e) { return false; }
    if !test_axis(&u2, &v0, &v1, &v2, e) { return false; }

    if !test_axis(&trigon.normal, &v0, &v1, &v2, e) { return false; }

    true
}

/// A point within `e` of the box center projects within the box's projected
/// half-extent on every axis.
proof fn lemma_proj_within(w: GVec, e: GVec, axis: GVec)
    requires
        -e.x <= w.x <= e.x,
        -e.y <= w.y <= e.y,
        -e.z <= w.z <= e.z,
    ensures
        -proj_r(axis, e) <= w.dot(axis) <= proj_r(axis, e),
{
    lemma_abs_mul_le(w.x, axis.x, e.x, iabs(axis.x));
    lemma_abs_mul_le(w.y, axis.y, e.y, iabs(axis.y));
    lemma_abs_mul_le(w.z, axis.z, e.z, iabs(axis.z));
}

/// No axis can separate when one of the three vertices lies inside the box:
/// that vertex's projection witnesses the overlap of the intervals.
proof fn lemma_axis_with_inside(axis: GVec, w0: GVec, w1: GVec, w2: GVec, e: GVec, w: GVec)
    requires
        w == w0 || w == w1 || w == w2,
        -e.x <= w.x <= e.x,
        -e.y <= w.y <= e.y,
        -e.z <= w.z <= e.z,
    ensures
        sat_axis_ok(axis, w0, w1, w2, e),
{
    lemma_proj_within(w, e, axis);
}

/// A triangle with a vertex `q` inside the box `[b.min, b.max]` overlaps
/// `b` under the separating-axis test. In particular a box containing a
/// whole triangle overlaps it.
pub proof fn lemma_vertex_in_box_overlaps(t: Trigon, b: BoundingBox, q: GVec)
    requires
        t.ok(),
        b.ok(),
        q == t.p0.gv() || q == t.p1.gv() || q == t.p2.gv(),
        b.min.gv().x <= q.x <= b.max.gv().x,
        b.min.gv().y <= q.y <= b.max.gv().y,
        b.min.gv().z <= q.z <= b.max.gv().z,
    ensures
        sat_overlap(t, b),
{
    let c = b.min.gv().plus(b.max.gv());
    let e = b.max.gv().sub(b.min.gv());
    let w0 = t.p0.gv().scale(2).sub(c);
    let w1 = t.p1.gv().scale(2).sub(c);
    let w2 = t.p2.gv().scale(2).sub(c);
    let f0 = w1.sub(w0);
    let f1 = w2.sub(w1);
    let f2 = w0.sub(w2);
    let u0 = GVec { x: 1, y: 0, z: 0 };
    let u1 = GVec { x: 0, y: 1, z: 0 };
    let u2 = GVec { x: 0, y: 0, z: 1 };
    let w = q.scale(2).sub(c);

    lemma_axis_with_inside(u0.cross(f0), w0, w1, w2, e, w);
    lemma_axis_with_inside(u0.cross(f1), w0, w1, w2, e, w);
    lemma_axis_with_inside(u0.cross(f2), w0, w1, w2, e, w);
    lemma_axis_with_inside(u1.cross(f0), w0, w1, w2, e, w);
    lemma_axis_with_inside(u1.cross(f1), w0, w1, w2, e, w);
    lemma_axis_with_inside(u1.cross(f2), w0, w1, w2, e, w);
    lemma_axis_with_inside(u2.cross(f0), w0, w1, w2, e, w);
    lemma_axis_with_inside(u2.cross(f1), w0, w1, w2, e, w);
    lemma_axis_with_inside(u2.cross(f2), w0, w1, w2, e, w);
    lemma_axis_with_inside(u0, w0, w1, w2, e, w);
    lemma_axis_with_inside(u1, w0, w1, w2, e, w);
    lemma_axis_with_inside(u2, w0, w1, w2, e, w);
    lemma_axis_with_inside(t.normal.dir(), w0, w1, w2, e, w);
}

/// A box that contains all three vertices of a triangle overlaps it under
/// the separating-axis test.
pub proof fn lemma_box_containing_triangle_overlaps(t: Trigon, b: BoundingBox)
    requires
        t.ok(),
        b.ok(),
        forall|q: GVec| (q == t.p0.gv() || q == t.p1.gv() || q == t.p2.gv()) ==> {
            &&& b.min.gv().x <= #[trigger] q.x <= b.max.gv().x
            &&& b.min.gv().y <= q.y <= b.max.gv().y
            &&& b.min.gv().z <= q.z <= b.max.gv().z
        },
    ensures
        sat_overlap(t, b),
{
    assert(t.p0.gv() == t.p0.gv());
    lemma_vertex_in_box_overlaps(t, b, t.p0.gv());
}

/// When the triangle's axis-aligned bound and the box lie strictly apart
/// along some coordinate axis, the separating-axis test reports no overlap:
/// that principal axis separates.
pub proof fn lemma_disjoint_projection_no_overlap(t: Trigon, b: BoundingBox)
    requires
        t.ok(),
        b.ok(),
        ({
        ||| (t.p0.gv().x > b.max.gv().x && t.p1.gv().x > b.max.gv().x && t.p2.gv().x > b.max.gv().x)
        ||| (t.p0.gv().x < b.min.gv().x && t.p1.gv().x < b.min.gv().x && t.p2.gv().x < b.min.gv().x)
        ||| (t.p0.gv().y > b.max.gv().y && t.p1.gv().y > b.max.gv().y && t.p2.gv().y > b.max.gv().y)
        ||| (t.p0.gv().y < b.min.gv().y && t.p1.gv().y < b.min.gv().y && t.p2.gv().y < b.min.gv().y)
        ||| (t.p0.gv().z > b.max.gv().z && t.p1.gv().z > b.max.gv().z && t.p2.gv().z > b.max.gv().z)
        ||| (t.p0.gv().z < b.min.gv().z && t.p1.gv().z < b.min.gv().z && t.p2.gv().z < b.min.gv().z)
        }),
    ensures
        !sat_overlap(t, b),
{
    let c = b.min.gv().plus(b.max.gv());
    let e = b.max.gv().sub(b.min.gv());
    let w0 = t.p0.gv().scale(2).sub(c);
    let w1 = t.p1.gv().scale(2).sub(c);
    let w2 = t.p2.gv().scale(2).sub(c);
    let u0 = GVec { x: 1, y: 0, z: 0 };
    let u1 = GVec { x: 0, y: 1, z: 0 };
    let u2 = GVec { x: 0, y: 0, z: 1 };
    broadcast use vstd::arithmetic::mul::group_mul_basics;

    assert(w0.dot(u0) == w0.x);
    assert(w1.dot(u0) == w1.x);
    assert(w2.dot(u0) == w2.x);
    assert(w0.dot(u1) == w0.y);
    assert(w1.dot(u1) == w1.y);
    assert(w2.dot(u1) == w2.y);
    assert(w0.dot(u2) == w0.z);
    assert(w1.dot(u2) == w1.z);
    assert(w2.dot(u2) == w2.z);
    assert(proj_r(u0, e) == e.x);
    assert(proj_r(u1, e) == e.y);
    assert(proj_r(u2, e) == e.z);
    assert(!sat_axis_ok(u0, w0, w1, w2, e) || !sat_axis_ok(u1, w0, w1, w2, e)
        || !sat_axis_ok(u2, w0, w1, w2, e));
}

} // verus!


