//! Shading: the brightness of a struck triangle under a single point light,
//! with self-occlusion tested against the octree.
//!
//! The brightness is `floor(255 * |cos a|)` where `a` is the angle between
//! the triangle's normal and the vector from the light to the centroid.
//! Computed exactly: the cosine's square is a ratio of integers, and the
//! floor of its scaled square root is taken with an integer square root.

use vstd::prelude::*;
use crate::geometry::{GVec, Point, Vector, Trigon};
use crate::geometry::{lemma_abs_mul_le, lemma_cross_component_bounds, lemma_dot_bound};
use crate::oct::{Octree, query_hit, opt_hv, tri_seq_ok};
use crate::intersections::iabs;

verus! {

/// Floor of the square root of `m` (0 for negative `m`).
pub open spec fn sqrt_floor(m: int) -> int
    decreases m,
{
    if m <= 0 {
        0
    } else {
        let s = sqrt_floor(m - 1);
        if (s + 1) * (s + 1) <= m {
            s + 1
        } else {
            s
        }
    }
}

/// `sqrt_floor` is the unique non-negative integer whose square brackets `m`.
pub proof fn lemma_sqrt_floor_bounds(m: int)
    requires
        m >= 0,
    ensures
        sqrt_floor(m) >= 0,
        sqrt_floor(m) * sqrt_floor(m) <= m,
        m < (sqrt_floor(m) + 1) * (sqrt_floor(m) + 1),
    decreases m,
{
    if m > 0 {
        lemma_sqrt_floor_bounds(m - 1);
        let s = sqrt_floor(m - 1);
        assert(s * s < (s + 1) * (s + 1)) by (nonlinear_arith)
            requires s >= 0;
        if (s + 1) * (s + 1) <= m {
            assert((s + 1) * (s + 1) < (s + 2) * (s + 2)) by (nonlinear_arith)
                requires s >= 0;
        }
    }
}

/// Any non-negative integer whose square brackets `m` is `sqrt_floor(m)`.
pub proof fn lemma_sqrt_floor_unique(a: int, m: int)
    requires
        m >= 0,
        a >= 0,
        a * a <= m,
        m < (a + 1) * (a + 1),
    ensures
        a == sqrt_floor(m),
{
    lemma_sqrt_floor_bounds(m);
    let s = sqrt_floor(m);
    if a < s {
        assert((a + 1) * (a + 1) <= s * s) by (nonlinear_arith)
            requires 0 <= a + 1 <= s;
    }
    if s < a {
        assert((s + 1) * (s + 1) <= a * a) by (nonlinear_arith)
            requires 0 <= s + 1 <= a;
    }
}

/// The scaled dot product of two 3-vectors is at most the product of their
/// squared norms (from the Lagrange identity: the difference is the squared
/// norm of the cross product).
pub proof fn lemma_cauchy_schwarz(a: GVec, b: GVec)
    ensures
        a.dot(b) * a.dot(b) <= a.dot(a) * b.dot(b),
{
    let ax = a.x;
    let ay = a.y;
    let az = a.z;
    let bx = b.x;
    let by = b.y;
    let bz = b.z;
    let d = a.dot(b);
    let cx = ay * bz - az * by;
    let cy = az * bx - ax * bz;
    let cz = ax * by - ay * bx;
    let nn = a.dot(a);
    let ll = b.dot(b);

    let s1 = ax * bx;
    let s2 = ay * by;
    let s3 = az * bz;
    let p1 = ay * bz;
    let p2 = az * by;
    let p3 = az * bx;
    let p4 = ax * bz;
    let p5 = ax * by;
    let p6 = ay * bx;
    let sa = ax * ax;
    let sb = ay * ay;
    let sc = az * az;
    let ta = bx * bx;
    let tb = by * by;
    let tc = bz * bz;

    assert(d * d == s1 * s1 + s2 * s2 + s3 * s3 + 2 * (s1 * s2) + 2 * (s1 * s3) + 2 * (s2 * s3))
        by (nonlinear_arith)
        requires d == s1 + s2 + s3;
    assert(cx * cx == p1 * p1 - 2 * (p1 * p2) + p2 * p2) by (nonlinear_arith)
        requires cx == p1 - p2;
    assert(cy * cy == p3 * p3 - 2 * (p3 * p4) + p4 * p4) by (nonlinear_arith)
        requires cy == p3 - p4;
    assert(cz * cz == p5 * p5 - 2 * (p5 * p6) + p6 * p6) by (nonlinear_arith)
        requires cz == p5 - p6;
    assert(nn * ll == sa * ta + sa * tb + sa * tc + sb * ta + sb * tb + sb * tc
        + sc * ta + sc * tb + sc * tc) by (nonlinear_arith)
        requires nn == sa + sb + sc, ll == ta + tb + tc;

    assert(s1 * s1 == sa * ta) by (nonlinear_arith)
        requires s1 == ax * bx, sa == ax * ax, ta == bx * bx;
    assert(s2 * s2 == sb * tb) by (nonlinear_arith)
        requires s2 == ay * by, sb == ay * ay, tb == by * by;
    assert(s3 * s3 == sc * tc) by (nonlinear_arith)
        requires s3 == az * bz, sc == az * az, tc == bz * bz;
    assert(p1 * p1 == sb * tc) by (nonlinear_arith)
        requires p1 == ay * bz, sb == ay * ay, tc == bz * bz;
    assert(p2 * p2 == sc * tb) by (nonlinear_arith)
        requires p2 == az * by, sc == az * az, tb == by * by;
    assert(p3 * p3 == sc * ta) by (nonlinear_arith)
        requires p3 == az * bx, sc == az * az, ta == bx * bx;
    assert(p4 * p4 == sa * tc) by (nonlinear_arith)
        requires p4 == ax * bz, sa == ax * ax, tc == bz * bz;
    assert(p5 * p5 == sa * tb) by (nonlinear_arith)
        requires p5 == ax * by, sa == ax * ax, tb == by * by;
    assert(p6 * p6 == sb * ta) by (nonlinear_arith)
        requires p6 == ay * bx, sb == ay * ay, ta == bx * bx;
    assert(s1 * s2 == p5 * p6) by (nonlinear_arith)
        requires s1 == ax * bx, s2 == ay * by, p5 == ax * by, p6 == ay * bx;
    assert(s1 * s3 == p3 * p4) by (nonlinear_arith)
        requires s1 == ax * bx, s3 == az * bz, p3 == az * bx, p4 == ax * bz;
    assert(s2 * s3 == p1 * p2) by (nonlinear_arith)
        requires s2 == ay * by, s3 == az * bz, p1 == ay * bz, p2 == az * by;

    assert(d * d + (cx * cx + cy * cy + cz * cz) == nn * ll);
    assert(cx * cx >= 0) by (nonlinear_arith);
    assert(cy * cy >= 0) by (nonlinear_arith);
    assert(cz * cz >= 0) by (nonlinear_arith);
}

/// Integer square root of a value at most `255 * 255`.
fn isqrt(m: i128) -> (r: u8)
    requires
        0 <= m <= 65025,
    ensures
        r as int == sqrt_floor(m as int),
{
    let mut r: i128 = 0;
    let mut sq: i128 = 0;
    while sq + 2 * r + 1 <= m
        invariant
            0 <= r <= 255,
            sq == r * r,
            r * r <= m,
            m <= 65025,
        decreases 256 - r,
    {
        proof {
            assert((r + 1) * (r + 1) == r * r + 2 * r + 1) by (nonlinear_arith);
            assert(r + 1 <= 255) by (nonlinear_arith)
                requires
                    (r + 1) * (r + 1) <= 65025,
                    r >= 0,
            ;
        }
        sq = sq + 2 * r + 1;
        r = r + 1;
    }
    proof {
        assert((r + 1) * (r + 1) == r * r + 2 * r + 1) by (nonlinear_arith);
        lemma_sqrt_floor_unique(r as int, m as int);
    }
    r as u8
}

/// Three times the vector from the light to the triangle's centroid
/// (scaling leaves both the shadow query's nearest triangle and the cosine
/// unchanged, and keeps the arithmetic integral).
pub open spec fn light_dir3(light: Point, t: Trigon) -> GVec {
    t.centroid3.gv().sub(light.gv().scale(3))
}

/// The ray of the shadow query: from the light toward the centroid.
pub open spec fn shade_ray(light: Point, t: Trigon) -> Vector {
    Vector {
        x: (t.centroid3.gv().x - 3 * light.gv().x) as i64,
        y: (t.centroid3.gv().y - 3 * light.gv().y) as i64,
        z: (t.centroid3.gv().z - 3 * light.gv().z) as i64,
        origin: light,
    }
}

/// Numerator of the scaled cosine: `255 * |normal . light_dir3|`.
pub open spec fn shade_num(light: Point, t: Trigon) -> int {
    255 * iabs(t.normal.dir().dot(light_dir3(light, t)))
}

/// Denominator of the squared cosine: `|normal|^2 * |light_dir3|^2`.
pub open spec fn shade_den(light: Point, t: Trigon) -> int {
    t.normal.dir().dot(t.normal.dir()) * light_dir3(light, t).dot(light_dir3(light, t))
}

/// `floor(255 * |cos a|)`, or 0 for a degenerate normal or a light at the
/// centroid.
pub open spec fn cos_brightness(light: Point, t: Trigon) -> int {
    if shade_den(light, t) == 0 {
        0
    } else {
        sqrt_floor((shade_num(light, t) * shade_num(light, t)) / shade_den(light, t))
    }
}

/// The shadow query strikes something other than the shaded triangle first.
pub open spec fn shadowed(light: Point, t: Trigon, tree: Octree, faces: Seq<Trigon>) -> bool {
    match query_hit(tree, faces, shade_ray(light, t)) {
        Some(h) => faces[h.face] != t,
        None => false,
    }
}

/// The brightness of the triangle: 0 when occluded, else the cosine term.
pub open spec fn brightness_spec(light: Point, t: Trigon, tree: Octree, faces: Seq<Trigon>) -> int {
    if shadowed(light, t, tree, faces) {
        0
    } else {
        cos_brightness(light, t)
    }
}

/// Brightness of a triangle under the light, with self-occlusion tested by
/// re-querying the octree along the light ray: a hit on any other triangle
/// forces 0. Otherwise the cosine between normal and light vector, scaled
/// to 0..=255 (the bound holds by the Cauchy-Schwarz inequality).
pub fn trigon_brightness(light_pos: &Point, trigon: &Trigon, tree: &Octree, faces: &Vec<Trigon>) -> (r: u8)
    requires
        light_pos.ok(),
        trigon.ok(),
        tree.wf(faces@.len() as int),
        tri_seq_ok(faces@),
    ensures
        r as int == brightness_spec(*light_pos, *trigon, *tree, faces@),
{
    let mut light_vector = Vector::new(
        trigon.centroid3.x - 3 * light_pos.x,
        trigon.centroid3.y - 3 * light_pos.y,
        trigon.centroid3.z - 3 * light_pos.z,
    );
    light_vector.set_origin(*light_pos);
    proof {
        assert(light_vector == shade_ray(*light_pos, *trigon));
        assert(light_vector.ok());
    }

    let hit = tree.intersection(faces, &light_vector);
    match hit {
        Some(h) => {
            let obstacle = &faces[h.face];
            if !(*obstacle == *trigon) {
                proof {
                    assert(shadowed(*light_pos, *trigon, *tree, faces@));
                }
                return 0;
            }
        },
        None => {},
    }
    proof {
        assert(!shadowed(*light_pos, *trigon, *tree, faces@));
    }

    let normal = &trigon.normal;
    proof {
        lemma_cross_component_bounds(trigon.e1(), trigon.e2(), 0x20000);
        assert(normal.dir().abs_le(0x8_0000_0000));
        assert(light_vector.dir().abs_le(0x60000));
    }

    let d = normal.dot_product(&light_vector);
    let nn = normal.dot_product(normal);
    let ll = light_vector.dot_product(&light_vector);
    proof {
        lemma_dot_bound(normal.dir(), light_vector.dir(), 0x8_0000_0000, 0x60000);
        lemma_dot_bound(normal.dir(), normal.dir(), 0x8_0000_0000, 0x8_0000_0000);
        lemma_dot_bound(light_vector.dir(), light_vector.dir(), 0x60000, 0x60000);
        lemma_cauchy_schwarz(normal.dir(), light_vector.dir());
        lemma_dot_self_nonneg(normal.dir());
        lemma_dot_self_nonneg(light_vector.dir());
        assert(-0x2000_0000_0000_0000_0000 <= nn as int <= 0x2000_0000_0000_0000_0000)
            by (nonlinear_arith)
            requires
                -(3 * (0x8_0000_0000int * 0x8_0000_0000)) <= nn as int
                    <= 3 * (0x8_0000_0000int * 0x8_0000_0000),
        ;
        assert(-0x100_0000_0000 <= ll as int <= 0x100_0000_0000) by (nonlinear_arith)
            requires
                -(3 * (0x60000int * 0x60000)) <= ll as int <= 3 * (0x60000int * 0x60000),
        ;
        assert(-0x90_0000_0000_0000 <= d as int <= 0x90_0000_0000_0000) by (nonlinear_arith)
            requires
                -(3 * (0x8_0000_0000int * 0x60000)) <= d as int
                    <= 3 * (0x8_0000_0000int * 0x60000),
        ;
        assert((nn as int) * (ll as int) <= 0x2000_0100_0000_0000_0000_0000_0000_0000
            && -0x2000_0100_0000_0000_0000_0000_0000_0000 <= (nn as int) * (ll as int))
            by (nonlinear_arith)
            requires
                -0x2000_0000_0000_0000_0000 <= nn as int <= 0x2000_0000_0000_0000_0000,
                -0x100_0000_0000 <= ll as int <= 0x100_0000_0000,
        ;
    }
    let ab = nn * ll;

    proof {
        assert(ab >= 0) by (nonlinear_arith)
            requires
                nn >= 0,
                ll >= 0,
                ab == nn * ll,
        ;
    }

    if ab == 0 {
        return 0;
    }

    let dd: i128 = if d < 0 { -d } else { d };
    let x: i128 = 255 * dd;
    proof {
        assert(x as int == shade_num(*light_pos, *trigon));
        assert(ab as int == shade_den(*light_pos, *trigon));
        assert(dd * dd == d * d) by (nonlinear_arith)
            requires
                dd == d || dd == -d,
        ;
        assert(x * x <= 65025 * ab) by (nonlinear_arith)
            requires
                dd >= 0,
                x == 255 * dd,
                dd * dd <= ab,
        ;
        assert((x as int) * (x as int) < 0x8000_0000_0000_0000_0000_0000_0000_0000)
            by (nonlinear_arith)
            requires
                x as int == 255 * (dd as int),
                0 <= dd as int <= 0x90_0000_0000_0000,
        ;
    }
    let x2: i128 = x * x;
    let q: i128 = x2 / ab;
    proof {
        assert(x2 >= 0) by (nonlinear_arith)
            requires
                x2 == x * x,
        ;
        vstd::arithmetic::div_mod::lemma_fundamental_div_mod(x2 as int, ab as int);
        vstd::arithmetic::div_mod::lemma_mod_bound(x2 as int, ab as int);
        let qd = (x2 as int) / (ab as int);
        let rd = (x2 as int) % (ab as int);
        if qd < 0 {
            assert((ab as int) * qd <= -(ab as int)) by (nonlinear_arith)
                requires
                    ab as int > 0,
                    qd <= -1,
            ;
        }
        if qd > 65025 {
            assert((ab as int) * qd >= 65026 * (ab as int)) by (nonlinear_arith)
                requires
                    ab as int > 0,
                    qd >= 65026,
            ;
        }
    }
    isqrt(q)
}

/// A vector's dot product with itself is non-negative.
pub proof fn lemma_dot_self_nonneg(a: GVec)
    ensures
        a.dot(a) >= 0,
{
    lemma_abs_mul_le(a.x, a.x, iabs(a.x), iabs(a.x));
    lemma_abs_mul_le(a.y, a.y, iabs(a.y), iabs(a.y));
    lemma_abs_mul_le(a.z, a.z, iabs(a.z), iabs(a.z));
    assert(a.x * a.x >= 0) by (nonlinear_arith);
    assert(a.y * a.y >= 0) by (nonlinear_arith);
    assert(a.z * a.z >= 0) by (nonlinear_arith);
}

} // verus!
