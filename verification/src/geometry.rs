//! Geometry primitives: points, vectors/rays, triangles and rational
//! distances, all over exact integer coordinates.
//!
//! Every scene coordinate is an integer in fixed-point world units, bounded by
//! `COORD_BOUND`; the bound keeps every intermediate product of the
//! intersection kernel inside `i128`, so all arithmetic here is exact.

use vstd::prelude::*;

verus! {

/// Greatest magnitude allowed for a coordinate of a scene point.
pub const COORD_BOUND: i64 = 65536;

/// Greatest magnitude allowed for a component of a ray direction.
pub const DIR_BOUND: i64 = 524288;

/// Greatest magnitude allowed for a coordinate of a ray origin.
pub const ORIGIN_BOUND: i64 = 262144;

/// Greatest magnitude allowed in a `Rat` numerator or denominator.
pub const RAT_BOUND: i128 = 0x400_0000_0000_0000;

/// Mathematical 3-vector over unbounded integers: the model that every
/// contract in this crate speaks of.
pub struct GVec {
    pub x: int,
    pub y: int,
    pub z: int,
}

impl GVec {
    pub open spec fn plus(self, o: GVec) -> GVec {
        GVec { x: self.x + o.x, y: self.y + o.y, z: self.z + o.z }
    }

    pub open spec fn sub(self, o: GVec) -> GVec {
        GVec { x: self.x - o.x, y: self.y - o.y, z: self.z - o.z }
    }

    pub open spec fn scale(self, n: int) -> GVec {
        GVec { x: n * self.x, y: n * self.y, z: n * self.z }
    }

    pub open spec fn dot(self, o: GVec) -> int {
        self.x * o.x + self.y * o.y + self.z * o.z
    }

    pub open spec fn cross(self, o: GVec) -> GVec {
        GVec {
            x: self.y * o.z - self.z * o.y,
            y: self.z * o.x - self.x * o.z,
            z: self.x * o.y - self.y * o.x,
        }
    }

    /// Every component has magnitude at most `b`.
    pub open spec fn abs_le(self, b: int) -> bool {
        -b <= self.x <= b && -b <= self.y <= b && -b <= self.z <= b
    }

    pub open spec fn is_zero(self) -> bool {
        self.x == 0 && self.y == 0 && self.z == 0
    }
}

/// A position in space, in fixed-point world units.
#[derive(Clone, Copy, PartialEq, Eq, Structural, Debug)]
pub struct Point {
    pub x: i64,
    pub y: i64,
    pub z: i64,
}

impl Point {
    /// The mathematical value of this point.
    pub open spec fn gv(self) -> GVec {
        GVec { x: self.x as int, y: self.y as int, z: self.z as int }
    }

    /// A scene point: all coordinates within `COORD_BOUND`.
    pub open spec fn ok(self) -> bool {
        self.gv().abs_le(COORD_BOUND as int)
    }

    pub fn new(x: i64, y: i64, z: i64) -> (r: Point)
        ensures
            r.gv() == (GVec { x: x as int, y: y as int, z: z as int }),
    {
        Point { x, y, z }
    }

    /// Componentwise difference, `self - o`.
    pub fn minus(&self, o: &Point) -> (r: Point)
        requires
            self.gv().abs_le(0x2000_0000_0000_0000),
            o.gv().abs_le(0x2000_0000_0000_0000),
        ensures
            r.gv() == self.gv().sub(o.gv()),
    {
        Point { x: self.x - o.x, y: self.y - o.y, z: self.z - o.z }
    }

    /// Componentwise sum, `self + o`.
    pub fn plus(&self, o: &Point) -> (r: Point)
        requires
            self.gv().abs_le(0x2000_0000_0000_0000),
            o.gv().abs_le(0x2000_0000_0000_0000),
        ensures
            r.gv() == self.gv().plus(o.gv()),
    {
        Point { x: self.x + o.x, y: self.y + o.y, z: self.z + o.z }
    }
}

/// A direction paired with an origin point: a free vector when the origin is
/// irrelevant, a ray when it is not. The direction need not be normalized;
/// distances along the ray are reported in units of the direction's length.
#[derive(Clone, Copy, PartialEq, Eq, Structural, Debug)]
pub struct Vector {
    pub x: i64,
    pub y: i64,
    pub z: i64,
    pub origin: Point,
}

impl Vector {
    /// The mathematical direction of this vector.
    pub open spec fn dir(self) -> GVec {
        GVec { x: self.x as int, y: self.y as int, z: self.z as int }
    }

    /// The mathematical origin of this vector.
    pub open spec fn orig(self) -> GVec {
        self.origin.gv()
    }

    /// A well-formed ray: direction and origin within the crate's bounds.
    pub open spec fn ok(self) -> bool {
        self.dir().abs_le(DIR_BOUND as int) && self.orig().abs_le(ORIGIN_BOUND as int)
    }

    pub fn new(x: i64, y: i64, z: i64) -> (r: Vector)
        ensures
            r.dir() == (GVec { x: x as int, y: y as int, z: z as int }),
            r.orig() == (GVec { x: 0, y: 0, z: 0 }),
    {
        Vector { x, y, z, origin: Point { x: 0, y: 0, z: 0 } }
    }

    pub fn from(direction: Point) -> (r: Vector)
        ensures
            r.dir() == direction.gv(),
            r.orig() == (GVec { x: 0, y: 0, z: 0 }),
    {
        Vector { x: direction.x, y: direction.y, z: direction.z, origin: Point { x: 0, y: 0, z: 0 } }
    }

    pub fn set_origin(&mut self, origin: Point)
        ensures
            final(self).dir() == old(self).dir(),
            final(self).origin == origin,
    {
        self.origin = origin;
    }

    /// Scale the direction by an integer factor; the origin resets to zero.
    pub fn multiply(&self, n: i64) -> (r: Vector)
        requires
            self.dir().abs_le(0x7fff_ffff),
            -0x7fff_ffff <= n <= 0x7fff_ffff,
        ensures
            r.dir() == self.dir().scale(n as int),
            r.orig() == (GVec { x: 0, y: 0, z: 0 }),
    {
        proof {
            lemma_abs_mul_le(n as int, self.x as int, 0x7fff_ffff, 0x7fff_ffff);
            lemma_abs_mul_le(n as int, self.y as int, 0x7fff_ffff, 0x7fff_ffff);
            lemma_abs_mul_le(n as int, self.z as int, 0x7fff_ffff, 0x7fff_ffff);
        }
        Vector { x: n * self.x, y: n * self.y, z: n * self.z, origin: Point { x: 0, y: 0, z: 0 } }
    }

    /// Componentwise sum of directions; the origin resets to zero.
    pub fn plus(&self, o: &Vector) -> (r: Vector)
        requires
            self.dir().abs_le(0x2000_0000_0000_0000),
            o.dir().abs_le(0x2000_0000_0000_0000),
        ensures
            r.dir() == self.dir().plus(o.dir()),
            r.orig() == (GVec { x: 0, y: 0, z: 0 }),
    {
        Vector { x: self.x + o.x, y: self.y + o.y, z: self.z + o.z, origin: Point { x: 0, y: 0, z: 0 } }
    }

    /// Componentwise difference of directions; the origin resets to zero.
    pub fn minus(&self, o: &Vector) -> (r: Vector)
        requires
            self.dir().abs_le(0x2000_0000_0000_0000),
            o.dir().abs_le(0x2000_0000_0000_0000),
        ensures
            r.dir() == self.dir().sub(o.dir()),
            r.orig() == (GVec { x: 0, y: 0, z: 0 }),
    {
        Vector { x: self.x - o.x, y: self.y - o.y, z: self.z - o.z, origin: Point { x: 0, y: 0, z: 0 } }
    }

    /// Exact cross product of the two directions; the origin resets to zero.
    pub fn cross_product(&self, other: &Vector) -> (r: Vector)
        requires
            self.dir().abs_le(0x7fff_ffff),
            other.dir().abs_le(0x7fff_ffff),
        ensures
            r.dir() == self.dir().cross(other.dir()),
            r.orig() == (GVec { x: 0, y: 0, z: 0 }),
    {
        proof {
            let b: int = 0x7fff_ffff;
            lemma_abs_mul_le(self.y as int, other.z as int, b, b);
            lemma_abs_mul_le(self.z as int, other.y as int, b, b);
            lemma_abs_mul_le(self.z as int, other.x as int, b, b);
            lemma_abs_mul_le(self.x as int, other.z as int, b, b);
            lemma_abs_mul_le(self.x as int, other.y as int, b, b);
            lemma_abs_mul_le(self.y as int, other.x as int, b, b);
        }
        Vector {
            x: self.y * other.z - self.z * other.y,
            y: self.z * other.x - self.x * other.z,
            z: self.x * other.y - self.y * other.x,
            origin: Point { x: 0, y: 0, z: 0 },
        }
    }

    /// Exact dot product of the two directions.
    pub fn dot_product(&self, other: &Vector) -> (r: i128)
        requires
            self.dir().abs_le(0x2000_0000_0000_0000),
            other.dir().abs_le(0x2000_0000_0000_0000),
        ensures
            r as int == self.dir().dot(other.dir()),
    {
        proof {
            let b: int = 0x2000_0000_0000_0000;
            lemma_abs_mul_le(self.x as int, other.x as int, b, b);
            lemma_abs_mul_le(self.y as int, other.y as int, b, b);
            lemma_abs_mul_le(self.z as int, other.z as int, b, b);
        }
        (self.x as i128) * (other.x as i128) + (self.y as i128) * (other.y as i128)
            + (self.z as i128) * (other.z as i128)
    }
}

/// If `|a| <= b1` and `|b| <= b2` then `|a * b| <= b1 * b2`.
pub proof fn lemma_abs_mul_le(a: int, b: int, b1: int, b2: int) by (nonlinear_arith)
    requires
        -b1 <= a <= b1,
        -b2 <= b <= b2,
    ensures
        -(b1 * b2) <= a * b <= b1 * b2,
{
}

/// Each component of a cross product of `b`-bounded vectors is within `2 * b * b`.
pub proof fn lemma_cross_component_bounds(a: GVec, b: GVec, bound: int)
    requires
        a.abs_le(bound),
        b.abs_le(bound),
        bound >= 0,
    ensures
        a.cross(b).abs_le(2 * (bound * bound)),
{
    lemma_abs_mul_le(a.y, b.z, bound, bound);
    lemma_abs_mul_le(a.z, b.y, bound, bound);
    lemma_abs_mul_le(a.z, b.x, bound, bound);
    lemma_abs_mul_le(a.x, b.z, bound, bound);
    lemma_abs_mul_le(a.x, b.y, bound, bound);
    lemma_abs_mul_le(a.y, b.x, bound, bound);
}

/// The dot product of an `a`-bounded and a `b`-bounded vector is within `3 * a * b`.
pub proof fn lemma_dot_bound(a: GVec, b: GVec, ba: int, bb: int)
    requires
        a.abs_le(ba),
        b.abs_le(bb),
        ba >= 0,
        bb >= 0,
    ensures
        -(3 * (ba * bb)) <= a.dot(b) <= 3 * (ba * bb),
{
    lemma_abs_mul_le(a.x, b.x, ba, bb);
    lemma_abs_mul_le(a.y, b.y, ba, bb);
    lemma_abs_mul_le(a.z, b.z, ba, bb);
}

/// A non-negative rational distance along a ray: `num / den` with `den > 0`.
#[derive(Clone, Copy, PartialEq, Eq, Structural, Debug)]
pub struct Rat {
    pub num: i128,
    pub den: i128,
}

/// Mathematical rational as an integer pair, denominator positive.
pub struct GRat {
    pub num: int,
    pub den: int,
}

/// `a < b` as rationals, for positive denominators.
pub open spec fn grat_lt(a: GRat, b: GRat) -> bool {
    a.num * b.den < b.num * a.den
}

/// `a <= b` as rationals, for positive denominators.
pub open spec fn grat_le(a: GRat, b: GRat) -> bool {
    a.num * b.den <= b.num * a.den
}

/// `a <= 0` as a rational, for positive denominators.
pub open spec fn grat_le_zero(a: GRat) -> bool {
    a.num <= 0
}

/// Non-strict rational order is transitive, for positive denominators.
pub proof fn lemma_grat_le_trans(a: GRat, b: GRat, c: GRat)
    requires
        a.den > 0,
        b.den > 0,
        c.den > 0,
        grat_le(a, b),
        grat_le(b, c),
    ensures
        grat_le(a, c),
{
    assert(a.num * c.den <= c.num * a.den) by (nonlinear_arith)
        requires
            a.num * b.den <= b.num * a.den,
            b.num * c.den <= c.num * b.den,
            a.den > 0,
            b.den > 0,
            c.den > 0,
    ;
}

/// Strict rational order chains through the non-strict one, for positive
/// denominators.
pub proof fn lemma_grat_lt_le_trans(a: GRat, b: GRat, c: GRat)
    requires
        a.den > 0,
        b.den > 0,
        c.den > 0,
        grat_lt(a, b),
        grat_le(b, c),
    ensures
        grat_lt(a, c),
{
    assert(a.num * c.den < c.num * a.den) by (nonlinear_arith)
        requires
            a.num * b.den < b.num * a.den,
            b.num * c.den <= c.num * b.den,
            a.den > 0,
            b.den > 0,
            c.den > 0,
    ;
}

impl Rat {
    pub open spec fn gr(self) -> GRat {
        GRat { num: self.num as int, den: self.den as int }
    }

    /// Well-formed: positive denominator, both parts within `RAT_BOUND` so
    /// that cross-multiplied comparisons stay exact in `i128`.
    pub open spec fn ok(self) -> bool {
        0 < self.den <= RAT_BOUND && -RAT_BOUND <= self.num <= RAT_BOUND
    }

    /// Exact rational comparison `self < other` by cross-multiplication.
    pub fn lt(&self, other: &Rat) -> (r: bool)
        requires
            self.ok(),
            other.ok(),
        ensures
            r == grat_lt(self.gr(), other.gr()),
    {
        proof {
            lemma_abs_mul_le(self.num as int, other.den as int, RAT_BOUND as int, RAT_BOUND as int);
            lemma_abs_mul_le(other.num as int, self.den as int, RAT_BOUND as int, RAT_BOUND as int);
        }
        self.num * other.den < other.num * self.den
    }

    /// Exact test `self <= 0`.
    pub fn le_zero(&self) -> (r: bool)
        requires
            self.ok(),
        ensures
            r == grat_le_zero(self.gr()),
    {
        self.num <= 0
    }

    /// Exact equality with the integer `n`.
    pub fn eq_int(&self, n: i64) -> (r: bool)
        requires
            self.ok(),
            -0x7fff_ffff <= n <= 0x7fff_ffff,
        ensures
            r == (self.gr().num == n as int * self.gr().den),
    {
        proof {
            lemma_abs_mul_le(n as int, self.den as int, 0x7fff_ffff, RAT_BOUND as int);
        }
        self.num == (n as i128) * self.den
    }
}

/// A triangle: three vertices, the cross product of two edges as its (scaled)
/// normal, and three times its centroid, all exact. The derived fields are
/// fixed at construction; the vertices are never mutated afterwards.
#[derive(Clone, Copy, PartialEq, Eq, Structural, Debug)]
pub struct Trigon {
    pub p0: Point,
    pub p1: Point,
    pub p2: Point,
    pub normal: Vector,
    pub centroid3: Point,
}

impl Trigon {
    /// First edge, `p1 - p0`.
    pub open spec fn e1(self) -> GVec {
        self.p1.gv().sub(self.p0.gv())
    }

    /// Second edge, `p2 - p0`.
    pub open spec fn e2(self) -> GVec {
        self.p2.gv().sub(self.p0.gv())
    }

    /// Well-formed: vertices are scene points and the derived fields hold
    /// exactly the cross product of the edges (as a free vector, origin
    /// zero) and the vertex sum. Every field is thereby a function of the
    /// three vertices.
    pub open spec fn ok(self) -> bool {
        &&& self.p0.ok()
        &&& self.p1.ok()
        &&& self.p2.ok()
        &&& self.normal.dir() == self.e1().cross(self.e2())
        &&& self.normal.orig() == (GVec { x: 0, y: 0, z: 0 })
        &&& self.centroid3.gv() == self.p0.gv().plus(self.p1.gv()).plus(self.p2.gv())
    }

    pub fn new(p0: Point, p1: Point, p2: Point) -> (r: Trigon)
        requires
            p0.ok(),
            p1.ok(),
            p2.ok(),
        ensures
            r.ok(),
            r.p0 == p0,
            r.p1 == p1,
            r.p2 == p2,
    {
        let edge1 = Vector::from(p1.minus(&p0));
        let edge2 = Vector::from(p2.minus(&p0));
        let normal = edge1.cross_product(&edge2);
        let centroid3 = p0.plus(&p1).plus(&p2);
        Trigon { p0, p1, p2, normal, centroid3 }
    }
}

/// Triangle equality goes by the vertices alone: the derived fields of a
/// well-formed triangle are functions of its vertices, so two well-formed
/// triangles with the same three vertices are equal outright (and hence
/// equal under `==`, which compares every field).
pub proof fn lemma_trigon_eq_by_vertices(a: Trigon, b: Trigon)
    requires
        a.ok(),
        b.ok(),
        a.p0 == b.p0,
        a.p1 == b.p1,
        a.p2 == b.p2,
    ensures
        a == b,
{
    assert(a.normal.dir() == b.normal.dir());
    assert(a.normal.origin.gv() == b.normal.origin.gv());
    assert(a.normal.origin == b.normal.origin);
    assert(a.normal == b.normal);
    assert(a.centroid3.gv() == b.centroid3.gv());
    assert(a.centroid3 == b.centroid3);
}

} // verus!

