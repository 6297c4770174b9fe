//! Axis-aligned bounding boxes: corner and center/extents forms, the bound
//! of a triangle set, the eight-way octant split (with its exact tiling law),
//! and the overlap filter for octree construction.

use vstd::prelude::*;
use crate::geometry::{GVec, Point, Trigon, Vector};
use crate::intersections::{box_hit, sat_overlap, trigon_box_intersection, vector_box_intersection};
use crate::intersections::lemma_vertex_in_box_overlaps;

verus! {

/// An axis-aligned box, kept in both corner form (`min`, `max`) and
/// center/extents form. The center is the rounded-down midpoint, kept as
/// derived metadata for callers; every test in this crate reads the exact
/// corners (the separating-axis test works on doubled coordinates, so
/// nothing is rounded away on axes of odd span).
#[derive(Clone, Copy, PartialEq, Eq, Structural, Debug)]
pub struct BoundingBox {
    pub min: Point,
    pub max: Point,
    pub center: Point,
    pub extents: Point,
}

/// `q` lies between `mn` and `mx` componentwise.
pub open spec fn pt_between(mn: Point, mx: Point, q: Point) -> bool {
    &&& mn.gv().x <= q.gv().x <= mx.gv().x
    &&& mn.gv().y <= q.gv().y <= mx.gv().y
    &&& mn.gv().z <= q.gv().z <= mx.gv().z
}

/// The rounded-down midpoint of the span `[a, b]`.
pub open spec fn axis_mid(a: i64, b: i64) -> int {
    a + (b - a) / 2
}

/// The per-axis midpoints of a box: the shared corner of its octants.
pub open spec fn split_mid(b: BoundingBox) -> GVec {
    GVec {
        x: axis_mid(b.min.x, b.max.x),
        y: axis_mid(b.min.y, b.max.y),
        z: axis_mid(b.min.z, b.max.z),
    }
}

/// Some vertex of `t` has `v` as its x coordinate.
pub open spec fn some_vertex_x(t: Trigon, v: int) -> bool {
    t.p0.gv().x == v || t.p1.gv().x == v || t.p2.gv().x == v
}

/// Some vertex of `t` has `v` as its y coordinate.
pub open spec fn some_vertex_y(t: Trigon, v: int) -> bool {
    t.p0.gv().y == v || t.p1.gv().y == v || t.p2.gv().y == v
}

/// Some vertex of `t` has `v` as its z coordinate.
pub open spec fn some_vertex_z(t: Trigon, v: int) -> bool {
    t.p0.gv().z == v || t.p1.gv().z == v || t.p2.gv().z == v
}

/// `p` lies in the corner box `[b.min, b.max]`.
pub open spec fn box_contains(b: BoundingBox, p: GVec) -> bool {
    &&& b.min.gv().x <= p.x <= b.max.gv().x
    &&& b.min.gv().y <= p.y <= b.max.gv().y
    &&& b.min.gv().z <= p.z <= b.max.gv().z
}

fn imin64(a: i64, b: i64) -> (r: i64)
    ensures
        r as int == crate::intersections::smin(a as int, b as int),
{
    if a <= b { a } else { b }
}

fn imax64(a: i64, b: i64) -> (r: i64)
    ensures
        r as int == crate::intersections::smax(a as int, b as int),
{
    if a >= b { a } else { b }
}

impl BoundingBox {
    /// Well-formed: scene-bounded ordered corners, the center the rounded
    /// midpoint, and the extents the distance from center to `max`.
    pub open spec fn ok(self) -> bool {
        &&& self.min.ok()
        &&& self.max.ok()
        &&& self.min.gv().x <= self.max.gv().x
        &&& self.min.gv().y <= self.max.gv().y
        &&& self.min.gv().z <= self.max.gv().z
        &&& self.center.gv().x == self.min.gv().x + (self.max.gv().x - self.min.gv().x) / 2
        &&& self.center.gv().y == self.min.gv().y + (self.max.gv().y - self.min.gv().y) / 2
        &&& self.center.gv().z == self.min.gv().z + (self.max.gv().z - self.min.gv().z) / 2
        &&& self.extents.gv() == self.max.gv().sub(self.center.gv())
    }

    pub fn new(min: Point, max: Point) -> (r: BoundingBox)
        requires
            min.ok(),
            max.ok(),
            min.x <= max.x,
            min.y <= max.y,
            min.z <= max.z,
        ensures
            r.ok(),
            r.min == min,
            r.max == max,
    {
        let center = Point::new(
            min.x + (max.x - min.x) / 2,
            min.y + (max.y - min.y) / 2,
            min.z + (max.z - min.z) / 2,
        );
        let extents = max.minus(&center);
        BoundingBox { min, max, center, extents }
    }

    /// The tightest axis-aligned bound of a triangle set: per axis, `min` is
    /// the least and `max` the greatest coordinate over every vertex of
    /// every face (the scan is seeded from the first vertex, so meshes lying
    /// entirely on one side of an axis are not pulled toward the origin).
    /// An empty set gets the degenerate box at the origin.
    pub fn from(faces: &Vec<Trigon>) -> (r: BoundingBox)
        requires
            forall|k: int| 0 <= k < faces@.len() ==> (#[trigger] faces@[k]).ok(),
        ensures
            r.ok(),
            forall|k: int| 0 <= k < faces@.len() ==> {
                &&& box_contains(r, (#[trigger] faces@[k]).p0.gv())
                &&& box_contains(r, faces@[k].p1.gv())
                &&& box_contains(r, faces@[k].p2.gv())
            },
            faces@.len() == 0 ==> r.min.gv() == (GVec { x: 0, y: 0, z: 0 })
                && r.max.gv() == (GVec { x: 0, y: 0, z: 0 }),
            faces@.len() > 0 ==> {
                &&& exists|k: int| 0 <= k < faces@.len() && some_vertex_x(#[trigger] faces@[k], r.min.gv().x)
                &&& exists|k: int| 0 <= k < faces@.len() && some_vertex_y(#[trigger] faces@[k], r.min.gv().y)
                &&& exists|k: int| 0 <= k < faces@.len() && some_vertex_z(#[trigger] faces@[k], r.min.gv().z)
                &&& exists|k: int| 0 <= k < faces@.len() && some_vertex_x(#[trigger] faces@[k], r.max.gv().x)
                &&& exists|k: int| 0 <= k < faces@.len() && some_vertex_y(#[trigger] faces@[k], r.max.gv().y)
                &&& exists|k: int| 0 <= k < faces@.len() && some_vertex_z(#[trigger] faces@[k], r.max.gv().z)
            },
    {
        if faces.len() == 0 {
            return BoundingBox::new(Point::new(0, 0, 0), Point::new(0, 0, 0));
        }

        let first = faces[0].p0;
        let mut mn = first;
        let mut mx = first;

        proof {
            assert(some_vertex_x(faces@[0], mn.gv().x));
            assert(some_vertex_y(faces@[0], mn.gv().y));
            assert(some_vertex_z(faces@[0], mn.gv().z));
            assert(some_vertex_x(faces@[0], mx.gv().x));
            assert(some_vertex_y(faces@[0], mx.gv().y));
            assert(some_vertex_z(faces@[0], mx.gv().z));
        }

        let mut i: usize = 0;
        while i < faces.len()
            invariant
                0 < faces@.len(),
                i <= faces@.len(),
                forall|k: int| 0 <= k < faces@.len() ==> (#[trigger] faces@[k]).ok(),
                mn.ok(),
                mx.ok(),
                mn.x <= mx.x,
                mn.y <= mx.y,
                mn.z <= mx.z,
                forall|k: int| 0 <= k < i ==> {
                    let q = #[trigger] faces@[k];
                    pt_between(mn, mx, q.p0) && pt_between(mn, mx, q.p1) && pt_between(mn, mx, q.p2)
                },
                exists|k: int| 0 <= k < faces@.len() && some_vertex_x(#[trigger] faces@[k], mn.gv().x),
                exists|k: int| 0 <= k < faces@.len() && some_vertex_y(#[trigger] faces@[k], mn.gv().y),
                exists|k: int| 0 <= k < faces@.len() && some_vertex_z(#[trigger] faces@[k], mn.gv().z),
                exists|k: int| 0 <= k < faces@.len() && some_vertex_x(#[trigger] faces@[k], mx.gv().x),
                exists|k: int| 0 <= k < faces@.len() && some_vertex_y(#[trigger] faces@[k], mx.gv().y),
                exists|k: int| 0 <= k < faces@.len() && some_vertex_z(#[trigger] faces@[k], mx.gv().z),
            decreases faces@.len() - i,
        {
            let face = &faces[i];
            let (a, b, c) = (face.p0, face.p1, face.p2);
            let ghost pmn = mn;
            let ghost pmx = mx;

            mn = Point::new(
                imin64(mn.x, imin64(a.x, imin64(b.x, c.x))),
                imin64(mn.y, imin64(a.y, imin64(b.y, c.y))),
                imin64(mn.z, imin64(a.z, imin64(b.z, c.z))),
            );
            mx = Point::new(
                imax64(mx.x, imax64(a.x, imax64(b.x, c.x))),
                imax64(mx.y, imax64(a.y, imax64(b.y, c.y))),
                imax64(mx.z, imax64(a.z, imax64(b.z, c.z))),
            );

            proof {
                assert(exists|k: int| 0 <= k < faces@.len() && some_vertex_x(#[trigger] faces@[k], mn.gv().x)) by {
                    if mn.gv().x != pmn.gv().x {
                        assert(some_vertex_x(faces@[i as int], mn.gv().x));
                    }
                }
                assert(exists|k: int| 0 <= k < faces@.len() && some_vertex_y(#[trigger] faces@[k], mn.gv().y)) by {
                    if mn.gv().y != pmn.gv().y {
                        assert(some_vertex_y(faces@[i as int], mn.gv().y));
                    }
                }
                assert(exists|k: int| 0 <= k < faces@.len() && some_vertex_z(#[trigger] faces@[k], mn.gv().z)) by {
                    if mn.gv().z != pmn.gv().z {
                        assert(some_vertex_z(faces@[i as int], mn.gv().z));
                    }
                }
                assert(exists|k: int| 0 <= k < faces@.len() && some_vertex_x(#[trigger] faces@[k], mx.gv().x)) by {
                    if mx.gv().x != pmx.gv().x {
                        assert(some_vertex_x(faces@[i as int], mx.gv().x));
                    }
                }
                assert(exists|k: int| 0 <= k < faces@.len() && some_vertex_y(#[trigger] faces@[k], mx.gv().y)) by {
                    if mx.gv().y != pmx.gv().y {
                        assert(some_vertex_y(faces@[i as int], mx.gv().y));
                    }
                }
                assert(exists|k: int| 0 <= k < faces@.len() && some_vertex_z(#[trigger] faces@[k], mx.gv().z)) by {
                    if mx.gv().z != pmx.gv().z {
                        assert(some_vertex_z(faces@[i as int], mx.gv().z));
                    }
                }
            }

            i = i + 1;
        }

        BoundingBox::new(mn, mx)
    }

    /// Split into the 8 octants at the per-axis midpoints. The octants tile
    /// the parent exactly: a point lies in the parent if and only if it lies
    /// in some octant (they overlap only on the shared midplanes).
    pub fn split(&self) -> (r: Vec<BoundingBox>)
        requires
            self.ok(),
        ensures
            r@.len() == 8,
            forall|k: int| 0 <= k < 8 ==> (#[trigger] r@[k]).ok(),
            forall|k: int| 0 <= k < 8 ==> {
                &&& self.min.gv().x <= (#[trigger] r@[k]).min.gv().x
                &&& self.min.gv().y <= r@[k].min.gv().y
                &&& self.min.gv().z <= r@[k].min.gv().z
                &&& r@[k].max.gv().x <= self.max.gv().x
                &&& r@[k].max.gv().y <= self.max.gv().y
                &&& r@[k].max.gv().z <= self.max.gv().z
            },
            forall|p: GVec| #[trigger] box_contains(*self, p) <==> exists|k: int|
                0 <= k < 8 && box_contains(#[trigger] r@[k], p),
            ({
                let mn = self.min.gv();
                let mx = self.max.gv();
                let md = split_mid(*self);
                &&& r@[0].min.gv() == mn
                &&& r@[0].max.gv() == md
                &&& r@[1].min.gv() == (GVec { x: mn.x, y: md.y, z: mn.z })
                &&& r@[1].max.gv() == (GVec { x: md.x, y: mx.y, z: md.z })
                &&& r@[2].min.gv() == (GVec { x: md.x, y: mn.y, z: mn.z })
                &&& r@[2].max.gv() == (GVec { x: mx.x, y: md.y, z: md.z })
                &&& r@[3].min.gv() == (GVec { x: md.x, y: md.y, z: mn.z })
                &&& r@[3].max.gv() == (GVec { x: mx.x, y: mx.y, z: md.z })
                &&& r@[4].min.gv() == (GVec { x: mn.x, y: mn.y, z: md.z })
                &&& r@[4].max.gv() == (GVec { x: md.x, y: md.y, z: mx.z })
                &&& r@[5].min.gv() == (GVec { x: mn.x, y: md.y, z: md.z })
                &&& r@[5].max.gv() == (GVec { x: md.x, y: mx.y, z: mx.z })
                &&& r@[6].min.gv() == (GVec { x: md.x, y: mn.y, z: md.z })
                &&& r@[6].max.gv() == (GVec { x: mx.x, y: md.y, z: mx.z })
                &&& r@[7].min.gv() == md
                &&& r@[7].max.gv() == mx
            }),
    {
        let mid_x = self.min.x + (self.max.x - self.min.x) / 2;
        let mid_y = self.min.y + (self.max.y - self.min.y) / 2;
        let mid_z = self.min.z + (self.max.z - self.min.z) / 2;

        let b1 = BoundingBox::new(
            Point::new(self.min.x, self.min.y, self.min.z),
            Point::new(mid_x, mid_y, mid_z),
        );
        let b2 = BoundingBox::new(
            Point::new(self.min.x, mid_y, self.min.z),
            Point::new(mid_x, self.max.y, mid_z),
        );
        let b3 = BoundingBox::new(
            Point::new(mid_x, self.min.y, self.min.z),
            Point::new(self.max.x, mid_y, mid_z),
        );
        let b4 = BoundingBox::new(
            Point::new(mid_x, mid_y, self.min.z),
            Point::new(self.max.x, self.max.y, mid_z),
        );
        let b5 = BoundingBox::new(
            Point::new(self.min.x, self.min.y, mid_z),
            Point::new(mid_x, mid_y, self.max.z),
        );
        let b6 = BoundingBox::new(
            Point::new(self.min.x, mid_y, mid_z),
            Point::new(mid_x, self.max.y, self.max.z),
        );
        let b7 = BoundingBox::new(
            Point::new(mid_x, self.min.y, mid_z),
            Point::new(self.max.x, mid_y, self.max.z),
        );
        let b8 = BoundingBox::new(
            Point::new(mid_x, mid_y, mid_z),
            Point::new(self.max.x, self.max.y, self.max.z),
        );

        let r: Vec<BoundingBox> = vec![b1, b2, b3, b4, b5, b6, b7, b8];

        proof {
            assert forall|p: GVec| #[trigger] box_contains(*self, p) implies exists|k: int|
                0 <= k < 8 && box_contains(#[trigger] r@[k], p) by {
                let gx = p.x > mid_x as int;
                let gy = p.y > mid_y as int;
                let gz = p.z > mid_z as int;
                if !gx && !gy && !gz {
                    assert(box_contains(r@[0], p));
                } else if !gx && gy && !gz {
                    assert(box_contains(r@[1], p));
                } else if gx && !gy && !gz {
                    assert(box_contains(r@[2], p));
                } else if gx && gy && !gz {
                    assert(box_contains(r@[3], p));
                } else if !gx && !gy && gz {
                    assert(box_contains(r@[4], p));
                } else if !gx && gy && gz {
                    assert(box_contains(r@[5], p));
                } else if gx && !gy && gz {
                    assert(box_contains(r@[6], p));
                } else {
                    assert(box_contains(r@[7], p));
                }
            }
        }

        r
    }
    /// Filter a set of triangle indices down to the subsequence (order and
    /// duplicates preserved) of those whose triangle overlaps this box
    /// under the separating-axis test.
    pub fn get_bounded(&self, faces: &Vec<Trigon>, idxs: &Vec<usize>) -> (r: Vec<usize>)
        requires
            self.ok(),
            forall|k: int| 0 <= k < faces@.len() ==> (#[trigger] faces@[k]).ok(),
            forall|k: int| 0 <= k < idxs@.len() ==> (#[trigger] idxs@[k]) < faces@.len(),
        ensures
            r@ == idxs@.filter(|j: usize| sat_overlap(faces@[j as int], *self)),
            forall|j: int| 0 <= j < r@.len() ==> {
                &&& (#[trigger] r@[j]) < faces@.len()
                &&& idxs@.contains(r@[j])
                &&& sat_overlap(faces@[r@[j] as int], *self)
            },
            forall|m: int| 0 <= m < idxs@.len()
                && sat_overlap(faces@[(#[trigger] idxs@[m]) as int], *self) ==> r@.contains(idxs@[m]),
            r@.len() <= idxs@.len(),
    {
        let ghost pred = |j: usize| sat_overlap(faces@[j as int], *self);
        let mut bounded: Vec<usize> = Vec::new();

        proof {
            reveal(Seq::filter);
            assert(bounded@ =~= idxs@.subrange(0, 0).filter(pred));
        }

        let mut i: usize = 0;
        while i < idxs.len()
            invariant
                i <= idxs@.len(),
                self.ok(),
                pred == (|j: usize| sat_overlap(faces@[j as int], *self)),
                forall|k: int| 0 <= k < faces@.len() ==> (#[trigger] faces@[k]).ok(),
                forall|k: int| 0 <= k < idxs@.len() ==> (#[trigger] idxs@[k]) < faces@.len(),
                bounded@ == idxs@.subrange(0, i as int).filter(pred),
                forall|j: int| 0 <= j < bounded@.len() ==> {
                    &&& (#[trigger] bounded@[j]) < faces@.len()
                    &&& idxs@.contains(bounded@[j])
                    &&& sat_overlap(faces@[bounded@[j] as int], *self)
                },
                forall|m: int| 0 <= m < i
                    && sat_overlap(faces@[(#[trigger] idxs@[m]) as int], *self)
                    ==> bounded@.contains(idxs@[m]),
                bounded@.len() <= i,
            decreases idxs@.len() - i,
        {
            proof {
                broadcast use vstd::seq_lib::group_seq_properties;
            }
            let idx = idxs[i];
            let ghost prev = bounded@;
            let includes = trigon_box_intersection(&faces[idx], self);
            if includes {
                bounded.push(idx);
                assert(idxs@.contains(idxs@[i as int]));
                assert(bounded@[bounded@.len() - 1] == idx);
            }
            assert forall|m: int| 0 <= m < i + 1
                && sat_overlap(faces@[(#[trigger] idxs@[m]) as int], *self)
                implies bounded@.contains(idxs@[m]) by {
                if m < i {
                    assert(prev.contains(idxs@[m]));
                    let j = choose|j: int| 0 <= j < prev.len() && prev[j] == idxs@[m];
                    assert(bounded@[j] == idxs@[m]);
                } else {
                    assert(bounded@[bounded@.len() - 1] == idxs@[m]);
                }
            }
            proof {
                reveal(Seq::filter);
                let pre = idxs@.subrange(0, i as int);
                let pre1 = idxs@.subrange(0, i as int + 1);
                assert(pre1.drop_last() =~= pre);
                assert(pre1.last() == idxs@[i as int]);
                assert(pred(idxs@[i as int]) == includes);
                assert(bounded@ =~= pre1.filter(pred));
            }
            i = i + 1;
        }

        proof {
            assert(idxs@.subrange(0, idxs@.len() as int) =~= idxs@);
        }
        bounded
    }

    /// True when the slab test reports an entry distance for the ray.
    pub fn intersects(&self, vector: &Vector) -> (r: bool)
        requires
            self.ok(),
            vector.ok(),
        ensures
            r == box_hit(*vector, self.min.gv(), self.max.gv()).is_some(),
    {
        vector_box_intersection(vector, &self.min, &self.max).is_some()
    }
}

/// Splitting cannot lose a triangle that has a vertex in the parent box:
/// that vertex lies in some octant by the tiling law, and a box containing
/// a vertex passes the separating-axis test, so the triangle is kept by at
/// least one octant's overlap filter.
pub proof fn lemma_split_keeps_vertex_triangles(
    parent: BoundingBox,
    octants: Seq<BoundingBox>,
    t: Trigon,
    q: GVec,
)
    requires
        parent.ok(),
        t.ok(),
        octants.len() == 8,
        forall|k: int| 0 <= k < 8 ==> (#[trigger] octants[k]).ok(),
        forall|p: GVec| #[trigger] box_contains(parent, p) <==> exists|k: int|
            0 <= k < 8 && box_contains(#[trigger] octants[k], p),
        q == t.p0.gv() || q == t.p1.gv() || q == t.p2.gv(),
        box_contains(parent, q),
    ensures
        exists|k: int| 0 <= k < 8 && sat_overlap(t, #[trigger] octants[k]),
{
    let k = choose|k: int| 0 <= k < 8 && box_contains(#[trigger] octants[k], q);
    let b = octants[k];
    assert(box_contains(b, q));
    lemma_vertex_in_box_overlaps(t, b, q);
}

} // verus!
