//! Tests of the geometry primitives and the intersection kernel.

use octray::geometry::{Point, Rat, Trigon, Vector};
use octray::bounding_box::BoundingBox;
use octray::intersections::{intersection, trigon_box_intersection, vector_box_intersection};

#[test]
fn cross_product_of_unit_axes() {
    let x = Vector::new(1, 0, 0);
    let y = Vector::new(0, 1, 0);
    let c = x.cross_product(&y);
    assert_eq!((c.x, c.y, c.z), (0, 0, 1));
    let c2 = y.cross_product(&x);
    assert_eq!((c2.x, c2.y, c2.z), (0, 0, -1));
}

#[test]
fn dot_product_exact() {
    let a = Vector::new(1, 2, 3);
    let b = Vector::new(4, -5, 6);
    assert_eq!(a.dot_product(&b), 4 - 10 + 18);
    assert_eq!(a.dot_product(&a), 1 + 4 + 9);
}

#[test]
fn vector_add_sub_multiply() {
    let a = Vector::new(1, 2, 3);
    let b = Vector::new(10, 20, 30);
    let s = a.plus(&b);
    assert_eq!((s.x, s.y, s.z), (11, 22, 33));
    let d = b.minus(&a);
    assert_eq!((d.x, d.y, d.z), (9, 18, 27));
    let m = a.multiply(-2);
    assert_eq!((m.x, m.y, m.z), (-2, -4, -6));
}

#[test]
fn set_origin_keeps_direction() {
    let mut v = Vector::new(5, 6, 7);
    v.set_origin(Point::new(1, 2, 3));
    assert_eq!((v.x, v.y, v.z), (5, 6, 7));
    assert_eq!((v.origin.x, v.origin.y, v.origin.z), (1, 2, 3));
}

#[test]
fn trigon_derived_fields() {
    let t = Trigon::new(Point::new(0, 0, 0), Point::new(12, 0, 0), Point::new(0, 12, 0));
    assert_eq!((t.normal.x, t.normal.y, t.normal.z), (0, 0, 144));
    assert_eq!((t.centroid3.x, t.centroid3.y, t.centroid3.z), (12, 12, 0));
}

#[test]
fn ray_hits_unit_triangle_at_one() {
    // The triangle spanning (0,0,0)-(1,0,0)-(0,1,0) scaled by 4, and a ray
    // from (0.25, 0.25, -1) straight along +z: the hit is at t = 1 exactly.
    let t = Trigon::new(Point::new(0, 0, 0), Point::new(4, 0, 0), Point::new(0, 4, 0));
    let mut v = Vector::new(0, 0, 4);
    v.set_origin(Point::new(1, 1, -4));
    let r = intersection(&v, &t);
    assert!(r.is_some());
    let h = r.unwrap();
    assert!(h.den > 0);
    assert!(h.eq_int(1));
}

#[test]
fn ray_misses_outside_barycentric_region() {
    // Origin (2, 2, -1) in the same scale: u and v land outside the triangle.
    let t = Trigon::new(Point::new(0, 0, 0), Point::new(4, 0, 0), Point::new(0, 4, 0));
    let mut v = Vector::new(0, 0, 4);
    v.set_origin(Point::new(8, 8, -4));
    assert!(intersection(&v, &t).is_none());
}

#[test]
fn ray_behind_origin_is_rejected() {
    let t = Trigon::new(Point::new(0, 0, 0), Point::new(4, 0, 0), Point::new(0, 4, 0));
    let mut v = Vector::new(0, 0, 4);
    v.set_origin(Point::new(1, 1, 4));
    assert!(intersection(&v, &t).is_none());
}

#[test]
fn ray_parallel_to_triangle_plane_misses() {
    let t = Trigon::new(Point::new(0, 0, 0), Point::new(4, 0, 0), Point::new(0, 4, 0));
    let mut v = Vector::new(1, 0, 0);
    v.set_origin(Point::new(-4, 1, 0));
    assert!(intersection(&v, &t).is_none());
}

#[test]
fn ray_enters_box_front_face() {
    let mn = Point::new(0, 0, 0);
    let mx = Point::new(4, 4, 4);
    let mut v = Vector::new(0, 0, 1);
    v.set_origin(Point::new(2, 2, -4));
    let r = vector_box_intersection(&v, &mn, &mx);
    assert!(r.is_some());
    assert!(r.unwrap().eq_int(4));
}

#[test]
fn ray_inside_box_has_negative_entry() {
    let mn = Point::new(0, 0, 0);
    let mx = Point::new(4, 4, 4);
    let mut v = Vector::new(0, 0, 1);
    v.set_origin(Point::new(2, 2, 2));
    let r = vector_box_intersection(&v, &mn, &mx);
    assert!(r.is_some());
    assert!(r.unwrap().eq_int(-2));
}

#[test]
fn ray_past_box_misses() {
    // All three direction components non-zero, passing entirely outside.
    let mn = Point::new(0, 0, 0);
    let mx = Point::new(4, 4, 4);
    let mut v = Vector::new(1, 1, 1);
    v.set_origin(Point::new(8, 8, -4));
    assert!(vector_box_intersection(&v, &mn, &mx).is_none());
}

#[test]
fn ray_leaving_box_at_origin_misses() {
    // The exit distance is exactly zero: treated as a miss.
    let mn = Point::new(0, 0, 0);
    let mx = Point::new(4, 4, 4);
    let mut v = Vector::new(0, 0, -1);
    v.set_origin(Point::new(0, 0, 0));
    assert!(vector_box_intersection(&v, &mn, &mx).is_none());
}

#[test]
fn flat_axis_outside_slab_misses() {
    let mn = Point::new(0, 0, 0);
    let mx = Point::new(4, 4, 4);
    let mut v = Vector::new(0, 0, 1);
    v.set_origin(Point::new(10, 2, -4));
    assert!(vector_box_intersection(&v, &mn, &mx).is_none());
}

#[test]
fn rat_comparisons() {
    let half = Rat { num: 1, den: 2 };
    let third = Rat { num: 2, den: 6 };
    let one = Rat { num: 3, den: 3 };
    assert!(third.lt(&half));
    assert!(!half.lt(&third));
    assert!(!half.lt(&half));
    assert!(one.eq_int(1));
    assert!(!half.eq_int(1));
    assert!(!one.le_zero());
    assert!(Rat { num: -1, den: 7 }.le_zero());
}

#[test]
fn box_containing_triangle_overlaps() {
    let b = BoundingBox::new(Point::new(-10, -10, -10), Point::new(10, 10, 10));
    let t = Trigon::new(Point::new(0, 0, 0), Point::new(4, 0, 0), Point::new(0, 4, 0));
    assert!(trigon_box_intersection(&t, &b));
}

#[test]
fn distant_box_does_not_overlap() {
    let b = BoundingBox::new(Point::new(100, 100, 100), Point::new(104, 104, 104));
    let t = Trigon::new(Point::new(0, 0, 0), Point::new(4, 0, 0), Point::new(0, 4, 0));
    assert!(!trigon_box_intersection(&t, &b));
}

#[test]
fn straddling_triangle_overlaps_box() {
    let b = BoundingBox::new(Point::new(0, 0, 0), Point::new(4, 4, 4));
    let t = Trigon::new(Point::new(2, 2, 2), Point::new(40, 0, 0), Point::new(0, 40, 0));
    assert!(trigon_box_intersection(&t, &b));
}

#[test]
fn triangle_beside_box_face_does_not_overlap() {
    // A triangle in the plane x = -1 next to the box [0,5]^3: the box is
    // exact even though its span is odd, so the x axis separates.
    let b = BoundingBox::new(Point::new(0, 0, 0), Point::new(5, 5, 5));
    let t = Trigon::new(Point::new(-1, 0, 0), Point::new(-1, 4, 0), Point::new(-1, 0, 4));
    assert!(!trigon_box_intersection(&t, &b));
    // Every octant of the box rejects it too: splitting loses nothing that
    // the parent kept.
    for c in b.split() {
        assert!(!trigon_box_intersection(&t, &c));
    }
    // Moved onto the face itself, it overlaps.
    let on_face = Trigon::new(Point::new(0, 0, 0), Point::new(0, 4, 0), Point::new(0, 0, 4));
    assert!(trigon_box_intersection(&on_face, &b));
}

#[test]
fn bounding_box_from_seeds_at_first_vertex() {
    // A mesh entirely on the positive side of every axis is bounded tightly,
    // not pulled toward the origin.
    let faces = vec![Trigon::new(
        Point::new(4, 4, 4),
        Point::new(8, 4, 4),
        Point::new(4, 8, 4),
    )];
    let b = BoundingBox::from(&faces);
    assert_eq!((b.min.x, b.min.y, b.min.z), (4, 4, 4));
    assert_eq!((b.max.x, b.max.y, b.max.z), (8, 8, 4));
}

#[test]
fn bounding_box_from_is_tight_over_all_faces() {
    let faces = vec![
        Trigon::new(Point::new(-3, 7, 2), Point::new(5, 9, 2), Point::new(0, 8, 6)),
        Trigon::new(Point::new(1, 12, -4), Point::new(2, 7, 0), Point::new(4, 10, 1)),
    ];
    let b = BoundingBox::from(&faces);
    assert_eq!((b.min.x, b.min.y, b.min.z), (-3, 7, -4));
    assert_eq!((b.max.x, b.max.y, b.max.z), (5, 12, 6));
}

#[test]
fn bounding_box_from_empty_set_is_origin() {
    let faces: Vec<Trigon> = vec![];
    let b = BoundingBox::from(&faces);
    assert_eq!((b.min.x, b.min.y, b.min.z), (0, 0, 0));
    assert_eq!((b.max.x, b.max.y, b.max.z), (0, 0, 0));
}

#[test]
fn bounding_box_center_and_extents() {
    let b = BoundingBox::new(Point::new(0, 0, 0), Point::new(4, 6, 8));
    assert_eq!((b.center.x, b.center.y, b.center.z), (2, 3, 4));
    assert_eq!((b.extents.x, b.extents.y, b.extents.z), (2, 3, 4));
}

#[test]
fn split_tiles_parent_into_octants() {
    let b = BoundingBox::new(Point::new(0, 0, 0), Point::new(4, 4, 4));
    let parts = b.split();
    assert_eq!(parts.len(), 8);
    assert_eq!((parts[0].min.x, parts[0].min.y, parts[0].min.z), (0, 0, 0));
    assert_eq!((parts[0].max.x, parts[0].max.y, parts[0].max.z), (2, 2, 2));
    assert_eq!((parts[1].min.x, parts[1].min.y, parts[1].min.z), (0, 2, 0));
    assert_eq!((parts[1].max.x, parts[1].max.y, parts[1].max.z), (2, 4, 2));
    assert_eq!((parts[7].min.x, parts[7].min.y, parts[7].min.z), (2, 2, 2));
    assert_eq!((parts[7].max.x, parts[7].max.y, parts[7].max.z), (4, 4, 4));
    // Every octant sits inside the parent, and each parent corner is covered.
    for p in &parts {
        assert!(p.min.x >= b.min.x && p.max.x <= b.max.x);
        assert!(p.min.y >= b.min.y && p.max.y <= b.max.y);
        assert!(p.min.z >= b.min.z && p.max.z <= b.max.z);
    }
    for corner in [
        (0, 0, 0), (0, 0, 4), (0, 4, 0), (0, 4, 4),
        (4, 0, 0), (4, 0, 4), (4, 4, 0), (4, 4, 4),
    ] {
        let covered = parts.iter().any(|p| {
            p.min.x <= corner.0 && corner.0 <= p.max.x
                && p.min.y <= corner.1 && corner.1 <= p.max.y
                && p.min.z <= corner.2 && corner.2 <= p.max.z
        });
        assert!(covered);
    }
}

#[test]
fn split_keeps_straddling_triangle_in_some_octant() {
    let b = BoundingBox::new(Point::new(0, 0, 0), Point::new(8, 8, 8));
    let t = Trigon::new(Point::new(1, 1, 1), Point::new(7, 1, 1), Point::new(1, 7, 1));
    let parts = b.split();
    let kept = parts.iter().any(|p| trigon_box_intersection(&t, p));
    assert!(kept);
}

#[test]
fn get_bounded_filters_by_overlap() {
    let near = Trigon::new(Point::new(0, 0, 0), Point::new(4, 0, 0), Point::new(0, 4, 0));
    let far = Trigon::new(Point::new(100, 100, 100), Point::new(104, 100, 100), Point::new(100, 104, 100));
    let faces = vec![near, far];
    let idxs = vec![0usize, 1usize];
    let b = BoundingBox::new(Point::new(-10, -10, -10), Point::new(10, 10, 10));
    let kept = b.get_bounded(&faces, &idxs);
    assert_eq!(kept, vec![0usize]);
}

#[test]
fn box_intersects_matches_slab_test() {
    let b = BoundingBox::new(Point::new(0, 0, 0), Point::new(4, 4, 4));
    let mut hit = Vector::new(0, 0, 1);
    hit.set_origin(Point::new(2, 2, -4));
    assert!(b.intersects(&hit));
    let mut miss = Vector::new(0, 0, 1);
    miss.set_origin(Point::new(10, 2, -4));
    assert!(!b.intersects(&miss));
}
