//! Tests of the octree index, shading and the render driver.

use octray::geometry::{Point, Trigon, Vector};
use octray::canvas::build;
use octray::oct::{linear_nearest, Octree};
use octray::tracing::trace;
use octray::utils::trigon_brightness;

fn z_plane_triangle(x: i64, y: i64, z: i64) -> Trigon {
    Trigon::new(
        Point::new(x, y, z),
        Point::new(x + 4, y, z),
        Point::new(x, y + 4, z),
    )
}

fn grid_of_triangles(n: i64) -> Vec<Trigon> {
    let mut faces = Vec::new();
    for i in 0..n {
        for j in 0..n {
            faces.push(z_plane_triangle(8 * i, 8 * j, 0));
        }
    }
    faces
}

fn ray(origin: Point, direction: Vector) -> Vector {
    let mut v = direction;
    v.set_origin(origin);
    v
}

#[test]
fn octree_of_small_set_is_a_leaf_scan() {
    let faces = vec![z_plane_triangle(0, 0, 0), z_plane_triangle(8, 0, 0)];
    let tree = Octree::new(&faces);
    let v = ray(Point::new(1, 1, -4), Vector::new(0, 0, 1));
    let from_tree = tree.intersection(&faces, &v);
    let from_scan = linear_nearest(&faces, &v);
    assert!(from_tree.is_some());
    assert_eq!(from_tree, from_scan);
    assert_eq!(from_tree.unwrap().face, 0);
}

#[test]
fn octree_query_matches_linear_scan_on_large_set() {
    // 36 triangles force at least one split; hits and misses must agree
    // with the brute-force scan.
    let faces = grid_of_triangles(6);
    let tree = Octree::new(&faces);

    for i in 0..6i64 {
        for j in 0..6i64 {
            let v = ray(Point::new(8 * i + 1, 8 * j + 1, -24), Vector::new(0, 0, 2));
            let from_tree = tree.intersection(&faces, &v);
            let from_scan = linear_nearest(&faces, &v);
            assert_eq!(from_tree, from_scan);
            assert!(from_tree.is_some());
            assert!(from_tree.unwrap().t.eq_int(12));
        }
    }

    let miss = ray(Point::new(6, 6, -24), Vector::new(0, 0, 2));
    assert_eq!(tree.intersection(&faces, &miss), linear_nearest(&faces, &miss));
    assert!(tree.intersection(&faces, &miss).is_none());

    let sideways = ray(Point::new(-200, -200, -200), Vector::new(-1, -2, -3));
    assert_eq!(tree.intersection(&faces, &sideways), linear_nearest(&faces, &sideways));
    assert!(tree.intersection(&faces, &sideways).is_none());
}

#[test]
fn octree_returns_nearest_of_stacked_triangles() {
    // Two triangles stacked along z: the nearer one wins.
    let faces = vec![z_plane_triangle(0, 0, 8), z_plane_triangle(0, 0, 4)];
    let tree = Octree::new(&faces);
    let v = ray(Point::new(1, 1, 0), Vector::new(0, 0, 1));
    let hit = tree.intersection(&faces, &v).unwrap();
    assert_eq!(hit.face, 1);
    assert!(hit.t.eq_int(4));
    assert_eq!(Some(hit), linear_nearest(&faces, &v));
}

#[test]
fn coincident_triangles_build_terminates() {
    // More coincident triangles than a leaf holds: no octant ever shrinks
    // the set, so construction must fall back to an oversized leaf instead
    // of subdividing forever.
    let mut faces = Vec::new();
    for _ in 0..25 {
        faces.push(z_plane_triangle(0, 0, 0));
    }
    let tree = Octree::new(&faces);
    let v = ray(Point::new(1, 1, -4), Vector::new(0, 0, 1));
    let from_tree = tree.intersection(&faces, &v);
    let from_scan = linear_nearest(&faces, &v);
    assert_eq!(from_tree, from_scan);
    assert!(from_tree.unwrap().t.eq_int(4));
}

#[test]
fn light_along_normal_gives_full_brightness() {
    // Triangle in the z = 0 plane, centroid (4, 4, 0); the light sits
    // straight above the centroid, along the normal.
    let t = Trigon::new(Point::new(0, 0, 0), Point::new(12, 0, 0), Point::new(0, 12, 0));
    let faces = vec![t];
    let tree = Octree::new(&faces);
    let b = trigon_brightness(&Point::new(4, 4, 9), &t, &tree, &faces);
    assert_eq!(b, 255);
}

#[test]
fn light_in_triangle_plane_gives_zero_brightness() {
    let t = Trigon::new(Point::new(0, 0, 0), Point::new(12, 0, 0), Point::new(0, 12, 0));
    let faces = vec![t];
    let tree = Octree::new(&faces);
    let b = trigon_brightness(&Point::new(16, 4, 0), &t, &tree, &faces);
    assert_eq!(b, 0);
}

#[test]
fn occluded_triangle_is_black() {
    // A lower copy of the triangle, shadowed by the one above it.
    let above = Trigon::new(Point::new(0, 0, 0), Point::new(12, 0, 0), Point::new(0, 12, 0));
    let below = Trigon::new(Point::new(0, 0, -6), Point::new(12, 0, -6), Point::new(0, 12, -6));
    let faces = vec![above, below];
    let tree = Octree::new(&faces);
    let shadowed = trigon_brightness(&Point::new(4, 4, 9), &below, &tree, &faces);
    assert_eq!(shadowed, 0);
    let lit = trigon_brightness(&Point::new(4, 4, 9), &above, &tree, &faces);
    assert_eq!(lit, 255);
}

#[test]
fn brightness_at_oblique_angle() {
    // cos = |n.l| / (|n||l|) with n = (0,0,144), l = (0,-12,-9):
    // cos = 9/15, brightness = floor(255 * 3/5) = 153.
    let t = Trigon::new(Point::new(0, 0, 0), Point::new(12, 0, 0), Point::new(0, 12, 0));
    let faces = vec![t];
    let tree = Octree::new(&faces);
    let b = trigon_brightness(&Point::new(4, 8, 3), &t, &tree, &faces);
    assert_eq!(b, 153);
}

#[test]
fn degenerate_triangle_is_never_hit() {
    // Zero area: the determinant is always zero.
    let t = Trigon::new(Point::new(0, 0, 0), Point::new(4, 0, 0), Point::new(8, 0, 0));
    let v = ray(Point::new(1, 0, -4), Vector::new(0, 0, 1));
    assert!(octray::intersections::intersection(&v, &t).is_none());
}

#[test]
fn light_at_centroid_gives_zero_brightness() {
    // The light vector is zero: brightness degenerates to 0 instead of
    // propagating an undefined cosine.
    let t = Trigon::new(Point::new(0, 0, 0), Point::new(12, 0, 0), Point::new(0, 12, 0));
    let faces = vec![t];
    let tree = Octree::new(&faces);
    let b = trigon_brightness(&Point::new(4, 4, 0), &t, &tree, &faces);
    assert_eq!(b, 0);
}

#[test]
fn canvas_grid_is_exact_affine_lattice() {
    let grid = build(2, 2, Point::new(10, 20, 30), Point::new(2, 0, 0), Point::new(0, 3, 0));
    assert_eq!(grid.len(), 3);
    for row in &grid {
        assert_eq!(row.len(), 3);
    }
    assert_eq!((grid[0][0].x, grid[0][0].y, grid[0][0].z), (10, 20, 30));
    assert_eq!((grid[1][2].x, grid[1][2].y, grid[1][2].z), (14, 23, 30));
    assert_eq!((grid[2][1].x, grid[2][1].y, grid[2][1].z), (12, 26, 30));
}

#[test]
fn trace_shades_hits_and_paints_background() {
    // One triangle in the z = 0 plane; a 2 x 2 image looking straight down
    // the z axis. The first pixel's ray passes through the triangle, the
    // last passes beside it.
    let t = Trigon::new(Point::new(0, 0, 0), Point::new(12, 0, 0), Point::new(0, 12, 0));
    let faces = vec![t];
    let tree = Octree::new(&faces);
    let camera = Point::new(2, 2, -40);
    let light = Point::new(4, 8, 3);

    let pixels = build(2, 2, Point::new(2, 2, -20), Point::new(20, 0, 0), Point::new(0, 20, 0));
    let img = trace(&faces, &tree, &pixels, camera, light, 2, 2);

    assert_eq!(img.len(), 2);
    assert_eq!(img[0].len(), 2);
    // Pixel (0,0): ray from (2,2,-40) through (2,2,-20) strikes the
    // triangle, shaded at the oblique angle cos = 3/5.
    assert_eq!(img[0][0], 153);
    // The three other rays pass beside the triangle: background.
    assert_eq!(img[0][1], 255);
    assert_eq!(img[1][0], 255);
    assert_eq!(img[1][1], 255);
}
