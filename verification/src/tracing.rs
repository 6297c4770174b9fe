//! The render driver: one ray per pixel, queried against the octree, shaded
//! with the light or painted as background.

use vstd::prelude::*;
use crate::geometry::{Point, Vector, Trigon};
use crate::oct::{Octree, query_hit, tri_seq_ok};
use crate::utils::{brightness_spec, trigon_brightness};

verus! {

/// Intensity painted where a ray strikes nothing.
pub const BACKGROUND: u8 = 255;

/// The camera ray through a pixel: from the camera toward the pixel's
/// world-space position.
pub open spec fn cam_ray(camera: Point, p: Point) -> Vector {
    Vector {
        x: (p.gv().x - camera.gv().x) as i64,
        y: (p.gv().y - camera.gv().y) as i64,
        z: (p.gv().z - camera.gv().z) as i64,
        origin: camera,
    }
}

/// The intensity of one pixel: the shaded brightness of the nearest struck
/// triangle, or the background where the ray strikes nothing.
pub open spec fn pixel_spec(tree: Octree, faces: Seq<Trigon>, camera: Point, light: Point, p: Point) -> int {
    match query_hit(tree, faces, cam_ray(camera, p)) {
        Some(h) => brightness_spec(light, faces[h.face], tree, faces),
        None => BACKGROUND as int,
    }
}

/// Render the image: for every pixel of the `width` by `height` grid, cast
/// the camera ray through its grid point, query the octree for the nearest
/// triangle, and shade it against the light (with occlusion) or paint the
/// background.
pub fn trace(faces: &Vec<Trigon>, tree: &Octree, pixels: &Vec<Vec<Point>>, camera: Point, light_pos: Point, width: usize, height: usize) -> (r: Vec<Vec<u8>>)
    requires
        tree.wf(faces@.len() as int),
        tri_seq_ok(faces@),
        camera.ok(),
        light_pos.ok(),
        pixels@.len() >= height,
        forall|y: int| 0 <= y < height ==> (#[trigger] pixels@[y])@.len() >= width,
        forall|y: int, x: int| 0 <= y < height && 0 <= x < pixels@[y]@.len()
            ==> (#[trigger] pixels@[y]@[x]).ok(),
    ensures
        r@.len() == height,
        forall|y: int| 0 <= y < height ==> (#[trigger] r@[y])@.len() == width,
        forall|y: int, x: int| 0 <= y < height && 0 <= x < width ==> (#[trigger] r@[y]@[x]) as int
            == pixel_spec(*tree, faces@, camera, light_pos, pixels@[y]@[x]),
{
    let mut img: Vec<Vec<u8>> = Vec::new();

    let mut y: usize = 0;
    while y < height
        invariant
            y <= height,
            tree.wf(faces@.len() as int),
            tri_seq_ok(faces@),
            camera.ok(),
            light_pos.ok(),
            pixels@.len() >= height,
            forall|j: int| 0 <= j < height ==> (#[trigger] pixels@[j])@.len() >= width,
            forall|j: int, x: int| 0 <= j < height && 0 <= x < pixels@[j]@.len()
                ==> (#[trigger] pixels@[j]@[x]).ok(),
            img@.len() == y,
            forall|j: int| 0 <= j < y ==> (#[trigger] img@[j])@.len() == width,
            forall|j: int, x: int| 0 <= j < y && 0 <= x < width ==> (#[trigger] img@[j]@[x]) as int
                == pixel_spec(*tree, faces@, camera, light_pos, pixels@[j]@[x]),
        decreases height - y,
    {
        let mut row: Vec<u8> = Vec::new();

        let mut x: usize = 0;
        while x < width
            invariant
                x <= width,
                y < height,
                tree.wf(faces@.len() as int),
                tri_seq_ok(faces@),
                camera.ok(),
                light_pos.ok(),
                pixels@.len() >= height,
                forall|j: int| 0 <= j < height ==> (#[trigger] pixels@[j])@.len() >= width,
                forall|j: int, k: int| 0 <= j < height && 0 <= k < pixels@[j]@.len()
                    ==> (#[trigger] pixels@[j]@[k]).ok(),
                row@.len() == x,
                forall|k: int| 0 <= k < x ==> (#[trigger] row@[k]) as int
                    == pixel_spec(*tree, faces@, camera, light_pos, pixels@[y as int]@[k]),
            decreases width - x,
        {
            let pixel = &pixels[y][x];
            let mut vector = Vector::from(pixel.minus(&camera));
            vector.set_origin(camera);
            proof {
                assert(vector == cam_ray(camera, pixels@[y as int]@[x as int]));
                assert(vector.ok());
            }

            let hit = tree.intersection(faces, &vector);
            match hit {
                Some(h) => {
                    let brightness = trigon_brightness(&light_pos, &faces[h.face], tree, faces);
                    row.push(brightness);
                },
                None => {
                    row.push(BACKGROUND);
                },
            }
            x = x + 1;
        }

        img.push(row);
        y = y + 1;
    }

    img
}

} // verus!
