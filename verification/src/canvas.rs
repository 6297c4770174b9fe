//! The camera grid: world-space positions of the image-plane pixels.
//!
//! The caller supplies the plane's starting corner and the two per-pixel
//! step vectors (derived from the camera basis); the grid is their exact
//! affine combination, one extra row and column beyond the image size.

use vstd::prelude::*;
use crate::geometry::{Point, COORD_BOUND, lemma_abs_mul_le};
use crate::intersections::iabs;

verus! {

/// The grid stays within scene bounds: per axis, the start plus the largest
/// possible offsets fits in `COORD_BOUND`.
pub open spec fn grid_in_bounds(width: int, height: int, start: Point, dw: Point, dh: Point) -> bool {
    &&& iabs(start.gv().x) + width * iabs(dw.gv().x) + height * iabs(dh.gv().x) <= COORD_BOUND as int
    &&& iabs(start.gv().y) + width * iabs(dw.gv().y) + height * iabs(dh.gv().y) <= COORD_BOUND as int
    &&& iabs(start.gv().z) + width * iabs(dw.gv().z) + height * iabs(dh.gv().z) <= COORD_BOUND as int
}

/// The grid point of column `w`, row `h`.
pub open spec fn grid_point(start: Point, dw: Point, dh: Point, w: int, h: int) -> crate::geometry::GVec {
    start.gv().plus(dw.gv().scale(w)).plus(dh.gv().scale(h))
}

/// Build the pixel grid: `height + 1` rows of `width + 1` points, where the
/// point of column `w` and row `h` is exactly `start + w * dw + h * dh`.
pub fn build(width: usize, height: usize, start: Point, delta_w: Point, delta_h: Point) -> (r: Vec<Vec<Point>>)
    requires
        width <= 16384,
        height <= 16384,
        grid_in_bounds(width as int, height as int, start, delta_w, delta_h),
    ensures
        r@.len() == height + 1,
        forall|h: int| 0 <= h < r@.len() ==> (#[trigger] r@[h])@.len() == width + 1,
        forall|h: int, w: int| 0 <= h < r@.len() && 0 <= w < r@[h]@.len() ==> {
            &&& (#[trigger] r@[h]@[w]).gv() == grid_point(start, delta_w, delta_h, w, h)
            &&& r@[h]@[w].ok()
        },
{
    let mut canvas: Vec<Vec<Point>> = Vec::new();

    let mut h: usize = 0;
    while h < height + 1
        invariant
            h <= height + 1,
            width <= 16384,
            height <= 16384,
            grid_in_bounds(width as int, height as int, start, delta_w, delta_h),
            canvas@.len() == h,
            forall|j: int| 0 <= j < h ==> (#[trigger] canvas@[j])@.len() == width + 1,
            forall|j: int, w: int| 0 <= j < h && 0 <= w < width + 1 ==> {
                &&& (#[trigger] canvas@[j]@[w]).gv() == grid_point(start, delta_w, delta_h, w, j)
                &&& canvas@[j]@[w].ok()
            },
        decreases height + 1 - h,
    {
        let mut row: Vec<Point> = Vec::new();

        let mut w: usize = 0;
        while w < width + 1
            invariant
                w <= width + 1,
                h <= height,
                width <= 16384,
                height <= 16384,
                grid_in_bounds(width as int, height as int, start, delta_w, delta_h),
                row@.len() == w,
                forall|k: int| 0 <= k < w ==> {
                    &&& (#[trigger] row@[k]).gv() == grid_point(start, delta_w, delta_h, k, h as int)
                    &&& row@[k].ok()
                },
            decreases width + 1 - w,
        {
            proof {
                lemma_abs_mul_le(w as int, delta_w.gv().x, width as int, iabs(delta_w.gv().x));
                lemma_abs_mul_le(w as int, delta_w.gv().y, width as int, iabs(delta_w.gv().y));
                lemma_abs_mul_le(w as int, delta_w.gv().z, width as int, iabs(delta_w.gv().z));
                lemma_abs_mul_le(h as int, delta_h.gv().x, height as int, iabs(delta_h.gv().x));
                lemma_abs_mul_le(h as int, delta_h.gv().y, height as int, iabs(delta_h.gv().y));
                lemma_abs_mul_le(h as int, delta_h.gv().z, height as int, iabs(delta_h.gv().z));
            }
            let px = start.x + (w as i64) * delta_w.x + (h as i64) * delta_h.x;
            let py = start.y + (w as i64) * delta_w.y + (h as i64) * delta_h.y;
            let pz = start.z + (w as i64) * delta_w.z + (h as i64) * delta_h.z;

            row.push(Point::new(px, py, pz));
            w = w + 1;
        }

        canvas.push(row);
        h = h + 1;
    }

    canvas
}

} // verus!
