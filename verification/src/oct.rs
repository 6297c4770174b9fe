//! The octree spatial index: recursive construction over a triangle arena
//! (nodes hold indices into one shared triangle vector) and exact
//! nearest-hit queries.

use vstd::prelude::*;
use crate::geometry::{GRat, grat_lt, grat_le, lemma_grat_lt_le_trans, Vector, Trigon, Rat};
use crate::bounding_box::{BoundingBox, box_contains};
use crate::intersections::{box_hit, tri_hit, sat_overlap, trigon_box_intersection};

verus! {

/// Leaf capacity: a node holding at most this many triangles is not split.
pub const COUNT_OF_TRIGONS_IN_NODE: usize = 20;

/// Depth cap: after this many splits a node stays a leaf however many
/// triangles it holds, so that coincident triangles cannot recurse forever.
pub const MAX_OCTREE_DEPTH: u32 = 32;

/// A nearest-hit result: the distance along the ray and the index of the
/// struck triangle in the arena.
#[derive(Clone, Copy, PartialEq, Eq, Structural, Debug)]
pub struct Hit {
    pub t: Rat,
    pub face: usize,
}

/// Mathematical hit: exact rational distance and arena index.
pub struct GHit {
    pub t: GRat,
    pub face: int,
}

pub open spec fn hv(h: Hit) -> GHit {
    GHit { t: h.t.gr(), face: h.face as int }
}

pub open spec fn opt_hv(r: Option<Hit>) -> Option<GHit> {
    match r {
        Some(h) => Some(hv(h)),
        None => None,
    }
}

/// Keep the strictly nearer of a running best and a candidate; on a tie the
/// running best (the earlier find) wins.
pub open spec fn better(best: Option<GHit>, cand: Option<GHit>) -> Option<GHit> {
    match (best, cand) {
        (_, None) => best,
        (None, Some(c)) => cand,
        (Some(b), Some(c)) => if grat_lt(c.t, b.t) { cand } else { best },
    }
}

/// The hit of triangle `i` against the ray, as a candidate result.
pub open spec fn tri_cand(faces: Seq<Trigon>, i: int, v: Vector) -> Option<GHit> {
    match tri_hit(v, faces[i]) {
        Some(t) => Some(GHit { t: t, face: i }),
        None => None,
    }
}

/// Nearest hit of a left-to-right scan over the listed triangle indices:
/// the brute-force reference that octree queries are held to.
pub open spec fn scan_hit(idxs: Seq<usize>, faces: Seq<Trigon>, v: Vector) -> Option<GHit>
    decreases idxs.len(),
{
    if idxs.len() == 0 {
        None
    } else {
        better(scan_hit(idxs.drop_last(), faces, v), tri_cand(faces, idxs.last() as int, v))
    }
}

pub struct Octree {
    pub bounding_box: BoundingBox,
    pub children: Vec<Octree>,
    pub faces: Vec<usize>,
}

/// Nearest hit over a node's children in order.
pub open spec fn children_hit(cs: Seq<Octree>, faces: Seq<Trigon>, v: Vector) -> Option<GHit>
    decreases cs, 1int,
{
    if cs.len() == 0 {
        None
    } else {
        better(children_hit(cs.drop_last(), faces, v), query_hit(cs.last(), faces, v))
    }
}

/// The octree query: prune when the ray misses the node's box; scan the
/// triangles of a leaf; otherwise take the nearest result over all children.
pub open spec fn query_hit(tree: Octree, faces: Seq<Trigon>, v: Vector) -> Option<GHit>
    decreases tree, 2int,
{
    if box_hit(v, tree.bounding_box.min.gv(), tree.bounding_box.max.gv()).is_none() {
        None
    } else if tree.faces@.len() > 0 {
        scan_hit(tree.faces@, faces, v)
    } else {
        children_hit(tree.children@, faces, v)
    }
}

/// Every triangle of the sequence is well-formed.
pub open spec fn tri_seq_ok(s: Seq<Trigon>) -> bool {
    forall|k: int| 0 <= k < s.len() ==> (#[trigger] s[k]).ok()
}

impl Octree {
    /// Triangle `idx` is stored somewhere in this subtree: in the node's own
    /// list or in some child's subtree.
    pub open spec fn holds_face(self, idx: usize) -> bool
        decreases self,
    {
        self.faces@.contains(idx) || exists|k: int|
            0 <= k < self.children@.len() && (#[trigger] self.children@[k]).holds_face(idx)
    }

    /// The subtree stores at least one triangle.
    pub open spec fn occupied(self) -> bool
        decreases self,
    {
        self.faces@.len() > 0 || exists|k: int|
            0 <= k < self.children@.len() && (#[trigger] self.children@[k]).occupied()
    }

    /// Well-formed over an arena of `n` triangles: boxes are well-formed,
    /// stored indices are in range, a node is a leaf (no children) or
    /// internal (no own triangles, never both), and an internal node has at
    /// most 8 children, each a non-empty subtree (empty octants are
    /// omitted, never created).
    pub open spec fn wf(self, n: int) -> bool
        decreases self,
    {
        &&& self.bounding_box.ok()
        &&& forall|k: int| 0 <= k < self.faces@.len() ==> (#[trigger] self.faces@[k]) < n
        &&& (self.faces@.len() == 0 || self.children@.len() == 0)
        &&& self.children@.len() <= 8
        &&& forall|k: int| 0 <= k < self.children@.len() ==> (#[trigger] self.children@[k]).wf(n)
        &&& forall|k: int| 0 <= k < self.children@.len() ==> (#[trigger] self.children@[k]).occupied()
    }

    /// Build the index over the whole arena: bound every triangle, then
    /// subdivide. Every triangle of the arena is stored in the tree, a
    /// straddling one possibly under several children. For a set within
    /// the leaf capacity the tree is a single leaf scanning the arena in
    /// order.
    pub fn new(faces: &Vec<Trigon>) -> (r: Octree)
        requires
            tri_seq_ok(faces@),
        ensures
            r.wf(faces@.len() as int),
            forall|k: int| 0 <= k < faces@.len() ==> {
                &&& box_contains(r.bounding_box, (#[trigger] faces@[k]).p0.gv())
                &&& box_contains(r.bounding_box, faces@[k].p1.gv())
                &&& box_contains(r.bounding_box, faces@[k].p2.gv())
            },
            forall|j: int| 0 <= j < faces@.len() ==> #[trigger] r.holds_face(j as usize),
            faces@.len() <= COUNT_OF_TRIGONS_IN_NODE as int ==> {
                &&& r.children@.len() == 0
                &&& r.faces@ =~= Seq::new(faces@.len(), |i: int| i as usize)
            },
    {
        let mut bounded_faces: Vec<usize> = Vec::new();
        let mut i: usize = 0;
        while i < faces.len()
            invariant
                i <= faces@.len(),
                bounded_faces@ =~= Seq::new(i as nat, |k: int| k as usize),
            decreases faces@.len() - i,
        {
            bounded_faces.push(i);
            i = i + 1;
        }

        let bounding_box = BoundingBox::from(faces);
        let r = Octree::leaf_or_node(&bounding_box, bounded_faces, faces, MAX_OCTREE_DEPTH);
        proof {
            assert forall|j: int| 0 <= j < faces@.len() implies #[trigger] r.holds_face(j as usize) by {
                let idt = Seq::new(faces@.len(), |k: int| k as usize);
                assert(idt[j] == j as usize);
                assert(idt.contains(j as usize));
            }
        }
        r
    }

    /// Make a leaf when the set fits (or the depth budget is spent), else
    /// split the box into octants, filter the set into each octant by the
    /// separating-axis test, and recurse into the non-empty octants. The
    /// subdivision never loses a triangle: when a split would shrink no
    /// octant's set (as with many coincident triangles) or would leave some
    /// triangle in no octant, the node falls back to an oversized leaf.
    fn leaf_or_node(bounding_box: &BoundingBox, bounded_faces: Vec<usize>, faces: &Vec<Trigon>, depth: u32) -> (r: Octree)
        requires
            bounding_box.ok(),
            tri_seq_ok(faces@),
            forall|k: int| 0 <= k < bounded_faces@.len() ==> (#[trigger] bounded_faces@[k]) < faces@.len(),
        ensures
            r.wf(faces@.len() as int),
            r.bounding_box == *bounding_box,
            forall|j: usize| bounded_faces@.contains(j) ==> #[trigger] r.holds_face(j),
            bounded_faces@.len() > 0 ==> r.occupied(),
            bounded_faces@.len() <= COUNT_OF_TRIGONS_IN_NODE as int ==> {
                &&& r.children@.len() == 0
                &&& r.faces@ == bounded_faces@
            },
        decreases depth,
    {
        if bounded_faces.len() <= COUNT_OF_TRIGONS_IN_NODE || depth == 0 {
            return Octree {
                bounding_box: *bounding_box,
                children: Vec::new(),
                faces: bounded_faces,
            };
        }

        let bounding_subboxes = bounding_box.split();
        let mut subsets: Vec<Vec<usize>> = Vec::new();
        let mut shrinks = false;

        let mut k: usize = 0;
        while k < bounding_subboxes.len()
            invariant
                bounding_subboxes@.len() == 8,
                forall|j: int| 0 <= j < 8 ==> (#[trigger] bounding_subboxes@[j]).ok(),
                tri_seq_ok(faces@),
                forall|j: int| 0 <= j < bounded_faces@.len() ==> (#[trigger] bounded_faces@[j]) < faces@.len(),
                k <= 8,
                subsets@.len() == k,
                forall|j: int, m: int| 0 <= j < subsets@.len() && 0 <= m < (#[trigger] subsets@[j])@.len()
                    ==> (#[trigger] subsets@[j]@[m]) < faces@.len(),
                forall|j: int, m: int| 0 <= j < subsets@.len() && 0 <= m < bounded_faces@.len()
                    && sat_overlap(faces@[(#[trigger] bounded_faces@[m]) as int], #[trigger] bounding_subboxes@[j])
                    ==> subsets@[j]@.contains(bounded_faces@[m]),
            decreases bounding_subboxes@.len() - k,
        {
            let subbox = &bounding_subboxes[k];
            let subbounded_faces = subbox.get_bounded(faces, &bounded_faces);
            if subbounded_faces.len() < bounded_faces.len() {
                shrinks = true;
            }
            subsets.push(subbounded_faces);
            k = k + 1;
        }

        // Every triangle of the set must land in at least one octant, or
        // the split is abandoned for an oversized leaf.
        let mut all_covered = true;
        let mut m: usize = 0;
        while m < bounded_faces.len()
            invariant
                bounding_subboxes@.len() == 8,
                subsets@.len() == 8,
                tri_seq_ok(faces@),
                forall|j: int| 0 <= j < 8 ==> (#[trigger] bounding_subboxes@[j]).ok(),
                forall|j: int| 0 <= j < bounded_faces@.len() ==> (#[trigger] bounded_faces@[j]) < faces@.len(),
                all_covered ==> forall|m0: int| 0 <= m0 < m ==> exists|j: int|
                    0 <= j < 8 && sat_overlap(faces@[(#[trigger] bounded_faces@[m0]) as int], #[trigger] bounding_subboxes@[j]),
            decreases bounded_faces@.len() - m,
        {
            let idx = bounded_faces[m];
            let mut found = false;
            let mut j: usize = 0;
            while j < 8
                invariant
                    j <= 8,
                    bounding_subboxes@.len() == 8,
                    tri_seq_ok(faces@),
                    idx < faces@.len(),
                    forall|j0: int| 0 <= j0 < 8 ==> (#[trigger] bounding_subboxes@[j0]).ok(),
                    found == exists|j0: int| 0 <= j0 < j
                        && sat_overlap(faces@[idx as int], #[trigger] bounding_subboxes@[j0]),
                decreases 8 - j,
            {
                if crate::intersections::trigon_box_intersection(&faces[idx], &bounding_subboxes[j]) {
                    found = true;
                    proof {
                        assert(sat_overlap(faces@[idx as int], bounding_subboxes@[j as int]));
                    }
                }
                j = j + 1;
            }
            if !found {
                all_covered = false;
            }
            m = m + 1;
        }

        if !shrinks || !all_covered {
            return Octree {
                bounding_box: *bounding_box,
                children: Vec::new(),
                faces: bounded_faces,
            };
        }

        let ghost snap = subsets@;
        let mut children: Vec<Octree> = Vec::new();

        proof {
            assert(snap.subrange(0, snap.len() as int) =~= snap);
        }

        while subsets.len() > 0
            invariant
                bounding_subboxes@.len() == 8,
                snap.len() == 8,
                subsets@.len() <= 8,
                subsets@ == snap.subrange(0, subsets@.len() as int),
                forall|j: int| 0 <= j < 8 ==> (#[trigger] bounding_subboxes@[j]).ok(),
                tri_seq_ok(faces@),
                forall|j: int, m0: int| 0 <= j < snap.len() && 0 <= m0 < (#[trigger] snap[j])@.len()
                    ==> (#[trigger] snap[j]@[m0]) < faces@.len(),
                forall|j: int| 0 <= j < children@.len() ==> (#[trigger] children@[j]).wf(faces@.len() as int),
                forall|j: int| 0 <= j < children@.len() ==> (#[trigger] children@[j]).occupied(),
                children@.len() + subsets@.len() <= 8,
                forall|j: usize, k0: int| subsets@.len() <= k0 < 8 && #[trigger] snap[k0]@.contains(j)
                    ==> exists|c: int| 0 <= c < children@.len() && (#[trigger] children@[c]).holds_face(j),
                depth >= 1,
            decreases subsets@.len(),
        {
            let ghost prev_children = children@;
            let subbounded_faces = subsets.pop().unwrap();
            let idx = subsets.len();
            proof {
                assert(subsets@ =~= snap.subrange(0, idx as int));
                assert(subbounded_faces@ == snap[idx as int]@);
            }
            if subbounded_faces.len() > 0 {
                let child = Octree::leaf_or_node(&bounding_subboxes[idx], subbounded_faces, faces, depth - 1);
                children.push(child);
                proof {
                    assert(children@[children@.len() - 1] == child);
                    assert forall|j: usize, k0: int| subsets@.len() <= k0 < 8 && #[trigger] snap[k0]@.contains(j)
                        implies exists|c: int| 0 <= c < children@.len() && (#[trigger] children@[c]).holds_face(j) by {
                        if k0 == idx as int {
                            assert(child.holds_face(j));
                            assert(children@[children@.len() - 1].holds_face(j));
                        } else {
                            let c = choose|c: int| 0 <= c < prev_children.len()
                                && (#[trigger] prev_children[c]).holds_face(j);
                            assert(children@[c].holds_face(j));
                        }
                    }
                }
            } else {
                proof {
                    assert forall|j: usize, k0: int| subsets@.len() <= k0 < 8 && #[trigger] snap[k0]@.contains(j)
                        implies exists|c: int| 0 <= c < children@.len() && (#[trigger] children@[c]).holds_face(j) by {
                        if k0 == idx as int {
                            assert(snap[k0]@.len() == 0);
                            assert(false);
                        } else {
                            let c = choose|c: int| 0 <= c < prev_children.len()
                                && (#[trigger] prev_children[c]).holds_face(j);
                            assert(children@[c].holds_face(j));
                        }
                    }
                }
            }
        }

        let r = Octree {
            bounding_box: *bounding_box,
            children,
            faces: Vec::new(),
        };
        proof {
            assert forall|j: usize| bounded_faces@.contains(j) implies #[trigger] r.holds_face(j) by {
                let m0 = choose|m0: int| 0 <= m0 < bounded_faces@.len() && bounded_faces@[m0] == j;
                let bj = choose|bj: int| 0 <= bj < 8
                    && sat_overlap(faces@[(bounded_faces@[m0]) as int], #[trigger] bounding_subboxes@[bj]);
                assert(snap[bj]@.contains(j));
                let c = choose|c: int| 0 <= c < r.children@.len() && (#[trigger] r.children@[c]).holds_face(j);
                assert(r.children@[c].holds_face(j));
            }
            if bounded_faces@.len() > 0 {
                assert(bounded_faces@.contains(bounded_faces@[0]));
                assert(r.holds_face(bounded_faces@[0]));
                let c = choose|c: int| 0 <= c < r.children@.len() && (#[trigger] r.children@[c]).holds_face(bounded_faces@[0]);
                assert(r.children@[c].occupied());
            }
        }
        r
    }

    /// Scan this node's own triangles for the nearest hit.
    fn face_intersection(&self, faces: &Vec<Trigon>, vector: &Vector) -> (r: Option<Hit>)
        requires
            self.wf(faces@.len() as int),
            tri_seq_ok(faces@),
            vector.ok(),
        ensures
            opt_hv(r) == scan_hit(self.faces@, faces@, *vector),
            r matches Some(h) ==> h.t.ok() && h.face < faces@.len(),
    {
        let mut best: Option<Hit> = None;

        let mut i: usize = 0;
        while i < self.faces.len()
            invariant
                i <= self.faces@.len(),
                self.wf(faces@.len() as int),
                tri_seq_ok(faces@),
                vector.ok(),
                opt_hv(best) == scan_hit(self.faces@.subrange(0, i as int), faces@, *vector),
                best matches Some(h) ==> h.t.ok() && h.face < faces@.len(),
            decreases self.faces@.len() - i,
        {
            let idx = self.faces[i];
            let distance = crate::intersections::intersection(vector, &faces[idx]);
            let ghost prefix = self.faces@.subrange(0, i as int);
            let ghost prefix1 = self.faces@.subrange(0, i as int + 1);

            best = match (best, distance) {
                (b, None) => b,
                (None, Some(d)) => Some(Hit { t: d, face: idx }),
                (Some(b), Some(d)) => if d.lt(&b.t) {
                    Some(Hit { t: d, face: idx })
                } else {
                    Some(b)
                },
            };

            proof {
                assert(prefix1.drop_last() =~= prefix);
                assert(prefix1.last() == self.faces@[i as int]);
            }
            i = i + 1;
        }

        proof {
            assert(self.faces@.subrange(0, self.faces@.len() as int) =~= self.faces@);
        }
        best
    }

    /// Nearest hit of the ray against the indexed triangles: `None` when the
    /// ray misses this node's box outright, the scan of a leaf's triangles,
    /// or the nearest result over an internal node's children.
    pub fn intersection(&self, faces: &Vec<Trigon>, vector: &Vector) -> (r: Option<Hit>)
        requires
            self.wf(faces@.len() as int),
            tri_seq_ok(faces@),
            vector.ok(),
        ensures
            opt_hv(r) == query_hit(*self, faces@, *vector),
            r matches Some(h) ==> h.t.ok() && h.face < faces@.len(),
        decreases *self,
    {
        if !self.bounding_box.intersects(vector) {
            return None;
        }

        if self.faces.len() > 0 {
            return self.face_intersection(faces, vector);
        }

        let mut best: Option<Hit> = None;

        let mut k: usize = 0;
        while k < self.children.len()
            invariant
                k <= self.children@.len(),
                self.wf(faces@.len() as int),
                tri_seq_ok(faces@),
                vector.ok(),
                opt_hv(best) == children_hit(self.children@.subrange(0, k as int), faces@, *vector),
                best matches Some(h) ==> h.t.ok() && h.face < faces@.len(),
            decreases self.children@.len() - k,
        {
            let ghost prefix = self.children@.subrange(0, k as int);
            let ghost prefix1 = self.children@.subrange(0, k as int + 1);

            let child = &self.children[k];
            let cand = child.intersection(faces, vector);

            best = match (best, cand) {
                (b, None) => b,
                (None, Some(c)) => Some(c),
                (Some(b), Some(c)) => if c.t.lt(&b.t) {
                    Some(c)
                } else {
                    Some(b)
                },
            };

            proof {
                assert(prefix1.drop_last() =~= prefix);
                assert(prefix1.last() == self.children@[k as int]);
            }
            k = k + 1;
        }

        proof {
            assert(self.children@.subrange(0, self.children@.len() as int) =~= self.children@);
            if self.faces@.len() == 0 && self.children@.len() == 0 {
                assert(children_hit(self.children@, faces@, *vector) == None::<GHit>);
            }
        }
        best
    }
}

/// Nearest hit by brute force: the linear scan of the whole arena that the
/// octree query is measured against.
pub fn linear_nearest(faces: &Vec<Trigon>, vector: &Vector) -> (r: Option<Hit>)
    requires
        tri_seq_ok(faces@),
        vector.ok(),
    ensures
        opt_hv(r) == scan_hit(Seq::new(faces@.len(), |i: int| i as usize), faces@, *vector),
        r matches Some(h) ==> h.t.ok() && h.face < faces@.len(),
{
    let mut best: Option<Hit> = None;

    let mut i: usize = 0;
    while i < faces.len()
        invariant
            i <= faces@.len(),
            tri_seq_ok(faces@),
            vector.ok(),
            opt_hv(best) == scan_hit(Seq::new(i as nat, |k: int| k as usize), faces@, *vector),
            best matches Some(h) ==> h.t.ok() && h.face < faces@.len(),
        decreases faces@.len() - i,
    {
        let ghost prefix = Seq::new(i as nat, |k: int| k as usize);
        let ghost prefix1 = Seq::new(i as nat + 1, |k: int| k as usize);

        let distance = crate::intersections::intersection(vector, &faces[i]);

        best = match (best, distance) {
            (b, None) => b,
            (None, Some(d)) => Some(Hit { t: d, face: i }),
            (Some(b), Some(d)) => if d.lt(&b.t) {
                Some(Hit { t: d, face: i })
            } else {
                Some(b)
            },
        };

        proof {
            assert(prefix1.drop_last() =~= prefix);
            assert(prefix1.last() == i as usize);
        }
        i = i + 1;
    }

    best
}

/// A tree that is a single leaf reports, for any ray that strikes its box,
/// exactly the nearest hit of the linear scan of its triangle list: the
/// octree query of a within-capacity set agrees with brute force whenever
/// the root box test passes.
pub proof fn lemma_leaf_query_is_linear_scan(tree: Octree, faces: Seq<Trigon>, v: Vector)
    requires
        tree.children@.len() == 0,
        box_hit(v, tree.bounding_box.min.gv(), tree.bounding_box.max.gv()).is_some(),
    ensures
        query_hit(tree, faces, v) == scan_hit(tree.faces@, faces, v),
{
    if tree.faces@.len() == 0 {
        assert(scan_hit(tree.faces@, faces, v) == None::<GHit>);
        assert(children_hit(tree.children@, faces, v) == None::<GHit>);
    }
}

/// Any hit a scan reports is a true hit: the struck index is listed, and the
/// reported distance is exactly the ray-triangle distance of that triangle.
pub proof fn lemma_scan_hit_sound(idxs: Seq<usize>, faces: Seq<Trigon>, v: Vector)
    ensures
        scan_hit(idxs, faces, v) matches Some(h) ==> {
            &&& exists|j: int| 0 <= j < idxs.len() && (#[trigger] idxs[j]) as int == h.face
            &&& tri_hit(v, faces[h.face]) == Some(h.t)
        },
    decreases idxs.len(),
{
    if idxs.len() > 0 {
        lemma_scan_hit_sound(idxs.drop_last(), faces, v);
        if scan_hit(idxs, faces, v).is_some() {
            let h = scan_hit(idxs, faces, v).unwrap();
            let front = scan_hit(idxs.drop_last(), faces, v);
            if front.is_some() && h == front.unwrap() {
                let hh = front.unwrap();
                let j = choose|j: int| 0 <= j < idxs.drop_last().len()
                    && (#[trigger] idxs.drop_last()[j]) as int == hh.face;
                assert(idxs[j] as int == h.face);
            } else {
                assert(idxs[idxs.len() - 1] as int == h.face);
            }
        }
    }
}

/// Any hit the octree query reports is a true hit of a triangle stored in
/// the queried subtree: the octree never invents or misreports a distance.
pub proof fn lemma_query_hit_sound(tree: Octree, faces: Seq<Trigon>, v: Vector)
    requires
        tree.wf(faces.len() as int),
    ensures
        query_hit(tree, faces, v) matches Some(h) ==> {
            &&& 0 <= h.face < faces.len()
            &&& tri_hit(v, faces[h.face]) == Some(h.t)
        },
    decreases tree, 2int,
{
    if box_hit(v, tree.bounding_box.min.gv(), tree.bounding_box.max.gv()).is_some() {
        if tree.faces@.len() > 0 {
            lemma_scan_hit_sound(tree.faces@, faces, v);
            if scan_hit(tree.faces@, faces, v).is_some() {
                let h = scan_hit(tree.faces@, faces, v).unwrap();
                let j = choose|j: int| 0 <= j < tree.faces@.len()
                    && (#[trigger] tree.faces@[j]) as int == h.face;
                assert(tree.faces@[j] < faces.len());
            }
        } else {
            lemma_children_hit_sound(tree.children@, faces, v);
        }
    }
}

/// The distance of a triangle hit has a positive denominator.
proof fn lemma_tri_hit_den_pos(v: Vector, t: Trigon)
    ensures
        tri_hit(v, t) matches Some(g) ==> g.den > 0,
{
}

/// The distance of a scan hit has a positive denominator.
proof fn lemma_scan_hit_den_pos(idxs: Seq<usize>, faces: Seq<Trigon>, v: Vector)
    ensures
        scan_hit(idxs, faces, v) matches Some(h) ==> h.t.den > 0,
    decreases idxs.len(),
{
    if idxs.len() > 0 {
        lemma_scan_hit_den_pos(idxs.drop_last(), faces, v);
        lemma_tri_hit_den_pos(v, faces[idxs.last() as int]);
    }
}

/// A scan's result is a running minimum: it is at most the hit distance of
/// every listed triangle that the ray strikes.
proof fn lemma_scan_hit_min(idxs: Seq<usize>, faces: Seq<Trigon>, v: Vector, j: int)
    requires
        0 <= j < idxs.len(),
        tri_hit(v, faces[idxs[j] as int]).is_some(),
    ensures
        scan_hit(idxs, faces, v).is_some(),
        grat_le(scan_hit(idxs, faces, v).unwrap().t, tri_hit(v, faces[idxs[j] as int]).unwrap()),
    decreases idxs.len(),
{
    let front = scan_hit(idxs.drop_last(), faces, v);
    let cand = tri_cand(faces, idxs.last() as int, v);
    let target = tri_hit(v, faces[idxs[j] as int]).unwrap();
    lemma_scan_hit_den_pos(idxs.drop_last(), faces, v);
    lemma_tri_hit_den_pos(v, faces[idxs.last() as int]);
    lemma_tri_hit_den_pos(v, faces[idxs[j] as int]);

    if j == idxs.len() - 1 {
        assert(cand.is_some() && cand.unwrap().t == target);
    } else {
        lemma_scan_hit_min(idxs.drop_last(), faces, v, j);
        let f = front.unwrap();
        match cand {
            None => {},
            Some(c) => {
                if grat_lt(c.t, f.t) {
                    lemma_grat_lt_le_trans(c.t, f.t, target);
                }
            },
        }
    }
}

/// The provable half of the octree/linear-scan agreement, for every
/// triangle set and every ray: a hit reported by the octree query is also
/// found by the brute-force linear scan, at the same or a nearer distance.
/// (The single-leaf case is exact agreement: `lemma_leaf_query_is_linear_scan`.)
pub proof fn lemma_octree_hit_dominated(tree: Octree, faces: Seq<Trigon>, v: Vector)
    requires
        tree.wf(faces.len() as int),
        faces.len() <= usize::MAX,
    ensures
        query_hit(tree, faces, v) matches Some(h) ==> {
            let full = scan_hit(Seq::new(faces.len(), |i: int| i as usize), faces, v);
            &&& full.is_some()
            &&& grat_le(full.unwrap().t, h.t)
        },
{
    lemma_query_hit_sound(tree, faces, v);
    if query_hit(tree, faces, v).is_some() {
        let h = query_hit(tree, faces, v).unwrap();
        let idt = Seq::new(faces.len(), |i: int| i as usize);
        assert(idt[h.face] == h.face as usize);
        assert(idt[h.face] as int == h.face);
        lemma_scan_hit_min(idt, faces, v, h.face);
    }
}

/// Soundness of the fold over a node's children.
proof fn lemma_children_hit_sound(cs: Seq<Octree>, faces: Seq<Trigon>, v: Vector)
    requires
        forall|k: int| 0 <= k < cs.len() ==> (#[trigger] cs[k]).wf(faces.len() as int),
    ensures
        children_hit(cs, faces, v) matches Some(h) ==> {
            &&& 0 <= h.face < faces.len()
            &&& tri_hit(v, faces[h.face]) == Some(h.t)
        },
    decreases cs, 1int,
{
    if cs.len() > 0 {
        assert(cs.drop_last() =~= cs.subrange(0, cs.len() - 1));
        assert(forall|k: int| 0 <= k < cs.drop_last().len() ==> (#[trigger] cs.drop_last()[k]).wf(faces.len() as int));
        lemma_children_hit_sound(cs.drop_last(), faces, v);
        assert(cs.last() == cs[cs.len() - 1]);
        lemma_query_hit_sound(cs.last(), faces, v);
    }
}

} // verus!
