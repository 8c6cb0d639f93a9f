use vstd::arithmetic::power::pow;
use vstd::arithmetic::power2::{lemma_pow2_unfold, pow2};
use vstd::prelude::*;

use super::quad_tree::{
    lemma_quadrant_half, lemma_quadrant_on_grid, quadrant_bounds, QuadTreeNode, Quadrant,
};
use super::rect::{Point2, Rectangle};

verus! {

/// The areas of the bounds of a list of leaves, added up.
pub open spec fn total_area<T>(leaves: Seq<(Rectangle, T)>) -> int
    decreases leaves.len(),
{
    if leaves.len() == 0 {
        0
    } else {
        total_area(leaves.drop_last()) + leaves.last().0.area()
    }
}

/// The areas of two lists of leaves add up to the area of the two lists put
/// together.
pub proof fn lemma_total_area_add<T>(a: Seq<(Rectangle, T)>, b: Seq<(Rectangle, T)>)
    ensures
        total_area(a + b) == total_area(a) + total_area(b),
    decreases b.len(),
{
    if b.len() == 0 {
        assert(a + b =~= a);
    } else {
        assert((a + b).drop_last() =~= a + b.drop_last());
        lemma_total_area_add(a, b.drop_last());
    }
}

/// The four quadrants of a rectangle have its area between them.
pub proof fn lemma_quadrant_areas(b: Rectangle)
    requires
        b.wf(),
    ensures
        quadrant_bounds(b, Quadrant::SW).area() + quadrant_bounds(b, Quadrant::SE).area()
            + quadrant_bounds(b, Quadrant::NW).area() + quadrant_bounds(b, Quadrant::NE).area()
            == b.area(),
{
    let c = b.spec_center();
    let wl = c.x - b.min.x;
    let wr = b.max.x - c.x;
    let hl = c.y - b.min.y;
    let hr = b.max.y - c.y;
    assert(quadrant_bounds(b, Quadrant::SW).area() == wl * hl);
    assert(quadrant_bounds(b, Quadrant::SE).area() == wr * hl);
    assert(quadrant_bounds(b, Quadrant::NW).area() == wl * hr);
    assert(quadrant_bounds(b, Quadrant::NE).area() == wr * hr);
    assert(b.area() == (wl + wr) * (hl + hr));
    assert((wl + wr) * (hl + hr) == wl * hl + wr * hl + wl * hr + wr * hr) by (nonlinear_arith);
}

/// No two quadrants of a rectangle share more than an edge.
pub proof fn lemma_quadrants_apart(b: Rectangle, p: Quadrant, q: Quadrant)
    requires
        b.wf(),
        p != q,
        p != Quadrant::ROOT,
        q != Quadrant::ROOT,
    ensures
        !quadrant_bounds(b, p).overlaps(quadrant_bounds(b, q)),
{
}

/// Every point of a rectangle lies in one of its quadrants.
pub proof fn lemma_quadrants_cover(b: Rectangle, p: Point2)
    requires
        b.wf(),
        b.spec_contains(p),
    ensures
        quadrant_bounds(b, Quadrant::SW).spec_contains(p) || quadrant_bounds(
            b,
            Quadrant::SE,
        ).spec_contains(p) || quadrant_bounds(b, Quadrant::NW).spec_contains(p) || quadrant_bounds(
            b,
            Quadrant::NE,
        ).spec_contains(p),
{
}

/// The leaf of four lists put together that stands at `i` stands in one of
/// the four.
proof fn lemma_index_of_four<A>(a: Seq<A>, b: Seq<A>, c: Seq<A>, d: Seq<A>, i: int)
    requires
        0 <= i < (a + b + c + d).len(),
    ensures
        (a + b + c + d).len() == a.len() + b.len() + c.len() + d.len(),
        i < a.len() ==> (a + b + c + d)[i] == a[i],
        a.len() <= i < a.len() + b.len() ==> (a + b + c + d)[i] == b[i - a.len()],
        a.len() + b.len() <= i < a.len() + b.len() + c.len() ==> (a + b + c + d)[i] == c[i
            - a.len() - b.len()],
        a.len() + b.len() + c.len() <= i ==> (a + b + c + d)[i] == d[i - a.len() - b.len()
            - c.len()],
{
}

impl<T> QuadTreeNode<T> {
    /// The leaves of a well-formed tree lie within the bounds of its root,
    /// and their bounds are in order.
    pub proof fn lemma_leaves_within(self, i: int)
        requires
            self.wf(),
            0 <= i < self.leaves().len(),
        ensures
            self.leaves()[i].0.wf(),
            self.spec_bounds().encloses(self.leaves()[i].0),
        decreases self,
    {
        match self {
            QuadTreeNode::Leaf { .. } => {},
            QuadTreeNode::Internal { bounds, sw, se, nw, ne } => {
                let (a, b, c, d) = (sw.leaves(), se.leaves(), nw.leaves(), ne.leaves());
                lemma_index_of_four(a, b, c, d, i);
                super::quad_tree::lemma_quadrant_within(bounds, Quadrant::SW);
                super::quad_tree::lemma_quadrant_within(bounds, Quadrant::SE);
                super::quad_tree::lemma_quadrant_within(bounds, Quadrant::NW);
                super::quad_tree::lemma_quadrant_within(bounds, Quadrant::NE);
                if i < a.len() {
                    sw.lemma_leaves_within(i);
                } else if i < a.len() + b.len() {
                    se.lemma_leaves_within(i - a.len());
                } else if i < a.len() + b.len() + c.len() {
                    nw.lemma_leaves_within(i - a.len() - b.len());
                } else {
                    ne.lemma_leaves_within(i - a.len() - b.len() - c.len());
                }
            },
        }
    }

    /// No gaps: every point within the bounds of a well-formed tree lies in
    /// one of its leaves.
    pub proof fn lemma_leaves_cover(self, p: Point2) -> (i: int)
        requires
            self.wf(),
            self.spec_bounds().spec_contains(p),
        ensures
            0 <= i < self.leaves().len(),
            self.leaves()[i].0.spec_contains(p),
        decreases self,
    {
        match self {
            QuadTreeNode::Leaf { .. } => 0,
            QuadTreeNode::Internal { bounds, sw, se, nw, ne } => {
                let (a, b, c, d) = (sw.leaves(), se.leaves(), nw.leaves(), ne.leaves());
                lemma_quadrants_cover(bounds, p);
                if sw.spec_bounds().spec_contains(p) {
                    let k = sw.lemma_leaves_cover(p);
                    lemma_index_of_four(a, b, c, d, k);
                    k
                } else if se.spec_bounds().spec_contains(p) {
                    let k = se.lemma_leaves_cover(p);
                    lemma_index_of_four(a, b, c, d, a.len() + k);
                    a.len() + k
                } else if nw.spec_bounds().spec_contains(p) {
                    let k = nw.lemma_leaves_cover(p);
                    lemma_index_of_four(a, b, c, d, a.len() + b.len() + k);
                    a.len() + b.len() + k
                } else {
                    let k = ne.lemma_leaves_cover(p);
                    lemma_index_of_four(a, b, c, d, a.len() + b.len() + c.len() + k);
                    a.len() + b.len() + c.len() + k
                }
            },
        }
    }

    /// No overlaps: two different leaves of a well-formed tree share no more
    /// than an edge.
    pub proof fn lemma_leaves_apart(self, i: int, j: int)
        requires
            self.wf(),
            0 <= i < j < self.leaves().len(),
        ensures
            !self.leaves()[i].0.overlaps(self.leaves()[j].0),
        decreases self,
    {
        match self {
            QuadTreeNode::Leaf { .. } => {},
            QuadTreeNode::Internal { bounds, sw, se, nw, ne } => {
                let (a, b, c, d) = (sw.leaves(), se.leaves(), nw.leaves(), ne.leaves());
                lemma_index_of_four(a, b, c, d, i);
                lemma_index_of_four(a, b, c, d, j);
                let (n1, n2, n3) = (a.len() as int, a.len() + b.len(), a.len() + b.len() + c.len());
                // The child that holds the leaf and the place of the leaf in it.
                let part_i: int = if i < n1 { 0 } else if i < n2 { 1 } else if i < n3 { 2 } else { 3 };
                let part_j: int = if j < n1 { 0 } else if j < n2 { 1 } else if j < n3 { 2 } else { 3 };
                let at_i = if part_i == 0 { i } else if part_i == 1 { i - n1 } else if part_i == 2 { i - n2 } else { i - n3 };
                let at_j = if part_j == 0 { j } else if part_j == 1 { j - n1 } else if part_j == 2 { j - n2 } else { j - n3 };
                let child_i = if part_i == 0 { *sw } else if part_i == 1 { *se } else if part_i == 2 { *nw } else { *ne };
                let child_j = if part_j == 0 { *sw } else if part_j == 1 { *se } else if part_j == 2 { *nw } else { *ne };
                if part_i == part_j {
                    child_i.lemma_leaves_apart(at_i, at_j);
                } else {
                    child_i.lemma_leaves_within(at_i);
                    child_j.lemma_leaves_within(at_j);
                    let q_i = if part_i == 0 { Quadrant::SW } else if part_i == 1 { Quadrant::SE } else if part_i == 2 { Quadrant::NW } else { Quadrant::NE };
                    let q_j = if part_j == 0 { Quadrant::SW } else if part_j == 1 { Quadrant::SE } else if part_j == 2 { Quadrant::NW } else { Quadrant::NE };
                    lemma_quadrants_apart(bounds, q_i, q_j);
                }
            },
        }
    }

    /// The areas of the leaves of a well-formed tree add up to the area of
    /// the bounds of its root.
    pub proof fn lemma_leaves_area(self)
        requires
            self.wf(),
        ensures
            total_area(self.leaves()) == self.spec_bounds().area(),
        decreases self,
    {
        match self {
            QuadTreeNode::Leaf { bounds, data } => {
                assert(self.leaves().drop_last() =~= Seq::<(Rectangle, T)>::empty());
                assert(total_area(self.leaves().drop_last()) == 0);
            },
            QuadTreeNode::Internal { bounds, sw, se, nw, ne } => {
                sw.lemma_leaves_area();
                se.lemma_leaves_area();
                nw.lemma_leaves_area();
                ne.lemma_leaves_area();
                lemma_total_area_add(sw.leaves(), se.leaves());
                lemma_total_area_add(sw.leaves() + se.leaves(), nw.leaves());
                lemma_total_area_add(sw.leaves() + se.leaves() + nw.leaves(), ne.leaves());
                lemma_quadrant_areas(bounds);
            },
        }
    }

    /// A tree whose leaves all lie `depth` levels deep has four to the
    /// power of `depth` leaves.
    pub proof fn lemma_uniform_count(self, depth: nat)
        requires
            self.uniform(depth),
        ensures
            self.leaves().len() == pow(4, depth),
        decreases self,
    {
        reveal(pow);
        match self {
            QuadTreeNode::Leaf { .. } => {},
            QuadTreeNode::Internal { bounds, sw, se, nw, ne } => {
                sw.lemma_uniform_count((depth - 1) as nat);
                se.lemma_uniform_count((depth - 1) as nat);
                nw.lemma_uniform_count((depth - 1) as nat);
                ne.lemma_uniform_count((depth - 1) as nat);
            },
        }
    }

    /// A leaf that was subdivided `depth` levels deep everywhere is a tree
    /// with the bounds of the leaf whose leaves all lie `depth` levels deep,
    /// and it is well formed if the bounds of the leaf were in order and on
    /// the grid of two to the power of `depth` steps.
    pub proof fn lemma_filled_is_uniform(
        bounds: Rectangle,
        data: T,
        after: Self,
        level: usize,
        depth: nat,
        made: spec_fn(Quadrant, usize, Rectangle, T, T) -> bool,
    )
        requires
            Self::filled_from(bounds, data, after, level, depth, made),
        ensures
            after.uniform(depth),
            after.spec_bounds() == bounds,
            bounds.wf() && bounds.on_grid(depth) ==> after.wf(),
        decreases depth,
    {
        if depth > 0 {
            if bounds.on_grid(depth) {
                lemma_quadrant_on_grid(bounds, Quadrant::SW, depth);
            }
            match after {
                QuadTreeNode::Internal { sw, se, nw, ne, .. } => {
                    Self::lemma_filled_child(Quadrant::SW, bounds, data, *sw, level, depth, made);
                    Self::lemma_filled_child(Quadrant::SE, bounds, data, *se, level, depth, made);
                    Self::lemma_filled_child(Quadrant::NW, bounds, data, *nw, level, depth, made);
                    Self::lemma_filled_child(Quadrant::NE, bounds, data, *ne, level, depth, made);
                },
                QuadTreeNode::Leaf { .. } => {},
            }
        }
    }

    proof fn lemma_filled_child(
        q: Quadrant,
        bounds: Rectangle,
        data: T,
        after: Self,
        level: usize,
        depth: nat,
        made: spec_fn(Quadrant, usize, Rectangle, T, T) -> bool,
    )
        requires
            Self::filled_from_child(q, bounds, data, after, level, depth, made),
        ensures
            after.uniform((depth - 1) as nat),
            after.spec_bounds() == quadrant_bounds(bounds, q),
            bounds.wf() && bounds.on_grid(depth) ==> after.wf(),
        decreases depth, 0nat,
    {
        let d = choose|d: T| #[trigger]
            made(q, level, quadrant_bounds(bounds, q), data, d) && Self::filled_from(
                quadrant_bounds(bounds, q),
                d,
                after,
                (level + 1) as usize,
                (depth - 1) as nat,
                made,
            );
        Self::lemma_filled_is_uniform(
            quadrant_bounds(bounds, q),
            d,
            after,
            (level + 1) as usize,
            (depth - 1) as nat,
            made,
        );
        if bounds.wf() {
            super::quad_tree::lemma_quadrant_within(bounds, q);
        }
        if bounds.on_grid(depth) {
            lemma_quadrant_on_grid(bounds, q, depth);
        }
    }

    /// How many levels below this node each leaf lies, in the order of the
    /// leaves.
    pub open spec fn leaf_depths(self) -> Seq<nat>
        decreases self,
    {
        match self {
            QuadTreeNode::Leaf { .. } => seq![0nat],
            QuadTreeNode::Internal { sw, se, nw, ne, .. } => (sw.leaf_depths() + se.leaf_depths()
                + nw.leaf_depths() + ne.leaf_depths()).map_values(|d: nat| d + 1),
        }
    }

    /// Every leaf has a depth.
    pub proof fn lemma_leaf_depths_len(self)
        ensures
            self.leaf_depths().len() == self.leaves().len(),
        decreases self,
    {
        match self {
            QuadTreeNode::Leaf { .. } => {},
            QuadTreeNode::Internal { sw, se, nw, ne, .. } => {
                sw.lemma_leaf_depths_len();
                se.lemma_leaf_depths_len();
                nw.lemma_leaf_depths_len();
                ne.lemma_leaf_depths_len();
            },
        }
    }

    /// A leaf `k` levels deep has the sides of the root divided by two to
    /// the power of `k`: in a well-formed tree every level halves width and
    /// height exactly.
    pub proof fn lemma_leaf_sizes(self, i: int)
        requires
            self.wf(),
            0 <= i < self.leaves().len(),
        ensures
            self.leaf_depths().len() == self.leaves().len(),
            self.leaves()[i].0.spec_width() * pow2(self.leaf_depths()[i])
                == self.spec_bounds().spec_width(),
            self.leaves()[i].0.spec_height() * pow2(self.leaf_depths()[i])
                == self.spec_bounds().spec_height(),
        decreases self,
    {
        self.lemma_leaf_depths_len();
        match self {
            QuadTreeNode::Leaf { bounds, .. } => {
                vstd::arithmetic::power2::lemma2_to64();
                assert(self.leaf_depths()[0] == 0);
                assert(self.leaves()[0].0 == bounds);
                assert(bounds.spec_width() * pow2(0) == bounds.spec_width() && bounds.spec_height()
                    * pow2(0) == bounds.spec_height()) by (nonlinear_arith)
                    requires
                        pow2(0) == 1,
                ;
            },
            QuadTreeNode::Internal { bounds, sw, se, nw, ne } => {
                let (a, b, c, d) = (sw.leaves(), se.leaves(), nw.leaves(), ne.leaves());
                let (da, db, dc, dd) = (
                    sw.leaf_depths(),
                    se.leaf_depths(),
                    nw.leaf_depths(),
                    ne.leaf_depths(),
                );
                sw.lemma_leaf_depths_len();
                se.lemma_leaf_depths_len();
                nw.lemma_leaf_depths_len();
                ne.lemma_leaf_depths_len();
                lemma_index_of_four(a, b, c, d, i);
                lemma_index_of_four(da, db, dc, dd, i);
                let (child, k, q) = if i < a.len() {
                    (*sw, i, Quadrant::SW)
                } else if i < a.len() + b.len() {
                    (*se, i - a.len(), Quadrant::SE)
                } else if i < a.len() + b.len() + c.len() {
                    (*nw, i - a.len() - b.len(), Quadrant::NW)
                } else {
                    (*ne, i - a.len() - b.len() - c.len(), Quadrant::NE)
                };
                child.lemma_leaf_sizes(k);
                lemma_quadrant_half(bounds, q);
                let below = child.leaf_depths()[k];
                assert(self.leaf_depths()[i] == below + 1);
                lemma_pow2_unfold(below + 1);
                let leaf = self.leaves()[i].0;
                assert(leaf == child.leaves()[k].0);
                let p = pow2(below) as int;
                assert(leaf.spec_width() * (2 * p) == 2 * (leaf.spec_width() * p)) by (nonlinear_arith);
                assert(leaf.spec_height() * (2 * p) == 2 * (leaf.spec_height() * p)) by (nonlinear_arith);
            },
        }
    }

    /// Every level halves the sides exactly: in a well-formed tree whose
    /// leaves all lie `depth` levels deep, every leaf is as wide as the
    /// root divided by two to the power of `depth`, and as high.
    pub proof fn lemma_uniform_sizes(self, depth: nat, i: int)
        requires
            self.wf(),
            self.uniform(depth),
            0 <= i < self.leaves().len(),
        ensures
            self.leaves()[i].0.spec_width() * pow2(depth) == self.spec_bounds().spec_width(),
            self.leaves()[i].0.spec_height() * pow2(depth) == self.spec_bounds().spec_height(),
        decreases self,
    {
        match self {
            QuadTreeNode::Leaf { .. } => {
                vstd::arithmetic::power2::lemma2_to64();
            },
            QuadTreeNode::Internal { bounds, sw, se, nw, ne } => {
                let (a, b, c, d) = (sw.leaves(), se.leaves(), nw.leaves(), ne.leaves());
                lemma_index_of_four(a, b, c, d, i);
                let (child, k, q) = if i < a.len() {
                    (*sw, i, Quadrant::SW)
                } else if i < a.len() + b.len() {
                    (*se, i - a.len(), Quadrant::SE)
                } else if i < a.len() + b.len() + c.len() {
                    (*nw, i - a.len() - b.len(), Quadrant::NW)
                } else {
                    (*ne, i - a.len() - b.len() - c.len(), Quadrant::NE)
                };
                child.lemma_uniform_sizes((depth - 1) as nat, k);
                lemma_quadrant_half(bounds, q);
                lemma_pow2_unfold(depth);
                let leaf = self.leaves()[i].0;
                assert(leaf == child.leaves()[k].0);
                let p = pow2((depth - 1) as nat) as int;
                assert(leaf.spec_width() * (2 * p) == 2 * (leaf.spec_width() * p)) by (nonlinear_arith);
                assert(leaf.spec_height() * (2 * p) == 2 * (leaf.spec_height() * p)) by (nonlinear_arith);
            },
        }
    }

    /// What all leaves of a tree satisfy, the leaf at `i` satisfies.
    pub proof fn lemma_leaf_satisfies(self, inv: spec_fn(Rectangle, T) -> bool, i: int)
        requires
            self.leaves_satisfy(inv),
            0 <= i < self.leaves().len(),
        ensures
            inv(self.leaves()[i].0, self.leaves()[i].1),
        decreases self,
    {
        match self {
            QuadTreeNode::Leaf { .. } => {},
            QuadTreeNode::Internal { sw, se, nw, ne, .. } => {
                let (a, b, c, d) = (sw.leaves(), se.leaves(), nw.leaves(), ne.leaves());
                lemma_index_of_four(a, b, c, d, i);
                if i < a.len() {
                    sw.lemma_leaf_satisfies(inv, i);
                } else if i < a.len() + b.len() {
                    se.lemma_leaf_satisfies(inv, i - a.len());
                } else if i < a.len() + b.len() + c.len() {
                    nw.lemma_leaf_satisfies(inv, i - a.len() - b.len());
                } else {
                    ne.lemma_leaf_satisfies(inv, i - a.len() - b.len() - c.len());
                }
            },
        }
    }

    /// The leaves of a well-formed tree tile the bounds of its root: they
    /// lie within them, no two of them share more than an edge, together
    /// they have the area of the bounds, and every point of the bounds lies
    /// in one of them.
    pub proof fn lemma_leaves_tile(self)
        requires
            self.wf(),
        ensures
            forall|i: int|
                0 <= i < self.leaves().len() ==> self.spec_bounds().encloses(
                    (#[trigger] self.leaves()[i]).0,
                ),
            forall|i: int, j: int|
                0 <= i < j < self.leaves().len() ==> !(#[trigger] self.leaves()[i]).0.overlaps(
                    (#[trigger] self.leaves()[j]).0,
                ),
            total_area(self.leaves()) == self.spec_bounds().area(),
            forall|p: Point2|
                self.spec_bounds().spec_contains(p) ==> exists|i: int|
                    0 <= i < self.leaves().len() && (#[trigger] self.leaves()[i]).0.spec_contains(
                        p,
                    ),
    {
        self.lemma_leaves_area();
        assert forall|i: int| 0 <= i < self.leaves().len() implies self.spec_bounds().encloses(
            (#[trigger] self.leaves()[i]).0,
        ) by {
            self.lemma_leaves_within(i);
        }
        assert forall|i: int, j: int| 0 <= i < j < self.leaves().len() implies !(
        #[trigger] self.leaves()[i]).0.overlaps((#[trigger] self.leaves()[j]).0) by {
            self.lemma_leaves_apart(i, j);
        }
        assert forall|p: Point2| self.spec_bounds().spec_contains(p) implies exists|i: int|
            0 <= i < self.leaves().len() && (#[trigger] self.leaves()[i]).0.spec_contains(p) by {
            let i = self.lemma_leaves_cover(p);
            assert(self.leaves()[i].0.spec_contains(p));
        }
    }

    /// Subdividing a leaf `depth` levels deep everywhere gives four to the
    /// power of `depth` leaves, each as wide and as high as the leaf divided
    /// by two to the power of `depth`, which tile the bounds of the leaf:
    /// they lie within them, no two of them share more than an edge, and
    /// together they have the area of the bounds and leave no point of them
    /// out.
    pub proof fn lemma_filled_tiles(
        bounds: Rectangle,
        data: T,
        after: Self,
        level: usize,
        depth: nat,
        made: spec_fn(Quadrant, usize, Rectangle, T, T) -> bool,
    )
        requires
            bounds.wf(),
            bounds.on_grid(depth),
            Self::filled_from(bounds, data, after, level, depth, made),
        ensures
            after.leaves().len() == pow(4, depth),
            forall|i: int|
                0 <= i < after.leaves().len() ==> (#[trigger] after.leaves()[i]).0.spec_width()
                    * pow2(depth) == bounds.spec_width() && after.leaves()[i].0.spec_height()
                    * pow2(depth) == bounds.spec_height(),
            forall|i: int|
                0 <= i < after.leaves().len() ==> bounds.encloses((#[trigger] after.leaves()[i]).0),
            forall|i: int, j: int|
                0 <= i < j < after.leaves().len() ==> !(#[trigger] after.leaves()[i]).0.overlaps(
                    (#[trigger] after.leaves()[j]).0,
                ),
            total_area(after.leaves()) == bounds.area(),
            forall|p: Point2|
                bounds.spec_contains(p) ==> exists|i: int|
                    0 <= i < after.leaves().len() && (#[trigger] after.leaves()[i]).0.spec_contains(
                        p,
                    ),
    {
        Self::lemma_filled_is_uniform(bounds, data, after, level, depth, made);
        after.lemma_uniform_count(depth);
        after.lemma_leaves_tile();
        assert forall|i: int| 0 <= i < after.leaves().len() implies (
        #[trigger] after.leaves()[i]).0.spec_width() * pow2(depth) == bounds.spec_width()
            && after.leaves()[i].0.spec_height() * pow2(depth) == bounds.spec_height() by {
            after.lemma_uniform_sizes(depth, i);
        }
    }
}

} // verus!
