use vstd::prelude::*;

use super::quad_tree::{quadrant_bounds, QuadTreeNode, Quadrant};
use super::rect::{Point2, Rectangle};

verus! {

/// The predicate gives one answer for every leaf.
pub open spec fn single_answer<T>(stop: spec_fn(Rectangle, T, bool) -> bool) -> bool {
    forall|b: Rectangle, d: T| !(#[trigger] stop(b, d, true) && stop(b, d, false))
}

/// The constructor gives every child one value.
pub open spec fn single_value<T>(made: spec_fn(Quadrant, Rectangle, T, T) -> bool) -> bool {
    forall|q: Quadrant, b: Rectangle, p: T, c1: T, c2: T|
        #[trigger] made(q, b, p, c1) && #[trigger] made(q, b, p, c2) ==> c1 == c2
}

/// Wherever `near` may stop, `far` does not go on: a leaf that refinement
/// under `near` can leave as it is, is never subdivided under `far`.
pub open spec fn stops_no_later<T>(
    far: spec_fn(Rectangle, T, bool) -> bool,
    near: spec_fn(Rectangle, T, bool) -> bool,
) -> bool {
    forall|b: Rectangle, d: T| #[trigger] near(b, d, true) ==> !far(b, d, false)
}

/// The constructor hands `inv` on: what it makes for the child of a leaf
/// whose bounds and data satisfy `inv`, satisfies `inv` with the bounds of
/// the child.
pub open spec fn handed_on<T>(
    inv: spec_fn(Rectangle, T) -> bool,
    made: spec_fn(Quadrant, Rectangle, T, T) -> bool,
) -> bool {
    forall|q: Quadrant, b: Rectangle, d: T, c: T|
        inv(b, d) && #[trigger] made(q, quadrant_bounds(b, q), d, c) ==> inv(
            quadrant_bounds(b, q),
            c,
        )
}

/// On the cells that cover `p` and whose data satisfy `inv`: wherever `near`
/// may stop, `far` does not go on.
pub open spec fn stops_no_later_at<T>(
    far: spec_fn(Rectangle, T, bool) -> bool,
    near: spec_fn(Rectangle, T, bool) -> bool,
    inv: spec_fn(Rectangle, T) -> bool,
    p: Point2,
) -> bool {
    forall|b: Rectangle, d: T|
        b.spec_contains(p) && inv(b, d) && #[trigger] near(b, d, true) ==> !far(b, d, false)
}

impl<T> QuadTreeNode<T> {
    /// `self` is `coarse` or a refinement of it: where `coarse` has a leaf,
    /// `self` has a leaf or a subtree over the same bounds, and where
    /// `coarse` has an internal node, so has `self`, with the same bounds
    /// and children that are at least as fine.
    pub open spec fn at_least_as_fine_as(self, coarse: Self) -> bool
        decreases coarse,
    {
        match coarse {
            QuadTreeNode::Leaf { bounds, .. } => self.spec_bounds() == bounds,
            QuadTreeNode::Internal { bounds, sw, se, nw, ne } => {
                &&& self matches QuadTreeNode::Internal {
                    bounds: b2,
                    sw: sw2,
                    se: se2,
                    nw: nw2,
                    ne: ne2,
                }
                &&& b2 == bounds
                &&& sw2.at_least_as_fine_as(*sw)
                &&& se2.at_least_as_fine_as(*se)
                &&& nw2.at_least_as_fine_as(*nw)
                &&& ne2.at_least_as_fine_as(*ne)
            },
        }
    }

    /// How deep the leaf lies that covers the point `p`. Where several
    /// leaves share the point, on an edge, this is the first of them in the
    /// order of the leaves; a point outside every child counts as covered at
    /// the node itself.
    pub open spec fn depth_at(self, p: Point2) -> nat
        decreases self,
    {
        match self {
            QuadTreeNode::Leaf { .. } => 0,
            QuadTreeNode::Internal { sw, se, nw, ne, .. } => {
                if sw.spec_bounds().spec_contains(p) {
                    1 + sw.depth_at(p)
                } else if se.spec_bounds().spec_contains(p) {
                    1 + se.depth_at(p)
                } else if nw.spec_bounds().spec_contains(p) {
                    1 + nw.depth_at(p)
                } else if ne.spec_bounds().spec_contains(p) {
                    1 + ne.depth_at(p)
                } else {
                    0
                }
            },
        }
    }

    /// Refinement changes no bounds: the tree that grows from a node has the
    /// bounds of the node.
    pub proof fn lemma_grows_to_bounds(
        before: Self,
        after: Self,
        stop: spec_fn(Rectangle, T, bool) -> bool,
        made: spec_fn(Quadrant, Rectangle, T, T) -> bool,
    )
        requires
            Self::grows_to(before, after, stop, made),
        ensures
            after.spec_bounds() == before.spec_bounds(),
    {
    }

    /// Refinement is determined by its predicate and its constructor: where
    /// these give one answer each, two trees that grow from the same tree
    /// are the same tree.
    pub proof fn lemma_grows_to_unique(
        before: Self,
        first: Self,
        second: Self,
        stop: spec_fn(Rectangle, T, bool) -> bool,
        made: spec_fn(Quadrant, Rectangle, T, T) -> bool,
    )
        requires
            single_answer(stop),
            single_value(made),
            Self::grows_to(before, first, stop, made),
            Self::grows_to(before, second, stop, made),
        ensures
            first == second,
        decreases first, 0nat,
    {
        match before {
            QuadTreeNode::Internal { bounds, sw, se, nw, ne } => {
                match (first, second) {
                    (
                        QuadTreeNode::Internal { sw: a1, se: a2, nw: a3, ne: a4, .. },
                        QuadTreeNode::Internal { sw: b1, se: b2, nw: b3, ne: b4, .. },
                    ) => {
                        Self::lemma_grows_to_unique(*sw, *a1, *b1, stop, made);
                        Self::lemma_grows_to_unique(*se, *a2, *b2, stop, made);
                        Self::lemma_grows_to_unique(*nw, *a3, *b3, stop, made);
                        Self::lemma_grows_to_unique(*ne, *a4, *b4, stop, made);
                    },
                    _ => {},
                }
            },
            QuadTreeNode::Leaf { bounds, data } => {
                assert(!(stop(bounds, data, true) && stop(bounds, data, false)));
                if stop(bounds, data, true) {
                } else {
                    match (first, second) {
                        (
                            QuadTreeNode::Internal { sw: a1, se: a2, nw: a3, ne: a4, .. },
                            QuadTreeNode::Internal { sw: b1, se: b2, nw: b3, ne: b4, .. },
                        ) => {
                            Self::lemma_child_unique(Quadrant::SW, bounds, data, *a1, *b1, stop, made);
                            Self::lemma_child_unique(Quadrant::SE, bounds, data, *a2, *b2, stop, made);
                            Self::lemma_child_unique(Quadrant::NW, bounds, data, *a3, *b3, stop, made);
                            Self::lemma_child_unique(Quadrant::NE, bounds, data, *a4, *b4, stop, made);
                        },
                        _ => {},
                    }
                }
            },
        }
    }

    proof fn lemma_child_unique(
        q: Quadrant,
        bounds: Rectangle,
        data: T,
        first: Self,
        second: Self,
        stop: spec_fn(Rectangle, T, bool) -> bool,
        made: spec_fn(Quadrant, Rectangle, T, T) -> bool,
    )
        requires
            single_answer(stop),
            single_value(made),
            Self::grows_from_child(q, bounds, data, first, stop, made),
            Self::grows_from_child(q, bounds, data, second, stop, made),
        ensures
            first == second,
        decreases first, 1nat,
    {
        let qb = quadrant_bounds(bounds, q);
        let d1 = choose|d: T| #[trigger]
            made(q, qb, data, d) && Self::grows_to(
                QuadTreeNode::Leaf { bounds: qb, data: d },
                first,
                stop,
                made,
            );
        let d2 = choose|d: T| #[trigger]
            made(q, qb, data, d) && Self::grows_to(
                QuadTreeNode::Leaf { bounds: qb, data: d },
                second,
                stop,
                made,
            );
        assert(d1 == d2);
        Self::lemma_grows_to_unique(
            QuadTreeNode::Leaf { bounds: qb, data: d1 },
            first,
            second,
            stop,
            made,
        );
    }

    /// Refinement is monotone in its predicate: of two trees that grow from
    /// the same tree with the same constructor, the one whose predicate
    /// stops no later is the coarser one.
    pub proof fn lemma_grows_to_monotone(
        before: Self,
        fine: Self,
        coarse: Self,
        near: spec_fn(Rectangle, T, bool) -> bool,
        far: spec_fn(Rectangle, T, bool) -> bool,
        made: spec_fn(Quadrant, Rectangle, T, T) -> bool,
    )
        requires
            single_value(made),
            stops_no_later(far, near),
            Self::grows_to(before, fine, near, made),
            Self::grows_to(before, coarse, far, made),
        ensures
            fine.at_least_as_fine_as(coarse),
        decreases coarse, 0nat,
    {
        match before {
            QuadTreeNode::Internal { bounds, sw, se, nw, ne } => {
                match (fine, coarse) {
                    (
                        QuadTreeNode::Internal { sw: a1, se: a2, nw: a3, ne: a4, .. },
                        QuadTreeNode::Internal { sw: b1, se: b2, nw: b3, ne: b4, .. },
                    ) => {
                        Self::lemma_grows_to_monotone(*sw, *a1, *b1, near, far, made);
                        Self::lemma_grows_to_monotone(*se, *a2, *b2, near, far, made);
                        Self::lemma_grows_to_monotone(*nw, *a3, *b3, near, far, made);
                        Self::lemma_grows_to_monotone(*ne, *a4, *b4, near, far, made);
                    },
                    _ => {},
                }
            },
            QuadTreeNode::Leaf { bounds, data } => {
                Self::lemma_grows_to_bounds(before, fine, near, made);
                if coarse == before && far(bounds, data, true) {
                } else {
                    assert(far(bounds, data, false));
                    assert(!near(bounds, data, true));
                    match (fine, coarse) {
                        (
                            QuadTreeNode::Internal { sw: a1, se: a2, nw: a3, ne: a4, .. },
                            QuadTreeNode::Internal { sw: b1, se: b2, nw: b3, ne: b4, .. },
                        ) => {
                            Self::lemma_child_monotone(Quadrant::SW, bounds, data, *a1, *b1, near, far, made);
                            Self::lemma_child_monotone(Quadrant::SE, bounds, data, *a2, *b2, near, far, made);
                            Self::lemma_child_monotone(Quadrant::NW, bounds, data, *a3, *b3, near, far, made);
                            Self::lemma_child_monotone(Quadrant::NE, bounds, data, *a4, *b4, near, far, made);
                        },
                        _ => {},
                    }
                }
            },
        }
    }

    proof fn lemma_child_monotone(
        q: Quadrant,
        bounds: Rectangle,
        data: T,
        fine: Self,
        coarse: Self,
        near: spec_fn(Rectangle, T, bool) -> bool,
        far: spec_fn(Rectangle, T, bool) -> bool,
        made: spec_fn(Quadrant, Rectangle, T, T) -> bool,
    )
        requires
            single_value(made),
            stops_no_later(far, near),
            Self::grows_from_child(q, bounds, data, fine, near, made),
            Self::grows_from_child(q, bounds, data, coarse, far, made),
        ensures
            fine.at_least_as_fine_as(coarse),
        decreases coarse, 1nat,
    {
        let qb = quadrant_bounds(bounds, q);
        let d1 = choose|d: T| #[trigger]
            made(q, qb, data, d) && Self::grows_to(
                QuadTreeNode::Leaf { bounds: qb, data: d },
                fine,
                near,
                made,
            );
        let d2 = choose|d: T| #[trigger]
            made(q, qb, data, d) && Self::grows_to(
                QuadTreeNode::Leaf { bounds: qb, data: d },
                coarse,
                far,
                made,
            );
        assert(d1 == d2);
        Self::lemma_grows_to_monotone(
            QuadTreeNode::Leaf { bounds: qb, data: d1 },
            fine,
            coarse,
            near,
            far,
            made,
        );
    }

    /// Refinement ends only where the predicate accepts: every leaf of a
    /// tree that has grown from another is a leaf that the predicate may
    /// accept.
    pub proof fn lemma_grown_leaves_are_accepted(
        before: Self,
        after: Self,
        stop: spec_fn(Rectangle, T, bool) -> bool,
        made: spec_fn(Quadrant, Rectangle, T, T) -> bool,
        i: int,
    )
        requires
            Self::grows_to(before, after, stop, made),
            0 <= i < after.leaves().len(),
        ensures
            stop(after.leaves()[i].0, after.leaves()[i].1, true),
        decreases after, 0nat,
    {
        match after {
            QuadTreeNode::Leaf { .. } => {},
            QuadTreeNode::Internal { sw, se, nw, ne, .. } => {
                let (a, b, c, d) = (sw.leaves(), se.leaves(), nw.leaves(), ne.leaves());
                assert((a + b + c + d).len() == a.len() + b.len() + c.len() + d.len());
                let (child, k, q) = if i < a.len() {
                    (*sw, i, Quadrant::SW)
                } else if i < a.len() + b.len() {
                    (*se, i - a.len(), Quadrant::SE)
                } else if i < a.len() + b.len() + c.len() {
                    (*nw, i - a.len() - b.len(), Quadrant::NW)
                } else {
                    (*ne, i - a.len() - b.len() - c.len(), Quadrant::NE)
                };
                assert(after.leaves()[i] == child.leaves()[k]);
                match before {
                    QuadTreeNode::Internal { sw: b1, se: b2, nw: b3, ne: b4, .. } => {
                        let from = if q == Quadrant::SW {
                            *b1
                        } else if q == Quadrant::SE {
                            *b2
                        } else if q == Quadrant::NW {
                            *b3
                        } else {
                            *b4
                        };
                        Self::lemma_grown_leaves_are_accepted(from, child, stop, made, k);
                    },
                    QuadTreeNode::Leaf { bounds, data } => {
                        Self::lemma_grown_child_leaves_are_accepted(
                            q,
                            bounds,
                            data,
                            child,
                            stop,
                            made,
                            k,
                        );
                    },
                }
            },
        }
    }

    proof fn lemma_grown_child_leaves_are_accepted(
        q: Quadrant,
        bounds: Rectangle,
        data: T,
        after: Self,
        stop: spec_fn(Rectangle, T, bool) -> bool,
        made: spec_fn(Quadrant, Rectangle, T, T) -> bool,
        i: int,
    )
        requires
            Self::grows_from_child(q, bounds, data, after, stop, made),
            0 <= i < after.leaves().len(),
        ensures
            stop(after.leaves()[i].0, after.leaves()[i].1, true),
        decreases after, 1nat,
    {
        let qb = quadrant_bounds(bounds, q);
        let d = choose|d: T| #[trigger]
            made(q, qb, data, d) && Self::grows_to(
                QuadTreeNode::Leaf { bounds: qb, data: d },
                after,
                stop,
                made,
            );
        Self::lemma_grown_leaves_are_accepted(
            QuadTreeNode::Leaf { bounds: qb, data: d },
            after,
            stop,
            made,
            i,
        );
    }

    /// In a tree that is at least as fine as another, the leaf that covers
    /// a point lies at least as deep as in the other.
    pub proof fn lemma_finer_is_deeper(self, coarse: Self, p: Point2)
        requires
            self.at_least_as_fine_as(coarse),
        ensures
            self.depth_at(p) >= coarse.depth_at(p),
        decreases coarse,
    {
        match coarse {
            QuadTreeNode::Leaf { .. } => {},
            QuadTreeNode::Internal { sw, se, nw, ne, .. } => {
                match self {
                    QuadTreeNode::Internal { sw: a1, se: a2, nw: a3, ne: a4, .. } => {
                        a1.lemma_finer_bounds(*sw);
                        a2.lemma_finer_bounds(*se);
                        a3.lemma_finer_bounds(*nw);
                        a4.lemma_finer_bounds(*ne);
                        a1.lemma_finer_is_deeper(*sw, p);
                        a2.lemma_finer_is_deeper(*se, p);
                        a3.lemma_finer_is_deeper(*nw, p);
                        a4.lemma_finer_is_deeper(*ne, p);
                    },
                    QuadTreeNode::Leaf { .. } => {},
                }
            },
        }
    }

    /// A tree that is at least as fine as another has the same bounds.
    pub proof fn lemma_finer_bounds(self, coarse: Self)
        requires
            self.at_least_as_fine_as(coarse),
        ensures
            self.spec_bounds() == coarse.spec_bounds(),
    {
    }

    /// Refinement is monotone at a point: of two trees that grow from the
    /// same well-formed tree with the same constructor, the leaf that
    /// covers `p` lies at least as deep in the one whose predicate stops no
    /// earlier on the cells that cover `p`. Only cells whose data satisfy
    /// `inv` count, a property that the leaves hold at the start and that
    /// the constructor hands on.
    pub proof fn lemma_grows_to_deeper_at(
        before: Self,
        fine: Self,
        coarse: Self,
        near: spec_fn(Rectangle, T, bool) -> bool,
        far: spec_fn(Rectangle, T, bool) -> bool,
        made: spec_fn(Quadrant, Rectangle, T, T) -> bool,
        inv: spec_fn(Rectangle, T) -> bool,
        p: Point2,
    )
        requires
            single_value(made),
            handed_on(inv, made),
            stops_no_later_at(far, near, inv, p),
            before.wf(),
            before.leaves_satisfy(inv),
            Self::grows_to(before, fine, near, made),
            Self::grows_to(before, coarse, far, made),
        ensures
            fine.depth_at(p) >= coarse.depth_at(p),
        decreases coarse, 0nat,
    {
        match before {
            QuadTreeNode::Internal { bounds, sw, se, nw, ne } => {
                match (fine, coarse) {
                    (
                        QuadTreeNode::Internal { sw: a1, se: a2, nw: a3, ne: a4, .. },
                        QuadTreeNode::Internal { sw: b1, se: b2, nw: b3, ne: b4, .. },
                    ) => {
                        Self::lemma_grows_to_bounds(*sw, *a1, near, made);
                        Self::lemma_grows_to_bounds(*se, *a2, near, made);
                        Self::lemma_grows_to_bounds(*nw, *a3, near, made);
                        Self::lemma_grows_to_bounds(*ne, *a4, near, made);
                        Self::lemma_grows_to_bounds(*sw, *b1, far, made);
                        Self::lemma_grows_to_bounds(*se, *b2, far, made);
                        Self::lemma_grows_to_bounds(*nw, *b3, far, made);
                        Self::lemma_grows_to_bounds(*ne, *b4, far, made);
                        Self::lemma_grows_to_deeper_at(*sw, *a1, *b1, near, far, made, inv, p);
                        Self::lemma_grows_to_deeper_at(*se, *a2, *b2, near, far, made, inv, p);
                        Self::lemma_grows_to_deeper_at(*nw, *a3, *b3, near, far, made, inv, p);
                        Self::lemma_grows_to_deeper_at(*ne, *a4, *b4, near, far, made, inv, p);
                    },
                    _ => {},
                }
            },
            QuadTreeNode::Leaf { bounds, data } => {
                if coarse == before && far(bounds, data, true) {
                } else {
                    match coarse {
                        QuadTreeNode::Internal { sw: b1, se: b2, nw: b3, ne: b4, .. } => {
                            Self::lemma_child_bounds(Quadrant::SW, bounds, data, *b1, far, made);
                            Self::lemma_child_bounds(Quadrant::SE, bounds, data, *b2, far, made);
                            Self::lemma_child_bounds(Quadrant::NW, bounds, data, *b3, far, made);
                            Self::lemma_child_bounds(Quadrant::NE, bounds, data, *b4, far, made);
                            super::quad_tree::lemma_quadrant_within(bounds, Quadrant::SW);
                            super::quad_tree::lemma_quadrant_within(bounds, Quadrant::SE);
                            super::quad_tree::lemma_quadrant_within(bounds, Quadrant::NW);
                            super::quad_tree::lemma_quadrant_within(bounds, Quadrant::NE);
                            if bounds.spec_contains(p) {
                                assert(far(bounds, data, false));
                                assert(!near(bounds, data, true));
                                match fine {
                                    QuadTreeNode::Internal {
                                        sw: a1,
                                        se: a2,
                                        nw: a3,
                                        ne: a4,
                                        ..
                                    } => {
                                        Self::lemma_child_bounds(Quadrant::SW, bounds, data, *a1, near, made);
                                        Self::lemma_child_bounds(Quadrant::SE, bounds, data, *a2, near, made);
                                        Self::lemma_child_bounds(Quadrant::NW, bounds, data, *a3, near, made);
                                        Self::lemma_child_bounds(Quadrant::NE, bounds, data, *a4, near, made);
                                        Self::lemma_child_deeper_at(Quadrant::SW, bounds, data, *a1, *b1, near, far, made, inv, p);
                                        Self::lemma_child_deeper_at(Quadrant::SE, bounds, data, *a2, *b2, near, far, made, inv, p);
                                        Self::lemma_child_deeper_at(Quadrant::NW, bounds, data, *a3, *b3, near, far, made, inv, p);
                                        Self::lemma_child_deeper_at(Quadrant::NE, bounds, data, *a4, *b4, near, far, made, inv, p);
                                    },
                                    QuadTreeNode::Leaf { .. } => {},
                                }
                            }
                        },
                        QuadTreeNode::Leaf { .. } => {},
                    }
                }
            },
        }
    }

    proof fn lemma_child_bounds(
        q: Quadrant,
        bounds: Rectangle,
        data: T,
        after: Self,
        stop: spec_fn(Rectangle, T, bool) -> bool,
        made: spec_fn(Quadrant, Rectangle, T, T) -> bool,
    )
        requires
            Self::grows_from_child(q, bounds, data, after, stop, made),
        ensures
            after.spec_bounds() == quadrant_bounds(bounds, q),
    {
        let qb = quadrant_bounds(bounds, q);
        let d = choose|d: T| #[trigger]
            made(q, qb, data, d) && Self::grows_to(
                QuadTreeNode::Leaf { bounds: qb, data: d },
                after,
                stop,
                made,
            );
        Self::lemma_grows_to_bounds(QuadTreeNode::Leaf { bounds: qb, data: d }, after, stop, made);
    }

    proof fn lemma_child_deeper_at(
        q: Quadrant,
        bounds: Rectangle,
        data: T,
        fine: Self,
        coarse: Self,
        near: spec_fn(Rectangle, T, bool) -> bool,
        far: spec_fn(Rectangle, T, bool) -> bool,
        made: spec_fn(Quadrant, Rectangle, T, T) -> bool,
        inv: spec_fn(Rectangle, T) -> bool,
        p: Point2,
    )
        requires
            single_value(made),
            handed_on(inv, made),
            stops_no_later_at(far, near, inv, p),
            bounds.wf(),
            inv(bounds, data),
            Self::grows_from_child(q, bounds, data, fine, near, made),
            Self::grows_from_child(q, bounds, data, coarse, far, made),
        ensures
            fine.depth_at(p) >= coarse.depth_at(p),
        decreases coarse, 1nat,
    {
        let qb = quadrant_bounds(bounds, q);
        let d1 = choose|d: T| #[trigger]
            made(q, qb, data, d) && Self::grows_to(
                QuadTreeNode::Leaf { bounds: qb, data: d },
                fine,
                near,
                made,
            );
        let d2 = choose|d: T| #[trigger]
            made(q, qb, data, d) && Self::grows_to(
                QuadTreeNode::Leaf { bounds: qb, data: d },
                coarse,
                far,
                made,
            );
        assert(d1 == d2);
        assert(inv(qb, d1));
        super::quad_tree::lemma_quadrant_within(bounds, q);
        Self::lemma_grows_to_deeper_at(
            QuadTreeNode::Leaf { bounds: qb, data: d1 },
            fine,
            coarse,
            near,
            far,
            made,
            inv,
            p,
        );
    }
}

} // verus!
