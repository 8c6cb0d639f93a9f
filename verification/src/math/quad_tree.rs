use vstd::prelude::*;
use vstd::std_specs::cmp::PartialEqSpec;

use super::rect::{lemma_grid_halves, Point2, Rectangle};

verus! {

/// Position of a node below its parent. `ROOT` marks "no position": it fills
/// the unused slots of a path.
#[derive(Copy, Clone, Debug, PartialEq, Eq, Hash, Structural)]
pub enum Quadrant {
    ROOT,
    SW,
    SE,
    NW,
    NE,
}

impl Quadrant {
    /// The number a quadrant is stored as.
    pub open spec fn code(self) -> u32 {
        match self {
            Quadrant::ROOT => 0,
            Quadrant::SW => 1,
            Quadrant::SE => 2,
            Quadrant::NW => 3,
            Quadrant::NE => 4,
        }
    }

    /// The quadrant stored as `code`; codes above four stand for nothing and
    /// read as `ROOT`.
    pub open spec fn of_code(code: u32) -> Quadrant {
        if code == 1 {
            Quadrant::SW
        } else if code == 2 {
            Quadrant::SE
        } else if code == 3 {
            Quadrant::NW
        } else if code == 4 {
            Quadrant::NE
        } else {
            Quadrant::ROOT
        }
    }

    /// The four children of a node, in the order in which they are visited.
    pub fn all() -> (r: [Quadrant; 4])
        ensures
            r@ == seq![Quadrant::SW, Quadrant::SE, Quadrant::NW, Quadrant::NE],
    {
        let r = [Quadrant::SW, Quadrant::SE, Quadrant::NW, Quadrant::NE];
        assert(r@ =~= seq![Quadrant::SW, Quadrant::SE, Quadrant::NW, Quadrant::NE]);
        r
    }

    /// The number this quadrant is stored as.
    pub fn to_code(self) -> (r: u32)
        ensures
            r == self.code(),
            r <= 4,
    {
        match self {
            Quadrant::ROOT => 0,
            Quadrant::SW => 1,
            Quadrant::SE => 2,
            Quadrant::NW => 3,
            Quadrant::NE => 4,
        }
    }

    /// Reads a stored quadrant back. Only the codes zero to four stand for a
    /// quadrant.
    pub fn from_code(code: u32) -> (r: Quadrant)
        requires
            code <= 4,
        ensures
            r == Quadrant::of_code(code),
            r.code() == code,
    {
        if code == 1 {
            Quadrant::SW
        } else if code == 2 {
            Quadrant::SE
        } else if code == 3 {
            Quadrant::NW
        } else if code == 4 {
            Quadrant::NE
        } else {
            Quadrant::ROOT
        }
    }
}

/// The part of `bounds` that the child at `q` covers: the rectangle between
/// the center of `bounds` and one of its corners. `ROOT` is no child and
/// covers all of it. Where `bounds` halves exactly, every quadrant has
/// exactly half its width and half its height.
pub open spec fn quadrant_bounds(bounds: Rectangle, q: Quadrant) -> Rectangle {
    let c = bounds.spec_center();
    match q {
        Quadrant::ROOT => bounds,
        Quadrant::SW => Rectangle::spec_from_corners(bounds.min, c),
        Quadrant::SE => Rectangle::spec_from_corners(
            Point2 { x: c.x, y: bounds.min.y },
            Point2 { x: bounds.max.x, y: c.y },
        ),
        Quadrant::NW => Rectangle::spec_from_corners(
            Point2 { x: bounds.min.x, y: c.y },
            Point2 { x: c.x, y: bounds.max.y },
        ),
        Quadrant::NE => Rectangle::spec_from_corners(c, bounds.max),
    }
}

/// A quadtree node: either an internal node with four children or a leaf
/// that carries data.
#[derive(Debug)]
pub enum QuadTreeNode<T> {
    Internal {
        bounds: Rectangle,
        sw: Box<QuadTreeNode<T>>,
        se: Box<QuadTreeNode<T>>,
        nw: Box<QuadTreeNode<T>>,
        ne: Box<QuadTreeNode<T>>,
    },
    Leaf { bounds: Rectangle, data: T },
}

/// The larger of two numbers.
pub open spec fn larger(a: nat, b: nat) -> nat {
    if a >= b {
        a
    } else {
        b
    }
}

/// What a predicate decides: `r` is an answer it may give for a leaf with
/// these bounds and this data.
pub open spec fn decided_by<T, P: Fn(&Rectangle, &T) -> bool>(predicate: P) -> spec_fn(
    Rectangle,
    T,
    bool,
) -> bool {
    |b: Rectangle, d: T, r: bool| predicate.ensures((&b, &d), r)
}

/// What a constructor makes: `child` is data it may give the child at `q`
/// with bounds `b` below a leaf that holds `parent`.
pub open spec fn made_by<T, F: Fn(Quadrant, &Rectangle, &T) -> T>(create_data: F) -> spec_fn(
    Quadrant,
    Rectangle,
    T,
    T,
) -> bool {
    |q: Quadrant, b: Rectangle, parent: T, child: T| create_data.ensures((q, &b, &parent), child)
}

/// Child data made by cloning the parent's.
pub open spec fn made_by_clone<T: Clone>() -> spec_fn(Quadrant, Rectangle, T, T) -> bool {
    |q: Quadrant, b: Rectangle, parent: T, child: T| cloned(parent, child)
}

impl<T> QuadTreeNode<T> {
    /// The bounds of this node.
    pub open spec fn spec_bounds(self) -> Rectangle {
        match self {
            QuadTreeNode::Internal { bounds, .. } => bounds,
            QuadTreeNode::Leaf { bounds, .. } => bounds,
        }
    }

    /// The bounds of every node are in order and within the limit, the
    /// bounds of every internal node halve exactly, and its children cover
    /// the four quadrants of its bounds, split at the center.
    pub open spec fn wf(self) -> bool
        decreases self,
    {
        match self {
            QuadTreeNode::Leaf { bounds, .. } => bounds.wf(),
            QuadTreeNode::Internal { bounds, sw, se, nw, ne } => {
                &&& bounds.wf()
                &&& bounds.halves_exactly()
                &&& sw.spec_bounds() == quadrant_bounds(bounds, Quadrant::SW)
                &&& se.spec_bounds() == quadrant_bounds(bounds, Quadrant::SE)
                &&& nw.spec_bounds() == quadrant_bounds(bounds, Quadrant::NW)
                &&& ne.spec_bounds() == quadrant_bounds(bounds, Quadrant::NE)
                &&& sw.wf()
                &&& se.wf()
                &&& nw.wf()
                &&& ne.wf()
            },
        }
    }

    /// The leaves in depth-first order, children visited as SW, SE, NW, NE.
    pub open spec fn leaves(self) -> Seq<(Rectangle, T)>
        decreases self,
    {
        match self {
            QuadTreeNode::Leaf { bounds, data } => seq![(bounds, data)],
            QuadTreeNode::Internal { sw, se, nw, ne, .. } => sw.leaves() + se.leaves()
                + nw.leaves() + ne.leaves(),
        }
    }

    /// The leaf nodes themselves, in the order of `leaves`.
    pub open spec fn leaf_nodes(self) -> Seq<Self>
        decreases self,
    {
        match self {
            QuadTreeNode::Leaf { .. } => seq![self],
            QuadTreeNode::Internal { sw, se, nw, ne, .. } => sw.leaf_nodes() + se.leaf_nodes()
                + nw.leaf_nodes() + ne.leaf_nodes(),
        }
    }

    /// Every leaf lies exactly `depth` levels below this node.
    pub open spec fn uniform(self, depth: nat) -> bool
        decreases self,
    {
        match self {
            QuadTreeNode::Leaf { .. } => depth == 0,
            QuadTreeNode::Internal { sw, se, nw, ne, .. } => {
                &&& depth > 0
                &&& sw.uniform((depth - 1) as nat)
                &&& se.uniform((depth - 1) as nat)
                &&& nw.uniform((depth - 1) as nat)
                &&& ne.uniform((depth - 1) as nat)
            },
        }
    }

    /// A bound on how much further this node can be refined: what the
    /// recursive operations count down.
    pub open spec fn measure(self) -> nat
        decreases self,
    {
        match self {
            QuadTreeNode::Leaf { bounds, .. } => 2 * bounds.span(),
            QuadTreeNode::Internal { sw, se, nw, ne, .. } => 1 + larger(
                larger(sw.measure(), se.measure()),
                larger(nw.measure(), ne.measure()),
            ),
        }
    }

    /// This node is what one subdivision makes of the leaf with `bounds` and
    /// `data`: an internal node with the same bounds whose four children are
    /// leaves over the four quadrants, each with data that `made` allows.
    pub open spec fn split_of(
        self,
        bounds: Rectangle,
        data: T,
        made: spec_fn(Quadrant, Rectangle, T, T) -> bool,
    ) -> bool {
        &&& self matches QuadTreeNode::Internal { bounds: b, sw, se, nw, ne }
        &&& b == bounds
        &&& sw.child_of(Quadrant::SW, bounds, data, made)
        &&& se.child_of(Quadrant::SE, bounds, data, made)
        &&& nw.child_of(Quadrant::NW, bounds, data, made)
        &&& ne.child_of(Quadrant::NE, bounds, data, made)
    }

    /// This node is a fresh leaf at `q` below the leaf with `bounds` and
    /// `data`.
    pub open spec fn child_of(
        self,
        q: Quadrant,
        bounds: Rectangle,
        data: T,
        made: spec_fn(Quadrant, Rectangle, T, T) -> bool,
    ) -> bool {
        &&& self matches QuadTreeNode::Leaf { bounds: b, data: d }
        &&& b == quadrant_bounds(bounds, q)
        &&& made(q, b, data, d)
    }

    /// `after` is what refinement makes of `before`: internal nodes stay and
    /// their children are refined; a leaf stays where `stop` accepts it and
    /// is otherwise subdivided, its new children refined in turn.
    pub open spec fn grows_to(
        before: Self,
        after: Self,
        stop: spec_fn(Rectangle, T, bool) -> bool,
        made: spec_fn(Quadrant, Rectangle, T, T) -> bool,
    ) -> bool
        decreases after, 0nat,
    {
        match before {
            QuadTreeNode::Internal { bounds, sw, se, nw, ne } => {
                &&& after matches QuadTreeNode::Internal {
                    bounds: b2,
                    sw: sw2,
                    se: se2,
                    nw: nw2,
                    ne: ne2,
                }
                &&& b2 == bounds
                &&& Self::grows_to(*sw, *sw2, stop, made)
                &&& Self::grows_to(*se, *se2, stop, made)
                &&& Self::grows_to(*nw, *nw2, stop, made)
                &&& Self::grows_to(*ne, *ne2, stop, made)
            },
            QuadTreeNode::Leaf { bounds, data } => {
                ||| (after == before && stop(bounds, data, true))
                ||| {
                    &&& stop(bounds, data, false)
                    &&& after matches QuadTreeNode::Internal {
                        bounds: b2,
                        sw: sw2,
                        se: se2,
                        nw: nw2,
                        ne: ne2,
                    }
                    &&& b2 == bounds
                    &&& Self::grows_from_child(Quadrant::SW, bounds, data, *sw2, stop, made)
                    &&& Self::grows_from_child(Quadrant::SE, bounds, data, *se2, stop, made)
                    &&& Self::grows_from_child(Quadrant::NW, bounds, data, *nw2, stop, made)
                    &&& Self::grows_from_child(Quadrant::NE, bounds, data, *ne2, stop, made)
                }
            },
        }
    }

    /// `after` is what refinement makes of some fresh leaf at `q` below the
    /// leaf with `bounds` and `data`.
    pub open spec fn grows_from_child(
        q: Quadrant,
        bounds: Rectangle,
        data: T,
        after: Self,
        stop: spec_fn(Rectangle, T, bool) -> bool,
        made: spec_fn(Quadrant, Rectangle, T, T) -> bool,
    ) -> bool
        decreases after, 1nat,
    {
        exists|d: T| #[trigger]
            made(q, quadrant_bounds(bounds, q), data, d) && Self::grows_to(
                QuadTreeNode::Leaf { bounds: quadrant_bounds(bounds, q), data: d },
                after,
                stop,
                made,
            )
    }

    /// `copy` has the shape and the bounds of `self`, and each of its leaves
    /// holds a clone of the data of the leaf it stands for.
    pub open spec fn cloned_to(self, copy: Self) -> bool where T: Clone
        decreases self,
    {
        match self {
            QuadTreeNode::Leaf { bounds, data } => {
                &&& copy matches QuadTreeNode::Leaf { bounds: b2, data: d2 }
                &&& b2 == bounds
                &&& cloned(data, d2)
            },
            QuadTreeNode::Internal { bounds, sw, se, nw, ne } => {
                &&& copy matches QuadTreeNode::Internal {
                    bounds: b2,
                    sw: sw2,
                    se: se2,
                    nw: nw2,
                    ne: ne2,
                }
                &&& b2 == bounds
                &&& sw.cloned_to(*sw2)
                &&& se.cloned_to(*se2)
                &&& nw.cloned_to(*nw2)
                &&& ne.cloned_to(*ne2)
            },
        }
    }

    /// Creates a new leaf node with given bounds and data.
    pub fn new(bounds: Rectangle, data: T) -> (node: Self)
        ensures
            node == (QuadTreeNode::Leaf { bounds, data }),
    {
        QuadTreeNode::Leaf { bounds, data }
    }

    /// Returns the bounds of this node.
    pub fn bounds(&self) -> (r: &Rectangle)
        ensures
            *r == self.spec_bounds(),
    {
        match self {
            QuadTreeNode::Internal { bounds, .. } => bounds,
            QuadTreeNode::Leaf { bounds, .. } => bounds,
        }
    }

    /// Returns a reference to the data if this is a leaf node, or None if it's an internal node.
    pub fn data(&self) -> (r: Option<&T>)
        ensures
            match *self {
                QuadTreeNode::Leaf { data, .. } => r == Some(&data),
                QuadTreeNode::Internal { .. } => r is None,
            },
    {
        match self {
            QuadTreeNode::Leaf { data, .. } => Some(data),
            _ => None,
        }
    }
}

/// What a depth-aware constructor makes: `child` is data it may give the
/// child at `q` with bounds `b`, made at `depth` levels below the starting
/// node from a leaf that holds `parent`.
pub open spec fn made_at_depth_by<T, F: Fn(Quadrant, usize, &Rectangle, &T) -> T>(
    create_data: F,
) -> spec_fn(Quadrant, usize, Rectangle, T, T) -> bool {
    |q: Quadrant, depth: usize, b: Rectangle, parent: T, child: T|
        create_data.ensures((q, depth, &b, &parent), child)
}

/// Child data made by cloning the parent's, at whatever depth.
pub open spec fn made_at_depth_by_clone<T: Clone>() -> spec_fn(
    Quadrant,
    usize,
    Rectangle,
    T,
    T,
) -> bool {
    |q: Quadrant, depth: usize, b: Rectangle, parent: T, child: T| cloned(parent, child)
}

/// The quadrants of a rectangle that halves exactly have exactly half its
/// span.
pub proof fn lemma_quadrant_span(bounds: Rectangle, q: Quadrant)
    requires
        q != Quadrant::ROOT,
        bounds.halves_exactly(),
    ensures
        2 * quadrant_bounds(bounds, q).span() == bounds.span(),
{
}

/// The quadrants of a rectangle whose corners are in order lie within it and
/// have their corners in order.
pub proof fn lemma_quadrant_within(bounds: Rectangle, q: Quadrant)
    requires
        bounds.wf(),
    ensures
        quadrant_bounds(bounds, q).wf(),
        bounds.encloses(quadrant_bounds(bounds, q)),
{
}

/// The quadrants of a rectangle that halves exactly are exactly half as
/// wide and half as high as the rectangle.
pub proof fn lemma_quadrant_half(bounds: Rectangle, q: Quadrant)
    requires
        q != Quadrant::ROOT,
        bounds.wf(),
        bounds.halves_exactly(),
    ensures
        2 * quadrant_bounds(bounds, q).spec_width() == bounds.spec_width(),
        2 * quadrant_bounds(bounds, q).spec_height() == bounds.spec_height(),
{
}

/// A rectangle on the grid of two to the power of `bits` steps, `bits` at
/// least one, halves exactly, and its quadrants lie on the grid of half the
/// spacing.
pub proof fn lemma_quadrant_on_grid(bounds: Rectangle, q: Quadrant, bits: nat)
    requires
        bits >= 1,
        bounds.on_grid(bits),
    ensures
        bounds.halves_exactly(),
        quadrant_bounds(bounds, q).on_grid((bits - 1) as nat),
{
    lemma_grid_halves(bounds.min.x as int, bounds.max.x as int, bits);
    lemma_grid_halves(bounds.min.y as int, bounds.max.y as int, bits);
    lemma_grid_halves(bounds.max.x as int, bounds.min.x as int, bits);
    lemma_grid_halves(bounds.max.y as int, bounds.min.y as int, bits);
}

fn subdivide_bounds(bounds: &Rectangle) -> (r: [(Quadrant, Rectangle); 4])
    requires
        bounds.in_range(),
    ensures
        r[0] == (Quadrant::SW, quadrant_bounds(*bounds, Quadrant::SW)),
        r[1] == (Quadrant::SE, quadrant_bounds(*bounds, Quadrant::SE)),
        r[2] == (Quadrant::NW, quadrant_bounds(*bounds, Quadrant::NW)),
        r[3] == (Quadrant::NE, quadrant_bounds(*bounds, Quadrant::NE)),
{
    let center = bounds.center();
    [
        // Bottom-left
        (Quadrant::SW, Rectangle::from_corners(bounds.min, center)),
        // Bottom-right
        (
            Quadrant::SE,
            Rectangle::from_corners(
                Point2::from_steps(center.x, bounds.min.y),
                Point2::from_steps(bounds.max.x, center.y),
            ),
        ),
        // Top-left
        (
            Quadrant::NW,
            Rectangle::from_corners(
                Point2::from_steps(bounds.min.x, center.y),
                Point2::from_steps(center.x, bounds.max.y),
            ),
        ),
        // Top-right
        (Quadrant::NE, Rectangle::from_corners(center, bounds.max)),
    ]
}

impl<T> QuadTreeNode<T> {
    /// `after` is the leaf with `bounds` and `data` subdivided `depth` levels
    /// deep everywhere, the first of these levels being level `level`.
    pub open spec fn filled_from(
        bounds: Rectangle,
        data: T,
        after: Self,
        level: usize,
        depth: nat,
        made: spec_fn(Quadrant, usize, Rectangle, T, T) -> bool,
    ) -> bool
        decreases depth, 1nat,
    {
        if depth == 0 {
            after == (QuadTreeNode::Leaf { bounds, data })
        } else {
            &&& after matches QuadTreeNode::Internal { bounds: b2, sw, se, nw, ne }
            &&& b2 == bounds
            &&& level < usize::MAX
            &&& Self::filled_from_child(Quadrant::SW, bounds, data, *sw, level, depth, made)
            &&& Self::filled_from_child(Quadrant::SE, bounds, data, *se, level, depth, made)
            &&& Self::filled_from_child(Quadrant::NW, bounds, data, *nw, level, depth, made)
            &&& Self::filled_from_child(Quadrant::NE, bounds, data, *ne, level, depth, made)
        }
    }

    /// `after` is some fresh leaf at `q` below the leaf with `bounds` and
    /// `data`, subdivided `depth - 1` levels deep everywhere.
    pub open spec fn filled_from_child(
        q: Quadrant,
        bounds: Rectangle,
        data: T,
        after: Self,
        level: usize,
        depth: nat,
        made: spec_fn(Quadrant, usize, Rectangle, T, T) -> bool,
    ) -> bool
        decreases depth, 0nat,
    {
        depth > 0 && level < usize::MAX && exists|d: T| #[trigger]
            made(q, level, quadrant_bounds(bounds, q), data, d) && Self::filled_from(
                quadrant_bounds(bounds, q),
                d,
                after,
                (level + 1) as usize,
                (depth - 1) as nat,
                made,
            )
    }

    /// Subdivides a leaf node into an internal node with four child leaf nodes.
    /// The provided function is used to create data for each new child.
    pub fn subdivide_with<F>(&mut self, create_data: F) where
        F: Fn(Quadrant, &Rectangle, &T) -> T,

        requires
            *old(self) matches QuadTreeNode::Leaf { bounds, data } && {
                &&& bounds.halves_exactly()
                &&& create_data.requires((Quadrant::SW, &quadrant_bounds(bounds, Quadrant::SW), &data))
                &&& create_data.requires((Quadrant::SE, &quadrant_bounds(bounds, Quadrant::SE), &data))
                &&& create_data.requires((Quadrant::NW, &quadrant_bounds(bounds, Quadrant::NW), &data))
                &&& create_data.requires((Quadrant::NE, &quadrant_bounds(bounds, Quadrant::NE), &data))
            },
        ensures
            *old(self) matches QuadTreeNode::Leaf { bounds, data } && final(self).split_of(
                bounds,
                data,
                made_by(create_data),
            ),
            old(self).wf() ==> final(self).wf(),
    {
        self.split_by(&create_data);
    }

    /// Subdivides a leaf node as `subdivide_with` does and hands the node
    /// back, for a call on it to follow.
    pub fn subdivided_with<F>(&mut self, create_data: F) -> (node: &mut Self) where
        F: Fn(Quadrant, &Rectangle, &T) -> T,

        requires
            *old(self) matches QuadTreeNode::Leaf { bounds, data } && {
                &&& bounds.halves_exactly()
                &&& create_data.requires((Quadrant::SW, &quadrant_bounds(bounds, Quadrant::SW), &data))
                &&& create_data.requires((Quadrant::SE, &quadrant_bounds(bounds, Quadrant::SE), &data))
                &&& create_data.requires((Quadrant::NW, &quadrant_bounds(bounds, Quadrant::NW), &data))
                &&& create_data.requires((Quadrant::NE, &quadrant_bounds(bounds, Quadrant::NE), &data))
            },
        ensures
            *old(self) matches QuadTreeNode::Leaf { bounds, data } && node.split_of(
                bounds,
                data,
                made_by(create_data),
            ),
            old(self).wf() ==> node.wf(),
            *final(self) == *final(node),
    {
        self.split_by(&create_data);
        self
    }

    fn split_by<F>(&mut self, create_data: &F) where F: Fn(Quadrant, &Rectangle, &T) -> T
        requires
            *old(self) matches QuadTreeNode::Leaf { bounds, data } && {
                &&& bounds.halves_exactly()
                &&& create_data.requires((Quadrant::SW, &quadrant_bounds(bounds, Quadrant::SW), &data))
                &&& create_data.requires((Quadrant::SE, &quadrant_bounds(bounds, Quadrant::SE), &data))
                &&& create_data.requires((Quadrant::NW, &quadrant_bounds(bounds, Quadrant::NW), &data))
                &&& create_data.requires((Quadrant::NE, &quadrant_bounds(bounds, Quadrant::NE), &data))
            },
        ensures
            *old(self) matches QuadTreeNode::Leaf { bounds, data } && final(self).split_of(
                bounds,
                data,
                made_by(*create_data),
            ),
            old(self).wf() ==> final(self).wf(),
    {
        if let QuadTreeNode::Leaf { bounds, data } = self {
            let parts = subdivide_bounds(bounds);
            let sw = create_data(parts[0].0, &parts[0].1, data);
            let se = create_data(parts[1].0, &parts[1].1, data);
            let nw = create_data(parts[2].0, &parts[2].1, data);
            let ne = create_data(parts[3].0, &parts[3].1, data);
            proof {
                reveal_with_fuel(QuadTreeNode::wf, 2);
                if bounds.wf() {
                    lemma_quadrant_within(*bounds, Quadrant::SW);
                    lemma_quadrant_within(*bounds, Quadrant::SE);
                    lemma_quadrant_within(*bounds, Quadrant::NW);
                    lemma_quadrant_within(*bounds, Quadrant::NE);
                }
            }
            *self = QuadTreeNode::Internal {
                bounds: *bounds,
                sw: Box::new(QuadTreeNode::Leaf { bounds: parts[0].1, data: sw }),
                se: Box::new(QuadTreeNode::Leaf { bounds: parts[1].1, data: se }),
                nw: Box::new(QuadTreeNode::Leaf { bounds: parts[2].1, data: nw }),
                ne: Box::new(QuadTreeNode::Leaf { bounds: parts[3].1, data: ne }),
            };
        }
    }
}

impl<T> QuadTreeNode<T> {
    /// A subdivided leaf counts for less than the leaf did, as long as one
    /// of its sides could still be halved.
    pub proof fn lemma_split_measure(
        self,
        bounds: Rectangle,
        data: T,
        made: spec_fn(Quadrant, Rectangle, T, T) -> bool,
    )
        requires
            self.split_of(bounds, data, made),
            bounds.can_refine(),
        ensures
            self.measure() < 2 * bounds.span(),
    {
        reveal_with_fuel(QuadTreeNode::measure, 2);
        lemma_quadrant_span(bounds, Quadrant::SW);
        lemma_quadrant_span(bounds, Quadrant::SE);
        lemma_quadrant_span(bounds, Quadrant::NW);
        lemma_quadrant_span(bounds, Quadrant::NE);
    }

    /// Refines the tree: every leaf that `predicate` does not accept is
    /// subdivided, its children getting their data from `create_data`, and
    /// the new children are refined in turn.
    ///
    /// `predicate` has to accept every leaf that cannot be refined, whatever
    /// its data: a leaf without extent, with a side of an odd number of
    /// steps, or beyond the limit of the coordinates. Halving such a leaf
    /// would not be exact, or refinement would not end.
    pub fn insert_with<P, F>(&mut self, predicate: P, create_data: F) where
        P: Fn(&Rectangle, &T) -> bool,
        F: Fn(Quadrant, &Rectangle, &T) -> T,

        requires
            forall|b: Rectangle, d: T| #[trigger] predicate.requires((&b, &d)),
            forall|q: Quadrant, b: Rectangle, d: T| #[trigger] create_data.requires((q, &b, &d)),
            forall|b: Rectangle, d: T|
                !b.can_refine() ==> !(#[trigger] predicate.ensures((&b, &d), false)),
        ensures
            Self::grows_to(
                *old(self),
                *final(self),
                decided_by(predicate),
                made_by(create_data),
            ),
            old(self).wf() ==> final(self).wf(),
            final(self).spec_bounds() == old(self).spec_bounds(),
    {
        let ghost inv = |b: Rectangle, d: T| true;
        proof {
            self.lemma_leaves_satisfy(inv);
        }
        self.insert_with_impl(&predicate, &create_data, Ghost(inv))
    }

    /// What holds of every leaf there could be holds of the leaves of this
    /// tree.
    pub proof fn lemma_leaves_satisfy(self, inv: spec_fn(Rectangle, T) -> bool)
        requires
            forall|b: Rectangle, d: T| #[trigger] inv(b, d),
        ensures
            self.leaves_satisfy(inv),
        decreases self,
    {
        match self {
            QuadTreeNode::Leaf { .. } => {},
            QuadTreeNode::Internal { sw, se, nw, ne, .. } => {
                sw.lemma_leaves_satisfy(inv);
                se.lemma_leaves_satisfy(inv);
                nw.lemma_leaves_satisfy(inv);
                ne.lemma_leaves_satisfy(inv);
            },
        }
    }

    /// All leaves of this tree satisfy `inv`.
    pub open spec fn leaves_satisfy(self, inv: spec_fn(Rectangle, T) -> bool) -> bool
        decreases self,
    {
        match self {
            QuadTreeNode::Leaf { bounds, data } => inv(bounds, data),
            QuadTreeNode::Internal { sw, se, nw, ne, .. } => {
                &&& sw.leaves_satisfy(inv)
                &&& se.leaves_satisfy(inv)
                &&& nw.leaves_satisfy(inv)
                &&& ne.leaves_satisfy(inv)
            },
        }
    }

    /// Refinement as `insert_with` does it, for a predicate and a constructor
    /// that can only be called on leaves that satisfy `inv`: a property that
    /// holds of the leaves at the start and that the constructor hands on to
    /// the children it makes.
    #[verifier::rlimit(50)]
    pub(crate) fn insert_with_impl<P, F>(
        &mut self,
        predicate: &P,
        create_data: &F,
        Ghost(inv): Ghost<spec_fn(Rectangle, T) -> bool>,
    ) where P: Fn(&Rectangle, &T) -> bool, F: Fn(Quadrant, &Rectangle, &T) -> T
        requires
            old(self).leaves_satisfy(inv),
            forall|b: Rectangle, d: T| inv(b, d) ==> #[trigger] predicate.requires((&b, &d)),
            forall|q: Quadrant, b: Rectangle, d: T|
                inv(b, d) && predicate.ensures((&b, &d), false) && q != Quadrant::ROOT
                    ==> #[trigger] create_data.requires((q, &quadrant_bounds(b, q), &d)),
            forall|q: Quadrant, b: Rectangle, d: T, c: T|
                inv(b, d) && predicate.ensures((&b, &d), false) && q != Quadrant::ROOT
                    && #[trigger] create_data.ensures((q, &quadrant_bounds(b, q), &d), c)
                    ==> inv(quadrant_bounds(b, q), c),
            forall|b: Rectangle, d: T|
                inv(b, d) && !b.can_refine() ==> !(#[trigger] predicate.ensures((&b, &d), false)),
        ensures
            Self::grows_to(
                *old(self),
                *final(self),
                decided_by(*predicate),
                made_by(*create_data),
            ),
            old(self).wf() ==> final(self).wf(),
            final(self).spec_bounds() == old(self).spec_bounds(),
            final(self).leaves_satisfy(inv),
        decreases old(self).measure(),
    {
        match self {
            QuadTreeNode::Internal { sw, se, nw, ne, .. } => {
                sw.insert_with_impl(predicate, create_data, Ghost(inv));
                se.insert_with_impl(predicate, create_data, Ghost(inv));
                nw.insert_with_impl(predicate, create_data, Ghost(inv));
                ne.insert_with_impl(predicate, create_data, Ghost(inv));
            },
            QuadTreeNode::Leaf { bounds, data } => {
                if predicate(&*bounds, &*data) {
                    return ;
                }
                let ghost b0 = *bounds;
                let ghost d0 = *data;
                self.split_by(create_data);
                proof {
                    self.lemma_split_measure(b0, d0, made_by(*create_data));
                    reveal_with_fuel(QuadTreeNode::leaves_satisfy, 2);
                }
                self.insert_with_impl(predicate, create_data, Ghost(inv));
                proof {
                    reveal_with_fuel(QuadTreeNode::grows_to, 2);
                }
            },
        }
    }
}

impl<T> QuadTreeNode<T> {
    /// Refinement under one predicate and constructor is refinement under
    /// any predicate and constructor that allow at least the same answers.
    pub proof fn lemma_grows_to_weaken(
        before: Self,
        after: Self,
        stop: spec_fn(Rectangle, T, bool) -> bool,
        made: spec_fn(Quadrant, Rectangle, T, T) -> bool,
        stop2: spec_fn(Rectangle, T, bool) -> bool,
        made2: spec_fn(Quadrant, Rectangle, T, T) -> bool,
    )
        requires
            Self::grows_to(before, after, stop, made),
            forall|b: Rectangle, d: T, r: bool| #[trigger] stop(b, d, r) ==> stop2(b, d, r),
            forall|q: Quadrant, b: Rectangle, p: T, c: T| #[trigger]
                made(q, b, p, c) ==> made2(q, b, p, c),
        ensures
            Self::grows_to(before, after, stop2, made2),
        decreases after, 0nat,
    {
        match before {
            QuadTreeNode::Internal { bounds, sw, se, nw, ne } => {
                match after {
                    QuadTreeNode::Internal { sw: sw2, se: se2, nw: nw2, ne: ne2, .. } => {
                        Self::lemma_grows_to_weaken(*sw, *sw2, stop, made, stop2, made2);
                        Self::lemma_grows_to_weaken(*se, *se2, stop, made, stop2, made2);
                        Self::lemma_grows_to_weaken(*nw, *nw2, stop, made, stop2, made2);
                        Self::lemma_grows_to_weaken(*ne, *ne2, stop, made, stop2, made2);
                    },
                    QuadTreeNode::Leaf { .. } => {},
                }
            },
            QuadTreeNode::Leaf { bounds, data } => {
                if after == before && stop(bounds, data, true) {
                } else {
                    match after {
                        QuadTreeNode::Internal { sw: sw2, se: se2, nw: nw2, ne: ne2, .. } => {
                            Self::lemma_child_weaken(Quadrant::SW, bounds, data, *sw2, stop, made, stop2, made2);
                            Self::lemma_child_weaken(Quadrant::SE, bounds, data, *se2, stop, made, stop2, made2);
                            Self::lemma_child_weaken(Quadrant::NW, bounds, data, *nw2, stop, made, stop2, made2);
                            Self::lemma_child_weaken(Quadrant::NE, bounds, data, *ne2, stop, made, stop2, made2);
                        },
                        QuadTreeNode::Leaf { .. } => {},
                    }
                }
            },
        }
    }

    proof fn lemma_child_weaken(
        q: Quadrant,
        bounds: Rectangle,
        data: T,
        after: Self,
        stop: spec_fn(Rectangle, T, bool) -> bool,
        made: spec_fn(Quadrant, Rectangle, T, T) -> bool,
        stop2: spec_fn(Rectangle, T, bool) -> bool,
        made2: spec_fn(Quadrant, Rectangle, T, T) -> bool,
    )
        requires
            Self::grows_from_child(q, bounds, data, after, stop, made),
            forall|b: Rectangle, d: T, r: bool| #[trigger] stop(b, d, r) ==> stop2(b, d, r),
            forall|q: Quadrant, b: Rectangle, p: T, c: T| #[trigger]
                made(q, b, p, c) ==> made2(q, b, p, c),
        ensures
            Self::grows_from_child(q, bounds, data, after, stop2, made2),
        decreases after, 1nat,
    {
        let d = choose|d: T| #[trigger]
            made(q, quadrant_bounds(bounds, q), data, d) && Self::grows_to(
                QuadTreeNode::Leaf { bounds: quadrant_bounds(bounds, q), data: d },
                after,
                stop,
                made,
            );
        Self::lemma_grows_to_weaken(
            QuadTreeNode::Leaf { bounds: quadrant_bounds(bounds, q), data: d },
            after,
            stop,
            made,
            stop2,
            made2,
        );
        assert(made2(q, quadrant_bounds(bounds, q), data, d));
    }

    /// The nodes that a sequence of node references points to.
    pub open spec fn nodes_of(refs: Seq<&Self>) -> Seq<Self> {
        refs.map_values(|r: &Self| *r)
    }

    /// Gathers all leaf nodes into the provided vector.
    pub fn gather_leaves<'a>(&'a self, out: &mut Vec<&'a Self>)
        ensures
            Self::nodes_of(final(out)@) == Self::nodes_of(old(out)@) + self.leaf_nodes(),
        decreases self,
    {
        match self {
            QuadTreeNode::Internal { sw, se, nw, ne, .. } => {
                let ghost start = Self::nodes_of(out@);
                sw.gather_leaves(out);
                se.gather_leaves(out);
                nw.gather_leaves(out);
                ne.gather_leaves(out);
                assert(Self::nodes_of(out@) =~= start + (sw.leaf_nodes() + se.leaf_nodes()
                    + nw.leaf_nodes() + ne.leaf_nodes()));
            },
            QuadTreeNode::Leaf { .. } => {
                let ghost start = Self::nodes_of(out@);
                out.push(self);
                assert(Self::nodes_of(out@) =~= start + seq![*self]);
            },
        }
    }
}

impl<T: Clone> QuadTreeNode<T> {
    /// Creates the internal node that subdividing a new leaf with these
    /// bounds and this data gives.
    pub fn new_subdivided(bounds: Rectangle, data: T) -> (node: Self)
        requires
            bounds.halves_exactly(),
        ensures
            node.split_of(bounds, data, made_by_clone()),
            bounds.wf() ==> node.wf(),
    {
        let mut node = QuadTreeNode::Leaf { bounds, data };
        node.subdivide();
        node
    }

    /// Creates a node with these bounds, subdivided `subdivisions` levels
    /// deep everywhere, each leaf with a clone of its parent's data.
    pub fn with_subdivisions(bounds: Rectangle, data: T, subdivisions: usize) -> (node: Self)
        requires
            bounds.on_grid(subdivisions as nat),
        ensures
            Self::filled_from(
                bounds,
                data,
                node,
                0,
                subdivisions as nat,
                made_at_depth_by_clone(),
            ),
    {
        let mut node = QuadTreeNode::Leaf { bounds, data };
        node.subdivide_recursive(subdivisions);
        node
    }

    /// Refines the tree: every leaf that `predicate` does not accept is
    /// subdivided, its children getting clones of its data, and the new
    /// children are refined in turn.
    ///
    /// `predicate` has to accept every leaf that cannot be refined, whatever
    /// its data: a leaf without extent, with a side of an odd number of
    /// steps, or beyond the limit of the coordinates. Halving such a leaf
    /// would not be exact, or refinement would not end.
    pub fn insert<F>(&mut self, predicate: F) where F: Fn(&Rectangle, &T) -> bool
        requires
            forall|b: Rectangle, d: T| #[trigger] predicate.requires((&b, &d)),
            forall|b: Rectangle, d: T|
                !b.can_refine() ==> !(#[trigger] predicate.ensures((&b, &d), false)),
        ensures
            Self::grows_to(*old(self), *final(self), decided_by(predicate), made_by_clone()),
            old(self).wf() ==> final(self).wf(),
            final(self).spec_bounds() == old(self).spec_bounds(),
    {
        self.insert_impl(&predicate)
    }

    fn insert_impl<F>(&mut self, predicate: &F) where F: Fn(&Rectangle, &T) -> bool
        requires
            forall|b: Rectangle, d: T| #[trigger] predicate.requires((&b, &d)),
            forall|b: Rectangle, d: T|
                !b.can_refine() ==> !(#[trigger] predicate.ensures((&b, &d), false)),
        ensures
            Self::grows_to(*old(self), *final(self), decided_by(*predicate), made_by_clone()),
            old(self).wf() ==> final(self).wf(),
            final(self).spec_bounds() == old(self).spec_bounds(),
        decreases old(self).measure(),
    {
        match self {
            QuadTreeNode::Internal { sw, se, nw, ne, .. } => {
                sw.insert_impl(predicate);
                se.insert_impl(predicate);
                nw.insert_impl(predicate);
                ne.insert_impl(predicate);
            },
            QuadTreeNode::Leaf { bounds, data } => {
                if predicate(&*bounds, &*data) {
                    return ;
                }
                let ghost b0 = *bounds;
                let ghost d0 = *data;
                self.subdivide();
                proof {
                    self.lemma_split_measure(b0, d0, made_by_clone());
                }
                self.insert_impl(predicate);
                proof {
                    reveal_with_fuel(QuadTreeNode::grows_to, 2);
                }
            },
        }
    }

    /// Returns a clone of the data if this is a leaf node, or None if it's an internal node.
    pub fn data_clone(&self) -> (r: Option<T>)
        ensures
            match *self {
                QuadTreeNode::Leaf { data, .. } => r matches Some(d) && cloned(data, d),
                QuadTreeNode::Internal { .. } => r is None,
            },
    {
        match self {
            QuadTreeNode::Leaf { data, .. } => Some(data.clone()),
            _ => None,
        }
    }

    /// Subdivides a leaf node into an internal node with four child leaf nodes.
    /// Each child will receive a clone of the parent's data.
    pub fn subdivide(&mut self)
        requires
            *old(self) matches QuadTreeNode::Leaf { bounds, .. } && bounds.halves_exactly(),
        ensures
            *old(self) matches QuadTreeNode::Leaf { bounds, data } && final(self).split_of(
                bounds,
                data,
                made_by_clone(),
            ),
            old(self).wf() ==> final(self).wf(),
    {
        if let QuadTreeNode::Leaf { bounds, data } = self {
            let parts = subdivide_bounds(bounds);
            let sw = data.clone();
            let se = data.clone();
            let nw = data.clone();
            let ne = data.clone();
            proof {
                reveal_with_fuel(QuadTreeNode::wf, 2);
                if bounds.wf() {
                    lemma_quadrant_within(*bounds, Quadrant::SW);
                    lemma_quadrant_within(*bounds, Quadrant::SE);
                    lemma_quadrant_within(*bounds, Quadrant::NW);
                    lemma_quadrant_within(*bounds, Quadrant::NE);
                }
            }
            *self = QuadTreeNode::Internal {
                bounds: *bounds,
                sw: Box::new(QuadTreeNode::Leaf { bounds: parts[0].1, data: sw }),
                se: Box::new(QuadTreeNode::Leaf { bounds: parts[1].1, data: se }),
                nw: Box::new(QuadTreeNode::Leaf { bounds: parts[2].1, data: nw }),
                ne: Box::new(QuadTreeNode::Leaf { bounds: parts[3].1, data: ne }),
            };
        }
    }

    /// Subdivides a leaf node as `subdivide` does and hands the node back,
    /// for a call on it to follow.
    pub fn subdivided(&mut self) -> (node: &mut Self)
        requires
            *old(self) matches QuadTreeNode::Leaf { bounds, .. } && bounds.halves_exactly(),
        ensures
            *old(self) matches QuadTreeNode::Leaf { bounds, data } && node.split_of(
                bounds,
                data,
                made_by_clone(),
            ),
            old(self).wf() ==> node.wf(),
            *final(self) == *final(node),
    {
        self.subdivide();
        self
    }

    /// Subdivides a leaf `max_depth` levels deep everywhere.
    /// Each child will receive a clone of the parent's data.
    ///
    /// With a depth of zero nothing is changed. Any other depth is for a
    /// leaf only, whose corners lie on the grid of two to the power of that
    /// depth steps, so that every halving is exact. A rectangle with corners
    /// at whole units can be halved sixty times.
    pub fn subdivide_recursive(&mut self, max_depth: usize)
        requires
            max_depth > 0 ==> (*old(self) matches QuadTreeNode::Leaf { bounds, .. } && bounds.on_grid(
                max_depth as nat,
            )),
        ensures
            max_depth == 0 ==> *final(self) == *old(self),
            *old(self) matches QuadTreeNode::Leaf { bounds, data } ==> Self::filled_from(
                bounds,
                data,
                *final(self),
                0,
                max_depth as nat,
                made_at_depth_by_clone(),
            ),
    {
        self.subdivide_recursive_impl(max_depth, 0)
    }

    fn subdivide_recursive_impl(&mut self, max_depth: usize, current_depth: usize)
        requires
            current_depth <= max_depth,
            current_depth < max_depth ==> (*old(self) matches QuadTreeNode::Leaf { bounds, .. }
                && bounds.on_grid((max_depth - current_depth) as nat)),
        ensures
            current_depth == max_depth ==> *final(self) == *old(self),
            *old(self) matches QuadTreeNode::Leaf { bounds, data } ==> Self::filled_from(
                bounds,
                data,
                *final(self),
                current_depth,
                (max_depth - current_depth) as nat,
                made_at_depth_by_clone(),
            ),
        decreases max_depth - current_depth,
    {
        if current_depth >= max_depth {
            return ;
        }
        proof {
            let b0 = old(self)->Leaf_bounds;
            let bits = (max_depth - current_depth) as nat;
            lemma_quadrant_on_grid(b0, Quadrant::SW, bits);
            lemma_quadrant_on_grid(b0, Quadrant::SE, bits);
            lemma_quadrant_on_grid(b0, Quadrant::NW, bits);
            lemma_quadrant_on_grid(b0, Quadrant::NE, bits);
        }
        let ghost made = made_at_depth_by_clone::<T>();
        if let QuadTreeNode::Internal { bounds, sw, se, nw, ne } = self.subdivided() {
            let ghost parent = old(self)->Leaf_data;
            let ghost (d_sw, d_se, d_nw, d_ne) = (
                sw->Leaf_data,
                se->Leaf_data,
                nw->Leaf_data,
                ne->Leaf_data,
            );
            sw.subdivide_recursive_impl(max_depth, current_depth + 1);
            se.subdivide_recursive_impl(max_depth, current_depth + 1);
            nw.subdivide_recursive_impl(max_depth, current_depth + 1);
            ne.subdivide_recursive_impl(max_depth, current_depth + 1);
            proof {
                let b = *bounds;
                assert(made(Quadrant::SW, current_depth, quadrant_bounds(b, Quadrant::SW), parent, d_sw));
                assert(made(Quadrant::SE, current_depth, quadrant_bounds(b, Quadrant::SE), parent, d_se));
                assert(made(Quadrant::NW, current_depth, quadrant_bounds(b, Quadrant::NW), parent, d_nw));
                assert(made(Quadrant::NE, current_depth, quadrant_bounds(b, Quadrant::NE), parent, d_ne));
            }
        }
    }
}

impl<T> QuadTreeNode<T> {
    /// Subdivides a leaf `max_depth` levels deep everywhere. The provided
    /// function creates the data of each new child; it is told how many
    /// levels below the starting node the child's parent lies.
    ///
    /// With a depth of zero nothing is changed. Any other depth is for a
    /// leaf only, whose corners lie on the grid of two to the power of that
    /// depth steps, so that every halving is exact. A rectangle with corners
    /// at whole units can be halved sixty times.
    pub fn subdivide_recursive_with<F>(&mut self, max_depth: usize, create_data: F) where
        F: Fn(Quadrant, usize, &Rectangle, &T) -> T,

        requires
            max_depth > 0 ==> (*old(self) matches QuadTreeNode::Leaf { bounds, .. } && bounds.on_grid(
                max_depth as nat,
            )),
            forall|q: Quadrant, level: usize, b: Rectangle, d: T| #[trigger]
                create_data.requires((q, level, &b, &d)),
        ensures
            max_depth == 0 ==> *final(self) == *old(self),
            *old(self) matches QuadTreeNode::Leaf { bounds, data } ==> Self::filled_from(
                bounds,
                data,
                *final(self),
                0,
                max_depth as nat,
                made_at_depth_by(create_data),
            ),
    {
        self.subdivide_recursive_with_impl(max_depth, 0, &create_data)
    }

    fn subdivide_recursive_with_impl<F>(
        &mut self,
        max_depth: usize,
        current_depth: usize,
        create_data: &F,
    ) where F: Fn(Quadrant, usize, &Rectangle, &T) -> T
        requires
            current_depth <= max_depth,
            current_depth < max_depth ==> (*old(self) matches QuadTreeNode::Leaf { bounds, .. }
                && bounds.on_grid((max_depth - current_depth) as nat)),
            forall|q: Quadrant, level: usize, b: Rectangle, d: T| #[trigger]
                create_data.requires((q, level, &b, &d)),
        ensures
            current_depth == max_depth ==> *final(self) == *old(self),
            *old(self) matches QuadTreeNode::Leaf { bounds, data } ==> Self::filled_from(
                bounds,
                data,
                *final(self),
                current_depth,
                (max_depth - current_depth) as nat,
                made_at_depth_by(*create_data),
            ),
        decreases max_depth - current_depth,
    {
        if current_depth >= max_depth {
            return ;
        }
        proof {
            let b0 = old(self)->Leaf_bounds;
            let bits = (max_depth - current_depth) as nat;
            lemma_quadrant_on_grid(b0, Quadrant::SW, bits);
            lemma_quadrant_on_grid(b0, Quadrant::SE, bits);
            lemma_quadrant_on_grid(b0, Quadrant::NW, bits);
            lemma_quadrant_on_grid(b0, Quadrant::NE, bits);
        }
        let ghost made = made_at_depth_by(*create_data);
        let ghost parent = old(self)->Leaf_data;
        if let QuadTreeNode::Leaf { bounds, data } = self {
            let parts = subdivide_bounds(bounds);
            let sw = create_data(parts[0].0, current_depth, &parts[0].1, data);
            let se = create_data(parts[1].0, current_depth, &parts[1].1, data);
            let nw = create_data(parts[2].0, current_depth, &parts[2].1, data);
            let ne = create_data(parts[3].0, current_depth, &parts[3].1, data);
            *self = QuadTreeNode::Internal {
                bounds: *bounds,
                sw: Box::new(QuadTreeNode::Leaf { bounds: parts[0].1, data: sw }),
                se: Box::new(QuadTreeNode::Leaf { bounds: parts[1].1, data: se }),
                nw: Box::new(QuadTreeNode::Leaf { bounds: parts[2].1, data: nw }),
                ne: Box::new(QuadTreeNode::Leaf { bounds: parts[3].1, data: ne }),
            };
        }
        if let QuadTreeNode::Internal { bounds, sw, se, nw, ne } = self {
            let ghost (d_sw, d_se, d_nw, d_ne) = (
                sw->Leaf_data,
                se->Leaf_data,
                nw->Leaf_data,
                ne->Leaf_data,
            );
            sw.subdivide_recursive_with_impl(max_depth, current_depth + 1, create_data);
            se.subdivide_recursive_with_impl(max_depth, current_depth + 1, create_data);
            nw.subdivide_recursive_with_impl(max_depth, current_depth + 1, create_data);
            ne.subdivide_recursive_with_impl(max_depth, current_depth + 1, create_data);
            proof {
                let b = *bounds;
                assert(made(Quadrant::SW, current_depth, quadrant_bounds(b, Quadrant::SW), parent, d_sw));
                assert(made(Quadrant::SE, current_depth, quadrant_bounds(b, Quadrant::SE), parent, d_se));
                assert(made(Quadrant::NW, current_depth, quadrant_bounds(b, Quadrant::NW), parent, d_nw));
                assert(made(Quadrant::NE, current_depth, quadrant_bounds(b, Quadrant::NE), parent, d_ne));
            }
        }
    }

    /// Returns a mutable reference to the data if this is a leaf node, or None if it's an internal node.
    pub fn data_mut(&mut self) -> (r: Option<&mut T>)
        ensures
            match *old(self) {
                QuadTreeNode::Leaf { bounds, data } => r matches Some(d) && *d == data
                    && *final(self) == (QuadTreeNode::Leaf { bounds, data: *final(d) }),
                QuadTreeNode::Internal { .. } => r is None && *final(self) == *old(self),
            },
    {
        match self {
            QuadTreeNode::Leaf { data, .. } => Some(data),
            _ => None,
        }
    }
}

/// A traversal of the leaves of a tree in depth-first order, one leaf per
/// call of `next`. It keeps the nodes still to be visited on a stack of its
/// own, so that a deep tree costs no call depth.
///
/// `CAPACITY` is the number of node references the stack has room for
/// before it has to grow.
pub struct QuadTreeLeafIter<'a, T, const CAPACITY: usize> {
    stack: Vec<&'a QuadTreeNode<T>>,
}

/// The leaves below the nodes of a stack, those of the topmost node first.
pub open spec fn pending_leaves<T>(stack: Seq<&QuadTreeNode<T>>) -> Seq<(Rectangle, T)>
    decreases stack.len(),
{
    if stack.len() == 0 {
        Seq::empty()
    } else {
        stack.last().leaves() + pending_leaves(stack.drop_last())
    }
}

/// The number of nodes in the trees of a stack.
pub open spec fn pending_nodes<T>(stack: Seq<&QuadTreeNode<T>>) -> nat
    decreases stack.len(),
{
    if stack.len() == 0 {
        0
    } else {
        stack.last().node_count() + pending_nodes(stack.drop_last())
    }
}

impl<T> QuadTreeNode<T> {
    /// The number of nodes, internal ones and leaves.
    pub open spec fn node_count(self) -> nat
        decreases self,
    {
        match self {
            QuadTreeNode::Leaf { .. } => 1,
            QuadTreeNode::Internal { sw, se, nw, ne, .. } => 1 + sw.node_count() + se.node_count()
                + nw.node_count() + ne.node_count(),
        }
    }

    /// Returns a traversal of all leaf nodes in the tree.
    pub fn iter(&self) -> (it: QuadTreeLeafIter<'_, T, 1024>)
        ensures
            it.remaining() == self.leaves(),
    {
        QuadTreeLeafIter::new(self)
    }

    /// Returns a traversal with a custom stack size for performance tuning.
    pub fn iter_with_capacity<const CAPACITY: usize>(&self) -> (it: QuadTreeLeafIter<
        '_,
        T,
        CAPACITY,
    >)
        ensures
            it.remaining() == self.leaves(),
    {
        QuadTreeLeafIter::new(self)
    }
}

impl<'a, T, const CAPACITY: usize> QuadTreeLeafIter<'a, T, CAPACITY> {
    /// The leaves that `next` has still to hand out, in order.
    pub closed spec fn remaining(self) -> Seq<(Rectangle, T)> {
        pending_leaves(self.stack@)
    }

    /// A traversal of the leaves below `root`.
    pub fn new(root: &'a QuadTreeNode<T>) -> (it: Self)
        ensures
            it.remaining() == root.leaves(),
    {
        let mut stack = Vec::with_capacity(CAPACITY);
        stack.push(root);
        proof {
            reveal_with_fuel(pending_leaves, 2);
            assert(stack@.drop_last() =~= Seq::<&QuadTreeNode<T>>::empty());
            assert(pending_leaves(stack@) =~= root.leaves());
        }
        QuadTreeLeafIter { stack }
    }

    /// Hands out the next leaf, its bounds and its data, or `None` once all
    /// leaves have been handed out.
    #[verifier::rlimit(50)]
    pub fn next(&mut self) -> (r: Option<(&'a Rectangle, &'a T)>)
        ensures
            old(self).remaining().len() == 0 ==> r is None && final(self).remaining().len() == 0,
            old(self).remaining().len() > 0 ==> (r matches Some((b, d)) && (*b, *d) == old(
                self,
            ).remaining()[0]),
            old(self).remaining().len() > 0 ==> final(self).remaining() == old(
                self,
            ).remaining().drop_first(),
    {
        loop
            invariant
                pending_leaves(self.stack@) == pending_leaves(old(self).stack@),
            decreases pending_nodes(self.stack@),
        {
            let ghost before = self.stack@;
            match self.stack.pop() {
                None => {
                    return None;
                },
                Some(current_node) => {
                    assert(self.stack@ == before.drop_last());
                    assert(current_node == before.last());
                    match current_node {
                        QuadTreeNode::Internal { sw, se, nw, ne, .. } => {
                            let ghost rest = self.stack@;
                            self.stack.push(&**ne);
                            self.stack.push(&**nw);
                            self.stack.push(&**se);
                            self.stack.push(&**sw);
                            proof {
                                let s4 = self.stack@;
                                let s3 = s4.drop_last();
                                let s2 = s3.drop_last();
                                let s1 = s2.drop_last();
                                assert(s1.drop_last() =~= rest);
                                assert(s3 =~= rest.push(&**ne).push(&**nw).push(&**se));
                                assert(s2 =~= rest.push(&**ne).push(&**nw));
                                assert(s1 =~= rest.push(&**ne));
                                assert(pending_leaves(s1) == ne.leaves() + pending_leaves(rest));
                                assert(pending_leaves(s2) == nw.leaves() + pending_leaves(s1));
                                assert(pending_leaves(s3) == se.leaves() + pending_leaves(s2));
                                assert(pending_leaves(s4) == sw.leaves() + pending_leaves(s3));
                                assert(pending_leaves(s4) =~= current_node.leaves()
                                    + pending_leaves(rest));
                                assert(pending_nodes(s1) == ne.node_count() + pending_nodes(rest));
                                assert(pending_nodes(s2) == nw.node_count() + pending_nodes(s1));
                                assert(pending_nodes(s3) == se.node_count() + pending_nodes(s2));
                                assert(pending_nodes(s4) == sw.node_count() + pending_nodes(s3));
                            }
                        },
                        QuadTreeNode::Leaf { bounds, data } => {
                            proof {
                                assert(pending_leaves(before) =~= seq![(*bounds, *data)]
                                    + pending_leaves(self.stack@));
                                assert(pending_leaves(before).drop_first() =~= pending_leaves(
                                    self.stack@,
                                ));
                            }
                            return Some((bounds, data));
                        },
                    }
                },
            }
        }
    }
}

impl<T> QuadTreeNode<T> {
    /// `other` has the shape of `self`: the same internal nodes with the
    /// same bounds, and leaves where `self` has leaves.
    pub open spec fn same_shape_as(self, other: Self) -> bool
        decreases self,
    {
        match self {
            QuadTreeNode::Leaf { .. } => other is Leaf,
            QuadTreeNode::Internal { bounds, sw, se, nw, ne } => {
                &&& other matches QuadTreeNode::Internal {
                    bounds: b2,
                    sw: sw2,
                    se: se2,
                    nw: nw2,
                    ne: ne2,
                }
                &&& b2 == bounds
                &&& sw.same_shape_as(*sw2)
                &&& se.same_shape_as(*se2)
                &&& nw.same_shape_as(*nw2)
                &&& ne.same_shape_as(*ne2)
            },
        }
    }

    /// Gathers mutable references to the bounds and the data of all leaves
    /// into the provided vector, in the order of the leaves. What is
    /// written through the references is what the leaves of the tree hold
    /// afterwards; the shape of the tree stays.
    #[verifier::rlimit(50)]
    pub fn gather_leaves_mut<'a>(&'a mut self, out: &mut Vec<(&'a mut Rectangle, &'a mut T)>)
        ensures
            final(out)@.len() == old(out)@.len() + old(self).leaves().len(),
            final(self).leaves().len() == old(self).leaves().len(),
            forall|j: int| 0 <= j < old(out)@.len() ==> final(out)@[j] == old(out)@[j],
            forall|j: int|
                old(out)@.len() <= j < final(out)@.len() ==> (
                    *(#[trigger] final(out)@[j]).0,
                    *final(out)@[j].1,
                ) == old(self).leaves()[j - old(out)@.len()],
            forall|j: int|
                old(out)@.len() <= j < final(out)@.len() ==> (
                    *final((#[trigger] final(out)@[j]).0),
                    *final(final(out)@[j].1),
                ) == final(self).leaves()[j - old(out)@.len()],
            old(self).same_shape_as(*final(self)),
        decreases *old(self),
    {
        match self {
            QuadTreeNode::Internal { sw, se, nw, ne, .. } => {
                sw.gather_leaves_mut(out);
                se.gather_leaves_mut(out);
                nw.gather_leaves_mut(out);
                ne.gather_leaves_mut(out);
            },
            QuadTreeNode::Leaf { bounds, data } => {
                out.push((bounds, data));
            },
        }
    }

    /// Returns mutable references to the bounds and the data of all leaves,
    /// in the order of the leaves.
    pub fn iter_mut(&mut self) -> (leaves: Vec<(&mut Rectangle, &mut T)>)
        ensures
            leaves@.len() == old(self).leaves().len(),
            final(self).leaves().len() == old(self).leaves().len(),
            forall|j: int|
                0 <= j < leaves@.len() ==> (*(#[trigger] leaves@[j]).0, *leaves@[j].1) == old(
                    self,
                ).leaves()[j],
            forall|j: int|
                0 <= j < leaves@.len() ==> (
                    *final((#[trigger] leaves@[j]).0),
                    *final(leaves@[j].1),
                ) == final(self).leaves()[j],
            old(self).same_shape_as(*final(self)),
    {
        let mut leaves = Vec::new();
        self.gather_leaves_mut(&mut leaves);
        leaves
    }

    /// As `iter_mut`, with room for `CAPACITY` leaves set aside at the
    /// start.
    pub fn iter_mut_with_capacity<const CAPACITY: usize>(&mut self) -> (leaves: Vec<
        (&mut Rectangle, &mut T),
    >)
        ensures
            leaves@.len() == old(self).leaves().len(),
            final(self).leaves().len() == old(self).leaves().len(),
            forall|j: int|
                0 <= j < leaves@.len() ==> (*(#[trigger] leaves@[j]).0, *leaves@[j].1) == old(
                    self,
                ).leaves()[j],
            forall|j: int|
                0 <= j < leaves@.len() ==> (
                    *final((#[trigger] leaves@[j]).0),
                    *final(leaves@[j].1),
                ) == final(self).leaves()[j],
            old(self).same_shape_as(*final(self)),
    {
        let mut leaves = Vec::with_capacity(CAPACITY);
        self.gather_leaves_mut(&mut leaves);
        leaves
    }
}

/// The text that `Debug` shows for the rectangle with these corners.
pub uninterp spec fn rectangle_text(min_x: i128, min_y: i128, max_x: i128, max_y: i128) -> Seq<char>;

/// The text of an internal node whose bounds are shown as `bounds`: the
/// name of the kind, and the bounds as its one field.
pub open spec fn internal_text_of(bounds: Seq<char>) -> Seq<char> {
    "QuadTreeNode::Internal { bounds: "@ + bounds + " }"@
}

/// The text of a leaf whose bounds are shown as `bounds` and whose data is
/// shown as `data`: the name of the kind, then the bounds and the data as
/// its two fields.
pub open spec fn leaf_text_of(bounds: Seq<char>, data: Seq<char>) -> Seq<char> {
    "QuadTreeNode::Leaf { bounds: "@ + bounds + ", data: "@ + data + " }"@
}

/// `format!` with the `Debug` form of a rectangle, which `derive` wrote: a
/// text that depends on the four coordinates alone.
#[verifier::external_body]
fn bounds_text(bounds: &Rectangle) -> (text: String)
    ensures
        text@ == rectangle_text(bounds.min.x, bounds.min.y, bounds.max.x, bounds.max.y),
{
    format!("{:?}", bounds)
}

/// `format!` with the `Debug` form of the data. What it shows is up to the
/// type of the data, so nothing is said of the text.
#[verifier::external_body]
fn data_text<T: std::fmt::Debug>(data: &T) -> String {
    format!("{:?}", data)
}

/// Puts the text of an internal node together from the text of its bounds.
pub fn internal_node_text(bounds: &str) -> (text: String)
    ensures
        text@ == internal_text_of(bounds@),
{
    let mut text = String::from_str("QuadTreeNode::Internal { bounds: ");
    text.append(bounds);
    text.append(" }");
    text
}

/// Puts the text of a leaf together from the texts of its bounds and of its
/// data.
pub fn leaf_node_text(bounds: &str, data: &str) -> (text: String)
    ensures
        text@ == leaf_text_of(bounds@, data@),
{
    let mut text = String::from_str("QuadTreeNode::Leaf { bounds: ");
    text.append(bounds);
    text.append(", data: ");
    text.append(data);
    text.append(" }");
    text
}

impl<T: std::fmt::Debug> QuadTreeNode<T> {
    /// A text that names the kind of the node and shows its bounds and, for
    /// a leaf, its data, each as `Debug` shows it. The children of an
    /// internal node are not shown.
    pub fn debug_text(&self) -> (text: String)
        ensures
            match *self {
                QuadTreeNode::Internal { bounds, .. } => text@ == internal_text_of(
                    rectangle_text(bounds.min.x, bounds.min.y, bounds.max.x, bounds.max.y),
                ),
                QuadTreeNode::Leaf { bounds, .. } => exists|data: Seq<char>|
                    text@ == #[trigger] leaf_text_of(
                        rectangle_text(bounds.min.x, bounds.min.y, bounds.max.x, bounds.max.y),
                        data,
                    ),
            },
    {
        match self {
            QuadTreeNode::Internal { bounds, .. } => {
                let shown = bounds_text(bounds);
                internal_node_text(shown.as_str())
            },
            QuadTreeNode::Leaf { bounds, data } => {
                let shown = bounds_text(bounds);
                let shown_data = data_text(data);
                let text = leaf_node_text(shown.as_str(), shown_data.as_str());
                assert(text@ == leaf_text_of(
                    rectangle_text(bounds.min.x, bounds.min.y, bounds.max.x, bounds.max.y),
                    shown_data@,
                ));
                text
            },
        }
    }
}

impl<T: PartialEq> PartialEq for QuadTreeNode<T> {
    /// Two nodes are equal when they have the same shape and bounds and the
    /// data of their leaves compare equal.
    fn eq(&self, other: &Self) -> (r: bool)
        decreases self,
    {
        match (self, other) {
            (
                QuadTreeNode::Leaf { bounds, data },
                QuadTreeNode::Leaf { bounds: other_bounds, data: other_data },
            ) => *bounds == *other_bounds && data.eq(other_data),
            (
                QuadTreeNode::Internal { bounds, sw, se, nw, ne },
                QuadTreeNode::Internal {
                    bounds: other_bounds,
                    sw: other_sw,
                    se: other_se,
                    nw: other_nw,
                    ne: other_ne,
                },
            ) => {
                if *bounds != *other_bounds {
                    return false;
                }
                if !(&**sw).eq(&**other_sw) {
                    return false;
                }
                if !(&**se).eq(&**other_se) {
                    return false;
                }
                if !(&**nw).eq(&**other_nw) {
                    return false;
                }
                if !(&**ne).eq(&**other_ne) {
                    return false;
                }
                true
            },
            _ => false,
        }
    }
}

impl<T: PartialEq> vstd::std_specs::cmp::PartialEqSpecImpl for QuadTreeNode<T> {
    open spec fn obeys_eq_spec() -> bool {
        T::obeys_eq_spec()
    }

    open spec fn eq_spec(&self, other: &Self) -> bool
        decreases self,
    {
        match (*self, *other) {
            (
                QuadTreeNode::Leaf { bounds, data },
                QuadTreeNode::Leaf { bounds: other_bounds, data: other_data },
            ) => bounds == other_bounds && PartialEqSpec::eq_spec(&data, &other_data),
            (
                QuadTreeNode::Internal { bounds, sw, se, nw, ne },
                QuadTreeNode::Internal {
                    bounds: other_bounds,
                    sw: other_sw,
                    se: other_se,
                    nw: other_nw,
                    ne: other_ne,
                },
            ) => {
                &&& bounds == other_bounds
                &&& PartialEqSpec::eq_spec(&*sw, &*other_sw)
                &&& PartialEqSpec::eq_spec(&*se, &*other_se)
                &&& PartialEqSpec::eq_spec(&*nw, &*other_nw)
                &&& PartialEqSpec::eq_spec(&*ne, &*other_ne)
            },
            _ => false,
        }
    }
}

impl<T: Clone> Clone for QuadTreeNode<T> {
    fn clone(&self) -> (copy: Self)
        ensures
            self.cloned_to(copy),
        decreases self,
    {
        match self {
            QuadTreeNode::Leaf { bounds, data } => QuadTreeNode::Leaf {
                bounds: *bounds,
                data: data.clone(),
            },
            QuadTreeNode::Internal { bounds, sw, se, nw, ne } => QuadTreeNode::Internal {
                bounds: *bounds,
                sw: Box::new((&**sw).clone()),
                se: Box::new((&**se).clone()),
                nw: Box::new((&**nw).clone()),
                ne: Box::new((&**ne).clone()),
            },
        }
    }
}

} // verus!
