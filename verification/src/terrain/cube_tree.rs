use vstd::arithmetic::power2::{
    lemma2_to64, lemma2_to64_rest, lemma_pow2_adds, lemma_pow2_pos, lemma_pow2_strictly_increases,
    lemma_pow2_unfold, pow2,
};
use vstd::prelude::*;

use super::axis::Axis;
use super::chunk_hash::{lemma_identity, ChunkHash, ChunkHashView, MAX_DEPTH};
use crate::math::quad_tree::{
    decided_by, lemma_quadrant_half, lemma_quadrant_within, made_by, quadrant_bounds,
    QuadTreeLeafIter, QuadTreeNode, Quadrant,
};
use crate::math::rect::{Point2, Rectangle, UNIT};
use crate::math::refinement::{
    handed_on, single_answer, single_value, stops_no_later, stops_no_later_at,
};

verus! {

/// A leaf whose width is at most this many units is not refined further,
/// and it is the only kind of leaf that carries collision geometry.
pub const MIN_SIZE: i128 = 24;

/// A leaf is refined while the viewer is no farther from its center than
/// its width times the threshold ratio, three to two. This is the numerator.
pub const THRESHOLD_NUMERATOR: i128 = 3;

/// The denominator of the threshold ratio.
pub const THRESHOLD_DENOMINATOR: i128 = 2;

/// What the reach of a leaf, a number of steps times `THRESHOLD_NUMERATOR`,
/// is divided by to give a distance in units: `THRESHOLD_DENOMINATOR` times
/// the steps of a unit.
pub const REACH_DENOMINATOR: i128 = 0x2000_0000_0000_0000;

/// What a leaf of a face holds: the point of the sphere that the center of
/// its bounds maps to, and its identity. The point is of whatever type the
/// caller computes with; nothing here looks into it.
#[derive(Debug)]
pub struct ChunkData<P> {
    pub center: P,
    pub hash: ChunkHash,
}

impl<P: Clone> Clone for ChunkData<P> {
    fn clone(&self) -> (copy: Self)
        ensures
            cloned(self.center, copy.center),
            copy.hash == self.hash,
    {
        ChunkData { center: self.center.clone(), hash: self.hash }
    }
}

impl<P: Copy> Copy for ChunkData<P> {

}

/// The quadtree of one face.
pub type CubeTreeNode<P> = QuadTreeNode<ChunkData<P>>;

/// The bounds of every face of a cube with this half-extent: the square from
/// `-radius` to `radius` in both directions.
pub open spec fn root_bounds(radius: i64) -> Rectangle {
    Rectangle {
        min: Point2 { x: (-radius * UNIT) as i128, y: (-radius * UNIT) as i128 },
        max: Point2 { x: (radius * UNIT) as i128, y: (radius * UNIT) as i128 },
    }
}

/// The bounds are at the minimum size: a leaf with them is not refined.
pub open spec fn is_small(bounds: Rectangle) -> bool {
    bounds.spec_width() <= MIN_SIZE * UNIT
}

/// The limit that the viewer's distance is held against for a leaf with
/// these bounds: its width times the threshold ratio, as a numerator over
/// `REACH_DENOMINATOR`.
pub open spec fn reach_numerator(bounds: Rectangle) -> i128 {
    (bounds.spec_width() * THRESHOLD_NUMERATOR) as i128
}

/// When refinement stops at a leaf: always where the leaf is at the minimum
/// size, and elsewhere where `beyond` says that the viewer is farther from
/// the leaf's center than the leaf's reach.
pub open spec fn halts<P, F: Fn(&P, i128, i128) -> bool>(beyond: F) -> spec_fn(
    Rectangle,
    ChunkData<P>,
    bool,
) -> bool {
    |b: Rectangle, d: ChunkData<P>, r: bool|
        if is_small(b) {
            r
        } else {
            beyond.ensures((&d.center, reach_numerator(b), REACH_DENOMINATOR), r)
        }
}

/// The identity of the child at `q` with bounds `b` below a leaf with the
/// identity `parent`: one level deeper, `q` in front of the path, and the
/// collider flag set exactly where the child is at the minimum size.
pub open spec fn child_identity(parent: ChunkHashView, q: Quadrant, b: Rectangle) -> ChunkHashView {
    ChunkHashView {
        axis: parent.axis,
        depth: (parent.depth + 1) as u8,
        collider: is_small(b),
        path: ChunkHash::pushed_path(parent.path, q),
    }
}

/// What the children of a subdivided leaf of the face `axis` hold: the
/// child's identity follows from its parent's, and its center is what
/// `center_on_sphere` gives for the child's bounds.
pub open spec fn child_data<P, C: Fn(Axis, i64, &Rectangle) -> P>(
    axis: Axis,
    radius: i64,
    center_on_sphere: C,
) -> spec_fn(Quadrant, Rectangle, ChunkData<P>, ChunkData<P>) -> bool {
    |q: Quadrant, b: Rectangle, parent: ChunkData<P>, child: ChunkData<P>|
        {
            &&& parent.hash@.depth < MAX_DEPTH
            &&& child.hash@ == child_identity(parent.hash@, q, b)
            &&& child.hash.wf()
            &&& center_on_sphere.ensures((axis, radius, &b), child.center)
        }
}

/// The identity of the root of the face `axis` as refinement starts from
/// it: depth zero, a path of `ROOT` only, and the collider flag set exactly
/// where the whole face is at the minimum size.
pub open spec fn root_identity(axis: Axis, radius: i64) -> ChunkHashView {
    ChunkHashView {
        axis,
        depth: 0,
        collider: is_small(root_bounds(radius)),
        path: Seq::new(7, |i: int| Quadrant::ROOT),
    }
}

/// `face` is what refining the unsubdivided face `axis` of a cube with this
/// half-extent gives: it grows from a single leaf over the whole face, at
/// every leaf stopping or subdividing as `halts` says, the children holding
/// what `child_data` says.
pub open spec fn is_refined_face<P, C: Fn(Axis, i64, &Rectangle) -> P, F: Fn(&P, i128, i128) -> bool>(
    axis: Axis,
    radius: i64,
    face: CubeTreeNode<P>,
    center_on_sphere: C,
    beyond: F,
) -> bool {
    exists|root: ChunkData<P>|
        {
            &&& center_on_sphere.ensures((axis, radius, &root_bounds(radius)), root.center)
            &&& root.hash@ == root_identity(axis, radius)
            &&& root.hash.wf()
            &&& #[trigger] QuadTreeNode::grows_to(
                QuadTreeNode::Leaf { bounds: root_bounds(radius), data: root },
                face,
                halts(beyond),
                child_data(axis, radius, center_on_sphere),
            )
        }
}

/// `count` sides of the length `side`, laid end to end.
pub open spec fn sides_along(count: int, side: int) -> int {
    count * side
}

/// The length is that of a whole number of sides of the length `side`.
pub open spec fn is_whole_number_of(length: int, side: int) -> bool {
    exists|count: int| length == #[trigger] sides_along(count, side)
}

/// The bounds stand on the grid of their own size within the face of a cube
/// with half-extent `radius`: from the lower left corner of the face, the
/// lower left corner of the bounds lies a whole number of their widths to
/// the right and a whole number of their heights up.
pub open spec fn stands_on_own_grid(b: Rectangle, radius: i64) -> bool {
    &&& is_whole_number_of(b.min.x + radius * UNIT, b.spec_width())
    &&& is_whole_number_of(b.min.y + radius * UNIT, b.spec_height())
}

/// What holds of every leaf of a refined face of the cube with half-extent
/// `radius`: its bounds are in order, its identity is valid and names the
/// face, it carries the collider flag exactly where it is at the minimum
/// size, and it is a square whose side is the side of the face divided by
/// two to the power of its depth, standing on the grid of its own size.
pub open spec fn leaf_in_face<P>(axis: Axis, radius: i64) -> spec_fn(
    Rectangle,
    ChunkData<P>,
) -> bool {
    |b: Rectangle, d: ChunkData<P>|
        {
            &&& b.wf()
            &&& d.hash.wf()
            &&& d.hash@.axis == axis
            &&& d.hash@.collider == is_small(b)
            &&& b.spec_width() * pow2(d.hash@.depth as nat) == 2 * radius * UNIT
            &&& b.spec_height() * pow2(d.hash@.depth as nat) == 2 * radius * UNIT
            &&& stands_on_own_grid(b, radius)
        }
}

/// A leaf `depth` levels deep has the side of its face divided by two to
/// the power of `depth`: what `leaf_in_face` says of the sides of a leaf,
/// held against the bounds of the face.
pub proof fn lemma_leaf_side<P>(axis: Axis, radius: i64, b: Rectangle, d: ChunkData<P>)
    requires
        leaf_in_face(axis, radius)(b, d),
    ensures
        b.spec_width() * pow2(d.hash@.depth as nat) == root_bounds(radius).spec_width(),
        b.spec_height() * pow2(d.hash@.depth as nat) == root_bounds(radius).spec_height(),
        b.spec_width() == b.spec_height(),
{
    let p = pow2(d.hash@.depth as nat) as int;
    lemma_pow2_pos(d.hash@.depth as nat);
    assert(b.spec_width() == b.spec_height()) by (nonlinear_arith)
        requires
            p > 0,
            b.spec_width() * p == b.spec_height() * p,
    ;
}

/// A square of a face that is wider than the minimum size lies less than
/// sixty levels deep, whatever the half-extent of the cube, and its side is
/// an even number of steps long: it halves exactly.
pub proof fn lemma_wide_leaf_is_shallow(width: int, depth: nat, radius: i64)
    requires
        width > MIN_SIZE * UNIT,
        width * pow2(depth) == 2 * radius * UNIT,
    ensures
        depth < 60,
        width % 2 == 0,
{
    lemma2_to64_rest();
    if depth >= 60 {
        if depth > 60 {
            lemma_pow2_strictly_increases(60, depth);
        }
        assert(pow2(depth) >= pow2(60));
        assert(width * pow2(depth) > 24 * UNIT * pow2(60)) by (nonlinear_arith)
            requires
                width > 24 * UNIT,
                pow2(depth) >= pow2(60),
                pow2(60) > 0,
                UNIT > 0,
        ;
    } else {
        let low = pow2(depth) as int;
        let high = pow2((60 - depth) as nat) as int;
        lemma_pow2_adds((60 - depth) as nat, depth);
        lemma_pow2_pos(depth);
        assert(high * low == UNIT);
        assert(width == 2 * (radius * high)) by (nonlinear_arith)
            requires
                low > 0,
                width * low == 2 * radius * (high * low),
        ;
    }
}

/// The quadrants of a leaf are half as wide and half as high as the leaf,
/// so that what holds of the sides of a leaf holds one level deeper of its
/// children.
pub proof fn lemma_child_width(b: Rectangle, q: Quadrant, depth: nat, radius: i64)
    requires
        b.wf(),
        b.halves_exactly(),
        q != Quadrant::ROOT,
        b.spec_width() * pow2(depth) == 2 * radius * UNIT,
        b.spec_height() * pow2(depth) == 2 * radius * UNIT,
    ensures
        quadrant_bounds(b, q).spec_width() * pow2(depth + 1) == 2 * radius * UNIT,
        quadrant_bounds(b, q).spec_height() * pow2(depth + 1) == 2 * radius * UNIT,
{
    let w2 = quadrant_bounds(b, q).spec_width();
    let h2 = quadrant_bounds(b, q).spec_height();
    lemma_quadrant_half(b, q);
    lemma_pow2_unfold(depth + 1);
    let p = pow2(depth) as int;
    assert(w2 * (2 * p) == (2 * w2) * p && h2 * (2 * p) == (2 * h2) * p) by (nonlinear_arith);
}

/// The quadrants of bounds that halve exactly and stand on the grid of their
/// own size stand on the grid of theirs.
pub proof fn lemma_child_on_own_grid(b: Rectangle, q: Quadrant, radius: i64)
    requires
        b.wf(),
        b.halves_exactly(),
        q != Quadrant::ROOT,
        stands_on_own_grid(b, radius),
    ensures
        stands_on_own_grid(quadrant_bounds(b, q), radius),
{
    let child = quadrant_bounds(b, q);
    let w = child.spec_width();
    let h = child.spec_height();
    lemma_quadrant_half(b, q);
    let i = choose|i: int| b.min.x + radius * UNIT == #[trigger] sides_along(i, b.spec_width());
    let j = choose|j: int| b.min.y + radius * UNIT == #[trigger] sides_along(j, b.spec_height());
    let i2 = if child.min.x == b.min.x {
        2 * i
    } else {
        2 * i + 1
    };
    let j2 = if child.min.y == b.min.y {
        2 * j
    } else {
        2 * j + 1
    };
    assert(child.min.x + radius * UNIT == sides_along(i2, w)) by (nonlinear_arith)
        requires
            b.min.x + radius * UNIT == i * (2 * w),
            child.min.x == b.min.x || child.min.x == b.min.x + w,
            i2 == if child.min.x == b.min.x {
                2 * i
            } else {
                2 * i + 1
            },
            sides_along(i2, w) == i2 * w,
    ;
    assert(child.min.y + radius * UNIT == sides_along(j2, h)) by (nonlinear_arith)
        requires
            b.min.y + radius * UNIT == j * (2 * h),
            child.min.y == b.min.y || child.min.y == b.min.y + h,
            j2 == if child.min.y == b.min.y {
                2 * j
            } else {
                2 * j + 1
            },
            sides_along(j2, h) == j2 * h,
    ;
}

impl<P> ChunkData<P> {
    /// The data of a leaf of the face `axis` with these bounds and this
    /// identity; `center_on_sphere` computes the center.
    pub fn new<C>(
        axis: Axis,
        bounds: &Rectangle,
        radius: i64,
        hash: ChunkHash,
        center_on_sphere: &C,
    ) -> (data: Self) where C: Fn(Axis, i64, &Rectangle) -> P
        requires
            center_on_sphere.requires((axis, radius, bounds)),
        ensures
            center_on_sphere.ensures((axis, radius, bounds), data.center),
            data.hash == hash,
    {
        ChunkData { center: center_on_sphere(axis, radius, bounds), hash }
    }

    /// The data of the unsubdivided face `axis`.
    pub fn new_root<C>(axis: Axis, bounds: &Rectangle, radius: i64, center_on_sphere: &C) -> (data:
        Self) where C: Fn(Axis, i64, &Rectangle) -> P
        requires
            center_on_sphere.requires((axis, radius, bounds)),
        ensures
            center_on_sphere.ensures((axis, radius, bounds), data.center),
            data.hash@ == (ChunkHashView {
                axis,
                depth: 0,
                collider: false,
                path: Seq::new(7, |i: int| Quadrant::ROOT),
            }),
            data.hash.bits() == axis.code(),
            data.hash.wf(),
    {
        ChunkData { center: center_on_sphere(axis, radius, bounds), hash: ChunkHash::new_root(axis) }
    }
}

/// The terrain of one body: a cube with half-extent `radius`, and on each of
/// its six faces a quadtree over the square from `-radius` to `radius`. The
/// faces stand in the order of the codes of their axes.
#[derive(Debug)]
pub struct CubeTree<P> {
    pub radius: i64,
    pub faces: [CubeTreeNode<P>; 6],
}

/// The leaves of the faces from the face at `from` on, face after face.
pub open spec fn leaves_from<P>(faces: Seq<CubeTreeNode<P>>, from: int) -> Seq<
    (Rectangle, ChunkData<P>),
>
    decreases faces.len() - from,
{
    if 0 <= from < faces.len() {
        faces[from].leaves() + leaves_from(faces, from + 1)
    } else {
        Seq::empty()
    }
}

/// Refines one face from scratch.
#[verifier::rlimit(50)]
fn refine_face<P, C, F>(axis: Axis, radius: i64, center_on_sphere: &C, beyond: &F) -> (face:
    CubeTreeNode<P>) where C: Fn(Axis, i64, &Rectangle) -> P, F: Fn(&P, i128, i128) -> bool
    requires
        radius >= 0,
        forall|a: Axis, b: Rectangle| #[trigger] center_on_sphere.requires((a, radius, &b)),
        forall|c: P, n: i128, d: i128| #[trigger] beyond.requires((&c, n, d)),
    ensures
        is_refined_face(axis, radius, face, *center_on_sphere, *beyond),
        face.wf(),
        face.spec_bounds() == root_bounds(radius),
        face.leaves_satisfy(leaf_in_face(axis, radius)),
{
    let bounds = Rectangle::from_center_half_size(Point2::splat(0), Point2::splat(radius));
    let root = ChunkData::new(
        axis,
        &bounds,
        radius,
        ChunkHash::new_root(axis).with_collider(bounds.width() <= MIN_SIZE * UNIT),
        center_on_sphere,
    );
    let ghost root_leaf = QuadTreeNode::Leaf { bounds, data: root };
    let ghost inv = leaf_in_face::<P>(axis, radius);
    let mut new_node = QuadTreeNode::new(bounds, root);
    let predicate = |b: &Rectangle, d: &ChunkData<P>| -> (r: bool)
        requires
            b.in_range(),
        ensures
            halts(*beyond)(*b, *d, r),
        {
            let size = b.width();
            if size <= MIN_SIZE * UNIT {
                true
            } else {
                beyond(&d.center, size * THRESHOLD_NUMERATOR, REACH_DENOMINATOR)
            }
        };
    let create_data = |q: Quadrant, b: &Rectangle, d: &ChunkData<P>| -> (c: ChunkData<P>)
        requires
            b.in_range(),
            d.hash.wf(),
            d.hash@.depth < MAX_DEPTH,
        ensures
            child_data(axis, radius, *center_on_sphere)(q, *b, *d, c),
        {
            ChunkData::new(
                axis,
                b,
                radius,
                d.hash.push_quadrant(q).with_collider(b.width() <= MIN_SIZE * UNIT),
                center_on_sphere,
            )
        };
    proof {
        lemma2_to64();
        assert(root.hash@.depth == 0);
        assert(bounds == root_bounds(radius));
        assert(bounds.spec_width() == 2 * radius * UNIT);
        assert(bounds.spec_height() == 2 * radius * UNIT);
        assert(bounds.spec_width() * pow2(0) == bounds.spec_width() && bounds.spec_height()
            * pow2(0) == bounds.spec_height()) by (nonlinear_arith)
            requires
                pow2(0) == 1,
        ;
        assert(bounds.min.x + radius * UNIT == sides_along(0, bounds.spec_width())
            && bounds.min.y + radius * UNIT == sides_along(0, bounds.spec_height()));
        assert(inv(bounds, root));
        assert forall|b: Rectangle, d: ChunkData<P>|
            inv(b, d) && !b.can_refine() implies !(#[trigger] predicate.ensures(
            (&b, &d),
            false,
        )) by {
            if !is_small(b) {
                lemma_wide_leaf_is_shallow(b.spec_width(), d.hash@.depth as nat, radius);
                lemma_leaf_side(axis, radius, b, d);
            }
        }
        assert forall|q: Quadrant, b: Rectangle, d: ChunkData<P>|
            inv(b, d) && predicate.ensures((&b, &d), false) && q != Quadrant::ROOT implies
            #[trigger] create_data.requires((q, &quadrant_bounds(b, q), &d)) by {
            lemma_wide_leaf_is_shallow(b.spec_width(), d.hash@.depth as nat, radius);
            lemma_quadrant_within(b, q);
        }
        assert forall|q: Quadrant, b: Rectangle, d: ChunkData<P>, c: ChunkData<P>|
            inv(b, d) && predicate.ensures((&b, &d), false) && q != Quadrant::ROOT
                && #[trigger] create_data.ensures((q, &quadrant_bounds(b, q), &d), c) implies inv(
            quadrant_bounds(b, q),
            c,
        ) by {
            lemma_wide_leaf_is_shallow(b.spec_width(), d.hash@.depth as nat, radius);
            lemma_leaf_side(axis, radius, b, d);
            lemma_child_width(b, q, d.hash@.depth as nat, radius);
            lemma_child_on_own_grid(b, q, radius);
            lemma_quadrant_within(b, q);
        }
    }
    new_node.insert_with_impl(&predicate, &create_data, Ghost(inv));
    proof {
        QuadTreeNode::lemma_grows_to_weaken(
            root_leaf,
            new_node,
            decided_by(predicate),
            made_by(create_data),
            halts(*beyond),
            child_data(axis, radius, *center_on_sphere),
        );
    }
    new_node
}

impl<P> CubeTree<P> {
    /// The leaves of all six faces, face after face.
    pub open spec fn leaves(self) -> Seq<(Rectangle, ChunkData<P>)> {
        leaves_from(self.faces@, 0)
    }

    /// The axis of the face at `i`.
    pub open spec fn axis_at(i: int) -> Axis {
        Axis::of_code(i as u32)
    }

    /// The terrain of a body with this half-extent before any refinement:
    /// every face is a single leaf over the whole face, with the identity of
    /// an unsubdivided face and the center that `center_on_sphere` gives.
    pub fn new<C>(radius: i64, center_on_sphere: C) -> (tree: Self) where
        C: Fn(Axis, i64, &Rectangle) -> P,

        requires
            radius >= 0,
            forall|a: Axis, b: Rectangle| #[trigger] center_on_sphere.requires((a, radius, &b)),
        ensures
            tree.radius == radius,
            forall|i: int|
                0 <= i < 6 ==> (#[trigger] tree.faces[i] matches QuadTreeNode::Leaf {
                    bounds,
                    data,
                } && bounds == root_bounds(radius) && data.hash@ == (ChunkHashView {
                    axis: Self::axis_at(i),
                    depth: 0,
                    collider: false,
                    path: Seq::new(7, |i: int| Quadrant::ROOT),
                }) && data.hash.bits() == Self::axis_at(i).code() && center_on_sphere.ensures(
                    (Self::axis_at(i), radius, &bounds),
                    data.center,
                )),
            tree.leaves().len() == 6,
    {
        let bounds = Rectangle::from_center_half_size(Point2::splat(0), Point2::splat(radius));
        proof {
            reveal_with_fuel(leaves_from, 7);
        }
        let tree = CubeTree {
            radius,
            faces: [
                QuadTreeNode::new(bounds, ChunkData::new_root(Axis::X, &bounds, radius, &center_on_sphere)),
                QuadTreeNode::new(bounds, ChunkData::new_root(Axis::Y, &bounds, radius, &center_on_sphere)),
                QuadTreeNode::new(bounds, ChunkData::new_root(Axis::Z, &bounds, radius, &center_on_sphere)),
                QuadTreeNode::new(bounds, ChunkData::new_root(Axis::NegX, &bounds, radius, &center_on_sphere)),
                QuadTreeNode::new(bounds, ChunkData::new_root(Axis::NegY, &bounds, radius, &center_on_sphere)),
                QuadTreeNode::new(bounds, ChunkData::new_root(Axis::NegZ, &bounds, radius, &center_on_sphere)),
            ],
        };
        tree
    }

    /// Rebuilds all six faces around a viewer. Every face starts again from
    /// a single leaf and is refined: a leaf at the minimum size stays and
    /// carries the collider flag; any other leaf stays where `beyond` says
    /// that the viewer is farther from the leaf's center than the leaf's
    /// reach, and is subdivided otherwise.
    ///
    /// `beyond(center, numerator, denominator)` answers whether the viewer's
    /// distance from `center`, in units, is greater than
    /// `numerator / denominator`.
    ///
    /// A leaf `k` levels deep is a square with the side of the face divided
    /// by two to the power of `k`, exactly.
    pub fn insert<C, F>(&mut self, center_on_sphere: C, beyond: F) where
        C: Fn(Axis, i64, &Rectangle) -> P,
        F: Fn(&P, i128, i128) -> bool,

        requires
            old(self).radius >= 0,
            forall|a: Axis, b: Rectangle| #[trigger]
                center_on_sphere.requires((a, old(self).radius, &b)),
            forall|c: P, n: i128, d: i128| #[trigger] beyond.requires((&c, n, d)),
        ensures
            final(self).radius == old(self).radius,
            forall|i: int|
                0 <= i < 6 ==> is_refined_face(
                    Self::axis_at(i),
                    final(self).radius,
                    #[trigger] final(self).faces[i],
                    center_on_sphere,
                    beyond,
                ),
            forall|i: int| 0 <= i < 6 ==> (#[trigger] final(self).faces[i]).wf(),
            forall|i: int|
                0 <= i < 6 ==> (#[trigger] final(self).faces[i]).spec_bounds() == root_bounds(
                    final(self).radius,
                ),
            forall|i: int|
                0 <= i < 6 ==> (#[trigger] final(self).faces[i]).leaves_satisfy(
                    leaf_in_face(Self::axis_at(i), final(self).radius),
                ),
    {
        let radius = self.radius;
        self.faces = [
            refine_face(Axis::X, radius, &center_on_sphere, &beyond),
            refine_face(Axis::Y, radius, &center_on_sphere, &beyond),
            refine_face(Axis::Z, radius, &center_on_sphere, &beyond),
            refine_face(Axis::NegX, radius, &center_on_sphere, &beyond),
            refine_face(Axis::NegY, radius, &center_on_sphere, &beyond),
            refine_face(Axis::NegZ, radius, &center_on_sphere, &beyond),
        ];
    }

    /// The quadtree of the face `axis`.
    pub fn face(&self, axis: Axis) -> (face: &CubeTreeNode<P>)
        ensures
            *face == self.faces[axis.code() as int],
    {
        &self.faces[axis.index()]
    }
}

impl<P: Clone> Clone for CubeTree<P> {
    fn clone(&self) -> (copy: Self)
        ensures
            copy.radius == self.radius,
            forall|i: int| 0 <= i < 6 ==> (#[trigger] self.faces[i]).cloned_to(copy.faces[i]),
    {
        CubeTree {
            radius: self.radius,
            faces: [
                self.faces[0].clone(),
                self.faces[1].clone(),
                self.faces[2].clone(),
                self.faces[3].clone(),
                self.faces[4].clone(),
                self.faces[5].clone(),
            ],
        }
    }
}

/// Every leaf of a refined face is at the minimum size or out of the
/// viewer's reach: a leaf that is wider than the minimum size is one for
/// which `beyond` may say that the viewer is farther from its center than
/// its reach.
pub proof fn lemma_refined_leaves_are_far_or_small<P, C: Fn(Axis, i64, &Rectangle) -> P, F: Fn(&P, i128, i128) -> bool>(
    axis: Axis,
    radius: i64,
    face: CubeTreeNode<P>,
    center_on_sphere: C,
    beyond: F,
    i: int,
)
    requires
        is_refined_face(axis, radius, face, center_on_sphere, beyond),
        0 <= i < face.leaves().len(),
    ensures
        is_small(face.leaves()[i].0) || beyond.ensures(
            (&face.leaves()[i].1.center, reach_numerator(face.leaves()[i].0), REACH_DENOMINATOR),
            true,
        ),
{
    let made = child_data(axis, radius, center_on_sphere);
    let root = choose|root: ChunkData<P>|
        {
            &&& center_on_sphere.ensures((axis, radius, &root_bounds(radius)), root.center)
            &&& root.hash@ == root_identity(axis, radius)
            &&& root.hash.wf()
            &&& #[trigger] QuadTreeNode::grows_to(
                QuadTreeNode::Leaf { bounds: root_bounds(radius), data: root },
                face,
                halts(beyond),
                made,
            )
        };
    QuadTreeNode::lemma_grown_leaves_are_accepted(
        QuadTreeNode::Leaf { bounds: root_bounds(radius), data: root },
        face,
        halts(beyond),
        made,
        i,
    );
}

/// Far away the face falls back to a single leaf: where the face is wider
/// than the minimum size and `beyond` never says that the viewer is within
/// the reach of the whole face, the refined face is one leaf over the
/// whole face, with the identity of an unsubdivided face.
pub proof fn lemma_far_viewer_keeps_root<P, C: Fn(Axis, i64, &Rectangle) -> P, F: Fn(&P, i128, i128) -> bool>(
    axis: Axis,
    radius: i64,
    face: CubeTreeNode<P>,
    center_on_sphere: C,
    beyond: F,
)
    requires
        is_refined_face(axis, radius, face, center_on_sphere, beyond),
        !is_small(root_bounds(radius)),
        forall|c: P| #[trigger]
            center_on_sphere.ensures((axis, radius, &root_bounds(radius)), c) ==> !beyond.ensures(
                (&c, reach_numerator(root_bounds(radius)), REACH_DENOMINATOR),
                false,
            ),
    ensures
        face matches QuadTreeNode::Leaf { bounds, data } && bounds == root_bounds(radius)
            && data.hash@ == root_identity(axis, radius),
{
}

/// The two functions that refinement asks give one answer each: the center
/// of given bounds is one point, and the viewer is or is not beyond a given
/// reach.
pub open spec fn answers_are_single<P, C: Fn(Axis, i64, &Rectangle) -> P, F: Fn(&P, i128, i128) -> bool>(
    center_on_sphere: C,
    beyond: F,
) -> bool {
    &&& forall|a: Axis, r: i64, b: Rectangle, c1: P, c2: P|
        #[trigger] center_on_sphere.ensures((a, r, &b), c1) && #[trigger] center_on_sphere.ensures(
            (a, r, &b),
            c2,
        ) ==> c1 == c2
    &&& forall|c: P, n: i128, d: i128|
        !(#[trigger] beyond.ensures((&c, n, d), true) && beyond.ensures((&c, n, d), false))
}

proof fn lemma_face_relations_single<P, C: Fn(Axis, i64, &Rectangle) -> P, F: Fn(&P, i128, i128) -> bool>(
    axis: Axis,
    radius: i64,
    center_on_sphere: C,
    beyond: F,
)
    requires
        answers_are_single(center_on_sphere, beyond),
    ensures
        single_answer(halts(beyond)),
        single_value(child_data(axis, radius, center_on_sphere)),
{
    let made = child_data(axis, radius, center_on_sphere);
    assert forall|q: Quadrant, b: Rectangle, p: ChunkData<P>, c1: ChunkData<P>, c2: ChunkData<P>|
        #[trigger] made(q, b, p, c1) && #[trigger] made(q, b, p, c2) implies c1 == c2 by {
        lemma_identity(c1.hash, c2.hash);
    }
}

/// Refinement is determined by the viewer: two refinements of the same face
/// under the same two functions, each of which gives one answer, are the
/// same tree, and so hold the same leaves with the same identities.
pub proof fn lemma_refinement_is_determined<P, C: Fn(Axis, i64, &Rectangle) -> P, F: Fn(&P, i128, i128) -> bool>(
    axis: Axis,
    radius: i64,
    first: CubeTreeNode<P>,
    second: CubeTreeNode<P>,
    center_on_sphere: C,
    beyond: F,
)
    requires
        answers_are_single(center_on_sphere, beyond),
        is_refined_face(axis, radius, first, center_on_sphere, beyond),
        is_refined_face(axis, radius, second, center_on_sphere, beyond),
    ensures
        first == second,
        first.leaves() == second.leaves(),
{
    let stop = halts(beyond);
    let made = child_data(axis, radius, center_on_sphere);
    let r1 = choose|root: ChunkData<P>|
        {
            &&& center_on_sphere.ensures((axis, radius, &root_bounds(radius)), root.center)
            &&& root.hash@ == root_identity(axis, radius)
            &&& root.hash.wf()
            &&& #[trigger] QuadTreeNode::grows_to(
                QuadTreeNode::Leaf { bounds: root_bounds(radius), data: root },
                first,
                stop,
                made,
            )
        };
    let r2 = choose|root: ChunkData<P>|
        {
            &&& center_on_sphere.ensures((axis, radius, &root_bounds(radius)), root.center)
            &&& root.hash@ == root_identity(axis, radius)
            &&& root.hash.wf()
            &&& #[trigger] QuadTreeNode::grows_to(
                QuadTreeNode::Leaf { bounds: root_bounds(radius), data: root },
                second,
                stop,
                made,
            )
        };
    lemma_identity(r1.hash, r2.hash);
    assert(r1 == r2);
    lemma_face_relations_single(axis, radius, center_on_sphere, beyond);
    QuadTreeNode::lemma_grows_to_unique(
        QuadTreeNode::Leaf { bounds: root_bounds(radius), data: r1 },
        first,
        second,
        stop,
        made,
    );
}

/// Refinement is monotone in the viewer's distance: if, wherever the
/// viewer of one refinement may be beyond a leaf's reach, the viewer of
/// another one is never within it, then the first refinement is at least as
/// fine as the second, and the leaf that covers a point of the face lies at
/// least as deep in the first as in the second.
pub proof fn lemma_refinement_is_monotone<P, C: Fn(Axis, i64, &Rectangle) -> P, F: Fn(&P, i128, i128) -> bool, G: Fn(&P, i128, i128) -> bool>(
    axis: Axis,
    radius: i64,
    fine: CubeTreeNode<P>,
    coarse: CubeTreeNode<P>,
    center_on_sphere: C,
    near: F,
    far: G,
    p: Point2,
)
    requires
        answers_are_single(center_on_sphere, near),
        forall|c: P, n: i128, d: i128| #[trigger]
            near.ensures((&c, n, d), true) ==> !far.ensures((&c, n, d), false),
        is_refined_face(axis, radius, fine, center_on_sphere, near),
        is_refined_face(axis, radius, coarse, center_on_sphere, far),
    ensures
        fine.at_least_as_fine_as(coarse),
        fine.depth_at(p) >= coarse.depth_at(p),
{
    let made = child_data(axis, radius, center_on_sphere);
    let r1 = choose|root: ChunkData<P>|
        {
            &&& center_on_sphere.ensures((axis, radius, &root_bounds(radius)), root.center)
            &&& root.hash@ == root_identity(axis, radius)
            &&& root.hash.wf()
            &&& #[trigger] QuadTreeNode::grows_to(
                QuadTreeNode::Leaf { bounds: root_bounds(radius), data: root },
                fine,
                halts(near),
                made,
            )
        };
    let r2 = choose|root: ChunkData<P>|
        {
            &&& center_on_sphere.ensures((axis, radius, &root_bounds(radius)), root.center)
            &&& root.hash@ == root_identity(axis, radius)
            &&& root.hash.wf()
            &&& #[trigger] QuadTreeNode::grows_to(
                QuadTreeNode::Leaf { bounds: root_bounds(radius), data: root },
                coarse,
                halts(far),
                made,
            )
        };
    lemma_identity(r1.hash, r2.hash);
    assert(r1 == r2);
    lemma_face_relations_single(axis, radius, center_on_sphere, near);
    assert(stops_no_later(halts(far), halts(near)));
    QuadTreeNode::lemma_grows_to_monotone(
        QuadTreeNode::Leaf { bounds: root_bounds(radius), data: r1 },
        fine,
        coarse,
        halts(near),
        halts(far),
        made,
    );
    fine.lemma_finer_is_deeper(coarse, p);
}

/// Refinement is monotone where it matters for a point. Let `p` be a point
/// of a face, and let it hold of every cell that covers `p`, with the
/// center that `center_on_sphere` gives for it: where the viewer of one
/// refinement may be beyond the reach of the cell, the viewer of another
/// one is never within it. Then the leaf that covers `p` lies at least as
/// deep in the first refinement as in the second. Cells that do not cover
/// `p` do not count.
pub proof fn lemma_refinement_is_monotone_at<P, C: Fn(Axis, i64, &Rectangle) -> P, F: Fn(&P, i128, i128) -> bool, G: Fn(&P, i128, i128) -> bool>(
    axis: Axis,
    radius: i64,
    fine: CubeTreeNode<P>,
    coarse: CubeTreeNode<P>,
    center_on_sphere: C,
    near: F,
    far: G,
    p: Point2,
)
    requires
        radius >= 0,
        answers_are_single(center_on_sphere, near),
        forall|b: Rectangle, c: P|
            b.spec_contains(p) && center_on_sphere.ensures((axis, radius, &b), c)
                && #[trigger] near.ensures((&c, reach_numerator(b), REACH_DENOMINATOR), true)
                ==> !far.ensures((&c, reach_numerator(b), REACH_DENOMINATOR), false),
        is_refined_face(axis, radius, fine, center_on_sphere, near),
        is_refined_face(axis, radius, coarse, center_on_sphere, far),
    ensures
        fine.depth_at(p) >= coarse.depth_at(p),
{
    let made = child_data(axis, radius, center_on_sphere);
    let inv = |b: Rectangle, d: ChunkData<P>|
        center_on_sphere.ensures((axis, radius, &b), d.center);
    let r1 = choose|root: ChunkData<P>|
        {
            &&& center_on_sphere.ensures((axis, radius, &root_bounds(radius)), root.center)
            &&& root.hash@ == root_identity(axis, radius)
            &&& root.hash.wf()
            &&& #[trigger] QuadTreeNode::grows_to(
                QuadTreeNode::Leaf { bounds: root_bounds(radius), data: root },
                fine,
                halts(near),
                made,
            )
        };
    let r2 = choose|root: ChunkData<P>|
        {
            &&& center_on_sphere.ensures((axis, radius, &root_bounds(radius)), root.center)
            &&& root.hash@ == root_identity(axis, radius)
            &&& root.hash.wf()
            &&& #[trigger] QuadTreeNode::grows_to(
                QuadTreeNode::Leaf { bounds: root_bounds(radius), data: root },
                coarse,
                halts(far),
                made,
            )
        };
    lemma_identity(r1.hash, r2.hash);
    assert(r1 == r2);
    lemma_face_relations_single(axis, radius, center_on_sphere, near);
    assert(handed_on(inv, made));
    assert(stops_no_later_at(halts(far), halts(near), inv, p)) by {
        assert forall|b: Rectangle, d: ChunkData<P>|
            b.spec_contains(p) && inv(b, d) && #[trigger] halts(near)(b, d, true) implies !halts(
            far,
        )(b, d, false) by {
            if !is_small(b) {
                assert(near.ensures((&d.center, reach_numerator(b), REACH_DENOMINATOR), true));
            }
        }
    }
    let before = QuadTreeNode::Leaf { bounds: root_bounds(radius), data: r1 };
    assert(before.wf());
    QuadTreeNode::lemma_grows_to_deeper_at(
        before,
        fine,
        coarse,
        halts(near),
        halts(far),
        made,
        inv,
        p,
    );
}

/// A traversal of the leaves of all six faces, face after face, one leaf
/// per call of `next`.
pub struct CubeTreeIter<'a, P, const CAPACITY: usize> {
    index: usize,
    faces: &'a [CubeTreeNode<P>; 6],
    chunk_iter: QuadTreeLeafIter<'a, ChunkData<P>, CAPACITY>,
}

impl<'a, P, const CAPACITY: usize> CubeTreeIter<'a, P, CAPACITY> {
    /// The leaves that `next` has still to hand out, in order.
    pub closed spec fn remaining(self) -> Seq<(Rectangle, ChunkData<P>)> {
        self.chunk_iter.remaining() + leaves_from(self.faces@, self.index + 1)
    }

    /// A traversal of the leaves of `cube_tree`.
    pub fn new(cube_tree: &'a CubeTree<P>) -> (it: Self)
        ensures
            it.remaining() == cube_tree.leaves(),
    {
        CubeTreeIter {
            index: 0,
            faces: &cube_tree.faces,
            chunk_iter: QuadTreeLeafIter::new(&cube_tree.faces[0]),
        }
    }

    /// Hands out the next leaf, its bounds and its data, or `None` once all
    /// leaves have been handed out.
    pub fn next(&mut self) -> (r: Option<(&'a Rectangle, &'a ChunkData<P>)>)
        ensures
            old(self).remaining().len() == 0 ==> r is None && final(self).remaining().len() == 0,
            old(self).remaining().len() > 0 ==> (r matches Some((b, d)) && (*b, *d) == old(
                self,
            ).remaining()[0]),
            old(self).remaining().len() > 0 ==> final(self).remaining() == old(
                self,
            ).remaining().drop_first(),
    {
        loop
            invariant
                self.remaining() == old(self).remaining(),
            decreases 6 - self.index, self.chunk_iter.remaining().len() + 1,
        {
            let ghost before = self.chunk_iter.remaining();
            let ghost rest = leaves_from(self.faces@, self.index + 1);
            match self.chunk_iter.next() {
                Some((bounds, data)) => {
                    proof {
                        assert((before + rest).drop_first() =~= before.drop_first() + rest);
                    }
                    return Some((bounds, data));
                },
                None => {
                    if self.index < 5 {
                        self.index += 1;
                        self.chunk_iter = QuadTreeLeafIter::new(&self.faces[self.index]);
                        proof {
                            assert(before + rest =~= rest);
                        }
                    } else {
                        proof {
                            assert(before + rest =~= rest);
                        }
                        return None;
                    }
                },
            }
        }
    }
}

/// `kept` holds, in order, the leaves of `leaves` that `keep` answers yes
/// for, and leaves out those that it answers no for.
pub open spec fn is_selection<P, F: Fn(&Rectangle, &ChunkData<P>) -> bool>(
    leaves: Seq<(Rectangle, ChunkData<P>)>,
    kept: Seq<(Rectangle, ChunkData<P>)>,
    keep: F,
) -> bool
    decreases leaves.len(),
{
    if leaves.len() == 0 {
        kept.len() == 0
    } else {
        let (b, d) = leaves.last();
        ||| (keep.ensures((&b, &d), false) && is_selection(leaves.drop_last(), kept, keep))
        ||| (keep.ensures((&b, &d), true) && kept.len() > 0 && kept.last() == (b, d)
            && is_selection(leaves.drop_last(), kept.drop_last(), keep))
    }
}

/// The leaves that a list of references to bounds and data points to.
pub open spec fn leaves_of<P>(refs: Seq<(&Rectangle, &ChunkData<P>)>) -> Seq<
    (Rectangle, ChunkData<P>),
> {
    refs.map_values(|r: (&Rectangle, &ChunkData<P>)| (*r.0, *r.1))
}

impl<P> CubeTree<P> {
    /// Returns a traversal of the leaves of all six faces.
    pub fn iter(&self) -> (it: CubeTreeIter<'_, P, 512>)
        ensures
            it.remaining() == self.leaves(),
    {
        CubeTreeIter::new(self)
    }

    /// Returns a traversal with a custom stack size for performance tuning.
    pub fn iter_with_capacity<const CAPACITY: usize>(&self) -> (it: CubeTreeIter<'_, P, CAPACITY>)
        ensures
            it.remaining() == self.leaves(),
    {
        CubeTreeIter::new(self)
    }

    /// The leaves that are worth a chunk: those of all the leaves, in their
    /// order, that `visible` answers yes for. This is where the far side of
    /// the body is left out.
    pub fn visible_leaves<F>(&self, visible: F) -> (kept: Vec<(&Rectangle, &ChunkData<P>)>) where
        F: Fn(&Rectangle, &ChunkData<P>) -> bool,

        requires
            forall|b: Rectangle, d: ChunkData<P>| #[trigger] visible.requires((&b, &d)),
        ensures
            is_selection(self.leaves(), leaves_of(kept@), visible),
    {
        let mut kept: Vec<(&Rectangle, &ChunkData<P>)> = Vec::new();
        let mut it = self.iter();
        let ghost mut seen: Seq<(Rectangle, ChunkData<P>)> = Seq::empty();
        proof {
            assert(seen + it.remaining() =~= self.leaves());
            assert(leaves_of(kept@) =~= Seq::empty());
        }
        loop
            invariant
                forall|b: Rectangle, d: ChunkData<P>| #[trigger] visible.requires((&b, &d)),
                seen + it.remaining() == self.leaves(),
                is_selection(seen, leaves_of(kept@), visible),
            decreases it.remaining().len(),
        {
            let ghost upcoming = it.remaining();
            let ghost kept_before = leaves_of(kept@);
            match it.next() {
                None => {
                    proof {
                        assert(seen + upcoming =~= seen);
                    }
                    return kept;
                },
                Some((bounds, data)) => {
                    let ghost leaf = (*bounds, *data);
                    let ghost seen_next = seen.push(leaf);
                    proof {
                        assert(seen_next.drop_last() =~= seen);
                        assert(seen_next + upcoming.drop_first() =~= seen + upcoming);
                    }
                    if visible(bounds, data) {
                        kept.push((bounds, data));
                        proof {
                            assert(leaves_of(kept@) =~= kept_before.push(leaf));
                            assert(leaves_of(kept@).drop_last() =~= kept_before);
                        }
                    }
                    proof {
                        seen = seen_next;
                    }
                },
            }
        }
    }
}

} // verus!
