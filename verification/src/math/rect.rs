use vstd::arithmetic::power2::{lemma2_to64_rest, lemma_pow2_pos, lemma_pow2_unfold, pow2};
use vstd::prelude::*;

verus! {

/// The number of binary places behind the point of a coordinate.
pub const FRACTION_BITS: u32 = 60;

/// The number of steps in one unit: two to the power of `FRACTION_BITS`.
pub const UNIT: i128 = 0x1000_0000_0000_0000;

/// The largest coordinate, taken without its sign, that the rectangles of
/// this module compute with, in steps. Every whole number of units that 64
/// bits hold lies within it, and sums and differences of two coordinates
/// within it are still held by 128 bits.
pub const COORD_LIMIT: i128 = 0x1000_0000_0000_0000_0000_0000_0000_0000;

/// A point of the plane. Its coordinates are fixed-point numbers, held as
/// whole numbers of steps, `UNIT` steps to the unit: halving a whole number
/// of units sixty times over loses nothing.
#[derive(Copy, Clone, Debug, PartialEq, Eq, Hash, Structural)]
pub struct Point2 {
    pub x: i128,
    pub y: i128,
}

/// Width and height of a rectangle, in steps. Negative for a rectangle
/// whose corners are swapped.
#[derive(Copy, Clone, Debug, PartialEq, Eq, Hash, Structural)]
pub struct Extent2 {
    pub x: i128,
    pub y: i128,
}

/// An axis-aligned rectangle given by its minimum and maximum corner.
#[derive(Copy, Clone, Debug, PartialEq, Eq, Hash, Structural)]
pub struct Rectangle {
    /// The minimum corner point of the rect.
    pub min: Point2,
    /// The maximum corner point of the rect.
    pub max: Point2,
}

/// The smaller of two coordinates.
pub open spec fn min_coord(a: i128, b: i128) -> i128 {
    if a <= b {
        a
    } else {
        b
    }
}

/// The larger of two coordinates.
pub open spec fn max_coord(a: i128, b: i128) -> i128 {
    if a >= b {
        a
    } else {
        b
    }
}

/// The midpoint of two coordinates; rounded down where their sum is odd.
pub open spec fn mid_coord(a: i128, b: i128) -> int {
    (a + b) / 2
}

/// The coordinate lies within the limit.
pub open spec fn coord_in_range(a: i128) -> bool {
    -COORD_LIMIT <= a <= COORD_LIMIT
}

/// The coordinate is a whole multiple of two to the power of `bits` steps.
pub open spec fn on_grid(a: int, bits: nat) -> bool {
    a % (pow2(bits) as int) == 0
}

/// What lies on a grid, and the point halfway between two points of it, lie
/// on the grid of half the spacing, and the sum of two points of a grid is
/// even.
pub proof fn lemma_grid_halves(a: int, b: int, bits: nat)
    requires
        bits >= 1,
        on_grid(a, bits),
        on_grid(b, bits),
    ensures
        (a + b) % 2 == 0,
        (b - a) % 2 == 0,
        on_grid(a, (bits - 1) as nat),
        on_grid((a + b) / 2, (bits - 1) as nat),
{
    let p = pow2((bits - 1) as nat) as int;
    lemma_pow2_unfold(bits);
    lemma_pow2_pos((bits - 1) as nat);
    assert(pow2(bits) == 2 * p);
    let m = a / (2 * p);
    let n = b / (2 * p);
    assert(a == (2 * p) * m && b == (2 * p) * n) by (nonlinear_arith)
        requires
            p > 0,
            a % (2 * p) == 0,
            b % (2 * p) == 0,
            m == a / (2 * p),
            n == b / (2 * p),
    ;
    assert(a == 2 * (p * m) && b == 2 * (p * n)) by (nonlinear_arith)
        requires
            a == (2 * p) * m,
            b == (2 * p) * n,
    ;
    assert((a + b) / 2 == p * (m + n)) by (nonlinear_arith)
        requires
            a == 2 * (p * m),
            b == 2 * (p * n),
    ;
    vstd::arithmetic::div_mod::lemma_mod_multiples_basic(2 * m, p);
    vstd::arithmetic::div_mod::lemma_mod_multiples_basic(m + n, p);
    assert(a == (2 * m) * p && (a + b) / 2 == (m + n) * p) by (nonlinear_arith)
        requires
            a == (2 * p) * m,
            (a + b) / 2 == p * (m + n),
    ;
}

fn lower(a: i128, b: i128) -> (r: i128)
    ensures
        r == min_coord(a, b),
{
    if a <= b {
        a
    } else {
        b
    }
}

fn upper(a: i128, b: i128) -> (r: i128)
    ensures
        r == max_coord(a, b),
{
    if a >= b {
        a
    } else {
        b
    }
}

fn halved(a: i128) -> (r: i128)
    requires
        -2 * COORD_LIMIT <= a <= 2 * COORD_LIMIT,
    ensures
        r == a / 2,
{
    if a >= 0 {
        a / 2
    } else {
        // Round towards minus infinity, as the mathematical quotient does.
        -((1 - a) / 2)
    }
}

impl Point2 {
    /// Both coordinates lie within the limit.
    pub open spec fn in_range(self) -> bool {
        coord_in_range(self.x) && coord_in_range(self.y)
    }

    /// The point with these coordinates, given in whole units.
    pub fn new(x: i64, y: i64) -> (p: Point2)
        ensures
            p == (Point2 { x: (x * UNIT) as i128, y: (y * UNIT) as i128 }),
            p.in_range(),
    {
        Point2 { x: x as i128 * UNIT, y: y as i128 * UNIT }
    }

    /// The point with both coordinates equal to `v` units.
    pub fn splat(v: i64) -> (p: Point2)
        ensures
            p == (Point2 { x: (v * UNIT) as i128, y: (v * UNIT) as i128 }),
            p.in_range(),
    {
        Point2 { x: v as i128 * UNIT, y: v as i128 * UNIT }
    }

    /// The point with these coordinates, given in steps.
    pub fn from_steps(x: i128, y: i128) -> (p: Point2)
        ensures
            p == (Point2 { x, y }),
    {
        Point2 { x, y }
    }
}

impl Rectangle {
    /// All four coordinates lie within the limit.
    pub open spec fn in_range(self) -> bool {
        self.min.in_range() && self.max.in_range()
    }

    /// The corners are in order, so that the rectangle is not inside out,
    /// and lie within the limit.
    pub open spec fn wf(self) -> bool {
        self.min.x <= self.max.x && self.min.y <= self.max.y && self.in_range()
    }

    /// The maximum x less the minimum x, in steps.
    pub open spec fn spec_width(self) -> int {
        self.max.x - self.min.x
    }

    /// The maximum y less the minimum y, in steps.
    pub open spec fn spec_height(self) -> int {
        self.max.y - self.min.y
    }

    /// Width times height.
    pub open spec fn area(self) -> int {
        self.spec_width() * self.spec_height()
    }

    /// The point halfway between the corners; a coordinate is rounded down
    /// where the side along it is an odd number of steps long.
    pub open spec fn spec_center(self) -> Point2 {
        Point2 {
            x: mid_coord(self.min.x, self.max.x) as i128,
            y: mid_coord(self.min.y, self.max.y) as i128,
        }
    }

    /// Both sides are an even number of steps long, and the coordinates lie
    /// within the limit: the center is the exact midpoint, and the four
    /// quadrants have exactly half the width and half the height.
    pub open spec fn halves_exactly(self) -> bool {
        self.in_range() && self.spec_width() % 2 == 0 && self.spec_height() % 2 == 0
    }

    /// The rectangle can be refined: it halves exactly and has some extent,
    /// so that its quadrants are smaller than it is.
    pub open spec fn can_refine(self) -> bool {
        self.halves_exactly() && self.span() > 0
    }

    /// All four coordinates lie on the grid of two to the power of `bits`
    /// steps, and within the limit. Such a rectangle can be halved `bits`
    /// times over, exactly.
    pub open spec fn on_grid(self, bits: nat) -> bool {
        &&& self.in_range()
        &&& on_grid(self.min.x as int, bits)
        &&& on_grid(self.min.y as int, bits)
        &&& on_grid(self.max.x as int, bits)
        &&& on_grid(self.max.y as int, bits)
    }

    /// The rectangle spanned by two opposite corners, in either order.
    pub open spec fn spec_from_corners(a: Point2, b: Point2) -> Rectangle {
        Rectangle {
            min: Point2 { x: min_coord(a.x, b.x), y: min_coord(a.y, b.y) },
            max: Point2 { x: max_coord(a.x, b.x), y: max_coord(a.y, b.y) },
        }
    }

    /// The point lies in the rectangle, edges included.
    pub open spec fn spec_contains(self, p: Point2) -> bool {
        self.min.x <= p.x <= self.max.x && self.min.y <= p.y <= self.max.y
    }

    /// `other` lies wholly within `self`, edges included.
    pub open spec fn encloses(self, other: Rectangle) -> bool {
        &&& self.min.x <= other.min.x
        &&& self.min.y <= other.min.y
        &&& other.max.x <= self.max.x
        &&& other.max.y <= self.max.y
    }

    /// The two rectangles share more than edge points: their interiors meet.
    pub open spec fn overlaps(self, other: Rectangle) -> bool {
        &&& self.min.x < other.max.x
        &&& other.min.x < self.max.x
        &&& self.min.y < other.max.y
        &&& other.min.y < self.max.y
    }

    /// The longer of the two sides, each taken without its sign.
    pub open spec fn span(self) -> nat {
        let w = if self.spec_width() >= 0 {
            self.spec_width()
        } else {
            -self.spec_width()
        };
        let h = if self.spec_height() >= 0 {
            self.spec_height()
        } else {
            -self.spec_height()
        };
        if w >= h {
            w as nat
        } else {
            h as nat
        }
    }

    /// Create a new rectangle from two corner points, given in whole units.
    ///
    /// The two points do not need to be the minimum and/or maximum corners.
    /// They only need to be two opposite corners.
    pub fn new(x0: i64, y0: i64, x1: i64, y1: i64) -> (r: Rectangle)
        ensures
            r == Self::spec_from_corners(
                Point2 { x: (x0 * UNIT) as i128, y: (y0 * UNIT) as i128 },
                Point2 { x: (x1 * UNIT) as i128, y: (y1 * UNIT) as i128 },
            ),
            r.wf(),
            r.on_grid(FRACTION_BITS as nat),
            r.halves_exactly(),
    {
        proof {
            lemma2_to64_rest();
        }
        Self::from_corners(Point2::new(x0, y0), Point2::new(x1, y1))
    }

    /// Create a new rectangle from two corner points.
    ///
    /// The two points do not need to be the minimum and/or maximum corners.
    /// They only need to be two opposite corners.
    pub fn from_corners(a: Point2, b: Point2) -> (r: Rectangle)
        ensures
            r == Self::spec_from_corners(a, b),
            r.min.x <= r.max.x && r.min.y <= r.max.y,
            a.in_range() && b.in_range() ==> r.wf(),
    {
        Rectangle {
            min: Point2 { x: lower(a.x, b.x), y: lower(a.y, b.y) },
            max: Point2 { x: upper(a.x, b.x), y: upper(a.y, b.y) },
        }
    }

    /// Create a new rectangle from its center and size. The half-size is the
    /// size halved and rounded down.
    pub fn from_center_size(origin: Point2, size: Point2) -> (r: Rectangle)
        requires
            size.x >= 0,
            size.y >= 0,
            origin.in_range(),
            size.in_range(),
        ensures
            r.min == (Point2 { x: (origin.x - size.x / 2) as i128, y: (origin.y - size.y / 2) as i128 }),
            r.max == (Point2 { x: (origin.x + size.x / 2) as i128, y: (origin.y + size.y / 2) as i128 }),
            r.min.x <= r.max.x && r.min.y <= r.max.y,
    {
        let half_size = Point2 { x: size.x / 2, y: size.y / 2 };
        Self::from_center_half_size(origin, half_size)
    }

    /// Create a new rectangle from its center and half-size.
    pub fn from_center_half_size(origin: Point2, half_size: Point2) -> (r: Rectangle)
        requires
            half_size.x >= 0,
            half_size.y >= 0,
            origin.in_range(),
            half_size.in_range(),
        ensures
            r.min == (Point2 { x: (origin.x - half_size.x) as i128, y: (origin.y - half_size.y) as i128 }),
            r.max == (Point2 { x: (origin.x + half_size.x) as i128, y: (origin.y + half_size.y) as i128 }),
            r.min.x <= r.max.x && r.min.y <= r.max.y,
    {
        Rectangle {
            min: Point2 { x: origin.x - half_size.x, y: origin.y - half_size.y },
            max: Point2 { x: origin.x + half_size.x, y: origin.y + half_size.y },
        }
    }

    /// The rectangle that `union` leaves any other rectangle within the
    /// limit unchanged by: its minimum corner is the largest point within
    /// the limit and its maximum corner the smallest.
    pub fn empty() -> (r: Rectangle)
        ensures
            r.min == (Point2 { x: COORD_LIMIT, y: COORD_LIMIT }),
            r.max == (Point2 { x: (-COORD_LIMIT) as i128, y: (-COORD_LIMIT) as i128 }),
    {
        Rectangle {
            min: Point2 { x: COORD_LIMIT, y: COORD_LIMIT },
            max: Point2 { x: -COORD_LIMIT, y: -COORD_LIMIT },
        }
    }

    /// Check if the rectangle is empty: it has no width or no height.
    pub fn is_empty(&self) -> (b: bool)
        ensures
            b == (self.min.x >= self.max.x || self.min.y >= self.max.y),
    {
        self.min.x >= self.max.x || self.min.y >= self.max.y
    }

    /// Rectangle width (max.x - min.x), in steps.
    pub fn width(&self) -> (w: i128)
        requires
            self.in_range(),
        ensures
            w == self.spec_width(),
    {
        self.max.x - self.min.x
    }

    /// Rectangle height (max.y - min.y), in steps.
    pub fn height(&self) -> (h: i128)
        requires
            self.in_range(),
        ensures
            h == self.spec_height(),
    {
        self.max.y - self.min.y
    }

    /// Rectangle size, in steps.
    pub fn size(&self) -> (s: Extent2)
        requires
            self.in_range(),
        ensures
            s.x == self.spec_width(),
            s.y == self.spec_height(),
    {
        Extent2 { x: self.width(), y: self.height() }
    }

    /// Rectangle half-size, in steps; a side of odd length is halved and
    /// rounded down.
    pub fn half_size(&self) -> (s: Extent2)
        requires
            self.in_range(),
        ensures
            s.x == self.spec_width() / 2,
            s.y == self.spec_height() / 2,
    {
        Extent2 { x: halved(self.width()), y: halved(self.height()) }
    }

    /// The center point of the rectangle: the exact midpoint of a rectangle
    /// whose sides are an even number of steps long; a coordinate is
    /// rounded down where the side along it is odd.
    pub fn center(&self) -> (c: Point2)
        requires
            self.in_range(),
        ensures
            c == self.spec_center(),
            c.x == mid_coord(self.min.x, self.max.x),
            c.y == mid_coord(self.min.y, self.max.y),
            self.spec_width() % 2 == 0 ==> 2 * c.x == self.min.x + self.max.x,
            self.spec_height() % 2 == 0 ==> 2 * c.y == self.min.y + self.max.y,
    {
        Point2 {
            x: halved(self.min.x + self.max.x),
            y: halved(self.min.y + self.max.y),
        }
    }

    /// Check if a point lies within this rectangle, inclusive of its edges.
    pub fn contains(&self, point: Point2) -> (b: bool)
        ensures
            b == self.spec_contains(point),
    {
        self.min.x <= point.x && point.x <= self.max.x && self.min.y <= point.y && point.y
            <= self.max.y
    }

    /// Build a new rectangle formed of the union of this rectangle and another rectangle.
    ///
    /// The union is the smallest rectangle enclosing both rectangles.
    pub fn union(&self, other: Rectangle) -> (r: Rectangle)
        ensures
            r.min == (Point2 {
                x: min_coord(self.min.x, other.min.x),
                y: min_coord(self.min.y, other.min.y),
            }),
            r.max == (Point2 {
                x: max_coord(self.max.x, other.max.x),
                y: max_coord(self.max.y, other.max.y),
            }),
    {
        Rectangle {
            min: Point2 { x: lower(self.min.x, other.min.x), y: lower(self.min.y, other.min.y) },
            max: Point2 { x: upper(self.max.x, other.max.x), y: upper(self.max.y, other.max.y) },
        }
    }

    /// Build a new rectangle formed of the union of this rectangle and a point.
    ///
    /// The union is the smallest rectangle enclosing both the rectangle and the point. If the
    /// point is already inside the rectangle, this method returns a copy of the rectangle.
    pub fn union_point(&self, other: Point2) -> (r: Rectangle)
        ensures
            r.min == (Point2 {
                x: min_coord(self.min.x, other.x),
                y: min_coord(self.min.y, other.y),
            }),
            r.max == (Point2 {
                x: max_coord(self.max.x, other.x),
                y: max_coord(self.max.y, other.y),
            }),
            self.spec_contains(other) ==> r == *self,
    {
        Rectangle {
            min: Point2 { x: lower(self.min.x, other.x), y: lower(self.min.y, other.y) },
            max: Point2 { x: upper(self.max.x, other.x), y: upper(self.max.y, other.y) },
        }
    }

    /// Build a new rectangle formed of the intersection of this rectangle and another rectangle.
    ///
    /// The intersection is the largest rectangle enclosed in both rectangles. Where the two do
    /// not meet, the minimum corner is pulled back onto the maximum corner, so that the result
    /// never has a negative width or height.
    pub fn intersect(&self, other: Rectangle) -> (r: Rectangle)
        ensures
            r.max == (Point2 {
                x: min_coord(self.max.x, other.max.x),
                y: min_coord(self.max.y, other.max.y),
            }),
            r.min == (Point2 {
                x: min_coord(max_coord(self.min.x, other.min.x), r.max.x),
                y: min_coord(max_coord(self.min.y, other.min.y), r.max.y),
            }),
            r.min.x <= r.max.x && r.min.y <= r.max.y,
    {
        let max = Point2 { x: lower(self.max.x, other.max.x), y: lower(self.max.y, other.max.y) };
        let min = Point2 { x: upper(self.min.x, other.min.x), y: upper(self.min.y, other.min.y) };
        Rectangle { min: Point2 { x: lower(min.x, max.x), y: lower(min.y, max.y) }, max }
    }

    /// Create a new rectangle by expanding it evenly on all sides, by a
    /// number of steps.
    ///
    /// A positive expansion value produces a larger rectangle, while a negative expansion value
    /// produces a smaller rectangle. Where shrinking would turn the rectangle inside out, the
    /// minimum corner is pulled back onto the maximum corner.
    pub fn inflate(&self, expansion: i128) -> (r: Rectangle)
        requires
            self.in_range(),
            coord_in_range(expansion),
        ensures
            r.max == (Point2 { x: (self.max.x + expansion) as i128, y: (self.max.y + expansion) as i128 }),
            r.min == (Point2 {
                x: min_coord((self.min.x - expansion) as i128, r.max.x),
                y: min_coord((self.min.y - expansion) as i128, r.max.y),
            }),
            r.min.x <= r.max.x && r.min.y <= r.max.y,
    {
        let max = Point2 { x: self.max.x + expansion, y: self.max.y + expansion };
        let min = Point2 { x: self.min.x - expansion, y: self.min.y - expansion };
        Rectangle { min: Point2 { x: lower(min.x, max.x), y: lower(min.y, max.y) }, max }
    }
}

} // verus!
