use vstd::prelude::*;

verus! {

/// One of the six faces of the cube, named by the direction it faces.
#[derive(Copy, Clone, Debug, PartialEq, Eq, Hash, Structural)]
pub enum Axis {
    X,
    Y,
    Z,
    NegX,
    NegY,
    NegZ,
}

/// The cross product of two vectors.
pub open spec fn cross(a: [i8; 3], b: [i8; 3]) -> (int, int, int) {
    (a[1] * b[2] - a[2] * b[1], a[2] * b[0] - a[0] * b[2], a[0] * b[1] - a[1] * b[0])
}

/// The dot product of two vectors.
pub open spec fn dot(a: [i8; 3], b: [i8; 3]) -> int {
    a[0] * b[0] + a[1] * b[1] + a[2] * b[2]
}

impl Axis {
    /// The number an axis is stored as.
    pub open spec fn code(self) -> u32 {
        match self {
            Axis::X => 0,
            Axis::Y => 1,
            Axis::Z => 2,
            Axis::NegX => 3,
            Axis::NegY => 4,
            Axis::NegZ => 5,
        }
    }

    /// The axis stored as `code`; codes above five stand for nothing and
    /// read as `X`.
    pub open spec fn of_code(code: u32) -> Axis {
        if code == 1 {
            Axis::Y
        } else if code == 2 {
            Axis::Z
        } else if code == 3 {
            Axis::NegX
        } else if code == 4 {
            Axis::NegY
        } else if code == 5 {
            Axis::NegZ
        } else {
            Axis::X
        }
    }

    /// The unit vector along the axis.
    pub open spec fn normal(self) -> Seq<i8> {
        match self {
            Axis::X => seq![1i8, 0i8, 0i8],
            Axis::Y => seq![0i8, 1i8, 0i8],
            Axis::Z => seq![0i8, 0i8, 1i8],
            Axis::NegX => seq![-1i8, 0i8, 0i8],
            Axis::NegY => seq![0i8, -1i8, 0i8],
            Axis::NegZ => seq![0i8, 0i8, -1i8],
        }
    }

    /// The six axes, in the order of their codes.
    pub fn all() -> (r: [Axis; 6])
        ensures
            r@ == seq![Axis::X, Axis::Y, Axis::Z, Axis::NegX, Axis::NegY, Axis::NegZ],
            forall|i: int| 0 <= i < 6 ==> (#[trigger] r@[i]).code() == i,
    {
        let r = [Axis::X, Axis::Y, Axis::Z, Axis::NegX, Axis::NegY, Axis::NegZ];
        assert(r@ =~= seq![Axis::X, Axis::Y, Axis::Z, Axis::NegX, Axis::NegY, Axis::NegZ]);
        r
    }

    /// The number this axis is stored as.
    pub fn to_code(self) -> (r: u32)
        ensures
            r == self.code(),
            r <= 5,
    {
        match self {
            Axis::X => 0,
            Axis::Y => 1,
            Axis::Z => 2,
            Axis::NegX => 3,
            Axis::NegY => 4,
            Axis::NegZ => 5,
        }
    }

    /// The place of the axis in a list of the six faces.
    pub fn index(self) -> (r: usize)
        ensures
            r == self.code(),
            r < 6,
    {
        match self {
            Axis::X => 0,
            Axis::Y => 1,
            Axis::Z => 2,
            Axis::NegX => 3,
            Axis::NegY => 4,
            Axis::NegZ => 5,
        }
    }

    /// Reads a stored axis back. Only the codes zero to five stand for an
    /// axis.
    pub fn from_code(code: u32) -> (r: Axis)
        requires
            code <= 5,
        ensures
            r == Axis::of_code(code),
            r.code() == code,
    {
        if code == 1 {
            Axis::Y
        } else if code == 2 {
            Axis::Z
        } else if code == 3 {
            Axis::NegX
        } else if code == 4 {
            Axis::NegY
        } else if code == 5 {
            Axis::NegZ
        } else {
            Axis::X
        }
    }

    /// The unit vector along the axis, as its three whole components.
    pub fn to_array(&self) -> (r: [i8; 3])
        ensures
            r@ == self.normal(),
    {
        let r: [i8; 3] = match self {
            Axis::X => [1, 0, 0],
            Axis::Y => [0, 1, 0],
            Axis::Z => [0, 0, 1],
            Axis::NegX => [-1, 0, 0],
            Axis::NegY => [0, -1, 0],
            Axis::NegZ => [0, 0, -1],
        };
        assert(r@ =~= self.normal());
        r
    }

    /// The coordinate frame of the face: its normal, then the two directions
    /// in which the face's own x and y grow. The second is the normal with
    /// its components rotated one place, and the first is the cross product
    /// of the normal and the second. The three are unit vectors at right
    /// angles to each other.
    pub fn frame(&self) -> (r: ([i8; 3], [i8; 3], [i8; 3]))
        ensures
            r.0@ == self.normal(),
            r.2@ == seq![r.0[1], r.0[2], r.0[0]],
            cross(r.0, r.2).0 == r.1[0] && cross(r.0, r.2).1 == r.1[1] && cross(r.0, r.2).2 == r.1[2],
            dot(r.0, r.1) == 0 && dot(r.0, r.2) == 0 && dot(r.1, r.2) == 0,
            dot(r.0, r.0) == 1 && dot(r.1, r.1) == 1 && dot(r.2, r.2) == 1,
    {
        let r: ([i8; 3], [i8; 3], [i8; 3]) = match self {
            Axis::X => ([1, 0, 0], [0, -1, 0], [0, 0, 1]),
            Axis::Y => ([0, 1, 0], [0, 0, -1], [1, 0, 0]),
            Axis::Z => ([0, 0, 1], [-1, 0, 0], [0, 1, 0]),
            Axis::NegX => ([-1, 0, 0], [0, -1, 0], [0, 0, -1]),
            Axis::NegY => ([0, -1, 0], [0, 0, -1], [-1, 0, 0]),
            Axis::NegZ => ([0, 0, -1], [-1, 0, 0], [0, -1, 0]),
        };
        assert(r.0@ =~= self.normal());
        assert(r.2@ =~= seq![r.0[1], r.0[2], r.0[0]]);
        r
    }
}

} // verus!
