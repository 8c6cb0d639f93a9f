use vstd::prelude::*;

verus! {

/// A vector of three components of any scalar type. The functions of this
/// module move components around and never compute with them.
#[derive(Debug)]
pub struct Triple<S> {
    pub x: S,
    pub y: S,
    pub z: S,
}

/// A three-by-three matrix given by its columns.
#[derive(Debug)]
pub struct Columns<S> {
    pub x_axis: Triple<S>,
    pub y_axis: Triple<S>,
    pub z_axis: Triple<S>,
}

impl<S: Copy> Clone for Triple<S> {
    fn clone(&self) -> (copy: Self)
        ensures
            copy == *self,
    {
        Triple { x: self.x, y: self.y, z: self.z }
    }
}

impl<S: Copy> Copy for Triple<S> {

}

impl<S: Copy> Clone for Columns<S> {
    fn clone(&self) -> (copy: Self)
        ensures
            copy == *self,
    {
        Columns { x_axis: self.x_axis, y_axis: self.y_axis, z_axis: self.z_axis }
    }
}

impl<S: Copy> Copy for Columns<S> {

}

/// The axes along and around which a body may not move, one bit each: from
/// the highest of six bits down, translation along X, Y and Z, then rotation
/// around X, Y and Z.
#[derive(Copy, Clone, Debug, PartialEq, Eq, Hash, Structural)]
pub struct LockedAxes {
    bits: u8,
}

impl LockedAxes {
    /// The lock bits.
    pub closed spec fn spec_bits(self) -> u8 {
        self.bits
    }

    /// The lock on rotation around X is set.
    pub open spec fn rotation_x(self) -> bool {
        self.spec_bits() & 0b000_100 != 0
    }

    /// The lock on rotation around Y is set.
    pub open spec fn rotation_y(self) -> bool {
        self.spec_bits() & 0b000_010 != 0
    }

    /// The lock on rotation around Z is set.
    pub open spec fn rotation_z(self) -> bool {
        self.spec_bits() & 0b000_001 != 0
    }

    /// A configuration with all axes unlocked.
    pub fn new() -> (axes: Self)
        ensures
            axes.spec_bits() == 0,
    {
        LockedAxes { bits: 0 }
    }

    /// The configuration that `bits` stands for. Bits above the sixth stand
    /// for no axis and are kept as they are.
    pub fn from_bits(bits: u8) -> (axes: Self)
        ensures
            axes.spec_bits() == bits,
    {
        LockedAxes { bits }
    }

    /// The lock bits of this configuration.
    pub fn to_bits(&self) -> (bits: u8)
        ensures
            bits == self.spec_bits(),
    {
        self.bits
    }

    /// Returns true if rotation is locked around the `X` axis.
    pub fn is_rotation_x_locked(&self) -> (locked: bool)
        ensures
            locked == self.rotation_x(),
    {
        (self.bits & 0b000_100) != 0
    }

    /// Returns true if rotation is locked around the `Y` axis.
    pub fn is_rotation_y_locked(&self) -> (locked: bool)
        ensures
            locked == self.rotation_y(),
    {
        (self.bits & 0b000_010) != 0
    }

    /// Returns true if rotation is locked around the `Z` axis.
    pub fn is_rotation_z_locked(&self) -> (locked: bool)
        ensures
            locked == self.rotation_z(),
    {
        (self.bits & 0b000_001) != 0
    }
}

/// Replaces by `zero` each component of `vec` whose axis has its rotation
/// lock set, and keeps the others.
pub fn apply_locked_axes<S: Copy>(vec: Triple<S>, zero: S, locked_axes: LockedAxes) -> (out: Triple<S>)
    ensures
        out.x == if locked_axes.rotation_x() { zero } else { vec.x },
        out.y == if locked_axes.rotation_y() { zero } else { vec.y },
        out.z == if locked_axes.rotation_z() { zero } else { vec.z },
{
    let mut vec = vec;
    if locked_axes.is_rotation_x_locked() {
        vec.x = zero;
    }
    if locked_axes.is_rotation_y_locked() {
        vec.y = zero;
    }
    if locked_axes.is_rotation_z_locked() {
        vec.z = zero;
    }
    vec
}

/// Replaces by a column of `zero` each column of an inverse inertia tensor
/// whose axis has its rotation lock set, and keeps the others.
pub fn apply_locked_axes_to_angular_inertia<S: Copy>(
    inverse_tensor: Columns<S>,
    zero: S,
    locked_axes: LockedAxes,
) -> (out: Columns<S>)
    ensures
        out.x_axis == if locked_axes.rotation_x() {
            Triple { x: zero, y: zero, z: zero }
        } else {
            inverse_tensor.x_axis
        },
        out.y_axis == if locked_axes.rotation_y() {
            Triple { x: zero, y: zero, z: zero }
        } else {
            inverse_tensor.y_axis
        },
        out.z_axis == if locked_axes.rotation_z() {
            Triple { x: zero, y: zero, z: zero }
        } else {
            inverse_tensor.z_axis
        },
{
    let mut angular_inertia = inverse_tensor;
    let none = Triple { x: zero, y: zero, z: zero };
    if locked_axes.is_rotation_x_locked() {
        angular_inertia.x_axis = none;
    }
    if locked_axes.is_rotation_y_locked() {
        angular_inertia.y_axis = none;
    }
    if locked_axes.is_rotation_z_locked() {
        angular_inertia.z_axis = none;
    }
    angular_inertia
}

} // verus!
