//! Axis-aligned planes in the grid's block space: the geometric primitives
//! that sit on a chunk's faces, with a facing to tell the two sides of a
//! plane apart.

use vstd::prelude::*;

verus! {

/// One of the three axes of block space.
#[derive(Debug, Clone, Copy, PartialEq, Eq, Structural)]
pub enum Axis3 {
    X,
    Y,
    Z,
}

impl Axis3 {
    /// The axis's place in a coordinate triple.
    pub fn index(self) -> (r: usize)
        ensures
            r == self.spec_index(),
    {
        match self {
            Axis3::X => 0,
            Axis3::Y => 1,
            Axis3::Z => 2,
        }
    }

    /// The axis's place in a coordinate triple.
    pub open spec fn spec_index(self) -> int {
        match self {
            Axis3::X => 0,
            Axis3::Y => 1,
            Axis3::Z => 2,
        }
    }
}

/// One of the two axes of a plane's own coordinate space.
#[derive(Debug, Clone, Copy, PartialEq, Eq, Structural)]
pub enum Axis2 {
    X,
    Y,
}

impl Axis2 {
    /// The other axis of the plane.
    pub fn other(self) -> (r: Axis2)
        ensures
            self == Axis2::X ==> r == Axis2::Y,
            self == Axis2::Y ==> r == Axis2::X,
    {
        match self {
            Axis2::X => Axis2::Y,
            Axis2::Y => Axis2::X,
        }
    }
}

/// An axis of a `D`-dimensional space, carried as a checked index.
#[derive(Debug, Clone, Copy)]
pub struct Axis<const D: usize> {
    axis: usize,
}

impl<const D: usize> Axis<D> {
    /// The axis's place.
    pub closed spec fn spec_axis(&self) -> int {
        self.axis as int
    }

    /// The axis's invariant: its place is one of the `D` axes.
    pub closed spec fn wf(&self) -> bool {
        self.axis < D
    }

    /// The axis at the given place; there are only `D` of them.
    pub fn new(axis: usize) -> (r: Self)
        requires
            axis < D,
        ensures
            r.wf(),
            r.spec_axis() == axis,
    {
        Axis { axis }
    }

    /// The axis's place.
    pub fn axis(self) -> (r: usize)
        requires
            self.wf(),
        ensures
            r == self.spec_axis(),
            r < D,
    {
        self.axis
    }
}

/// Which side of a plane is being looked at.
#[derive(Debug, Clone, Copy, PartialEq, Eq, Structural)]
pub enum Facing {
    PosZ,
    NegZ,
}

impl Facing {
    /// The other side.
    pub fn opposite(self) -> (r: Facing)
        ensures
            self == Facing::PosZ ==> r == Facing::NegZ,
            self == Facing::NegZ ==> r == Facing::PosZ,
    {
        match self {
            Facing::PosZ => Facing::NegZ,
            Facing::NegZ => Facing::PosZ,
        }
    }

    /// The sign this side gives a plane's normal.
    pub fn sign(self) -> (r: i32)
        ensures
            self == Facing::PosZ ==> r == 1,
            self == Facing::NegZ ==> r == -1,
    {
        match self {
            Facing::PosZ => 1,
            Facing::NegZ => -1,
        }
    }
}

impl Default for Facing {
    fn default() -> (r: Self)
        ensures
            r == Facing::PosZ,
    {
        Facing::PosZ
    }
}

/// A plane coordinate widened to a space coordinate: `value` enters at the
/// plane's axis, the plane's own axes keep their order.
pub open spec fn coordinate_inserted(uv: (i32, i32), axis: int, value: i32) -> (i32, i32, i32) {
    if axis == 0 {
        (value, uv.0, uv.1)
    } else if axis == 1 {
        (uv.0, value, uv.1)
    } else {
        (uv.0, uv.1, value)
    }
}

/// A space coordinate narrowed to a plane coordinate: the plane's axis
/// drops out.
pub open spec fn coordinate_removed(point: (i32, i32, i32), axis: int) -> (i32, i32) {
    if axis == 0 {
        (point.1, point.2)
    } else if axis == 1 {
        (point.0, point.2)
    } else {
        (point.0, point.1)
    }
}

/// Law: widening a plane coordinate to space and narrowing it back along
/// the same axis gives the plane coordinate again.
pub proof fn lemma_plane_coordinate_round_trip(uv: (i32, i32), axis: int, value: i32)
    ensures
        coordinate_removed(coordinate_inserted(uv, axis, value), axis) == uv,
{
}

/// A plane in block space that carries no facing of its own.
///
/// Implementations publish the axis they sit on and their offset along it;
/// the conversion between plane coordinates and space coordinates inserts
/// and removes the offset at that axis.
pub trait Plane: Sized {
    /// The place of the axis the plane sits on, in `[0, 3)`.
    spec fn spec_axis(&self) -> int;

    /// How far along its axis the plane sits.
    spec fn spec_offset(&self) -> int;

    proof fn axis_in_range(&self)
        ensures
            0 <= self.spec_axis() < 3,
    ;

    /// The plane at `offset` along `axis`.
    fn from_axis_offset(axis: Axis3, offset: i32) -> (r: Self)
        ensures
            r.spec_axis() == axis.spec_index(),
            r.spec_offset() == offset,
    ;

    /// The plane through `position`, along `axis`.
    fn from_axis_position(axis: Axis3, position: (i32, i32, i32)) -> (r: Self)
        ensures
            r.spec_axis() == axis.spec_index(),
            axis == Axis3::X ==> r.spec_offset() == position.0,
            axis == Axis3::Y ==> r.spec_offset() == position.1,
            axis == Axis3::Z ==> r.spec_offset() == position.2,
    ;

    /// A point in the plane's own coordinates, placed into block space.
    fn transform_point(&self, uv: (i32, i32)) -> (r: (i32, i32, i32))
        ensures
            r == coordinate_inserted(uv, self.spec_axis(), self.spec_offset() as i32),
    ;

    /// A block-space point, projected into the plane's own coordinates.
    fn unform_point(&self, point: (i32, i32, i32)) -> (r: (i32, i32))
        ensures
            r == coordinate_removed(point, self.spec_axis()),
    ;

    /// The plane's unit normal, pointing along its axis.
    fn normal(&self) -> (r: (i32, i32, i32))
        ensures
            r == coordinate_inserted((0i32, 0i32), self.spec_axis(), 1i32),
    ;

    /// Shifts the plane along its normal.
    fn offset(&mut self, offset: i32)
        requires
            i32::MIN <= old(self).spec_offset() + offset <= i32::MAX,
        ensures
            final(self).spec_axis() == old(self).spec_axis(),
            final(self).spec_offset() == old(self).spec_offset() + offset,
    ;

    /// The plane shifted along its normal.
    fn with_offset(self, offset: i32) -> (r: Self)
        requires
            i32::MIN <= self.spec_offset() + offset <= i32::MAX,
        ensures
            r.spec_axis() == self.spec_axis(),
            r.spec_offset() == self.spec_offset() + offset,
    ;
}

/// An axis-aligned plane in block space.
#[derive(Debug, Clone, Copy, PartialEq, Eq, Structural)]
pub struct AaPlane3 {
    pub axis: Axis3,
    pub offset: i32,
}

impl Plane for AaPlane3 {
    closed spec fn spec_axis(&self) -> int {
        self.axis.spec_index()
    }

    closed spec fn spec_offset(&self) -> int {
        self.offset as int
    }

    proof fn axis_in_range(&self) {
    }

    fn from_axis_offset(axis: Axis3, offset: i32) -> (r: Self) {
        AaPlane3 { axis, offset }
    }

    fn from_axis_position(axis: Axis3, position: (i32, i32, i32)) -> (r: Self) {
        let offset = match axis {
            Axis3::X => position.0,
            Axis3::Y => position.1,
            Axis3::Z => position.2,
        };
        AaPlane3 { axis, offset }
    }

    fn transform_point(&self, uv: (i32, i32)) -> (r: (i32, i32, i32)) {
        match self.axis {
            Axis3::X => (self.offset, uv.0, uv.1),
            Axis3::Y => (uv.0, self.offset, uv.1),
            Axis3::Z => (uv.0, uv.1, self.offset),
        }
    }

    fn unform_point(&self, point: (i32, i32, i32)) -> (r: (i32, i32)) {
        match self.axis {
            Axis3::X => (point.1, point.2),
            Axis3::Y => (point.0, point.2),
            Axis3::Z => (point.0, point.1),
        }
    }

    fn normal(&self) -> (r: (i32, i32, i32)) {
        match self.axis {
            Axis3::X => (1, 0, 0),
            Axis3::Y => (0, 1, 0),
            Axis3::Z => (0, 0, 1),
        }
    }

    fn offset(&mut self, offset: i32) {
        self.offset = self.offset + offset;
    }

    fn with_offset(self, offset: i32) -> (r: Self) {
        AaPlane3 { axis: self.axis, offset: self.offset + offset }
    }
}

/// An axis-aligned plane carried as a transform between plane coordinates
/// and block-space coordinates.
#[derive(Debug, Clone, Copy, PartialEq, Eq, Structural)]
pub struct AaTransform3 {
    axis: Axis3,
    offset: i32,
}

impl Plane for AaTransform3 {
    closed spec fn spec_axis(&self) -> int {
        self.axis.spec_index()
    }

    closed spec fn spec_offset(&self) -> int {
        self.offset as int
    }

    proof fn axis_in_range(&self) {
    }

    fn from_axis_offset(axis: Axis3, offset: i32) -> (r: Self) {
        AaTransform3 { axis, offset }
    }

    fn from_axis_position(axis: Axis3, position: (i32, i32, i32)) -> (r: Self) {
        let offset = match axis {
            Axis3::X => position.0,
            Axis3::Y => position.1,
            Axis3::Z => position.2,
        };
        AaTransform3 { axis, offset }
    }

    fn transform_point(&self, uv: (i32, i32)) -> (r: (i32, i32, i32)) {
        match self.axis {
            Axis3::X => (self.offset, uv.0, uv.1),
            Axis3::Y => (uv.0, self.offset, uv.1),
            Axis3::Z => (uv.0, uv.1, self.offset),
        }
    }

    fn unform_point(&self, point: (i32, i32, i32)) -> (r: (i32, i32)) {
        match self.axis {
            Axis3::X => (point.1, point.2),
            Axis3::Y => (point.0, point.2),
            Axis3::Z => (point.0, point.1),
        }
    }

    fn normal(&self) -> (r: (i32, i32, i32)) {
        match self.axis {
            Axis3::X => (1, 0, 0),
            Axis3::Y => (0, 1, 0),
            Axis3::Z => (0, 0, 1),
        }
    }

    fn offset(&mut self, offset: i32) {
        self.offset = self.offset + offset;
    }

    fn with_offset(self, offset: i32) -> (r: Self) {
        AaTransform3 { axis: self.axis, offset: self.offset + offset }
    }
}

/// A plane together with the side of it being looked at.
#[derive(Debug, Clone, Copy, PartialEq, Eq, Structural)]
pub struct FacedTransform<T> {
    pub transform: T,
    pub facing: Facing,
}

impl<T> FacedTransform<T> {
    /// A plane looked at from `facing`.
    pub fn new(transform: T, facing: Facing) -> (r: Self)
        ensures
            r.transform == transform,
            r.facing == facing,
    {
        FacedTransform { transform, facing }
    }

    /// The plane half.
    pub fn transform(&self) -> (r: &T)
        ensures
            *r == self.transform,
    {
        &self.transform
    }

    /// Exclusive access to the plane half.
    pub fn transform_mut(&mut self) -> (r: &mut T)
        ensures
            *r == old(self).transform,
            final(self).transform == *final(r),
            final(self).facing == old(self).facing,
    {
        &mut self.transform
    }

    /// The side being looked at.
    pub fn facing(&self) -> (r: &Facing)
        ensures
            *r == self.facing,
    {
        &self.facing
    }

    /// Exclusive access to the side being looked at.
    pub fn facing_mut(&mut self) -> (r: &mut Facing)
        ensures
            *r == old(self).facing,
            final(self).facing == *final(r),
            final(self).transform == old(self).transform,
    {
        &mut self.facing
    }

    /// Turns to the other side, in place.
    pub fn flip(&mut self)
        ensures
            final(self).transform == old(self).transform,
            old(self).facing == Facing::PosZ ==> final(self).facing == Facing::NegZ,
            old(self).facing == Facing::NegZ ==> final(self).facing == Facing::PosZ,
    {
        self.facing = self.facing.opposite();
    }

    /// The same plane looked at from the other side.
    pub fn flipped(self) -> (r: Self)
        ensures
            r.transform == self.transform,
            self.facing == Facing::PosZ ==> r.facing == Facing::NegZ,
            self.facing == Facing::NegZ ==> r.facing == Facing::PosZ,
    {
        let mut this = self;
        this.flip();
        this
    }
}

impl<T: Plane> FacedTransform<T> {
    /// Shifts the plane along its normal.
    pub fn offset(&mut self, offset: i32)
        requires
            i32::MIN <= old(self).transform.spec_offset() + offset <= i32::MAX,
        ensures
            final(self).transform.spec_axis() == old(self).transform.spec_axis(),
            final(self).transform.spec_offset() == old(self).transform.spec_offset() + offset,
            final(self).facing == old(self).facing,
    {
        self.transform.offset(offset);
    }

    /// The plane shifted along its normal.
    pub fn with_offset(self, offset: i32) -> (r: Self)
        requires
            i32::MIN <= self.transform.spec_offset() + offset <= i32::MAX,
        ensures
            r.transform.spec_axis() == self.transform.spec_axis(),
            r.transform.spec_offset() == self.transform.spec_offset() + offset,
            r.facing == self.facing,
    {
        let mut this = self;
        this.offset(offset);
        this
    }

    /// A point in the plane's own coordinates, placed into block space.
    pub fn transform_point(&self, uv: (i32, i32)) -> (r: (i32, i32, i32))
        ensures
            r == coordinate_inserted(
                uv,
                self.transform.spec_axis(),
                self.transform.spec_offset() as i32,
            ),
    {
        self.transform.transform_point(uv)
    }

    /// The plane's normal, signed by the side being looked at.
    pub fn normal(&self) -> (r: (i32, i32, i32))
        ensures
            self.facing == Facing::PosZ ==> r == coordinate_inserted(
                (0i32, 0i32),
                self.transform.spec_axis(),
                1i32,
            ),
            self.facing == Facing::NegZ ==> r == coordinate_inserted(
                (0i32, 0i32),
                self.transform.spec_axis(),
                -1i32,
            ),
    {
        proof {
            self.transform.axis_in_range();
        }
        let (x, y, z) = self.transform.normal();
        let sign = self.facing.sign();
        (x * sign, y * sign, z * sign)
    }
}

} // verus!
