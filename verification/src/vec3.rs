//! Triples of scalars: vectors, points and colours.

use vstd::prelude::*;
use crate::scalar::Scalar;

verus! {

/// The encoding of 1e-8: below it, in size, a component counts as zero.
pub const NEAR_ZERO_BITS: u64 = 0x3E45_798E_E230_8C3A;

/// Three scalars.
#[derive(Clone, Copy, Debug)]
pub struct Vec3(pub Scalar, pub Scalar, pub Scalar);

/// A colour: red, green, blue.
pub type Color = Vec3;

/// A point in space.
pub type Point3 = Vec3;

impl Vec3 {
    /// The vector with each component negated.
    pub open spec fn negated(self) -> Vec3 {
        Vec3(self.0.negated(), self.1.negated(), self.2.negated())
    }

    /// Whether every component is smaller in size than 1e-8. A vector with a
    /// NaN component is not near zero.
    pub open spec fn tiny(self) -> bool {
        let s = Scalar { bits: NEAR_ZERO_BITS };
        self.0.absolute().less(s) && self.1.absolute().less(s) && self.2.absolute().less(s)
    }

    pub fn new(x: Scalar, y: Scalar, z: Scalar) -> (r: Vec3)
        ensures
            r == Vec3(x, y, z),
    {
        Vec3(x, y, z)
    }

    /// The vector of three zeros.
    pub fn zero() -> (r: Vec3)
        ensures
            r == Vec3(Scalar::zero(), Scalar::zero(), Scalar::zero()),
    {
        Vec3(Scalar::zero(), Scalar::zero(), Scalar::zero())
    }

    pub fn x(self) -> (r: Scalar)
        ensures
            r == self.0,
    {
        self.0
    }

    pub fn y(self) -> (r: Scalar)
        ensures
            r == self.1,
    {
        self.1
    }

    pub fn z(self) -> (r: Scalar)
        ensures
            r == self.2,
    {
        self.2
    }

    /// Whether a vector lies inside the ball, or the disk, of radius one,
    /// its rim left out. `len_squared` is the square of the vector's length.
    /// A random point is drawn again until it does.
    pub fn within_unit(len_squared: Scalar) -> (r: bool)
        ensures
            r == len_squared.less(Scalar::one()),
    {
        len_squared.lt(Scalar::one())
    }

    /// `-self`.
    pub fn neg(self) -> (r: Vec3)
        ensures
            r == self.negated(),
    {
        Vec3(self.0.neg(), self.1.neg(), self.2.neg())
    }

    /// Whether the vector is close to zero in all dimensions.
    pub fn near_zero(self) -> (r: bool)
        ensures
            r == self.tiny(),
    {
        let s: Scalar = Scalar::from_bits(NEAR_ZERO_BITS);
        self.0.abs().lt(s) && self.1.abs().lt(s) && self.2.abs().lt(s)
    }
}

} // verus!
