//! Geometry data model: the primitive kinds, the primitive roles and the connection
//! flags. The parameters of a shape are kept as the raw big-endian words of the file
//! (`f32` bit patterns), so that every step up to tessellation works on exact values.
use vstd::prelude::*;

verus! {

/// The parametric primitive kinds of RVM.
#[derive(Clone, Copy, Debug, PartialEq, Eq, Structural)]
pub enum GeometryKind {
    Pyramid,
    Box,
    RectangularTorus,
    CircularTorus,
    EllipticalDish,
    SphericalDish,
    Snout,
    Cylinder,
    Sphere,
    Line,
    FacetGroup,
}

/// The role of a primitive: plain geometry, obstruction volume or insulation.
#[derive(Clone, Copy, Debug, PartialEq, Eq, Structural)]
pub enum GeometryType {
    Primitive,
    Obstruction,
    Insulation,
}

/// A small set of connection properties, one bit each.
#[derive(Clone, Copy, Debug, PartialEq, Eq, Structural)]
pub struct ConnectionFlags(pub u8);

impl ConnectionFlags {
    /// No property.
    pub fn none() -> (f: ConnectionFlags)
        ensures
            f.0 == 0,
    {
        ConnectionFlags(0)
    }

    /// The connection has a circular side (bit 0).
    pub fn has_circular_side() -> (f: ConnectionFlags)
        ensures
            f.0 == 1,
    {
        ConnectionFlags(1)
    }

    /// The connection has a rectangular side (bit 1).
    pub fn has_rectangular_side() -> (f: ConnectionFlags)
        ensures
            f.0 == 2,
    {
        ConnectionFlags(2)
    }

    /// Whether the bit `b` (0..8) is set.
    pub open spec fn bit(self, b: u8) -> bool {
        (self.0 >> b) & 1 == 1
    }

    /// Whether `self` and `f` share a set bit.
    pub fn has(&self, f: ConnectionFlags) -> (r: bool)
        ensures
            r <==> exists|b: u8| b < 8 && #[trigger] self.bit(b) && f.bit(b),
            r == (self.0 & f.0 != 0),
    {
        let r = self.0 & f.0 != 0;
        let x = self.0;
        let y = f.0;
        assert(x & y != 0 <==> exists|b: u8| b < 8 && (x >> b) & 1 == 1 && (y >> b) & 1 == 1) by {
            assert(x & y != 0 ==> ((x >> 0u8) & 1 == 1 && (y >> 0u8) & 1 == 1) || ((x >> 1u8) & 1 == 1 && (y >> 1u8) & 1 == 1)
                || ((x >> 2u8) & 1 == 1 && (y >> 2u8) & 1 == 1) || ((x >> 3u8) & 1 == 1 && (y >> 3u8) & 1 == 1)
                || ((x >> 4u8) & 1 == 1 && (y >> 4u8) & 1 == 1) || ((x >> 5u8) & 1 == 1 && (y >> 5u8) & 1 == 1)
                || ((x >> 6u8) & 1 == 1 && (y >> 6u8) & 1 == 1) || ((x >> 7u8) & 1 == 1 && (y >> 7u8) & 1 == 1)) by (bit_vector);
            assert forall|b: u8| b < 8 && (x >> b) & 1 == 1 && (y >> b) & 1 == 1 implies x & y != 0 by {
                assert(b < 8 && (x >> b) & 1 == 1 && (y >> b) & 1 == 1 ==> x & y != 0) by (bit_vector);
            }
        }
        if r {
            let ghost b = choose|b: u8| b < 8 && (x >> b) & 1 == 1 && (y >> b) & 1 == 1;
            assert(self.bit(b) && f.bit(b));
        }
        r
    }

    /// Adds the bits of `f`.
    pub fn set(&mut self, f: ConnectionFlags)
        ensures
            forall|b: u8| b < 8 ==> (#[trigger] final(self).bit(b) <==> old(self).bit(b) || f.bit(b)),
            final(self).0 == old(self).0 | f.0,
    {
        let x = self.0;
        let y = f.0;
        assert forall|b: u8| b < 8 implies (((x | y) >> b) & 1 == 1 <==> (x >> b) & 1 == 1 || (y >> b) & 1 == 1) by {
            assert(b < 8 ==> (((x | y) >> b) & 1 == 1 <==> (x >> b) & 1 == 1 || (y >> b) & 1 == 1)) by (bit_vector);
        }
        self.0 = x | y;
    }
}

} // verus!
