//! Bodies of the replicated world and the test that elides those at rest.
use vstd::prelude::*;

verus! {

/// Bit pattern of the f32 value 1.0.
pub const ONE_BITS: u32 = 0x3f80_0000;

/// Bit pattern of the f32 value 0.1: a body whose speed along every axis is at
/// most this much counts as at rest.
pub const REST_THRESHOLD_BITS: u32 = 0x3dcc_cccd;

/// Clears the sign bit of an f32 bit pattern, which gives its magnitude.
pub const MAGNITUDE_MASK: u32 = 0x7fff_ffff;

/// One rigid body. Every float is held as its IEEE-754 bit pattern.
///
/// `rotation` is the engine's 3x4 row-major basis: the 3x3 rotation with one
/// extra column per row, carried along unchanged.
#[derive(Clone, Copy, Debug, PartialEq, Eq)]
pub struct Body {
    pub position: [u32; 3],
    pub rotation: [u32; 12],
    pub velocity: [u32; 3],
    pub mass: u32,
}

/// What a `Body` holds, as sequences.
pub struct BodyView {
    pub position: Seq<u32>,
    pub rotation: Seq<u32>,
    pub velocity: Seq<u32>,
    pub mass: u32,
}

impl View for Body {
    type V = BodyView;

    open spec fn view(&self) -> BodyView {
        BodyView {
            position: self.position@,
            rotation: self.rotation@,
            velocity: self.velocity@,
            mass: self.mass,
        }
    }
}

/// The shape that every body's view has.
pub open spec fn body_wf(b: BodyView) -> bool {
    &&& b.position.len() == 3
    &&& b.rotation.len() == 12
    &&& b.velocity.len() == 3
}

/// Whether one velocity component has magnitude at most the rest threshold.
///
/// For f32 values that are not NaN, magnitudes are ordered as their bit
/// patterns with the sign bit cleared; every NaN lies above the threshold
/// there, as it fails the float comparison too.
pub open spec fn axis_at_rest(v: u32) -> bool {
    v & MAGNITUDE_MASK <= REST_THRESHOLD_BITS
}

/// Whether a body moves slowly enough along every axis to be left out of a
/// steady-state packet.
pub open spec fn at_rest(velocity: Seq<u32>) -> bool {
    &&& axis_at_rest(velocity[0])
    &&& axis_at_rest(velocity[1])
    &&& axis_at_rest(velocity[2])
}

/// The rotation of a body that has not turned: the identity, with a zero
/// extra column.
pub open spec fn identity_rotation() -> Seq<u32> {
    seq![ONE_BITS, 0, 0, 0, 0, ONE_BITS, 0, 0, 0, 0, ONE_BITS, 0]
}

/// A body created at `location` with the given mass, unturned and still.
pub open spec fn cube_view(mass: u32, location: Seq<u32>) -> BodyView {
    BodyView {
        position: location,
        rotation: identity_rotation(),
        velocity: seq![0u32, 0, 0],
        mass,
    }
}

impl Body {
    /// A body at `location` with the given mass, unturned and still.
    pub fn new(mass: u32, location: [u32; 3]) -> (r: Body)
        ensures
            r@ == cube_view(mass, location@),
    {
        let r = Body {
            position: location,
            rotation: [ONE_BITS, 0, 0, 0, 0, ONE_BITS, 0, 0, 0, 0, ONE_BITS, 0],
            velocity: [0, 0, 0],
            mass,
        };
        assert(r.rotation@ =~= identity_rotation());
        assert(r.velocity@ =~= seq![0u32, 0, 0]);
        r
    }

    /// Whether this body is at rest along every axis.
    pub fn is_at_rest(&self) -> (r: bool)
        ensures
            r == at_rest(self@.velocity),
    {
        (self.velocity[0] & MAGNITUDE_MASK) <= REST_THRESHOLD_BITS
            && (self.velocity[1] & MAGNITUDE_MASK) <= REST_THRESHOLD_BITS
            && (self.velocity[2] & MAGNITUDE_MASK) <= REST_THRESHOLD_BITS
    }
}

} // verus!
