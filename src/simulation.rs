//! The replicated world: its bodies, in creation order, and the pause flag.
use crate::body::{cube_view, Body, BodyView};
use vstd::prelude::*;

verus! {

/// A world of bodies. A body's index is its id: bodies are numbered in the
/// order of their creation, on the server and on the client alike.
pub struct Simulation {
    pub bodies: Vec<Body>,
    pub paused: bool,
}

/// What a `Simulation` holds.
pub struct SimView {
    pub bodies: Seq<BodyView>,
    pub paused: bool,
}

impl View for Simulation {
    type V = SimView;

    open spec fn view(&self) -> SimView {
        SimView { bodies: self.bodies@.map_values(|b: Body| b@), paused: self.paused }
    }
}

impl Simulation {
    /// An empty world, paused.
    pub fn init() -> (r: Simulation)
        ensures
            r@ == (SimView { bodies: Seq::empty(), paused: true }),
    {
        let r = Simulation { bodies: Vec::new(), paused: true };
        assert(r@.bodies =~= Seq::<BodyView>::empty());
        r
    }

    /// Adds a body at `location` with the given mass, unturned and still.
    pub fn create_cube(&mut self, mass: u32, location: [u32; 3])
        ensures
            final(self)@ == (SimView {
                bodies: old(self)@.bodies.push(cube_view(mass, location@)),
                paused: old(self)@.paused,
            }),
    {
        let b = Body::new(mass, location);
        self.bodies.push(b);
        assert(final(self)@.bodies =~= old(self)@.bodies.push(cube_view(mass, location@)));
    }

    /// Records the pose and velocity that the engine reports for body `index`.
    pub fn set_motion(
        &mut self,
        index: usize,
        position: [u32; 3],
        rotation: [u32; 12],
        velocity: [u32; 3],
    )
        requires
            index < old(self)@.bodies.len(),
        ensures
            final(self)@ == (SimView {
                bodies: old(self)@.bodies.update(
                    index as int,
                    BodyView {
                        position: position@,
                        rotation: rotation@,
                        velocity: velocity@,
                        mass: old(self)@.bodies[index as int].mass,
                    },
                ),
                paused: old(self)@.paused,
            }),
    {
        let mass = self.bodies[index].mass;
        let b = Body { position, rotation, velocity, mass };
        self.bodies.set(index, b);
        assert(final(self)@.bodies =~= old(self)@.bodies.update(index as int, b@));
    }

    /// Flips the pause flag.
    pub fn toggle_pause(&mut self)
        ensures
            final(self)@ == (SimView { bodies: old(self)@.bodies, paused: !old(self)@.paused }),
    {
        self.paused = !self.paused;
    }

    /// Whether the world is paused: a paused world is not stepped.
    pub fn is_paused(&self) -> (r: bool)
        ensures
            r == self@.paused,
    {
        self.paused
    }

    /// The number of bodies.
    pub fn body_count(&self) -> (r: usize)
        ensures
            r == self@.bodies.len(),
    {
        self.bodies.len()
    }

    /// Body `index`.
    pub fn body(&self, index: usize) -> (r: Body)
        requires
            index < self@.bodies.len(),
        ensures
            r@ == self@.bodies[index as int],
    {
        self.bodies[index]
    }

    /// The position of body `index`.
    pub fn get_location(&self, index: usize) -> (r: [u32; 3])
        requires
            index < self@.bodies.len(),
        ensures
            r@ == self@.bodies[index as int].position,
    {
        self.bodies[index].position
    }
}

} // verus!
