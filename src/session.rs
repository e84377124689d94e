//! The per-connection policy: which packet the server sends next, and what
//! each key does on either side.
use crate::encode::encode;
use crate::simulation::{SimView, Simulation};
use vstd::prelude::*;

verus! {

/// The server's side of one connection.
///
/// The first packet after the client made contact is initial: it carries
/// every body in full, with its mass, so that a client starting from nothing
/// can build the world. Every later packet is a steady-state one. The client
/// keeps no such state: it trusts the flag that each packet carries.
pub struct ReplicationSession {
    pub has_sent_initial: bool,
}

impl ReplicationSession {
    /// A session that has sent nothing yet.
    pub fn new() -> (r: ReplicationSession)
        ensures
            !r.has_sent_initial,
    {
        ReplicationSession { has_sent_initial: false }
    }

    /// Whether the next packet is initial.
    pub fn next_is_initial(&self) -> (r: bool)
        ensures
            r == !self.has_sent_initial,
    {
        !self.has_sent_initial
    }

    /// Encodes the next packet for `sim`: initial if none was sent before,
    /// steady-state otherwise.
    pub fn next_packet(&mut self, sim: &Simulation) -> (r: Vec<u8>)
        requires
            sim@.bodies.len() <= u32::MAX,
        ensures
            r@ == encode(sim@.bodies, sim@.paused, !old(self).has_sent_initial),
            final(self).has_sent_initial,
    {
        let initial = !self.has_sent_initial;
        let packet = sim.serialize(initial);
        self.has_sent_initial = true;
        packet
    }
}

/// A key press that the programs react to.
#[derive(Clone, Copy, Debug, PartialEq, Eq, Structural)]
pub enum Key {
    Q,
    P,
    Up,
    Down,
    Left,
    Right,
    Other,
}

/// A horizontal direction in which the server pushes its first body.
#[derive(Clone, Copy, Debug, PartialEq, Eq, Structural)]
pub enum Direction {
    PlusX,
    MinusX,
    PlusZ,
    MinusZ,
}

/// Reacts to a key pressed on the server: Q asks to close, P toggles the
/// pause, and an arrow key names the direction in which to push the first
/// body (up +z, down -z, left +x, right -x).
pub fn handle_server_key(key: Key, sim: &mut Simulation, should_close: &mut bool) -> (r: Option<
    Direction,
>)
    ensures
        *final(should_close) == (*old(should_close) || key == Key::Q),
        final(sim)@ == if key == Key::P {
            SimView { bodies: old(sim)@.bodies, paused: !old(sim)@.paused }
        } else {
            old(sim)@
        },
        r == match key {
            Key::Up => Some(Direction::PlusZ),
            Key::Down => Some(Direction::MinusZ),
            Key::Left => Some(Direction::PlusX),
            Key::Right => Some(Direction::MinusX),
            _ => None::<Direction>,
        },
{
    match key {
        Key::Q => {
            *should_close = true;
            None
        },
        Key::P => {
            sim.toggle_pause();
            None
        },
        Key::Up => Some(Direction::PlusZ),
        Key::Down => Some(Direction::MinusZ),
        Key::Left => Some(Direction::PlusX),
        Key::Right => Some(Direction::MinusX),
        Key::Other => None,
    }
}

/// Reacts to a key pressed on the client: Q asks to close, and nothing else
/// does anything.
pub fn handle_client_key(key: Key, should_close: &mut bool)
    ensures
        *final(should_close) == (*old(should_close) || key == Key::Q),
{
    if key == Key::Q {
        *should_close = true;
    }
}

} // verus!
