//! Encoding a world into a packet.
//!
//! A packet holds the pause flag and the initial flag, one byte each. Unless
//! the world is paused and the packet is not initial, the body count follows
//! as a little-endian `u32`, then one record per body in index order: a flag
//! byte, and when the flag is 1 the position (3 words) and rotation (12
//! words), and in an initial packet the mass (1 word). Words are f32 bit
//! patterns, little-endian. A body at rest gets a lone 0 flag, unless the
//! packet is initial.
use crate::body::{at_rest, Body, BodyView};
use crate::simulation::Simulation;
use crate::wire::{le_bytes, push_u32, words_bytes};
use vstd::prelude::*;

verus! {

/// The byte of a flag.
pub open spec fn flag_byte(b: bool) -> u8 {
    if b {
        1
    } else {
        0
    }
}

/// Whether a packet with these flags carries the body section.
pub open spec fn carries_bodies(paused: bool, initial: bool) -> bool {
    !paused || initial
}

/// Whether a body is sent with its pose: always in an initial packet,
/// otherwise only when it is not at rest.
pub open spec fn sent_in_full(b: BodyView, initial: bool) -> bool {
    initial || !at_rest(b.velocity)
}

/// The record of one body.
pub open spec fn body_bytes(b: BodyView, initial: bool) -> Seq<u8> {
    if sent_in_full(b, initial) {
        seq![1u8] + words_bytes(b.position) + words_bytes(b.rotation) + if initial {
            le_bytes(b.mass)
        } else {
            Seq::empty()
        }
    } else {
        seq![0u8]
    }
}

/// The records of all bodies, in index order.
pub open spec fn bodies_bytes(bs: Seq<BodyView>, initial: bool) -> Seq<u8>
    decreases bs.len(),
{
    if bs.len() == 0 {
        Seq::empty()
    } else {
        bodies_bytes(bs.drop_last(), initial) + body_bytes(bs.last(), initial)
    }
}

/// The packet for a world of bodies `bs`.
pub open spec fn encode(bs: Seq<BodyView>, paused: bool, initial: bool) -> Seq<u8> {
    seq![flag_byte(paused), flag_byte(initial)] + if carries_bodies(paused, initial) {
        le_bytes(bs.len() as u32) + bodies_bytes(bs, initial)
    } else {
        Seq::empty()
    }
}

/// Appends the encoding of each word of `ws`.
fn push_words<const N: usize>(out: &mut Vec<u8>, ws: &[u32; N])
    ensures
        final(out)@ == old(out)@ + words_bytes(ws@),
{
    let mut i: usize = 0;
    while i < N
        invariant
            i <= N,
            ws@.len() == N,
            out@ == old(out)@ + words_bytes(ws@.take(i as int)),
        decreases N - i,
    {
        push_u32(out, ws[i]);
        proof {
            let t = ws@.take(i + 1);
            assert(t.drop_last() =~= ws@.take(i as int));
            assert(out@ =~= old(out)@ + words_bytes(t));
        }
        i = i + 1;
    }
    assert(ws@.take(N as int) =~= ws@);
}

/// Appends the record of body `b`.
fn push_body(out: &mut Vec<u8>, b: &Body, initial: bool)
    ensures
        final(out)@ == old(out)@ + body_bytes(b@, initial),
{
    if initial || !b.is_at_rest() {
        out.push(1);
        push_words(out, &b.position);
        push_words(out, &b.rotation);
        if initial {
            push_u32(out, b.mass);
        }
        assert(final(out)@ =~= old(out)@ + body_bytes(b@, initial));
    } else {
        out.push(0);
        assert(final(out)@ =~= old(out)@ + body_bytes(b@, initial));
    }
}

impl Simulation {
    /// Encodes the world into a packet; `init` marks an initial packet, which
    /// carries every body in full, mass included. A paused world that is not
    /// sent as initial yields the two flag bytes alone.
    pub fn serialize(&self, init: bool) -> (r: Vec<u8>)
        requires
            self@.bodies.len() <= u32::MAX,
        ensures
            r@ == encode(self@.bodies, self@.paused, init),
    {
        let mut out: Vec<u8> = Vec::new();
        out.push(if self.paused { 1 } else { 0 });
        out.push(if init { 1 } else { 0 });
        let ghost head = out@;
        assert(head =~= seq![flag_byte(self@.paused), flag_byte(init)]);
        if !self.paused || init {
            let n = self.bodies.len();
            push_u32(&mut out, n as u32);
            let ghost start = out@;
            let ghost bs = self@.bodies;
            let mut i: usize = 0;
            while i < n
                invariant
                    i <= n,
                    n == self.bodies@.len(),
                    bs == self@.bodies,
                    out@ == start + bodies_bytes(bs.take(i as int), init),
                decreases n - i,
            {
                push_body(&mut out, &self.bodies[i], init);
                proof {
                    let t = bs.take(i + 1);
                    assert(t.drop_last() =~= bs.take(i as int));
                    assert(t.last() == self.bodies@[i as int]@);
                    assert(out@ =~= start + bodies_bytes(t, init));
                }
                i = i + 1;
            }
            assert(bs.take(n as int) =~= bs);
            assert(out@ =~= encode(self@.bodies, self@.paused, init));
        } else {
            assert(out@ =~= encode(self@.bodies, self@.paused, init));
        }
        out
    }
}

} // verus!
