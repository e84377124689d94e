//! Decoding a packet and bringing a mirrored world up to date with it.
//!
//! Decoding is split in two. `parse_packet` reads the whole packet, and fails
//! with `MalformedPacket` when the buffer ends before the fields it declares;
//! it never reads past the end. Only a packet that parsed is applied, so a
//! malformed packet leaves the world as it was. Bytes after the packet are
//! ignored. A flag byte is false when 0 and true otherwise.
//!
//! Packets carry no sequence number: each is applied as it arrives. A lost
//! or reordered packet is mended by the next one that carries the same
//! bodies, but an initial packet that arrives after newer steady-state ones
//! puts back the older poses that it holds.
use crate::body::{Body, BodyView, ONE_BITS};
use crate::encode::carries_bodies;
use crate::simulation::{SimView, Simulation};
use crate::wire::{read_u32, word_at, words_at};
use vstd::prelude::*;

verus! {

/// Offset of the first body record, after the two flags and the body count.
pub const RECORDS_START: usize = 6;

/// Length of a full record in a packet that is not initial: the flag byte,
/// then position and rotation, 15 words.
pub const FULL_RECORD_LEN: usize = 61;

/// Length of a full record in an initial packet, which adds the mass.
pub const INITIAL_RECORD_LEN: usize = 65;

/// Why a packet could not be decoded.
#[derive(Clone, Copy, Debug, PartialEq, Eq, Structural)]
pub enum DecodeError {
    /// The buffer ends before the fields that it declares.
    MalformedPacket,
}

/// The pose that a packet carries for one body, and its mass in an initial
/// packet.
#[derive(Clone, Copy, Debug, PartialEq, Eq)]
pub struct BodyUpdate {
    pub position: [u32; 3],
    pub rotation: [u32; 12],
    pub mass: Option<u32>,
}

/// What a `BodyUpdate` holds, as sequences.
pub struct UpdateView {
    pub position: Seq<u32>,
    pub rotation: Seq<u32>,
    pub mass: Option<u32>,
}

impl View for BodyUpdate {
    type V = UpdateView;

    open spec fn view(&self) -> UpdateView {
        UpdateView { position: self.position@, rotation: self.rotation@, mass: self.mass }
    }
}

/// The view of one record: `None` for a body left out.
pub open spec fn record_view(r: Option<BodyUpdate>) -> Option<UpdateView> {
    match r {
        Some(u) => Some(u@),
        None => None,
    }
}

/// A decoded packet: its flags and one record per body, in index order.
#[derive(Debug, PartialEq, Eq)]
pub struct Packet {
    pub paused: bool,
    pub initial: bool,
    pub updates: Vec<Option<BodyUpdate>>,
}

/// What a `Packet` holds.
pub struct PacketView {
    pub paused: bool,
    pub initial: bool,
    pub updates: Seq<Option<UpdateView>>,
}

impl View for Packet {
    type V = PacketView;

    open spec fn view(&self) -> PacketView {
        PacketView {
            paused: self.paused,
            initial: self.initial,
            updates: self.updates@.map_values(|r: Option<BodyUpdate>| record_view(r)),
        }
    }
}

/// The length of a full record.
pub open spec fn full_len(initial: bool) -> int {
    if initial {
        INITIAL_RECORD_LEN as int
    } else {
        FULL_RECORD_LEN as int
    }
}

/// The record at offset `at` of `b`, with the offset just after it; `None`
/// where `b` ends first.
pub open spec fn record_at(b: Seq<u8>, at: int, initial: bool) -> Option<
    (Option<UpdateView>, int),
> {
    if at >= b.len() {
        None
    } else if b[at] == 0 {
        Some((None, at + 1))
    } else if at + full_len(initial) > b.len() {
        None
    } else {
        Some(
            (
                Some(
                    UpdateView {
                        position: words_at(b, at + 1, 3),
                        rotation: words_at(b, at + 13, 12),
                        mass: if initial {
                            Some(word_at(b, at + 61))
                        } else {
                            None
                        },
                    },
                ),
                at + full_len(initial),
            ),
        )
    }
}

/// The first `n` records of `b`, with the offset just after them; `None`
/// where `b` ends first.
pub open spec fn records_from(b: Seq<u8>, initial: bool, n: nat) -> Option<
    (Seq<Option<UpdateView>>, int),
>
    decreases n,
{
    if n == 0 {
        Some((Seq::empty(), RECORDS_START as int))
    } else {
        match records_from(b, initial, (n - 1) as nat) {
            None => None,
            Some((rs, end)) => match record_at(b, end, initial) {
                None => None,
                Some((r, next)) => Some((rs.push(r), next)),
            },
        }
    }
}

/// The packet at the start of `b`; `None` where `b` ends before the fields
/// that it declares.
pub open spec fn parse(b: Seq<u8>) -> Option<PacketView> {
    if b.len() < 2 {
        None
    } else {
        let paused = b[0] != 0;
        let initial = b[1] != 0;
        if !carries_bodies(paused, initial) {
            Some(PacketView { paused, initial, updates: Seq::empty() })
        } else if b.len() < RECORDS_START {
            None
        } else {
            match records_from(b, initial, word_at(b, 2) as nat) {
                None => None,
                Some((rs, _)) => Some(PacketView { paused, initial, updates: rs }),
            }
        }
    }
}

/// Body `b` with the pose of `u`; its mass and velocity stay.
pub open spec fn with_pose(b: BodyView, u: UpdateView) -> BodyView {
    BodyView { position: u.position, rotation: u.rotation, velocity: b.velocity, mass: b.mass }
}

/// A body created from `u`: still, with the mass of `u`, or 1.0 where the
/// packet carries none.
pub open spec fn created_body(u: UpdateView) -> BodyView {
    BodyView {
        position: u.position,
        rotation: u.rotation,
        velocity: seq![0u32, 0, 0],
        mass: match u.mass {
            Some(m) => m,
            None => ONE_BITS,
        },
    }
}

/// The bodies after record `r` for index `i`: an existing body takes the
/// pose, the index just past the end creates a body, and any later index is
/// ignored, as the body it names was created in a packet that was lost.
pub open spec fn apply_record(
    bs: Seq<BodyView>,
    i: int,
    r: Option<UpdateView>,
) -> Seq<BodyView> {
    match r {
        None => bs,
        Some(u) => if i < bs.len() {
            bs.update(i, with_pose(bs[i], u))
        } else if i == bs.len() {
            bs.push(created_body(u))
        } else {
            bs
        },
    }
}

/// The bodies after the records `rs`, taken in index order.
pub open spec fn apply_records(bs: Seq<BodyView>, rs: Seq<Option<UpdateView>>) -> Seq<BodyView>
    decreases rs.len(),
{
    if rs.len() == 0 {
        bs
    } else {
        apply_record(apply_records(bs, rs.drop_last()), rs.len() - 1, rs.last())
    }
}

/// The world after packet `p`: the packet's pause flag, and its records.
pub open spec fn apply(s: SimView, p: PacketView) -> SimView {
    SimView { bodies: apply_records(s.bodies, p.updates), paused: p.paused }
}

/// The world after the packet at the start of `b`; `None` where it is
/// malformed.
pub open spec fn decode(s: SimView, b: Seq<u8>) -> Option<SimView> {
    match parse(b) {
        Some(p) => Some(apply(s, p)),
        None => None,
    }
}

/// Once the buffer runs out, reading more records cannot succeed.
proof fn lemma_records_stay_missing(b: Seq<u8>, initial: bool, i: nat, n: nat)
    requires
        i <= n,
        records_from(b, initial, i) is None,
    ensures
        records_from(b, initial, n) is None,
    decreases n - i,
{
    if i < n {
        lemma_records_stay_missing(b, initial, i + 1, n);
    }
}

/// Reads `N` words starting at offset `at`.
fn read_words<const N: usize>(buf: &[u8], at: usize) -> (r: [u32; N])
    requires
        at + 4 * N <= buf@.len(),
    ensures
        r@ == words_at(buf@, at as int, N as nat),
{
    let len = buf.len();
    let mut ws = [0u32; N];
    let mut i: usize = 0;
    while i < N
        invariant
            i <= N,
            len == buf@.len(),
            at + 4 * N <= buf@.len(),
            ws@.len() == N,
            forall|k: int| 0 <= k < i ==> ws@[k] == word_at(buf@, at + 4 * k),
        decreases N - i,
    {
        let w = read_u32(buf, at + 4 * i);
        ws[i] = w;
        i = i + 1;
    }
    assert(ws@ =~= words_at(buf@, at as int, N as nat));
    ws
}

/// Reads the record at offset `at`, with the offset just after it.
fn read_record(buf: &[u8], at: usize, initial: bool) -> (r: Option<(Option<BodyUpdate>, usize)>)
    requires
        at <= buf@.len(),
    ensures
        match record_at(buf@, at as int, initial) {
            None => r is None,
            Some((u, next)) => r matches Some((ru, rnext)) && record_view(ru) == u && rnext == next,
        },
{
    let len = buf.len();
    if at >= len {
        return None;
    }
    if buf[at] == 0 {
        return Some((None, at + 1));
    }
    let need = if initial { INITIAL_RECORD_LEN } else { FULL_RECORD_LEN };
    if need > len - at {
        return None;
    }
    let position: [u32; 3] = read_words(buf, at + 1);
    let rotation: [u32; 12] = read_words(buf, at + 13);
    let mass = if initial { Some(read_u32(buf, at + 61)) } else { None };
    Some((Some(BodyUpdate { position, rotation, mass }), at + need))
}

/// Reads the packet at the start of `buf`; fails where `buf` ends before the
/// fields that the packet declares.
pub fn parse_packet(buf: &[u8]) -> (r: Result<Packet, DecodeError>)
    ensures
        match r {
            Ok(p) => parse(buf@) == Some(p@),
            Err(e) => parse(buf@) is None && e == DecodeError::MalformedPacket,
        },
{
    let len = buf.len();
    if len < 2 {
        return Err(DecodeError::MalformedPacket);
    }
    let paused = buf[0] != 0;
    let initial = buf[1] != 0;
    if !(!paused || initial) {
        let p = Packet { paused, initial, updates: Vec::new() };
        assert(p@.updates =~= Seq::<Option<UpdateView>>::empty());
        return Ok(p);
    }
    if len < RECORDS_START {
        return Err(DecodeError::MalformedPacket);
    }
    let n = read_u32(buf, 2);
    let mut updates: Vec<Option<BodyUpdate>> = Vec::new();
    let mut at: usize = RECORDS_START;
    let mut i: u32 = 0;
    while i < n
        invariant
            i <= n,
            n == word_at(buf@, 2),
            buf@.len() >= RECORDS_START,
            paused == (buf@[0] != 0),
            initial == (buf@[1] != 0),
            carries_bodies(paused, initial),
            at <= buf@.len(),
            records_from(buf@, initial, i as nat) == Some(
                (updates@.map_values(|r: Option<BodyUpdate>| record_view(r)), at as int),
            ),
        decreases n - i,
    {
        match read_record(buf, at, initial) {
            None => {
                proof {
                    assert(records_from(buf@, initial, (i + 1) as nat) is None);
                    lemma_records_stay_missing(buf@, initial, (i + 1) as nat, n as nat);
                }
                return Err(DecodeError::MalformedPacket);
            },
            Some((u, next)) => {
                let ghost prev = updates@.map_values(|r: Option<BodyUpdate>| record_view(r));
                updates.push(u);
                assert(updates@.map_values(|r: Option<BodyUpdate>| record_view(r)) =~= prev.push(
                    record_view(u),
                ));
                at = next;
            },
        }
        i = i + 1;
    }
    Ok(Packet { paused, initial, updates })
}

impl Simulation {
    /// Brings the world up to date with packet `p`: it takes the packet's
    /// pause flag, and each record in index order updates the pose of its
    /// body, or creates the body where the index is the current count.
    pub fn apply_packet(&mut self, p: &Packet)
        ensures
            final(self)@ == apply(old(self)@, p@),
    {
        let ghost rs = p@.updates;
        let ghost start = self@.bodies;
        let n = p.updates.len();
        let mut i: usize = 0;
        while i < n
            invariant
                i <= n,
                n == p.updates@.len(),
                rs == p@.updates,
                start == old(self)@.bodies,
                self@.paused == old(self)@.paused,
                self@.bodies == apply_records(start, rs.take(i as int)),
            decreases n - i,
        {
            let ghost before = self@.bodies;
            match &p.updates[i] {
                None => {},
                Some(u) => {
                    let count = self.bodies.len();
                    if i < count {
                        let mut b = self.bodies[i];
                        b.position = u.position;
                        b.rotation = u.rotation;
                        self.bodies.set(i, b);
                        assert(self@.bodies =~= before.update(
                            i as int,
                            with_pose(before[i as int], u@),
                        ));
                    } else if i == count {
                        let mass = match u.mass {
                            Some(m) => m,
                            None => ONE_BITS,
                        };
                        let b = Body {
                            position: u.position,
                            rotation: u.rotation,
                            velocity: [0, 0, 0],
                            mass,
                        };
                        assert(b.velocity@ =~= seq![0u32, 0, 0]);
                        self.bodies.push(b);
                        assert(self@.bodies =~= before.push(created_body(u@)));
                    }
                },
            }
            proof {
                let t = rs.take(i + 1);
                assert(t.drop_last() =~= rs.take(i as int));
                assert(t.last() == record_view(p.updates@[i as int]));
            }
            i = i + 1;
        }
        assert(rs.take(n as int) =~= rs);
        self.paused = p.paused;
    }

    /// Decodes the packet at the start of `buf` into the world. A malformed
    /// packet fails with `MalformedPacket` and leaves the world as it was.
    pub fn deserialize(&mut self, buf: &[u8]) -> (r: Result<(), DecodeError>)
        ensures
            match decode(old(self)@, buf@) {
                Some(s) => r is Ok && final(self)@ == s,
                None => r == Err::<(), DecodeError>(DecodeError::MalformedPacket) && final(self)@
                    == old(self)@,
            },
    {
        match parse_packet(buf) {
            Ok(p) => {
                self.apply_packet(&p);
                Ok(())
            },
            Err(e) => Err(e),
        }
    }
}

} // verus!
