//! What holds of encoding and decoding together.
use crate::body::{at_rest, body_wf, BodyView};
use crate::decode::{
    apply, apply_records, created_body, decode, full_len, parse, record_at,
    records_from, with_pose, PacketView, UpdateView, RECORDS_START,
};
use crate::encode::{bodies_bytes, body_bytes, carries_bodies, encode, flag_byte, sent_in_full};
use crate::simulation::SimView;
use crate::wire::{
    le_bytes, lemma_le_round_trip, lemma_words_bytes_len, lemma_words_read_back, word_at,
    words_at, words_bytes,
};
use vstd::prelude::*;

verus! {

/// The pose, and in an initial packet the mass, that a packet carries for `b`.
pub open spec fn update_of(b: BodyView, initial: bool) -> UpdateView {
    UpdateView {
        position: b.position,
        rotation: b.rotation,
        mass: if initial {
            Some(b.mass)
        } else {
            None
        },
    }
}

/// The record that a packet carries for `b`: `None` where `b` is left out.
pub open spec fn record_of(b: BodyView, initial: bool) -> Option<UpdateView> {
    if sent_in_full(b, initial) {
        Some(update_of(b, initial))
    } else {
        None
    }
}

/// The packet that encoding the bodies `bs` stands for.
pub open spec fn packet_of(bs: Seq<BodyView>, paused: bool, initial: bool) -> PacketView {
    PacketView {
        paused,
        initial,
        updates: if carries_bodies(paused, initial) {
            bs.map_values(|b: BodyView| record_of(b, initial))
        } else {
            Seq::empty()
        },
    }
}

/// Every body of `bs` has the shape of a body's view.
pub open spec fn all_wf(bs: Seq<BodyView>) -> bool {
    forall|i: int| 0 <= i < bs.len() ==> body_wf(#[trigger] bs[i])
}

/// The length of a body's record.
proof fn lemma_body_bytes_len(b: BodyView, initial: bool)
    requires
        body_wf(b),
    ensures
        body_bytes(b, initial).len() == if sent_in_full(b, initial) {
            full_len(initial)
        } else {
            1
        },
{
    lemma_words_bytes_len(b.position);
    lemma_words_bytes_len(b.rotation);
}

/// A body's record reads back as the record that the body stands for.
proof fn lemma_record_read_back(pre: Seq<u8>, b: BodyView, initial: bool, post: Seq<u8>)
    requires
        body_wf(b),
    ensures
        record_at(pre + body_bytes(b, initial) + post, pre.len() as int, initial) == Some(
            (record_of(b, initial), pre.len() + body_bytes(b, initial).len() as int),
        ),
{
    let buf = pre + body_bytes(b, initial) + post;
    let at = pre.len() as int;
    lemma_body_bytes_len(b, initial);
    if sent_in_full(b, initial) {
        let pw = words_bytes(b.position);
        let rw = words_bytes(b.rotation);
        let mw: Seq<u8> = if initial {
            le_bytes(b.mass)
        } else {
            Seq::empty()
        };
        lemma_words_bytes_len(b.position);
        lemma_words_bytes_len(b.rotation);
        assert(buf =~= (pre + seq![1u8]) + pw + (rw + mw + post));
        lemma_words_read_back(pre + seq![1u8], b.position, rw + mw + post);
        assert(buf =~= (pre + seq![1u8] + pw) + rw + (mw + post));
        lemma_words_read_back(pre + seq![1u8] + pw, b.rotation, mw + post);
        assert(buf[at] == 1);
        if initial {
            lemma_le_round_trip(b.mass);
            let m = at + 61;
            assert(buf[m] == mw[0]);
            assert(buf[m + 1] == mw[1]);
            assert(buf[m + 2] == mw[2]);
            assert(buf[m + 3] == mw[3]);
            assert(word_at(buf, m) == b.mass);
        }
    } else {
        assert(buf[at] == 0);
    }
}

/// The records of a world read back as the records that its bodies stand for.
proof fn lemma_records_read_back(head: Seq<u8>, bs: Seq<BodyView>, initial: bool, post: Seq<u8>)
    requires
        head.len() == RECORDS_START,
        all_wf(bs),
    ensures
        records_from(head + bodies_bytes(bs, initial) + post, initial, bs.len()) == Some(
            (
                bs.map_values(|b: BodyView| record_of(b, initial)),
                RECORDS_START + bodies_bytes(bs, initial).len() as int,
            ),
        ),
    decreases bs.len(),
{
    let buf = head + bodies_bytes(bs, initial) + post;
    if bs.len() == 0 {
        assert(bs.map_values(|b: BodyView| record_of(b, initial)) =~= Seq::empty());
    } else {
        let init = bs.drop_last();
        let last = bs.last();
        assert(body_wf(bs[bs.len() - 1]));
        assert forall|i: int| 0 <= i < init.len() implies body_wf(#[trigger] init[i]) by {
            assert(init[i] == bs[i]);
        }
        assert(buf =~= head + bodies_bytes(init, initial) + (body_bytes(last, initial) + post));
        lemma_records_read_back(head, init, initial, body_bytes(last, initial) + post);
        assert(buf =~= (head + bodies_bytes(init, initial)) + body_bytes(last, initial) + post);
        lemma_record_read_back(head + bodies_bytes(init, initial), last, initial, post);
        assert(bs.map_values(|b: BodyView| record_of(b, initial)) =~= init.map_values(
            |b: BodyView| record_of(b, initial),
        ).push(record_of(last, initial)));
    }
}

/// Decoding an encoded world, whatever bytes follow it, gives back the
/// packet that the world stands for: every body sent in full carries its pose
/// bit for bit, and its mass in an initial packet.
pub proof fn lemma_parse_encode(bs: Seq<BodyView>, paused: bool, initial: bool, tail: Seq<u8>)
    requires
        bs.len() <= u32::MAX,
        all_wf(bs),
    ensures
        parse(encode(bs, paused, initial) + tail) == Some(packet_of(bs, paused, initial)),
{
    let buf = encode(bs, paused, initial) + tail;
    let flags = seq![flag_byte(paused), flag_byte(initial)];
    assert(buf[0] == flag_byte(paused));
    assert(buf[1] == flag_byte(initial));
    if carries_bodies(paused, initial) {
        let count = le_bytes(bs.len() as u32);
        let head = flags + count;
        assert(buf =~= head + bodies_bytes(bs, initial) + tail);
        lemma_records_read_back(head, bs, initial, tail);
        lemma_le_round_trip(bs.len() as u32);
        assert(buf[2] == count[0]);
        assert(buf[3] == count[1]);
        assert(buf[4] == count[2]);
        assert(buf[5] == count[3]);
        assert(word_at(buf, 2) == bs.len() as u32);
    } else {
        assert(packet_of(bs, paused, initial).updates =~= Seq::<Option<UpdateView>>::empty());
    }
}

/// Every record of `rs` carries a pose.
pub open spec fn all_full(rs: Seq<Option<UpdateView>>) -> bool {
    forall|k: int| 0 <= k < rs.len() ==> (#[trigger] rs[k]) is Some
}

/// The larger of two integers.
pub open spec fn max_int(a: int, b: int) -> int {
    if a >= b {
        a
    } else {
        b
    }
}

/// How records change a list of bodies: bodies are only ever added at the
/// end; an existing body keeps its mass and velocity, and stays as it was
/// where its record is left out; where every record carries a pose, the list
/// reaches the record count, and the bodies past the old end are created
/// from their records.
proof fn lemma_apply_records(bs: Seq<BodyView>, rs: Seq<Option<UpdateView>>)
    ensures
        ({
            let r = apply_records(bs, rs);
            &&& bs.len() <= r.len() <= max_int(bs.len() as int, rs.len() as int)
            &&& forall|i: int|
                0 <= i < bs.len() ==> (#[trigger] r[i]).mass == bs[i].mass && r[i].velocity
                    == bs[i].velocity
            &&& forall|i: int|
                0 <= i < bs.len() && (i >= rs.len() || rs[i] is None) ==> #[trigger] r[i]
                    == bs[i]
            &&& all_full(rs) ==> {
                &&& r.len() == max_int(bs.len() as int, rs.len() as int)
                &&& forall|i: int|
                    bs.len() <= i < rs.len() ==> #[trigger] r[i] == created_body(rs[i]->Some_0)
                &&& forall|i: int|
                    0 <= i < bs.len() && i < rs.len() ==> #[trigger] r[i] == with_pose(
                        bs[i],
                        rs[i]->Some_0,
                    )
            }
        }),
    decreases rs.len(),
{
    if rs.len() > 0 {
        let dl = rs.drop_last();
        lemma_apply_records(bs, dl);
        if all_full(rs) {
            assert forall|k: int| 0 <= k < dl.len() implies (#[trigger] dl[k]) is Some by {
                assert(dl[k] == rs[k]);
            }
        }
        assert forall|i: int|
            0 <= i < bs.len() && (i >= rs.len() || rs[i] is None) implies #[trigger] apply_records(
            bs,
            rs,
        )[i] == bs[i] by {
            if i < dl.len() {
                assert(dl[i] == rs[i]);
            }
        }
        assert(rs.last() == rs[rs.len() - 1]);
    }
}

/// Decoding an initial packet of a running world into a world with no
/// bodies, whatever bytes follow the packet, rebuilds every body with the same
/// position, rotation and mass, bit for bit.
pub proof fn lemma_initial_round_trip(bs: Seq<BodyView>, fresh: SimView, tail: Seq<u8>)
    requires
        bs.len() <= u32::MAX,
        all_wf(bs),
        fresh.bodies.len() == 0,
    ensures
        decode(fresh, encode(bs, false, true) + tail) matches Some(s) && {
            &&& !s.paused
            &&& s.bodies.len() == bs.len()
            &&& forall|i: int|
                0 <= i < bs.len() ==> {
                    &&& (#[trigger] s.bodies[i]).position == bs[i].position
                    &&& s.bodies[i].rotation == bs[i].rotation
                    &&& s.bodies[i].mass == bs[i].mass
                }
        },
{
    lemma_parse_encode(bs, false, true, tail);
    let rs = packet_of(bs, false, true).updates;
    assert forall|k: int| 0 <= k < rs.len() implies (#[trigger] rs[k]) is Some by {}
    lemma_apply_records(fresh.bodies, rs);
}

/// In a packet that is not initial, a body at rest is sent as a lone 0 flag,
/// and decoding the packet leaves that body of the mirror exactly as it was.
pub proof fn lemma_rest_elision(
    bs: Seq<BodyView>,
    i: int,
    mirror: SimView,
    paused: bool,
    tail: Seq<u8>,
)
    requires
        bs.len() <= u32::MAX,
        all_wf(bs),
        0 <= i < bs.len(),
        at_rest(bs[i].velocity),
        i < mirror.bodies.len(),
    ensures
        body_bytes(bs[i], false) == seq![0u8],
        decode(mirror, encode(bs, paused, false) + tail) matches Some(s) && s.bodies[i]
            == mirror.bodies[i],
{
    lemma_parse_encode(bs, paused, false, tail);
    let rs = packet_of(bs, paused, false).updates;
    lemma_apply_records(mirror.bodies, rs);
    if i < rs.len() {
        assert(rs[i] is None);
    }
}

/// A packet whose records all carry a pose grows the mirror to its body count
/// at once: every index past the old end is created, once, from its record,
/// and the bodies that were there keep their mass. A packet never shrinks the
/// mirror.
pub proof fn lemma_new_bodies_appear(s: SimView, p: PacketView)
    ensures
        apply(s, p).bodies.len() >= s.bodies.len(),
        all_full(p.updates) ==> {
            let r = apply(s, p).bodies;
            &&& r.len() == max_int(s.bodies.len() as int, p.updates.len() as int)
            &&& forall|i: int|
                s.bodies.len() <= i < p.updates.len() ==> #[trigger] r[i] == created_body(
                    p.updates[i]->Some_0,
                )
            &&& forall|i: int| 0 <= i < s.bodies.len() ==> (#[trigger] r[i]).mass == s.bodies[i].mass
        },
{
    lemma_apply_records(s.bodies, p.updates);
}

/// The mirror after each packet of `packets` in turn, where a malformed packet
/// is dropped.
pub open spec fn decode_each(s: SimView, packets: Seq<Seq<u8>>) -> SimView
    decreases packets.len(),
{
    if packets.len() == 0 {
        s
    } else {
        let prev = decode_each(s, packets.drop_last());
        match decode(prev, packets.last()) {
            Some(next) => next,
            None => prev,
        }
    }
}

/// Over any run of packets the mirror never shrinks, and each body keeps the
/// mass and velocity it was created with: no index is created twice.
pub proof fn lemma_mirror_never_shrinks(s: SimView, packets: Seq<Seq<u8>>)
    ensures
        decode_each(s, packets).bodies.len() >= s.bodies.len(),
        forall|i: int|
            0 <= i < s.bodies.len() ==> {
                &&& (#[trigger] decode_each(s, packets).bodies[i]).mass == s.bodies[i].mass
                &&& decode_each(s, packets).bodies[i].velocity == s.bodies[i].velocity
            },
    decreases packets.len(),
{
    if packets.len() > 0 {
        let prev = decode_each(s, packets.drop_last());
        lemma_mirror_never_shrinks(s, packets.drop_last());
        match parse(packets.last()) {
            Some(p) => lemma_apply_records(prev.bodies, p.updates),
            None => {},
        }
    }
}

/// A paused world that is not sent as initial yields the two flag bytes
/// alone, however many bodies it holds.
pub proof fn lemma_heartbeat_size(bs: Seq<BodyView>)
    ensures
        encode(bs, true, false) == seq![1u8, 0u8],
        encode(bs, true, false).len() == 2,
{
    assert(encode(bs, true, false) =~= seq![1u8, 0u8]);
}

/// Reading records from the first `k` bytes of `b` gives what reading them
/// from `b` gives where that ends within those bytes, and fails otherwise.
proof fn lemma_records_of_prefix(b: Seq<u8>, k: int, initial: bool, j: nat)
    requires
        RECORDS_START <= k <= b.len(),
    ensures
        records_from(b.take(k), initial, j) == match records_from(b, initial, j) {
            Some((rs, end)) => if end <= k {
                Some((rs, end))
            } else {
                None
            },
            None => None,
        },
        records_from(b, initial, j) matches Some((_, end)) ==> end >= RECORDS_START,
    decreases j,
{
    let t = b.take(k);
    if j > 0 {
        let i = (j - 1) as nat;
        lemma_records_of_prefix(b, k, initial, i);
        match records_from(b, initial, i) {
            None => {},
            Some((rs, at)) => {
                if at <= k {
                    if at < k {
                        assert(t[at] == b[at]);
                        if b[at] != 0 && at + full_len(initial) <= k {
                            assert(words_at(t, at + 1, 3) =~= words_at(b, at + 1, 3));
                            assert(words_at(t, at + 13, 12) =~= words_at(b, at + 13, 12));
                            if initial {
                                assert(word_at(t, at + 61) == word_at(b, at + 61));
                            }
                        }
                    }
                }
            },
        }
    }
}

/// A well-formed packet cut short at any byte fails to decode.
pub proof fn lemma_truncation_is_malformed(
    bs: Seq<BodyView>,
    paused: bool,
    initial: bool,
    k: int,
)
    requires
        bs.len() <= u32::MAX,
        all_wf(bs),
        0 <= k < encode(bs, paused, initial).len(),
    ensures
        parse(encode(bs, paused, initial).take(k)) is None,
{
    let w = encode(bs, paused, initial);
    let t = w.take(k);
    if carries_bodies(paused, initial) && k >= RECORDS_START {
        let n = bs.len();
        let count = le_bytes(n as u32);
        let head = seq![flag_byte(paused), flag_byte(initial)] + count;
        let body = bodies_bytes(bs, initial);
        assert(w == head + body + Seq::<u8>::empty()) by {
            assert(w =~= head + body + Seq::<u8>::empty());
        }
        lemma_records_read_back(head, bs, initial, Seq::empty());
        assert(records_from(w, initial, n) matches Some((_, end)) && end == w.len());
        lemma_records_of_prefix(w, k, initial, n);
        assert(records_from(t, initial, n) is None);
        assert(word_at(t, 2) == n as u32) by {
            lemma_le_round_trip(n as u32);
            assert(t[2] == count[0]);
            assert(t[3] == count[1]);
            assert(t[4] == count[2]);
            assert(t[5] == count[3]);
        }
        assert(t[0] == flag_byte(paused));
        assert(t[1] == flag_byte(initial));
    }
}

} // verus!
