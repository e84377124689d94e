//! Little-endian integers as they stand on the wire.
use byteorder::{ByteOrder, LittleEndian};
use vstd::prelude::*;

verus! {

/// The four bytes of `n`, least significant first.
pub open spec fn le_bytes(n: u32) -> Seq<u8> {
    seq![
        (n % 256) as u8,
        ((n / 256) % 256) as u8,
        ((n / 65536) % 256) as u8,
        (n / 16777216) as u8,
    ]
}

/// The integer that four bytes encode, least significant first.
pub open spec fn le_u32(b0: u8, b1: u8, b2: u8, b3: u8) -> u32 {
    (b0 as int + 256 * (b1 as int) + 65536 * (b2 as int) + 16777216 * (b3 as int)) as u32
}

/// The integer stored little-endian at offset `at` of `b`.
pub open spec fn word_at(b: Seq<u8>, at: int) -> u32 {
    le_u32(b[at], b[at + 1], b[at + 2], b[at + 3])
}

/// `n` consecutive little-endian integers of `b`, starting at offset `at`.
pub open spec fn words_at(b: Seq<u8>, at: int, n: nat) -> Seq<u32> {
    Seq::new(n, |k: int| word_at(b, at + 4 * k))
}

/// The little-endian encoding of each integer of `ws`, one after the other.
pub open spec fn words_bytes(ws: Seq<u32>) -> Seq<u8>
    decreases ws.len(),
{
    if ws.len() == 0 {
        Seq::empty()
    } else {
        words_bytes(ws.drop_last()) + le_bytes(ws.last())
    }
}

/// Relies on byteorder's `LittleEndian::write_u32`: `n` as four bytes, least
/// significant first.
#[verifier::external_body]
fn u32_to_le(n: u32) -> (r: [u8; 4])
    ensures
        r@ == le_bytes(n),
{
    let mut b = [0u8; 4];
    LittleEndian::write_u32(&mut b, n);
    b
}

/// Relies on byteorder's `LittleEndian::read_u32`: the integer held in the
/// first four bytes of `buf`, least significant first (it panics on fewer).
#[verifier::external_body]
fn u32_from_le(buf: &[u8]) -> (r: u32)
    requires
        buf@.len() >= 4,
    ensures
        r == le_u32(buf@[0], buf@[1], buf@[2], buf@[3]),
{
    LittleEndian::read_u32(buf)
}

/// Appends the little-endian encoding of `n` to `out`.
pub fn push_u32(out: &mut Vec<u8>, n: u32)
    ensures
        final(out)@ == old(out)@ + le_bytes(n),
{
    let b = u32_to_le(n);
    out.push(b[0]);
    out.push(b[1]);
    out.push(b[2]);
    out.push(b[3]);
    assert(final(out)@ =~= old(out)@ + le_bytes(n));
}

/// Reads the little-endian integer at offset `at` of `buf`.
pub fn read_u32(buf: &[u8], at: usize) -> (r: u32)
    requires
        at + 4 <= buf@.len(),
    ensures
        r == word_at(buf@, at as int),
{
    let len = buf.len();
    assert(at + 4 <= len);
    let part = vstd::slice::slice_subrange(buf, at, at + 4);
    u32_from_le(part)
}

/// Reading back the encoding of an integer gives the integer.
pub proof fn lemma_le_round_trip(n: u32)
    ensures
        le_u32(le_bytes(n)[0], le_bytes(n)[1], le_bytes(n)[2], le_bytes(n)[3]) == n,
{
    let b = le_bytes(n);
    assert(b[0] == n % 256);
    assert(b[1] == (n / 256) % 256);
    assert(b[2] == (n / 65536) % 256);
    assert(b[3] == n / 16777216);
    assert(le_u32(b[0], b[1], b[2], b[3]) == n) by (nonlinear_arith)
        requires
            b[0] == n % 256,
            b[1] == (n / 256) % 256,
            b[2] == (n / 65536) % 256,
            b[3] == n / 16777216,
    ;
}

/// The encoding of `ws` takes four bytes per word.
pub proof fn lemma_words_bytes_len(ws: Seq<u32>)
    ensures
        words_bytes(ws).len() == 4 * ws.len(),
    decreases ws.len(),
{
    if ws.len() > 0 {
        lemma_words_bytes_len(ws.drop_last());
    }
}

/// The words encoded at offset `pre.len()` read back as they were, whatever
/// surrounds them.
pub proof fn lemma_words_read_back(pre: Seq<u8>, ws: Seq<u32>, post: Seq<u8>)
    ensures
        words_at(pre + words_bytes(ws) + post, pre.len() as int, ws.len()) == ws,
    decreases ws.len(),
{
    let b = pre + words_bytes(ws) + post;
    if ws.len() > 0 {
        let init = ws.drop_last();
        let last = le_bytes(ws.last());
        lemma_words_bytes_len(init);
        assert(b =~= pre + words_bytes(init) + (last + post));
        lemma_words_read_back(pre, init, last + post);
        lemma_le_round_trip(ws.last());
        let at = pre.len() as int + 4 * init.len();
        assert(b[at] == last[0]);
        assert(b[at + 1] == last[1]);
        assert(b[at + 2] == last[2]);
        assert(b[at + 3] == last[3]);
        let r = words_at(b, pre.len() as int, ws.len());
        assert forall|k: int| 0 <= k < ws.len() implies r[k] == ws[k] by {
            if k < init.len() {
                assert(words_at(b, pre.len() as int, init.len())[k] == init[k]);
            }
        }
        assert(r =~= ws);
    } else {
        assert(words_at(b, pre.len() as int, 0) =~= ws);
    }
}

} // verus!
