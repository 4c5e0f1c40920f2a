//! Wire framing: `[request id: 8 bytes LE][body length: 4 bytes LE][body]`.

use vstd::prelude::*;
use byteorder::{ByteOrder, LittleEndian};

verus! {

/// Length of the fixed frame header: request id followed by body length.
pub const HEADER_LEN: usize = 12;

/// `256^n`.
pub open spec fn pow256(n: nat) -> nat
    decreases n,
{
    if n == 0 {
        1
    } else {
        256 * pow256((n - 1) as nat)
    }
}

/// The number that a little-endian byte sequence denotes.
pub open spec fn le_value(s: Seq<u8>) -> nat
    decreases s.len(),
{
    if s.len() == 0 {
        0
    } else {
        s[0] as nat + 256 * le_value(s.drop_first())
    }
}

/// The `n` low bytes of `x`, least significant first.
pub open spec fn le_bytes(x: nat, n: nat) -> Seq<u8>
    decreases n,
{
    if n == 0 {
        Seq::empty()
    } else {
        seq![(x % 256) as u8].add(le_bytes(x / 256, (n - 1) as nat))
    }
}

/// The bytes of one frame carrying `body` under `request_id`.
pub open spec fn frame_bytes(request_id: u64, body: Seq<u8>) -> Seq<u8> {
    le_bytes(request_id as nat, 8) + le_bytes(body.len(), 4) + body
}

/// What decoding finds at the front of `buf`: `None` while no complete frame is
/// buffered, else the request id, the body, and the bytes that follow the frame.
pub open spec fn decode_spec(buf: Seq<u8>) -> Option<(u64, Seq<u8>, Seq<u8>)> {
    if buf.len() < 12 {
        None
    } else {
        let len = le_value(buf.subrange(8, 12)) as int;
        if buf.len() < 12 + len {
            None
        } else {
            Some(
                (
                    le_value(buf.subrange(0, 8)) as u64,
                    buf.subrange(12, 12 + len),
                    buf.subrange(12 + len, buf.len() as int),
                ),
            )
        }
    }
}

pub proof fn lemma_le_bytes_len(x: nat, n: nat)
    ensures
        le_bytes(x, n).len() == n,
    decreases n,
{
    if n > 0 {
        lemma_le_bytes_len(x / 256, (n - 1) as nat);
    }
}

/// Reading back the `n` low bytes of a number below `256^n` gives the number.
pub proof fn lemma_le_round_trip(x: nat, n: nat)
    requires
        x < pow256(n),
    ensures
        le_value(le_bytes(x, n)) == x,
    decreases n,
{
    if n > 0 {
        let p = pow256((n - 1) as nat);
        assert(x / 256 < p) by (nonlinear_arith)
            requires
                x < 256 * p,
        ;
        lemma_le_round_trip(x / 256, (n - 1) as nat);
        let s = le_bytes(x, n);
        assert(s.drop_first() =~= le_bytes(x / 256, (n - 1) as nat));
        assert(x == x % 256 + 256 * (x / 256)) by (nonlinear_arith);
    }
}

pub proof fn lemma_pow256_values()
    ensures
        pow256(4) == 0x1_0000_0000,
        pow256(8) == 0x1_0000_0000_0000_0000,
{
    reveal_with_fuel(pow256, 9);
}

/// Decoding frame after frame until none is complete: the frames found, in
/// order, and the bytes left over.
pub open spec fn drain_spec(buf: Seq<u8>) -> (Seq<(u64, Seq<u8>)>, Seq<u8>)
    decreases buf.len(),
{
    match decode_spec(buf) {
        None => (Seq::empty(), buf),
        Some((id, body, rest)) => if rest.len() < buf.len() {
            let (more, left) = drain_spec(rest);
            (seq![(id, body)] + more, left)
        } else {
            (Seq::empty(), buf)
        },
    }
}

/// The bytes of the given frames, one after another.
pub open spec fn frames_bytes(frames: Seq<(u64, Seq<u8>)>) -> Seq<u8>
    decreases frames.len(),
{
    if frames.len() == 0 {
        Seq::empty()
    } else {
        frame_bytes(frames[0].0, frames[0].1) + frames_bytes(frames.drop_first())
    }
}

/// Every body is short enough for the four-byte length field.
pub open spec fn bodies_fit(frames: Seq<(u64, Seq<u8>)>) -> bool {
    forall|i: int| 0 <= i < frames.len() ==> (#[trigger] frames[i]).1.len() <= u32::MAX
}

/// A receiver that gets `input` one byte at a time, appends each byte to its
/// buffer `buf` and then tries one decode. Gives the final buffer and the
/// frames decoded, in order.
pub open spec fn feed_bytes(buf: Seq<u8>, input: Seq<u8>) -> (Seq<u8>, Seq<(u64, Seq<u8>)>)
    decreases input.len(),
{
    if input.len() == 0 {
        (buf, Seq::empty())
    } else {
        let grown = buf.push(input[0]);
        let (next, out) = match decode_spec(grown) {
            None => (grown, Seq::<(u64, Seq<u8>)>::empty()),
            Some((id, body, rest)) => (rest, seq![(id, body)]),
        };
        let (last, more) = feed_bytes(next, input.drop_first());
        (last, out + more)
    }
}

pub proof fn lemma_frame_len(request_id: u64, body: Seq<u8>)
    ensures
        frame_bytes(request_id, body).len() == 12 + body.len(),
{
    lemma_le_bytes_len(request_id as nat, 8);
    lemma_le_bytes_len(body.len(), 4);
}

/// The header of a frame reads back as its request id and its body length.
proof fn lemma_header_fields(request_id: u64, body: Seq<u8>, buf: Seq<u8>)
    requires
        body.len() <= u32::MAX,
        buf.len() >= 12,
        buf.subrange(0, 12) == frame_bytes(request_id, body).subrange(0, 12),
    ensures
        le_value(buf.subrange(0, 8)) == request_id as nat,
        le_value(buf.subrange(8, 12)) == body.len(),
{
    let f = frame_bytes(request_id, body);
    lemma_frame_len(request_id, body);
    lemma_pow256_values();
    lemma_le_bytes_len(request_id as nat, 8);
    lemma_le_bytes_len(body.len(), 4);
    assert(buf.subrange(0, 8) =~= buf.subrange(0, 12).subrange(0, 8));
    assert(f.subrange(0, 12).subrange(0, 8) =~= le_bytes(request_id as nat, 8));
    assert(buf.subrange(8, 12) =~= buf.subrange(0, 12).subrange(8, 12));
    assert(f.subrange(0, 12).subrange(8, 12) =~= le_bytes(body.len(), 4));
    lemma_le_round_trip(request_id as nat, 8);
    lemma_le_round_trip(body.len(), 4);
}

/// Decoding a frame followed by any bytes gives back the frame's request id
/// and body, and leaves exactly the bytes that followed it.
pub proof fn lemma_decode_encoded(request_id: u64, body: Seq<u8>, rest: Seq<u8>)
    requires
        body.len() <= u32::MAX,
    ensures
        decode_spec(frame_bytes(request_id, body) + rest) == Some((request_id, body, rest)),
{
    let f = frame_bytes(request_id, body);
    let buf = f + rest;
    lemma_frame_len(request_id, body);
    assert(buf.subrange(0, 12) =~= f.subrange(0, 12));
    lemma_header_fields(request_id, body, buf);
    lemma_le_bytes_len(request_id as nat, 8);
    lemma_le_bytes_len(body.len(), 4);
    assert(buf.subrange(12, 12 + body.len() as int) =~= body);
    assert(buf.subrange(12 + body.len() as int, buf.len() as int) =~= rest);
}

/// Round trip: decoding the frame that `encode_frame` builds gives back the
/// request id and the body, and consumes the whole frame.
pub proof fn lemma_round_trip(request_id: u64, body: Seq<u8>)
    requires
        body.len() <= u32::MAX,
    ensures
        decode_spec(frame_bytes(request_id, body)) == Some((request_id, body, Seq::<u8>::empty())),
{
    lemma_decode_encoded(request_id, body, Seq::empty());
    assert(frame_bytes(request_id, body) + Seq::<u8>::empty() =~= frame_bytes(request_id, body));
}

/// Any proper prefix of a frame is incomplete: decoding it finds nothing.
pub proof fn lemma_prefix_incomplete(request_id: u64, body: Seq<u8>, n: int)
    requires
        body.len() <= u32::MAX,
        0 <= n < 12 + body.len(),
    ensures
        decode_spec(frame_bytes(request_id, body).subrange(0, n)) is None,
{
    let f = frame_bytes(request_id, body);
    lemma_frame_len(request_id, body);
    let p = f.subrange(0, n);
    if n >= 12 {
        assert(p.subrange(0, 12) =~= f.subrange(0, 12));
        lemma_header_fields(request_id, body, p);
    }
}

/// Feeding the rest of a partly received frame, then `tail`, completes that
/// frame exactly once, at its last byte, with an empty buffer left behind.
proof fn lemma_feed_frame(request_id: u64, body: Seq<u8>, n: int, tail: Seq<u8>)
    requires
        body.len() <= u32::MAX,
        0 <= n < 12 + body.len(),
    ensures
        ({
            let f = frame_bytes(request_id, body);
            let (last, more) = feed_bytes(Seq::empty(), tail);
            feed_bytes(f.subrange(0, n), f.subrange(n, f.len() as int) + tail)
                == (last, seq![(request_id, body)] + more)
        }),
    decreases 12 + body.len() - n,
{
    let f = frame_bytes(request_id, body);
    lemma_frame_len(request_id, body);
    let input = f.subrange(n, f.len() as int) + tail;
    let grown = f.subrange(0, n).push(input[0]);
    assert(grown =~= f.subrange(0, n + 1));
    if n + 1 == f.len() {
        assert(grown =~= f);
        lemma_round_trip(request_id, body);
        assert(input.drop_first() =~= tail);
        let (last, more) = feed_bytes(Seq::empty(), tail);
        assert(Seq::<(u64, Seq<u8>)>::empty() + more =~= more);
    } else {
        lemma_prefix_incomplete(request_id, body, n + 1);
        assert(input.drop_first() =~= f.subrange(n + 1, f.len() as int) + tail);
        lemma_feed_frame(request_id, body, n + 1, tail);
        let (last, more) = feed_bytes(Seq::empty(), tail);
        assert(Seq::<(u64, Seq<u8>)>::empty() + (seq![(request_id, body)] + more)
            =~= seq![(request_id, body)] + more);
    }
}

/// Incremental decoding: feeding the bytes of consecutive frames one byte at
/// a time yields exactly those frames, in order, and leaves nothing buffered.
pub proof fn lemma_incremental_decode(frames: Seq<(u64, Seq<u8>)>)
    requires
        bodies_fit(frames),
    ensures
        feed_bytes(Seq::empty(), frames_bytes(frames)) == (Seq::<u8>::empty(), frames),
    decreases frames.len(),
{
    if frames.len() > 0 {
        let (id, body) = frames[0];
        let tail = frames_bytes(frames.drop_first());
        assert(bodies_fit(frames.drop_first())) by {
            assert forall|i: int| 0 <= i < frames.drop_first().len() implies
                (#[trigger] frames.drop_first()[i]).1.len() <= u32::MAX by {
                assert(frames.drop_first()[i] == frames[i + 1]);
            }
        }
        assert(frames[0].1.len() <= u32::MAX);
        lemma_incremental_decode(frames.drop_first());
        lemma_feed_frame(id, body, 0, tail);
        let f = frame_bytes(id, body);
        assert(f.subrange(0, 0) =~= Seq::<u8>::empty());
        assert(f.subrange(0, f.len() as int) =~= f);
        assert(seq![(id, body)] + frames.drop_first() =~= frames);
    }
}

/// Draining the bytes of consecutive frames yields exactly those frames, in
/// order, and leaves nothing.
pub proof fn lemma_drain_frames(frames: Seq<(u64, Seq<u8>)>)
    requires
        bodies_fit(frames),
    ensures
        drain_spec(frames_bytes(frames)) == (frames, Seq::<u8>::empty()),
    decreases frames.len(),
{
    if frames.len() > 0 {
        let (id, body) = frames[0];
        let tail = frames_bytes(frames.drop_first());
        assert(bodies_fit(frames.drop_first())) by {
            assert forall|i: int| 0 <= i < frames.drop_first().len() implies
                (#[trigger] frames.drop_first()[i]).1.len() <= u32::MAX by {
                assert(frames.drop_first()[i] == frames[i + 1]);
            }
        }
        assert(frames[0].1.len() <= u32::MAX);
        lemma_drain_frames(frames.drop_first());
        lemma_decode_encoded(id, body, tail);
        lemma_frame_len(id, body);
        assert(seq![(id, body)] + frames.drop_first() =~= frames);
    }
}

/// Relies on byteorder's `LittleEndian::read_u64`: the first eight bytes of the
/// slice, least significant first (it panics on fewer than eight).
#[verifier::external_body]
fn read_u64_le(buf: &[u8]) -> (r: u64)
    requires
        buf@.len() >= 8,
    ensures
        r as nat == le_value(buf@.subrange(0, 8)),
{
    LittleEndian::read_u64(buf)
}

/// Relies on byteorder's `LittleEndian::read_u32`: the first four bytes of the
/// slice, least significant first (it panics on fewer than four).
#[verifier::external_body]
fn read_u32_le(buf: &[u8]) -> (r: u32)
    requires
        buf@.len() >= 4,
    ensures
        r as nat == le_value(buf@.subrange(0, 4)),
{
    LittleEndian::read_u32(buf)
}

/// Relies on byteorder's `LittleEndian::write_u64`: it stores `n` in eight
/// bytes, least significant first.
#[verifier::external_body]
fn u64_to_le(n: u64) -> (r: Vec<u8>)
    ensures
        r@ == le_bytes(n as nat, 8),
{
    let mut b = [0u8; 8];
    LittleEndian::write_u64(&mut b, n);
    b.to_vec()
}

/// Relies on byteorder's `LittleEndian::write_u32`: it stores `n` in four
/// bytes, least significant first.
#[verifier::external_body]
fn u32_to_le(n: u32) -> (r: Vec<u8>)
    ensures
        r@ == le_bytes(n as nat, 4),
{
    let mut b = [0u8; 4];
    LittleEndian::write_u32(&mut b, n);
    b.to_vec()
}

/// Why a frame could not be built.
#[derive(Clone, Copy, Debug, PartialEq, Eq, Structural)]
pub enum FrameError {
    /// The body is longer than the four-byte length field can state.
    BodyTooLarge,
}

/// Builds the frame that carries `body` under `request_id`.
pub fn encode_frame(request_id: u64, body: &[u8]) -> (r: Result<Vec<u8>, FrameError>)
    ensures
        match r {
            Ok(bytes) => body@.len() <= u32::MAX && bytes@ == frame_bytes(request_id, body@),
            Err(e) => body@.len() > u32::MAX && e == FrameError::BodyTooLarge,
        },
{
    if body.len() > 0xffff_ffffusize {
        return Err(FrameError::BodyTooLarge);
    }
    let mut out = u64_to_le(request_id);
    let mut len = u32_to_le(body.len() as u32);
    out.append(&mut len);
    let mut i: usize = 0;
    let ghost start = out@;
    while i < body.len()
        invariant
            i <= body@.len(),
            out@ == start + body@.subrange(0, i as int),
        decreases body@.len() - i,
    {
        out.push(body[i]);
        i = i + 1;
        assert(body@.subrange(0, i as int) =~= body@.subrange(0, i - 1) + seq![body@[i - 1]]);
    }
    assert(body@.subrange(0, body@.len() as int) =~= body@);
    Ok(out)
}

/// Takes one complete frame off the front of `buf`. While fewer than a whole
/// frame's bytes are buffered it returns `None` and leaves `buf` as it was.
pub fn decode_frame(buf: &mut Vec<u8>) -> (r: Option<(u64, Vec<u8>)>)
    ensures
        match decode_spec(old(buf)@) {
            None => r is None && final(buf)@ == old(buf)@,
            Some((id, body, rest)) => {
                &&& r matches Some((rid, rbody))
                &&& rid == id
                &&& rbody@ == body
                &&& final(buf)@ == rest
            },
        },
{
    if buf.len() < HEADER_LEN {
        return None;
    }
    let request_id = read_u64_le(buf.as_slice());
    let len = read_u32_le(&buf.as_slice()[8..12]);
    proof {
        assert(buf@.subrange(8, 12).subrange(0, 4) =~= buf@.subrange(8, 12));
    }
    let total: u64 = len as u64 + 12;
    if (buf.len() as u64) < total {
        return None;
    }
    let mut rest = buf.split_off(total as usize);
    let body = buf.split_off(HEADER_LEN);
    proof {
        assert(body@ =~= old(buf)@.subrange(12, 12 + len as int));
    }
    *buf = rest;
    Some((request_id, body))
}

/// Takes every complete frame off the front of `buf`, in order; the bytes of
/// an incomplete frame stay buffered.
pub fn decode_all(buf: &mut Vec<u8>) -> (r: Vec<(u64, Vec<u8>)>)
    ensures
        r@.map_values(|f: (u64, Vec<u8>)| (f.0, f.1@)) == drain_spec(old(buf)@).0,
        final(buf)@ == drain_spec(old(buf)@).1,
{
    let mut out: Vec<(u64, Vec<u8>)> = Vec::new();
    let ghost all = drain_spec(buf@);
    loop
        invariant
            out@.map_values(|f: (u64, Vec<u8>)| (f.0, f.1@)) + drain_spec(buf@).0 == all.0,
            drain_spec(buf@).1 == all.1,
            all == drain_spec(old(buf)@),
        decreases buf@.len(),
    {
        let ghost before = buf@;
        match decode_frame(buf) {
            None => {
                assert(drain_spec(before) == (Seq::<(u64, Seq<u8>)>::empty(), before));
                assert(out@.map_values(|f: (u64, Vec<u8>)| (f.0, f.1@)) + Seq::empty()
                    =~= out@.map_values(|f: (u64, Vec<u8>)| (f.0, f.1@)));
                return out;
            },
            Some(frame) => {
                let ghost fv = (frame.0, frame.1@);
                proof {
                    let rest = buf@;
                    assert(rest.len() < before.len());
                    let olds = out@.map_values(|f: (u64, Vec<u8>)| (f.0, f.1@));
                    assert(drain_spec(before).0 =~= seq![fv] + drain_spec(rest).0);
                    assert(olds + drain_spec(before).0 =~= olds.push(fv) + drain_spec(rest).0);
                }
                let ghost prev = out@;
                out.push(frame);
                proof {
                    assert(out@.map_values(|f: (u64, Vec<u8>)| (f.0, f.1@))
                        =~= prev.map_values(|f: (u64, Vec<u8>)| (f.0, f.1@)).push(fv));
                }
            },
        }
    }
}

} // verus!
