//! The connection-level receive logic: one socket read fills a working
//! buffer; whole frames are decoded from it in order, and a frame whose
//! declared length exceeds what is buffered tells the caller exactly how
//! many more bytes to pull from the transport before going on.

use crate::buffer::ByteBuf;
use crate::frame::{
    body_bytes, frame_bytes, frame_fits, parse_body, parse_frame_sections, read_frame,
    FrameError, FrameSections,
};
use crate::var::{lemma_parse_varint_consumed, parse_varint, DeserializeError, VarIntParse};
use vstd::prelude::*;

verus! {

/// The size of the chunk one socket read may hand the receive loop.
#[derive(Debug, Clone, Copy, PartialEq, Eq, Structural)]
pub enum BufferSize {
    Medium,
}

impl BufferSize {
    /// The chunk size in bytes.
    pub fn value(&self) -> (r: usize)
        ensures
            r == 4096,
    {
        match self {
            BufferSize::Medium => 4096,
        }
    }
}

/// What a frame's length prefix asks of the receive loop: the declared
/// frame length, and how many bytes past those buffered the frame still
/// needs — the exact count to pull from the transport before reading on.
#[derive(Debug)]
pub struct FrameNeed {
    pub len: i32,
    pub missing: usize,
}

/// Reads a frame's VarInt length prefix and reports how many of the
/// declared bytes are not buffered yet: zero when the whole frame is here,
/// else exactly the count one further blocking transport read must supply.
pub fn begin_frame(buf: &mut ByteBuf) -> (r: Result<FrameNeed, FrameError>)
    requires
        old(buf).wf(),
    ensures
        final(buf).wf(),
        final(buf).data() == old(buf).data(),
        final(buf).cursor() >= old(buf).cursor(),
        match parse_varint(old(buf).readable(), 5) {
            VarIntParse::Value(l, n) => if (l as i32) >= 0 {
                r matches Ok(need) && need.len == l as i32 && final(buf).cursor() == old(
                    buf,
                ).cursor() + n && need.missing == if l <= old(buf).readable().len() - n {
                    0int
                } else {
                    l - (old(buf).readable().len() - n)
                }
            } else {
                r == Err::<FrameNeed, FrameError>(FrameError::BadLength)
            },
            VarIntParse::TooBig => r == Err::<FrameNeed, FrameError>(
                FrameError::Codec(DeserializeError::VarIntTooBig),
            ),
            VarIntParse::TooShort => r == Err::<FrameNeed, FrameError>(
                FrameError::Codec(DeserializeError::IoError),
            ),
        },
{
    let len = match buf.read_var_int() {
        Ok(l) => l,
        Err(e) => { return Err(FrameError::Codec(e)) },
    };
    if len < 0 {
        return Err(FrameError::BadLength);
    }
    proof {
        let l = parse_varint(old(buf).readable(), 5)->Value_0;
        assert((l as i32) >= 0 ==> l <= 0x7fff_ffff) by (bit_vector);
        lemma_parse_varint_consumed(old(buf).readable(), 5);
    }
    let rem = buf.remaining();
    let missing: usize = if len as usize <= rem {
        0
    } else {
        len as usize - rem
    };
    Ok(FrameNeed { len, missing })
}

/// The id and the still-readable payload of each decoded packet buffer.
pub open spec fn packets_view(v: Seq<(i32, ByteBuf)>) -> Seq<(i32, Seq<u8>)> {
    v.map_values(|p: (i32, ByteBuf)| (p.0, p.1.readable()))
}

/// The id–payload pairs of the whole uncompressed frames that fill `s`
/// exactly, in order; the first malformed frame's error wins.
pub open spec fn parse_packets_plain(s: Seq<u8>) -> Result<Seq<(i32, Seq<u8>)>, FrameError>
    decreases s.len(),
        via parse_packets_plain_decreases
{
    if s.len() == 0 {
        Ok(Seq::empty())
    } else {
        match parse_frame_sections(s, false) {
            FrameSections::Sections { total, ulen, chunk, consumed } => match parse_body(chunk) {
                Ok((id, pl)) => match parse_packets_plain(s.skip(consumed)) {
                    Ok(rest) => Ok(seq![(id, pl)] + rest),
                    Err(e) => Err(e),
                },
                Err(e) => Err(e),
            },
            FrameSections::Fail(e) => Err(e),
        }
    }
}

#[via_fn]
proof fn parse_packets_plain_decreases(s: Seq<u8>) {
    if s.len() > 0 {
        lemma_parse_varint_consumed(s, 5);
    }
}

/// The receive loop's bookkeeping: what was decoded so far (`view`), plus
/// whatever whole frames remain in `now`, accounts for everything in
/// `whole`; and the first error among the remaining frames is the error of
/// the whole chunk.
#[verifier::opaque]
pub open spec fn packets_inv(whole: Seq<u8>, now: Seq<u8>, view: Seq<(i32, Seq<u8>)>) -> bool {
    match parse_packets_plain(now) {
        Ok(rem) => parse_packets_plain(whole) == Ok::<Seq<(i32, Seq<u8>)>, FrameError>(view + rem),
        Err(e) => parse_packets_plain(whole) == Err::<Seq<(i32, Seq<u8>)>, FrameError>(e),
    }
}

proof fn lemma_packets_inv_init(whole: Seq<u8>)
    ensures
        packets_inv(whole, whole, Seq::empty()),
{
    reveal(packets_inv);
    if let Ok(rem) = parse_packets_plain(whole) {
        assert(Seq::<(i32, Seq<u8>)>::empty() + rem =~= rem);
    }
}

proof fn lemma_packets_inv_step(
    whole: Seq<u8>,
    before: Seq<u8>,
    after: Seq<u8>,
    view: Seq<(i32, Seq<u8>)>,
    id: i32,
    pl: Seq<u8>,
)
    requires
        packets_inv(whole, before, view),
        before.len() > 0,
        parse_frame_sections(before, false) matches FrameSections::Sections {
            total,
            ulen,
            chunk,
            consumed,
        } && after == before.skip(consumed) && parse_body(chunk) == Ok::<
            (i32, Seq<u8>),
            FrameError,
        >((id, pl)),
    ensures
        packets_inv(whole, after, view.push((id, pl))),
{
    reveal(packets_inv);
    match parse_packets_plain(after) {
        Ok(rem) => {
            assert(parse_packets_plain(before) == Ok::<Seq<(i32, Seq<u8>)>, FrameError>(
                seq![(id, pl)] + rem,
            ));
            assert(view + (seq![(id, pl)] + rem) =~= view.push((id, pl)) + rem);
        },
        Err(e) => {},
    }
}

proof fn lemma_packets_inv_fail(whole: Seq<u8>, before: Seq<u8>, view: Seq<(i32, Seq<u8>)>, e: FrameError)
    requires
        packets_inv(whole, before, view),
        before.len() > 0,
        match parse_frame_sections(before, false) {
            FrameSections::Sections { total, ulen, chunk, consumed } => parse_body(chunk) == Err::<
                (i32, Seq<u8>),
                FrameError,
            >(e),
            FrameSections::Fail(e2) => e2 == e,
        },
    ensures
        parse_packets_plain(whole) == Err::<Seq<(i32, Seq<u8>)>, FrameError>(e),
{
    reveal(packets_inv);
}

proof fn lemma_packets_inv_done(whole: Seq<u8>, now: Seq<u8>, view: Seq<(i32, Seq<u8>)>)
    requires
        packets_inv(whole, now, view),
        now.len() == 0,
    ensures
        parse_packets_plain(whole) == Ok::<Seq<(i32, Seq<u8>)>, FrameError>(view),
{
    reveal(packets_inv);
    assert(view + Seq::<(i32, Seq<u8>)>::empty() =~= view);
}

/// Splits everything still buffered into whole frames and decodes each: the
/// `(packet id, payload buffer)` pairs of one socket read, in order. Without
/// compression the result is exactly what `parse_packets_plain` declares,
/// and the buffer is left exhausted on success.
pub fn read_packets_buffered(buf: &mut ByteBuf, compression: bool) -> (r: Result<
    Vec<(i32, ByteBuf)>,
    FrameError,
>)
    requires
        old(buf).wf(),
    ensures
        final(buf).wf(),
        final(buf).data() == old(buf).data(),
        r is Ok ==> final(buf).readable().len() == 0,
        !compression ==> match parse_packets_plain(old(buf).readable()) {
            Ok(pkts) => r matches Ok(v) && packets_view(v@) == pkts && final(buf).readable().len()
                == 0 && (forall|i: int| 0 <= i < v@.len() ==> (#[trigger] v@[i]).1.wf()),
            Err(e) => r == Err::<Vec<(i32, ByteBuf)>, FrameError>(e),
        },
{
    let ghost whole = old(buf).readable();
    let mut packets: Vec<(i32, ByteBuf)> = Vec::new();
    proof {
        lemma_packets_inv_init(whole);
        assert(packets_view(packets@) =~= Seq::<(i32, Seq<u8>)>::empty());
    }
    while !buf.end()
        invariant
            buf.wf(),
            buf.data() == old(buf).data(),
            whole == old(buf).readable(),
            !compression ==> packets_inv(whole, buf.readable(), packets_view(packets@)),
            forall|i: int| 0 <= i < packets@.len() ==> (#[trigger] packets@[i]).1.wf(),
        decreases buf.readable().len(),
    {
        let ghost before = buf.readable();
        let (id, pkt) = match read_frame(buf, compression) {
            Ok(p) => p,
            Err(e) => {
                proof {
                    if !compression {
                        lemma_packets_inv_fail(whole, before, packets_view(packets@), e);
                    }
                }
                return Err(e);
            },
        };
        proof {
            lemma_parse_varint_consumed(before, 5);
            if let VarIntParse::Value(l, n) = parse_varint(before, 5) {
                lemma_parse_varint_consumed(before.skip(n), 5);
            }
            if let FrameSections::Sections { total, ulen, chunk, consumed } =
                parse_frame_sections(before, compression) {
                assert(buf.readable() =~= before.skip(consumed));
            }
            let ghost old_view = packets_view(packets@);
            assert(packets_view(packets@.push((id, pkt))) =~= old_view.push(
                (id, pkt.readable()),
            ));
            if !compression {
                lemma_packets_inv_step(
                    whole,
                    before,
                    buf.readable(),
                    old_view,
                    id,
                    pkt.readable(),
                );
            }
        }
        packets.push((id, pkt));
    }
    proof {
        if !compression {
            lemma_packets_inv_done(whole, buf.readable(), packets_view(packets@));
        }
    }
    Ok(packets)
}

/// Two whole uncompressed frames back-to-back in one chunk decode as
/// exactly their two packets, in order, with no bytes left over.
pub proof fn lemma_two_frames_per_chunk(id1: i32, p1: Seq<u8>, id2: i32, p2: Seq<u8>)
    requires
        frame_fits(body_bytes(id1, p1), None),
        frame_fits(body_bytes(id2, p2), None),
    ensures
        parse_packets_plain(
            frame_bytes(body_bytes(id1, p1), None) + frame_bytes(body_bytes(id2, p2), None),
        ) == Ok::<Seq<(i32, Seq<u8>)>, FrameError>(seq![(id1, p1), (id2, p2)]),
{
    reveal_with_fuel(parse_packets_plain, 4);
    let f1 = frame_bytes(body_bytes(id1, p1), None);
    let f2 = frame_bytes(body_bytes(id2, p2), None);
    crate::var::lemma_varint_len_bounds(body_bytes(id1, p1).len() as u32);
    crate::var::lemma_varint_len_bounds(body_bytes(id2, p2).len() as u32);
    crate::frame::lemma_frame_round_trip_plain(id1, p1, f2);
    crate::frame::lemma_frame_round_trip_plain(id2, p2, Seq::empty());
    crate::frame::lemma_frame_shape(body_bytes(id1, p1), None);
    crate::frame::lemma_frame_shape(body_bytes(id2, p2), None);
    assert(f2 + Seq::<u8>::empty() =~= f2);
    assert((f1 + f2).skip(f1.len() as int) =~= f2);
    assert(f2.skip(f2.len() as int) =~= Seq::<u8>::empty());
    assert(seq![(id1, p1)] + (seq![(id2, p2)] + Seq::<(i32, Seq<u8>)>::empty()) =~= seq![
        (id1, p1),
        (id2, p2),
    ]);
}

} // verus!
