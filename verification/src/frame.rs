//! The packet frame codec: a frame is a VarInt total length followed by that
//! many bytes of body. With compression enabled the body starts with a VarInt
//! `uncompressed_length` sub-header — zero marks a body sent raw below the
//! threshold; a positive value gives the exact inflated size of the
//! zlib-deflated remainder. Inside the (decompressed) body: a VarInt packet
//! id, then the payload.

use crate::buffer::ByteBuf;
use crate::var::{
    len_varint, parse_varint, varint_encoding, varint_len, DeserializeError, VarIntParse,
};
use std::io::Write;
use vstd::prelude::*;

verus! {

/// Errors from building or reading a packet frame.
#[derive(Debug, PartialEq, Eq, Structural, Clone, Copy)]
pub enum FrameError {
    /// A VarInt failed to decode, or the buffered bytes ran out.
    Codec(DeserializeError),
    /// A declared length was negative or inconsistent with the frame.
    BadLength,
    /// The frame is too large for its length prefix to carry.
    Oversize,
    /// The compressed remainder was not a well-formed zlib stream.
    CorruptData,
    /// The inflated body's size differs from the declared one.
    SizeMismatch,
}

/// What flate2's zlib deflate, at the speed-favouring level, produces for
/// `data`: a function of the input bytes alone.
pub uninterp spec fn deflate_of(data: Seq<u8>) -> Seq<u8>;

/// Relies on flate2's `write::ZlibEncoder`: it deflates the input into one
/// zlib-wrapped stream, a deterministic function of the input bytes at a
/// fixed compression level; writing into a `Vec` cannot fail.
#[verifier::external_body]
fn zlib_compress(data: &[u8]) -> (r: Vec<u8>)
    ensures
        r@ == deflate_of(data@),
{
    let mut enc = flate2::write::ZlibEncoder::new(Vec::new(), flate2::Compression::fast());
    enc.write_all(data).unwrap();
    enc.finish().unwrap()
}

/// Relies on flate2's `write::ZlibDecoder`: inflating a whole zlib stream
/// returns exactly the bytes it was deflated from, and deflate loses
/// nothing, so any sequence deflating to the input is the one returned.
#[verifier::external_body]
fn zlib_decompress(data: &[u8]) -> (r: Option<Vec<u8>>)
    ensures
        forall|b: Seq<u8>| data@ == deflate_of(b) ==> r is Some && r->0@ == b,
{
    let mut dec = flate2::write::ZlibDecoder::new(Vec::new());
    if dec.write_all(data).is_err() {
        return None;
    }
    match dec.finish() {
        Ok(v) => Some(v),
        Err(_) => None,
    }
}

/// The frame body for a packet: its id as a VarInt, then its payload.
pub open spec fn body_bytes(id: i32, payload: Seq<u8>) -> Seq<u8> {
    varint_encoding(id as u32) + payload
}

/// The value the frame's length prefix declares: the byte count that
/// follows the prefix.
pub open spec fn frame_total_len(body: Seq<u8>, threshold: Option<i32>) -> int {
    match threshold {
        None => body.len() as int,
        Some(t) => if (body.len() as int) < t {
            body.len() + varint_len(0)
        } else {
            deflate_of(body).len() + varint_len(body.len() as u32)
        },
    }
}

/// The wire bytes of one frame for `body` under the given compression
/// threshold: the total length, the optional compression sub-header, and
/// the raw or deflated body.
pub open spec fn frame_bytes(body: Seq<u8>, threshold: Option<i32>) -> Seq<u8> {
    match threshold {
        None => varint_encoding(body.len() as u32) + body,
        Some(t) => if (body.len() as int) < t {
            varint_encoding((body.len() + varint_len(0)) as u32) + varint_encoding(0) + body
        } else {
            varint_encoding(frame_total_len(body, threshold) as u32) + varint_encoding(
                body.len() as u32,
            ) + deflate_of(body)
        },
    }
}

/// Whether the frame for `body` fits its length prefix: every length the
/// frame declares must fit a non-negative VarInt.
pub open spec fn frame_fits(body: Seq<u8>, threshold: Option<i32>) -> bool {
    body.len() <= 0x7fff_ffff && frame_total_len(body, threshold) <= 0x7fff_ffff
}

/// The sections of one frame body (after the length prefix): the declared
/// total, the declared inflated size (zero for a raw body), the carried
/// chunk, and the bytes consumed; or how parsing them failed.
pub enum FrameSections {
    Sections { total: int, ulen: int, chunk: Seq<u8>, consumed: int },
    Fail(FrameError),
}

/// Decodes the sections of a frame body of declared length `len` from the
/// front of `s`: with compression the VarInt sub-header, then the chunk the
/// frame carries — the canonical encoded size of the sub-header's value
/// counts against `len`, as the writer counted it.
pub open spec fn parse_frame_rest(s: Seq<u8>, len: int, compression: bool) -> FrameSections {
    if !compression {
        if s.len() < len {
            FrameSections::Fail(FrameError::Codec(DeserializeError::IoError))
        } else {
            FrameSections::Sections { total: len, ulen: 0, chunk: s.take(len), consumed: len }
        }
    } else {
        match parse_varint(s, 5) {
            VarIntParse::Value(u, m) => {
                let ulen = (u as i32) as int;
                if ulen < 0 {
                    FrameSections::Fail(FrameError::BadLength)
                } else if varint_len(u) > len {
                    FrameSections::Fail(FrameError::BadLength)
                } else if s.len() - m < len - varint_len(u) {
                    FrameSections::Fail(FrameError::Codec(DeserializeError::IoError))
                } else {
                    FrameSections::Sections {
                        total: len,
                        ulen: ulen,
                        chunk: s.subrange(m, m + (len - varint_len(u))),
                        consumed: m + (len - varint_len(u)),
                    }
                }
            },
            VarIntParse::TooBig => FrameSections::Fail(
                FrameError::Codec(DeserializeError::VarIntTooBig),
            ),
            VarIntParse::TooShort => FrameSections::Fail(
                FrameError::Codec(DeserializeError::IoError),
            ),
        }
    }
}

/// Decodes a whole frame from the front of `s`: the length prefix, then its
/// sections.
pub open spec fn parse_frame_sections(s: Seq<u8>, compression: bool) -> FrameSections {
    match parse_varint(s, 5) {
        VarIntParse::Value(l, n) => {
            let len = (l as i32) as int;
            if len < 0 {
                FrameSections::Fail(FrameError::BadLength)
            } else {
                match parse_frame_rest(s.skip(n), len, compression) {
                    FrameSections::Sections { total, ulen, chunk, consumed } => {
                        FrameSections::Sections { total, ulen, chunk, consumed: n + consumed }
                    },
                    FrameSections::Fail(e) => FrameSections::Fail(e),
                }
            }
        },
        VarIntParse::TooBig => FrameSections::Fail(
            FrameError::Codec(DeserializeError::VarIntTooBig),
        ),
        VarIntParse::TooShort => FrameSections::Fail(FrameError::Codec(DeserializeError::IoError)),
    }
}

/// Splits a literal frame body into the packet id and the payload after it.
pub open spec fn parse_body(body: Seq<u8>) -> Result<(i32, Seq<u8>), FrameError> {
    match parse_varint(body, 5) {
        VarIntParse::Value(v, n) => Ok(((v as i32), body.skip(n))),
        VarIntParse::TooBig => Err(FrameError::Codec(DeserializeError::VarIntTooBig)),
        VarIntParse::TooShort => Err(FrameError::Codec(DeserializeError::IoError)),
    }
}

/// Whether the id-and-payload buffer a frame read hands out matches the
/// decoded body `p`: same id, and the payload left to read in the buffer.
pub open spec fn body_result_matches(
    r: Result<(i32, ByteBuf), FrameError>,
    p: Result<(i32, Seq<u8>), FrameError>,
) -> bool {
    match p {
        Ok((id, pl)) => r matches Ok(out) && out.0 == id && out.1.wf() && out.1.readable() == pl,
        Err(e) => r == Err::<(i32, ByteBuf), FrameError>(e),
    }
}

/// Builds the frame for `body` under the compression threshold: the length
/// prefix, the compression sub-header when a threshold is set, and the raw
/// or deflated body. Fails with `Oversize` exactly when some declared
/// length would not fit the prefix.
pub fn build_frame(body: &[u8], compression_threshold: Option<i32>) -> (r: Result<
    ByteBuf,
    FrameError,
>)
    ensures
        match r {
            Ok(out) => frame_fits(body@, compression_threshold) && out.wf() && out.cursor() == 0
                && out.data() == frame_bytes(body@, compression_threshold),
            Err(e) => e == FrameError::Oversize && !frame_fits(body@, compression_threshold),
        },
{
    let mut out = ByteBuf::new();
    match compression_threshold {
        None => {
            if body.len() > 0x7fff_ffff {
                return Err(FrameError::Oversize);
            }
            out.write_var_int(body.len() as i32);
            out.extend_from_slice(body);
            proof {
                assert(out.data() =~= frame_bytes(body@, compression_threshold));
            }
            Ok(out)
        },
        Some(t) => {
            if t > 0 && body.len() < t as usize {
                if body.len() > 0x7fff_fffe {
                    return Err(FrameError::Oversize);
                }
                out.write_var_int(body.len() as i32 + 1);
                out.write_var_int(0);
                out.extend_from_slice(body);
                proof {
                    assert(varint_len(0) == 1);
                    assert(out.data() =~= frame_bytes(body@, compression_threshold));
                }
                Ok(out)
            } else {
                if body.len() > 0x7fff_ffff {
                    return Err(FrameError::Oversize);
                }
                let compressed = zlib_compress(body);
                let ulen_size = len_varint(body.len() as i32);
                proof {
                    crate::var::lemma_varint_len_bounds(body.len() as u32);
                }
                if compressed.len() > (0x7fff_ffff - ulen_size) as usize {
                    return Err(FrameError::Oversize);
                }
                out.write_var_int(compressed.len() as i32 + ulen_size);
                out.write_var_int(body.len() as i32);
                out.extend_from_slice(compressed.as_slice());
                proof {
                    assert(out.data() =~= frame_bytes(body@, compression_threshold));
                }
                Ok(out)
            }
        },
    }
}

/// Reads the sections after a frame's length prefix and decodes the body:
/// the compression sub-header when enabled, the carried chunk, inflation to
/// exactly the declared size when the sub-header is positive, and finally
/// the packet id. Returns the id and a buffer positioned at the payload.
pub fn read_frame_body(buf: &mut ByteBuf, len: i32, compression: bool) -> (r: Result<
    (i32, ByteBuf),
    FrameError,
>)
    requires
        old(buf).wf(),
        len >= 0,
    ensures
        final(buf).wf(),
        final(buf).data() == old(buf).data(),
        final(buf).cursor() >= old(buf).cursor(),
        r matches Ok(out) ==> out.1.wf(),
        match parse_frame_rest(old(buf).readable(), len as int, compression) {
            FrameSections::Sections { total, ulen, chunk, consumed } => {
                &&& final(buf).cursor() == old(buf).cursor() + consumed
                &&& ulen == 0 ==> body_result_matches(r, parse_body(chunk))
                &&& ulen > 0 ==> forall|b: Seq<u8>|
                    chunk == deflate_of(b) && b.len() == ulen ==> body_result_matches(
                        r,
                        parse_body(b),
                    )
            },
            FrameSections::Fail(e) => r == Err::<(i32, ByteBuf), FrameError>(e),
        },
{
    let ghost rest = parse_frame_rest(old(buf).readable(), len as int, compression);
    let mut ulen: i32 = 0;
    let mut ulen_size: i32 = 0;
    if compression {
        ulen = match buf.read_var_int() {
            Ok(u) => u,
            Err(e) => { return Err(FrameError::Codec(e)) },
        };
        proof {
            crate::var::lemma_parse_varint_consumed(old(buf).readable(), 5);
            let u = parse_varint(old(buf).readable(), 5)->Value_0;
            assert(((u as i32) as u32) == u) by (bit_vector);
            let m = parse_varint(old(buf).readable(), 5)->Value_1;
            assert(buf.readable() =~= old(buf).readable().skip(m));
        }
        if ulen < 0 {
            return Err(FrameError::BadLength);
        }
        ulen_size = len_varint(ulen);
        if ulen_size > len {
            return Err(FrameError::BadLength);
        }
    }
    let chunk = match buf.read_bytes((len - ulen_size) as usize) {
        Some(c) => c,
        None => { return Err(FrameError::Codec(DeserializeError::IoError)) },
    };
    proof {
        if compression {
            let m = parse_varint(old(buf).readable(), 5)->Value_1;
            assert(chunk@ =~= old(buf).readable().subrange(m, m + (len - ulen_size) as int));
        } else {
            assert(chunk@ =~= old(buf).readable().take(len as int));
        }
    }
    if ulen > 0 {
        let out = match zlib_decompress(chunk.as_slice()) {
            Some(o) => o,
            None => {
                proof {
                    assert forall|b: Seq<u8>| !(chunk@ == deflate_of(b) && b.len() == ulen) by {
                        if chunk@ == deflate_of(b) {
                            assert(false);
                        }
                    }
                }
                return Err(FrameError::CorruptData)
            },
        };
        if out.len() != ulen as usize {
            proof {
                assert forall|b: Seq<u8>| !(chunk@ == deflate_of(b) && b.len() == ulen) by {
                    if chunk@ == deflate_of(b) {
                        assert(out@ == b);
                    }
                }
            }
            return Err(FrameError::SizeMismatch);
        }
        let mut tmp = ByteBuf::from_slice(out.as_slice());
        proof {
            assert(tmp.readable() =~= out@);
        }
        let id = match tmp.read_var_int() {
            Ok(i) => i,
            Err(e) => {
                proof {
                    lemma_body_result_all(rest, out@, chunk@, Err(FrameError::Codec(e)));
                }
                return Err(FrameError::Codec(e))
            },
        };
        proof {
            crate::var::lemma_parse_varint_consumed(out@, 5);
            let n = parse_varint(out@, 5)->Value_1;
            assert(tmp.readable() =~= out@.skip(n));
            lemma_body_result_all(rest, out@, chunk@, Ok((id, tmp)));
        }
        Ok((id, tmp))
    } else {
        let mut tmp = ByteBuf::from_slice(chunk.as_slice());
        proof {
            assert(tmp.readable() =~= chunk@);
        }
        let id = match tmp.read_var_int() {
            Ok(i) => i,
            Err(e) => { return Err(FrameError::Codec(e)) },
        };
        proof {
            crate::var::lemma_parse_varint_consumed(chunk@, 5);
            let n = parse_varint(chunk@, 5)->Value_1;
            assert(tmp.readable() =~= chunk@.skip(n));
        }
        Ok((id, tmp))
    }
}

/// When an inflated body `out` came from `chunk` and matches the decoded
/// result `r`, every sequence deflating to `chunk` is `out` itself, so the
/// quantified promise of the compressed case holds.
proof fn lemma_body_result_all(
    rest: FrameSections,
    out: Seq<u8>,
    chunk: Seq<u8>,
    r: Result<(i32, ByteBuf), FrameError>,
)
    requires
        forall|b: Seq<u8>| chunk == deflate_of(b) ==> out == b,
        body_result_matches(r, parse_body(out)),
    ensures
        forall|b: Seq<u8>|
            chunk == deflate_of(b) && b.len() == out.len() ==> body_result_matches(
                r,
                parse_body(b),
            ),
{
}

/// Reads one whole frame from the buffer: the VarInt total length, then the
/// sections and body as `read_frame_body` decodes them. Returns the packet
/// id and a buffer positioned at the start of the payload.
pub fn read_frame(buf: &mut ByteBuf, compression: bool) -> (r: Result<(i32, ByteBuf), FrameError>)
    requires
        old(buf).wf(),
    ensures
        final(buf).wf(),
        final(buf).data() == old(buf).data(),
        final(buf).cursor() >= old(buf).cursor(),
        r matches Ok(out) ==> out.1.wf(),
        match parse_frame_sections(old(buf).readable(), compression) {
            FrameSections::Sections { total, ulen, chunk, consumed } => {
                &&& final(buf).cursor() == old(buf).cursor() + consumed
                &&& ulen == 0 ==> body_result_matches(r, parse_body(chunk))
                &&& ulen > 0 ==> forall|b: Seq<u8>|
                    chunk == deflate_of(b) && b.len() == ulen ==> body_result_matches(
                        r,
                        parse_body(b),
                    )
            },
            FrameSections::Fail(e) => r == Err::<(i32, ByteBuf), FrameError>(e),
        },
{
    let len = match buf.read_var_int() {
        Ok(l) => l,
        Err(e) => { return Err(FrameError::Codec(e)) },
    };
    proof {
        crate::var::lemma_parse_varint_consumed(old(buf).readable(), 5);
        let l = parse_varint(old(buf).readable(), 5)->Value_0;
        assert(((l as i32) as u32) == l) by (bit_vector);
        let n = parse_varint(old(buf).readable(), 5)->Value_1;
        assert(buf.readable() =~= old(buf).readable().skip(n));
    }
    if len < 0 {
        return Err(FrameError::BadLength);
    }
    read_frame_body(buf, len, compression)
}

/// A frame's bytes are its length prefix followed by exactly the count of
/// bytes the prefix declares.
pub proof fn lemma_frame_shape(body: Seq<u8>, threshold: Option<i32>)
    requires
        frame_fits(body, threshold),
    ensures
        ({
            let full = frame_bytes(body, threshold);
            let total = frame_total_len(body, threshold);
            let n = varint_len(total as u32);
            &&& total >= 0
            &&& full.len() == n + total
            &&& full.take(n) == varint_encoding(total as u32)
            &&& parse_varint(full, 5) == VarIntParse::Value(total as u32, n)
        }),
{
    let full = frame_bytes(body, threshold);
    let total = frame_total_len(body, threshold);
    let n = varint_len(total as u32);
    assert(varint_encoding(0) =~= seq![0u8]);
    crate::var::lemma_varint_len_bounds(total as u32);
    match threshold {
        None => {
            assert(full.take(n) =~= varint_encoding(total as u32));
        },
        Some(t) => {
            if (body.len() as int) < t {
                assert(full.take(n) =~= varint_encoding(total as u32));
            } else {
                crate::var::lemma_varint_len_bounds(body.len() as u32);
                assert(full.take(n) =~= varint_encoding(total as u32));
            }
        },
    }
    crate::var::lemma_parse_varint_prefix(total as u32, full);
}

/// Frame round trip without compression: the frame built for a packet
/// declares exactly the body's length — the id's encoded size plus the
/// payload's — and decodes back to the same id and payload, whatever
/// follows the frame in the buffer.
pub proof fn lemma_frame_round_trip_plain(id: i32, payload: Seq<u8>, rest: Seq<u8>)
    requires
        frame_fits(body_bytes(id, payload), None),
    ensures
        ({
            let body = body_bytes(id, payload);
            let full = frame_bytes(body, None);
            &&& frame_total_len(body, None) == varint_len(id as u32) + payload.len()
            &&& parse_frame_sections(full + rest, false) == (FrameSections::Sections {
                total: body.len() as int,
                ulen: 0,
                chunk: body,
                consumed: full.len() as int,
            })
            &&& parse_body(body) == Ok::<(i32, Seq<u8>), FrameError>((id, payload))
        }),
{
    let body = body_bytes(id, payload);
    let full = frame_bytes(body, None);
    let blen: u32 = body.len() as u32;
    assert(full + rest =~= varint_encoding(blen) + (body + rest));
    crate::var::lemma_varint_round_trip(blen, body + rest);
    let n = varint_len(blen);
    crate::var::lemma_varint_len_bounds(blen);
    assert((full + rest).skip(n) =~= body + rest);
    assert((body + rest).take(body.len() as int) =~= body);
    lemma_parse_body_of(id, payload);
}

/// The body built for a packet splits back into its id and payload.
proof fn lemma_parse_body_of(id: i32, payload: Seq<u8>)
    ensures
        parse_body(body_bytes(id, payload)) == Ok::<(i32, Seq<u8>), FrameError>((id, payload)),
{
    let body = body_bytes(id, payload);
    crate::var::lemma_varint_round_trip(id as u32, payload);
    assert((id as u32) as i32 == id) by (bit_vector);
    crate::var::lemma_varint_len_bounds(id as u32);
    assert(body.skip(varint_len(id as u32)) =~= payload);
}

/// Frame round trip with compression below the threshold: the body is
/// carried raw behind a zero sub-header and decodes back to the same id
/// and payload, whatever follows the frame.
pub proof fn lemma_frame_round_trip_below_threshold(
    id: i32,
    payload: Seq<u8>,
    t: i32,
    rest: Seq<u8>,
)
    requires
        frame_fits(body_bytes(id, payload), Some(t)),
        (body_bytes(id, payload).len() as int) < t,
    ensures
        ({
            let body = body_bytes(id, payload);
            let full = frame_bytes(body, Some(t));
            &&& frame_total_len(body, Some(t)) == body.len() + 1
            &&& parse_frame_sections(full + rest, true) == (FrameSections::Sections {
                total: body.len() + 1int,
                ulen: 0,
                chunk: body,
                consumed: full.len() as int,
            })
            &&& parse_body(body) == Ok::<(i32, Seq<u8>), FrameError>((id, payload))
        }),
{
    let body = body_bytes(id, payload);
    let full = frame_bytes(body, Some(t));
    assert(varint_encoding(0) =~= seq![0u8]);
    let total: u32 = (body.len() + 1) as u32;
    assert(full + rest =~= varint_encoding(total) + (varint_encoding(0) + body + rest));
    crate::var::lemma_varint_round_trip(total, varint_encoding(0) + body + rest);
    let n = varint_len(total);
    crate::var::lemma_varint_len_bounds(total);
    let s1 = varint_encoding(0) + body + rest;
    assert((full + rest).skip(n) =~= s1);
    assert(s1 =~= varint_encoding(0) + (body + rest));
    crate::var::lemma_varint_round_trip(0, body + rest);
    assert(s1.subrange(1, 1 + body.len() as int) =~= body);
    lemma_parse_body_of(id, payload);
}

/// Frame round trip with compression at or above the threshold: the frame
/// carries the deflated body behind a sub-header declaring the exact
/// inflated size, and the body decodes back to the same id and payload.
pub proof fn lemma_frame_round_trip_compressed(id: i32, payload: Seq<u8>, t: i32, rest: Seq<u8>)
    requires
        frame_fits(body_bytes(id, payload), Some(t)),
        body_bytes(id, payload).len() as int >= t,
    ensures
        ({
            let body = body_bytes(id, payload);
            let full = frame_bytes(body, Some(t));
            &&& parse_frame_sections(full + rest, true) == (FrameSections::Sections {
                total: frame_total_len(body, Some(t)),
                ulen: body.len() as int,
                chunk: deflate_of(body),
                consumed: full.len() as int,
            })
            &&& body.len() > 0
            &&& parse_body(body) == Ok::<(i32, Seq<u8>), FrameError>((id, payload))
        }),
{
    let body = body_bytes(id, payload);
    let full = frame_bytes(body, Some(t));
    let blen: u32 = body.len() as u32;
    let uls = varint_len(blen);
    let clen = deflate_of(body).len() as int;
    let total: u32 = (clen + uls) as u32;
    assert(full + rest =~= varint_encoding(total) + (varint_encoding(blen) + deflate_of(body)
        + rest));
    crate::var::lemma_varint_round_trip(total, varint_encoding(blen) + deflate_of(body) + rest);
    let n = varint_len(total);
    crate::var::lemma_varint_len_bounds(total);
    crate::var::lemma_varint_len_bounds(blen);
    let s1 = varint_encoding(blen) + deflate_of(body) + rest;
    assert((full + rest).skip(n) =~= s1);
    assert(s1 =~= varint_encoding(blen) + (deflate_of(body) + rest));
    crate::var::lemma_varint_round_trip(blen, deflate_of(body) + rest);
    assert(s1.subrange(uls, uls + clen) =~= deflate_of(body));
    crate::var::lemma_varint_len_bounds(id as u32);
    lemma_parse_body_of(id, payload);
}

/// Partial-read reassembly: when only the first `k` bytes of a frame have
/// arrived — at least its whole length prefix — the prefix already declares
/// the missing byte count exactly, and appending exactly those missing
/// bytes after what is buffered restores the frame's remainder with nothing
/// dropped or duplicated.
pub proof fn lemma_partial_read_reassembly(body: Seq<u8>, threshold: Option<i32>, k: int)
    requires
        frame_fits(body, threshold),
        varint_len(frame_total_len(body, threshold) as u32) <= k <= frame_bytes(
            body,
            threshold,
        ).len(),
    ensures
        ({
            let full = frame_bytes(body, threshold);
            let total = frame_total_len(body, threshold);
            let n = varint_len(total as u32);
            &&& parse_varint(full.take(k), 5) == VarIntParse::Value(total as u32, n)
            &&& full.take(k).skip(n).len() == k - n
            &&& total - (k - n) == full.len() - k
            &&& full.take(k).skip(n) + full.skip(k) == full.skip(n)
            &&& full.skip(n).len() == total
        }),
{
    lemma_frame_shape(body, threshold);
    let full = frame_bytes(body, threshold);
    let total = frame_total_len(body, threshold);
    let n = varint_len(total as u32);
    assert(full.take(k).take(n) =~= varint_encoding(total as u32));
    crate::var::lemma_parse_varint_prefix(total as u32, full.take(k));
    assert(full.take(k).skip(n) + full.skip(k) =~= full.skip(n));
}

} // verus!