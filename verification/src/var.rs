//! The VarInt codec: a 32-bit integer carried in one to five bytes, seven
//! low-order-first data bits per byte, with the high bit of every byte but
//! the last set as a continuation marker.

use crate::buffer::ByteBuf;
use vstd::arithmetic::div_mod::lemma_fundamental_div_mod;
use vstd::prelude::*;

verus! {

/// Errors from decoding the wire format.
#[derive(Debug, PartialEq, Eq, Structural, Clone, Copy)]
pub enum DeserializeError {
    /// A VarInt's continuation chain ran past five bytes.
    VarIntTooBig,
    /// A declared length was zero or negative where a positive one is required.
    InvalidLength,
    /// The source ran out of bytes before the value was complete.
    IoError,
    /// The bytes of a string were not valid UTF-8.
    InvalidUtf8,
}

/// The wire encoding of `v`: the seven low bits first, then the encoding of
/// the remaining bits, each byte's high bit set exactly when more follow.
pub open spec fn varint_encoding(v: u32) -> Seq<u8>
    decreases v,
{
    if v < 128 {
        seq![v as u8]
    } else {
        seq![(v % 128 + 128) as u8] + varint_encoding(v / 128)
    }
}

/// The number of bytes `varint_encoding(v)` occupies.
pub open spec fn varint_len(v: u32) -> int {
    varint_encoding(v).len() as int
}

/// The outcome of decoding a VarInt from the front of a byte sequence:
/// the value and the number of bytes consumed, or the error.
pub enum VarIntParse {
    Value(u32, int),
    TooBig,
    TooShort,
}

/// Decodes a VarInt from the front of `s`, allowing at most `max` bytes.
/// Each accumulation step keeps only the low 32 bits, as the executable
/// decoder's shift does.
pub open spec fn parse_varint(s: Seq<u8>, max: nat) -> VarIntParse
    decreases max,
{
    if max == 0 {
        VarIntParse::TooBig
    } else if s.len() == 0 {
        VarIntParse::TooShort
    } else if s[0] < 128 {
        VarIntParse::Value(s[0] as u32, 1)
    } else {
        match parse_varint(s.drop_first(), (max - 1) as nat) {
            VarIntParse::Value(v, n) => VarIntParse::Value(
                ((s[0] - 128 + v * 128) % 0x1_0000_0000) as u32,
                n + 1,
            ),
            r => r,
        }
    }
}

/// The encoded length of `v`, by the thresholds of the 7-bit groups.
pub proof fn lemma_varint_len(v: u32)
    ensures
        varint_len(v) == if v < 0x80 {
            1int
        } else if v < 0x4000 {
            2int
        } else if v < 0x20_0000 {
            3int
        } else if v < 0x1000_0000 {
            4int
        } else {
            5int
        },
    decreases v,
{
    if v >= 128 {
        lemma_varint_len(v / 128);
    }
}

/// Bounds on the encoded length: one to five bytes.
pub proof fn lemma_varint_len_bounds(v: u32)
    ensures
        1 <= varint_len(v) <= 5,
{
    lemma_varint_len(v);
}

/// VarInt round trip: decoding the encoding of `v`, with any suffix after
/// it, yields `v` back and consumes exactly the encoding.
pub proof fn lemma_varint_round_trip(v: u32, rest: Seq<u8>)
    ensures
        parse_varint(varint_encoding(v) + rest, 5) == VarIntParse::Value(v, varint_len(v)),
{
    lemma_varint_len(v);
    lemma_varint_round_trip_bounded(v, rest, 5);
}

/// VarInt round trip at the carried type: for every `i32` value, decoding
/// what `write_var_int` emits yields the value back.
pub proof fn lemma_varint_round_trip_i32(v: i32, rest: Seq<u8>)
    ensures
        parse_varint(varint_encoding(v as u32) + rest, 5) == VarIntParse::Value(
            v as u32,
            varint_len(v as u32),
        ),
        ((v as u32) as i32) == v,
{
    lemma_varint_round_trip(v as u32, rest);
    assert(((v as u32) as i32) == v) by (bit_vector);
}

proof fn lemma_varint_round_trip_bounded(v: u32, rest: Seq<u8>, max: nat)
    requires
        varint_len(v) <= max,
    ensures
        parse_varint(varint_encoding(v) + rest, max) == VarIntParse::Value(v, varint_len(v)),
    decreases v,
{
    let s = varint_encoding(v) + rest;
    lemma_varint_len_bounds(v);
    if v < 128 {
        assert(s[0] == v as u8);
    } else {
        assert(s[0] == (v % 128 + 128) as u8);
        assert(s.drop_first() =~= varint_encoding(v / 128) + rest);
        lemma_varint_len_bounds(v / 128);
        lemma_varint_round_trip_bounded(v / 128, rest, (max - 1) as nat);
        lemma_fundamental_div_mod(v as int, 128);
        assert(s[0] - 128 + (v / 128) * 128 == v);
    }
}

/// Decoding from a sequence whose first bytes are the encoding of `v` yields
/// `v`, whatever follows: the continuation bits delimit the value.
pub proof fn lemma_parse_varint_prefix(v: u32, s: Seq<u8>)
    requires
        varint_len(v) <= s.len(),
        s.take(varint_len(v)) == varint_encoding(v),
    ensures
        parse_varint(s, 5) == VarIntParse::Value(v, varint_len(v)),
{
    assert(s =~= varint_encoding(v) + s.skip(varint_len(v)));
    lemma_varint_round_trip(v, s.skip(varint_len(v)));
}

/// A chain of five or more continuation bytes is rejected as too big.
pub proof fn lemma_parse_varint_too_big(s: Seq<u8>)
    requires
        s.len() >= 5,
        forall|i: int| 0 <= i < 5 ==> s[i] >= 128,
    ensures
        parse_varint(s, 5) == VarIntParse::TooBig,
{
    lemma_parse_varint_all_continuation(s, 5);
}

/// A sequence of fewer than five bytes, all with the continuation bit set,
/// runs out of input.
pub proof fn lemma_parse_varint_too_short(s: Seq<u8>)
    requires
        s.len() < 5,
        forall|i: int| 0 <= i < s.len() ==> s[i] >= 128,
    ensures
        parse_varint(s, 5) == VarIntParse::TooShort,
{
    lemma_parse_varint_all_continuation(s, 5);
}

/// A decoded VarInt consumed between one and `max` bytes, all within `s`.
pub proof fn lemma_parse_varint_consumed(s: Seq<u8>, max: nat)
    ensures
        parse_varint(s, max) matches VarIntParse::Value(v, n) ==> 1 <= n <= s.len() && n <= max,
    decreases max,
{
    if max > 0 && s.len() > 0 && s[0] >= 128 {
        lemma_parse_varint_consumed(s.drop_first(), (max - 1) as nat);
    }
}

proof fn lemma_parse_varint_all_continuation(s: Seq<u8>, max: nat)
    requires
        forall|i: int| 0 <= i < s.len() && i < max ==> s[i] >= 128,
    ensures
        s.len() >= max ==> parse_varint(s, max) == VarIntParse::TooBig,
        s.len() < max ==> parse_varint(s, max) == VarIntParse::TooShort,
    decreases max,
{
    if max > 0 && s.len() > 0 {
        lemma_parse_varint_all_continuation(s.drop_first(), (max - 1) as nat);
    }
}

/// Special trait for writing a VarInt to a byte sink.
pub trait WriteVarInt: crate::buffer::WriteBytes {
    /// Appends the VarInt encoding of `value`, by its 32-bit pattern.
    fn write_var_int(&mut self, value: i32)
        ensures
            final(self).sink_bytes() == old(self).sink_bytes() + varint_encoding(value as u32),
    ;
}

/// Special trait for reading a VarInt from a byte source.
pub trait ReadVarInt {
    /// Whether the source is in a readable state.
    spec fn source_ok(&self) -> bool;

    /// The bytes that remain to be read.
    spec fn unread(&self) -> Seq<u8>;

    /// Decodes one VarInt from the front of the source, consuming its bytes;
    /// fails with `VarIntTooBig` after five continuation bytes and with
    /// `IoError` when the source runs out first.
    fn read_var_int(&mut self) -> (r: Result<i32, DeserializeError>)
        requires
            old(self).source_ok(),
        ensures
            final(self).source_ok(),
            match parse_varint(old(self).unread(), 5) {
                VarIntParse::Value(v, n) => r == Ok::<i32, DeserializeError>(v as i32) && final(self).unread() == old(self).unread().skip(n),
                VarIntParse::TooBig => r == Err::<i32, DeserializeError>(
                    DeserializeError::VarIntTooBig,
                ),
                VarIntParse::TooShort => r == Err::<i32, DeserializeError>(
                    DeserializeError::IoError,
                ),
            },
    ;
}

impl WriteVarInt for ByteBuf {
    fn write_var_int(&mut self, value: i32) {
        self.write_var_int(value)
    }
}

impl ReadVarInt for ByteBuf {
    open spec fn source_ok(&self) -> bool {
        self.wf()
    }

    open spec fn unread(&self) -> Seq<u8> {
        self.readable()
    }

    fn read_var_int(&mut self) -> (r: Result<i32, DeserializeError>) {
        let r = self.read_var_int();
        proof {
            if let VarIntParse::Value(v, n) = parse_varint(old(self).readable(), 5) {
                assert(self.readable() =~= old(self).readable().skip(n));
            }
        }
        r
    }
}

/// The number of bytes the VarInt encoding of `v` occupies, computed by
/// counting 7-bit groups without materializing the bytes.
pub fn len_varint(v: i32) -> (r: i32)
    ensures
        r == varint_len(v as u32),
{
    proof {
        lemma_varint_len_bounds(v as u32);
    }
    let mut len: i32 = 0;
    let mut value: u32 = v as u32;
    if value == 0 {
        return 1;
    }
    while value != 0
        invariant
            varint_len(v as u32) <= 5,
            varint_len(v as u32) == len + if value != 0 {
                varint_len(value)
            } else {
                0int
            },
            len <= 5,
        decreases value,
    {
        proof {
            lemma_varint_len_bounds(value);
            if value >= 128 {
                lemma_varint_len_bounds(value / 128);
            }
            assert(value >> 7u32 == value / 128) by (bit_vector);
        }
        value = value >> 7u32;
        len = len + 1;
    }
    len
}

} // verus!
