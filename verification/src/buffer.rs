//! An owned, growable byte buffer with an append-only write path and a
//! monotonic read cursor. Writes always append at the end; reads advance
//! the cursor and fail without moving it when too few bytes remain.

use crate::var::{parse_varint, varint_encoding, DeserializeError, VarIntParse};
use vstd::arithmetic::div_mod::{lemma_div_denominator, lemma_fundamental_div_mod_converse};
use vstd::prelude::*;
use vstd::slice::{slice_subrange, slice_to_vec};

verus! {

/// A byte sequence plus a read cursor into it.
#[derive(Debug, Clone)]
pub struct ByteBuf {
    vec: Vec<u8>,
    read_idx: usize,
}

/// Appending raw bytes to a byte sink.
pub trait WriteBytes {
    /// The bytes the sink has accumulated so far.
    spec fn sink_bytes(&self) -> Seq<u8>;

    /// Appends every byte of `value` to the sink.
    fn write_bytes(&mut self, value: &[u8])
        ensures
            final(self).sink_bytes() == old(self).sink_bytes() + value@,
    ;
}

/// Whether `p` is an initial segment of `s`.
pub open spec fn prefix_of(p: Seq<u8>, s: Seq<u8>) -> bool {
    p.len() <= s.len() && s.take(p.len() as int) == p
}

/// When `p + q` leads `s`, `p` leads `s` and `q` leads what follows `p`.
pub proof fn lemma_prefix_split(p: Seq<u8>, q: Seq<u8>, s: Seq<u8>)
    requires
        prefix_of(p + q, s),
    ensures
        prefix_of(p, s),
        prefix_of(q, s.skip(p.len() as int)),
{
    assert(s.take(p.len() as int) =~= p);
    assert forall|i: int| 0 <= i < q.len() implies s.skip(p.len() as int).take(q.len() as int)[i]
        == q[i] by {
        assert((p + q)[p.len() + i] == q[i]);
        assert(s.take(p.len() + q.len() as int)[p.len() + i] == s[p.len() + i]);
    }
    assert(s.skip(p.len() as int).take(q.len() as int) =~= q);
}

/// `256^n`, the number of values an `n`-byte encoding can carry.
pub open spec fn pow256(n: nat) -> int
    decreases n,
{
    if n == 0 {
        1
    } else {
        256 * pow256((n - 1) as nat)
    }
}

/// The big-endian base-256 encoding of `v` in exactly `n` bytes: the most
/// significant byte first, so the last byte is `v % 256`.
pub open spec fn be_bytes(v: int, n: nat) -> Seq<u8>
    decreases n,
{
    if n == 0 {
        Seq::empty()
    } else {
        be_bytes(v / 256, (n - 1) as nat) + seq![(v % 256) as u8]
    }
}

/// The `n`-byte encoding has `n` bytes.
pub broadcast proof fn lemma_be_bytes_len(v: int, n: nat)
    ensures
        (#[trigger] be_bytes(v, n)).len() == n,
    decreases n,
{
    if n > 0 {
        lemma_be_bytes_len(v / 256, (n - 1) as nat);
    }
}

/// Two values below `256^n` with the same `n`-byte big-endian encoding are
/// equal: the encoding is injective on its range.
pub proof fn lemma_be_bytes_injective(a: int, b: int, n: nat)
    requires
        0 <= a < pow256(n),
        0 <= b < pow256(n),
        be_bytes(a, n) == be_bytes(b, n),
    ensures
        a == b,
    decreases n,
{
    broadcast use lemma_be_bytes_len;

    if n > 0 {
        assert(be_bytes(a, n)[n - 1] == (a % 256) as u8);
        assert(be_bytes(b, n)[n - 1] == (b % 256) as u8);
        assert(be_bytes(a, n).take(n - 1) =~= be_bytes(a / 256, (n - 1) as nat));
        assert(be_bytes(b, n).take(n - 1) =~= be_bytes(b / 256, (n - 1) as nat));
        assert(a / 256 < pow256((n - 1) as nat) && b / 256 < pow256((n - 1) as nat))
            by (nonlinear_arith)
            requires
                0 <= a < 256 * pow256((n - 1) as nat),
                0 <= b < 256 * pow256((n - 1) as nat),
        ;
        lemma_be_bytes_injective(a / 256, b / 256, (n - 1) as nat);
        vstd::arithmetic::div_mod::lemma_fundamental_div_mod(a, 256);
        vstd::arithmetic::div_mod::lemma_fundamental_div_mod(b, 256);
    }
}

impl ByteBuf {
    /// The whole backing byte sequence, earlier reads included.
    pub closed spec fn data(&self) -> Seq<u8> {
        self.vec@
    }

    /// The read cursor: the index of the next byte a read would return.
    pub closed spec fn cursor(&self) -> int {
        self.read_idx as int
    }

    /// Well-formed: the cursor never passes the end of the data.
    pub open spec fn wf(&self) -> bool {
        0 <= self.cursor() <= self.data().len()
    }

    /// The bytes still to be read: everything from the cursor on.
    pub open spec fn readable(&self) -> Seq<u8> {
        self.data().skip(self.cursor())
    }

    /// An empty buffer with the cursor at the start.
    pub fn new() -> (r: ByteBuf)
        ensures
            r.wf(),
            r.data() == Seq::<u8>::empty(),
            r.cursor() == 0,
    {
        ByteBuf { vec: Vec::new(), read_idx: 0 }
    }

    /// A buffer holding a copy of `slice`, with the cursor at the start.
    pub fn from_slice(slice: &[u8]) -> (r: ByteBuf)
        ensures
            r.wf(),
            r.data() == slice@,
            r.cursor() == 0,
    {
        ByteBuf { vec: slice_to_vec(slice), read_idx: 0 }
    }

    /// Appends one byte at the end.
    pub fn push(&mut self, v: u8)
        ensures
            final(self).data() == old(self).data().push(v),
            final(self).cursor() == old(self).cursor(),
            old(self).wf() ==> final(self).wf(),
    {
        self.vec.push(v)
    }

    /// The total number of bytes in the buffer, read or not.
    pub fn len(&self) -> (r: usize)
        ensures
            r == self.data().len(),
    {
        self.vec.len()
    }

    /// The next unread byte, advancing the cursor past it; `None` at the end,
    /// with the cursor unmoved.
    pub fn read_byte(&mut self) -> (r: Option<u8>)
        requires
            old(self).wf(),
        ensures
            final(self).wf(),
            final(self).data() == old(self).data(),
            old(self).cursor() < old(self).data().len() ==> r == Some(
                old(self).data()[old(self).cursor()],
            ) && final(self).cursor() == old(self).cursor() + 1,
            old(self).cursor() == old(self).data().len() ==> r == None::<u8> && final(self).cursor() == old(self).cursor(),
    {
        if self.read_idx >= self.vec.len() {
            None
        } else {
            let b = self.vec[self.read_idx];
            self.read_idx = self.read_idx + 1;
            Some(b)
        }
    }

    /// True iff at least `len` bytes remain to be read.
    pub fn has_readable_bytes(&self, len: usize) -> (r: bool)
        requires
            self.wf(),
        ensures
            r == (self.readable().len() >= len),
    {
        self.remaining() >= len
    }

    /// The number of bytes that remain to be read.
    pub fn remaining(&self) -> (r: usize)
        requires
            self.wf(),
        ensures
            r == self.readable().len(),
    {
        self.vec.len() - self.read_idx
    }

    /// A copy of the next `len` unread bytes, advancing the cursor past them;
    /// `None` if fewer remain, with the cursor unmoved and nothing returned.
    pub fn read_bytes(&mut self, len: usize) -> (r: Option<Vec<u8>>)
        requires
            old(self).wf(),
        ensures
            final(self).wf(),
            final(self).data() == old(self).data(),
            old(self).readable().len() >= len ==> r is Some && r->0@ == old(self).readable().take(len as int) && final(self).cursor() == old(self).cursor() + len,
            old(self).readable().len() < len ==> r is None && final(self).cursor() == old(self).cursor(),
    {
        if len > self.vec.len() - self.read_idx {
            None
        } else {
            let dest = slice_to_vec(
                slice_subrange(self.vec.as_slice(), self.read_idx, self.read_idx + len),
            );
            self.read_idx = self.read_idx + len;
            proof {
                assert(dest@ =~= old(self).readable().take(len as int));
            }
            Some(dest)
        }
    }

    /// True iff no bytes remain to be read.
    pub fn end(&self) -> (r: bool)
        requires
            self.wf(),
        ensures
            r == (self.readable().len() == 0),
    {
        self.remaining() == 0
    }

    /// A read-only view of the full backing sequence, the read part included.
    pub fn as_slice(&self) -> (r: &[u8])
        ensures
            r@ == self.data(),
    {
        self.vec.as_slice()
    }

    /// Appends every byte of `other` at the end.
    pub fn extend_from_slice(&mut self, other: &[u8])
        ensures
            final(self).data() == old(self).data() + other@,
            final(self).cursor() == old(self).cursor(),
            old(self).wf() ==> final(self).wf(),
    {
        self.vec.extend_from_slice(other)
    }

    /// Appends the two-byte big-endian encoding of `v`.
    pub fn write_u16_be(&mut self, v: u16)
        ensures
            final(self).data() == old(self).data() + be_bytes(v as int, 2),
            final(self).cursor() == old(self).cursor(),
            old(self).wf() ==> final(self).wf(),
    {
        self.push((v / 256) as u8);
        self.push((v % 256) as u8);
        proof {
            broadcast use lemma_be_bytes_len;

            reveal_with_fuel(be_bytes, 3);
            assert(be_bytes(v as int, 2) =~= seq![(v as int / 256 % 256) as u8, (v as int % 256) as u8]);
            assert(final(self).data() =~= old(self).data() + be_bytes(v as int, 2));
        }
    }

    /// Reads two bytes as a big-endian integer; `None` if fewer remain, with
    /// the cursor unmoved.
    pub fn read_u16_be(&mut self) -> (r: Option<u16>)
        requires
            old(self).wf(),
        ensures
            final(self).wf(),
            final(self).data() == old(self).data(),
            old(self).readable().len() >= 2 ==> r is Some && be_bytes(r->0 as int, 2) == old(self).readable().take(2) && final(self).cursor() == old(self).cursor() + 2,
            old(self).readable().len() < 2 ==> r is None && final(self).cursor() == old(self).cursor(),
    {
        if self.remaining() < 2 {
            return None;
        }
        let b0 = self.read_byte().unwrap();
        let b1 = self.read_byte().unwrap();
        let v: u16 = (b0 as u16) * 256 + (b1 as u16);
        proof {
            broadcast use lemma_be_bytes_len;

            reveal_with_fuel(be_bytes, 3);
            lemma_fundamental_div_mod_converse(v as int, 256, b0 as int, b1 as int);
            assert(be_bytes(v as int, 2) =~= old(self).readable().take(2));
        }
        Some(v)
    }

    /// Appends the eight-byte big-endian encoding of `v`'s two's-complement
    /// bit pattern.
    pub fn write_i64_be(&mut self, v: i64)
        ensures
            final(self).data() == old(self).data() + be_bytes((v as u64) as int, 8),
            final(self).cursor() == old(self).cursor(),
            old(self).wf() ==> final(self).wf(),
    {
        let u: u64 = v as u64;
        self.push((u / 0x100_0000_0000_0000 % 256) as u8);
        self.push((u / 0x1_0000_0000_0000 % 256) as u8);
        self.push((u / 0x100_0000_0000 % 256) as u8);
        self.push((u / 0x1_0000_0000 % 256) as u8);
        self.push((u / 0x100_0000 % 256) as u8);
        self.push((u / 0x1_0000 % 256) as u8);
        self.push((u / 0x100 % 256) as u8);
        self.push((u % 256) as u8);
        proof {
            broadcast use lemma_be_bytes_len;

            reveal_with_fuel(be_bytes, 9);
            lemma_div_chain(u as int);
            assert(be_bytes(u as int, 8) =~= seq![
                (u as int / 0x100_0000_0000_0000 % 256) as u8,
                (u as int / 0x1_0000_0000_0000 % 256) as u8,
                (u as int / 0x100_0000_0000 % 256) as u8,
                (u as int / 0x1_0000_0000 % 256) as u8,
                (u as int / 0x100_0000 % 256) as u8,
                (u as int / 0x1_0000 % 256) as u8,
                (u as int / 0x100 % 256) as u8,
                (u as int % 256) as u8,
            ]);
            assert(final(self).data() =~= old(self).data() + be_bytes(u as int, 8));
        }
    }

    /// Reads eight bytes as a big-endian integer, reinterpreted as signed;
    /// `None` if fewer remain, with the cursor unmoved.
    pub fn read_i64_be(&mut self) -> (r: Option<i64>)
        requires
            old(self).wf(),
        ensures
            final(self).wf(),
            final(self).data() == old(self).data(),
            old(self).readable().len() >= 8 ==> r is Some && be_bytes((r->0 as u64) as int, 8)
                == old(self).readable().take(8) && final(self).cursor() == old(self).cursor() + 8,
            old(self).readable().len() < 8 ==> r is None && final(self).cursor() == old(self).cursor(),
    {
        if self.remaining() < 8 {
            return None;
        }
        let b0 = self.read_byte().unwrap();
        let b1 = self.read_byte().unwrap();
        let b2 = self.read_byte().unwrap();
        let b3 = self.read_byte().unwrap();
        let b4 = self.read_byte().unwrap();
        let b5 = self.read_byte().unwrap();
        let b6 = self.read_byte().unwrap();
        let b7 = self.read_byte().unwrap();
        let a0: u64 = b0 as u64;
        let a1: u64 = a0 * 256 + (b1 as u64);
        let a2: u64 = a1 * 256 + (b2 as u64);
        let a3: u64 = a2 * 256 + (b3 as u64);
        let a4: u64 = a3 * 256 + (b4 as u64);
        let a5: u64 = a4 * 256 + (b5 as u64);
        let a6: u64 = a5 * 256 + (b6 as u64);
        let a7: u64 = a6 * 256 + (b7 as u64);
        proof {
            broadcast use lemma_be_bytes_len;

            lemma_fundamental_div_mod_converse(a1 as int, 256, a0 as int, b1 as int);
            lemma_fundamental_div_mod_converse(a2 as int, 256, a1 as int, b2 as int);
            lemma_fundamental_div_mod_converse(a3 as int, 256, a2 as int, b3 as int);
            lemma_fundamental_div_mod_converse(a4 as int, 256, a3 as int, b4 as int);
            lemma_fundamental_div_mod_converse(a5 as int, 256, a4 as int, b5 as int);
            lemma_fundamental_div_mod_converse(a6 as int, 256, a5 as int, b6 as int);
            lemma_fundamental_div_mod_converse(a7 as int, 256, a6 as int, b7 as int);
            assert(be_bytes(a0 as int, 1) =~= seq![b0]);
            assert(be_bytes(a1 as int, 2) =~= be_bytes(a0 as int, 1) + seq![b1]);
            assert(be_bytes(a2 as int, 3) =~= be_bytes(a1 as int, 2) + seq![b2]);
            assert(be_bytes(a3 as int, 4) =~= be_bytes(a2 as int, 3) + seq![b3]);
            assert(be_bytes(a4 as int, 5) =~= be_bytes(a3 as int, 4) + seq![b4]);
            assert(be_bytes(a5 as int, 6) =~= be_bytes(a4 as int, 5) + seq![b5]);
            assert(be_bytes(a6 as int, 7) =~= be_bytes(a5 as int, 6) + seq![b6]);
            assert(be_bytes(a7 as int, 8) =~= be_bytes(a6 as int, 7) + seq![b7]);
        }
        let v: i64 = a7 as i64;
        proof {
            broadcast use lemma_be_bytes_len;

            assert(be_bytes(a7 as int, 8) =~= old(self).readable().take(8));
            assert((a7 as i64) as u64 == a7) by (bit_vector);
        }
        Some(v)
    }

    /// Appends the VarInt encoding of `value`, by its 32-bit pattern: `-1`
    /// takes five bytes.
    pub fn write_var_int(&mut self, value: i32)
        ensures
            final(self).data() == old(self).data() + varint_encoding(value as u32),
            final(self).cursor() == old(self).cursor(),
            old(self).wf() ==> final(self).wf(),
    {
        let mut v: u32 = value as u32;
        let ghost orig: u32 = v;
        if v == 0 {
            self.push(0);
            proof {
                assert(varint_encoding(0) =~= seq![0u8]);
                assert(final(self).data() =~= old(self).data() + varint_encoding(0));
            }
            return ;
        }
        let ghost mut w: Seq<u8> = Seq::empty();
        proof {
            assert(self.data() =~= old(self).data() + w);
        }
        while v != 0
            invariant
                self.cursor() == old(self).cursor(),
                old(self).wf() ==> self.wf(),
                self.data() == old(self).data() + w,
                v != 0 ==> varint_encoding(orig) == w + varint_encoding(v),
                v == 0 ==> varint_encoding(orig) == w,
            decreases v,
        {
            let low: u8 = (v % 128) as u8;
            let rest: u32 = v / 128;
            let b: u8 = if rest != 0 {
                low + 128
            } else {
                low
            };
            self.push(b);
            proof {
                if rest == 0 {
                    assert(varint_encoding(v) =~= seq![b]);
                    assert(varint_encoding(orig) =~= w.push(b));
                } else {
                    assert(varint_encoding(v) =~= seq![b] + varint_encoding(rest));
                    assert(w + varint_encoding(v) =~= w.push(b) + varint_encoding(rest));
                }
                w = w.push(b);
                assert(self.data() =~= old(self).data() + w);
            }
            v = rest;
        }
    }

    /// Decodes one VarInt from the unread bytes, consuming what it reads;
    /// fails with `VarIntTooBig` after five continuation bytes and with
    /// `IoError` when the buffer runs out first.
    pub fn read_var_int(&mut self) -> (r: Result<i32, DeserializeError>)
        requires
            old(self).wf(),
        ensures
            final(self).wf(),
            final(self).data() == old(self).data(),
            final(self).cursor() >= old(self).cursor(),
            match parse_varint(old(self).readable(), 5) {
                VarIntParse::Value(v, n) => r == Ok::<i32, DeserializeError>(v as i32) && final(self).cursor() == old(self).cursor() + n,
                VarIntParse::TooBig => r == Err::<i32, DeserializeError>(
                    DeserializeError::VarIntTooBig,
                ),
                VarIntParse::TooShort => r == Err::<i32, DeserializeError>(
                    DeserializeError::IoError,
                ),
            },
    {
        match self.read_var_u32(5) {
            Ok(v) => Ok(v as i32),
            Err(e) => Err(e),
        }
    }

    /// Decodes at most `max` more VarInt bytes, low seven-bit groups first.
    fn read_var_u32(&mut self, max: u8) -> (r: Result<u32, DeserializeError>)
        requires
            old(self).wf(),
            max <= 5,
        ensures
            final(self).wf(),
            final(self).data() == old(self).data(),
            final(self).cursor() >= old(self).cursor(),
            match parse_varint(old(self).readable(), max as nat) {
                VarIntParse::Value(v, n) => r == Ok::<u32, DeserializeError>(v) && final(self).cursor() == old(self).cursor() + n,
                VarIntParse::TooBig => r == Err::<u32, DeserializeError>(
                    DeserializeError::VarIntTooBig,
                ),
                VarIntParse::TooShort => r == Err::<u32, DeserializeError>(
                    DeserializeError::IoError,
                ),
            },
        decreases max,
    {
        if max == 0 {
            return Err(DeserializeError::VarIntTooBig);
        }
        match self.read_byte() {
            None => Err(DeserializeError::IoError),
            Some(b) => {
                proof {
                    assert(self.readable() =~= old(self).readable().drop_first());
                }
                if b < 128 {
                    Ok(b as u32)
                } else {
                    match self.read_var_u32(max - 1) {
                        Ok(rest) => {
                            let combined: u64 = ((b - 128) as u64) + (rest as u64) * 128;
                            let value: u32 = (combined % 0x1_0000_0000) as u32;
                            Ok(value)
                        },
                        Err(e) => Err(e),
                    }
                }
            },
        }
    }
}

/// The powers of 256 behind the two- and eight-byte encodings.
pub proof fn lemma_pow256_values()
    ensures
        pow256(2) == 0x1_0000,
        pow256(8) == 0x1_0000_0000_0000_0000,
{
    reveal_with_fuel(pow256, 9);
}

/// Unfolds the division chain behind the eight-byte encoding.
proof fn lemma_div_chain(x: int)
    requires
        x >= 0,
    ensures
        x / 256 / 256 == x / 0x1_0000,
        x / 256 / 256 / 256 == x / 0x100_0000,
        x / 256 / 256 / 256 / 256 == x / 0x1_0000_0000,
        x / 256 / 256 / 256 / 256 / 256 == x / 0x100_0000_0000,
        x / 256 / 256 / 256 / 256 / 256 / 256 == x / 0x1_0000_0000_0000,
        x / 256 / 256 / 256 / 256 / 256 / 256 / 256 == x / 0x100_0000_0000_0000,
{
    lemma_div_denominator(x, 256, 256);
    lemma_div_denominator(x, 0x1_0000, 256);
    lemma_div_denominator(x, 0x100_0000, 256);
    lemma_div_denominator(x, 0x1_0000_0000, 256);
    lemma_div_denominator(x, 0x100_0000_0000, 256);
    lemma_div_denominator(x, 0x1_0000_0000_0000, 256);
}

impl WriteBytes for ByteBuf {
    open spec fn sink_bytes(&self) -> Seq<u8> {
        self.data()
    }

    /// Appends every byte of `value` at the end of the buffer.
    fn write_bytes(&mut self, value: &[u8]) {
        self.extend_from_slice(value);
    }
}

} // verus!
