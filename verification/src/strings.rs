//! Length-prefixed strings on top of the buffer and the VarInt codec: a
//! string travels as the VarInt count of its UTF-8 bytes followed by those
//! bytes.

use crate::buffer::ByteBuf;
use crate::var::{parse_varint, varint_encoding, varint_len, DeserializeError, VarIntParse};
use vstd::prelude::*;
use vstd::utf8::{decode_utf8, encode_utf8, valid_utf8};

verus! {

/// Writing a length-prefixed string to a byte sink.
pub trait WriteString: crate::var::WriteVarInt {
    /// Appends the VarInt byte count of `value`'s UTF-8 form, then the bytes.
    fn write_string(&mut self, value: &str)
        requires
            encode_utf8(value@).len() <= 0x7fff_ffff,
        ensures
            final(self).sink_bytes() == old(self).sink_bytes() + varint_encoding(
                encode_utf8(value@).len() as u32,
            ) + encode_utf8(value@),
    ;
}

/// Reading a length-prefixed string from a byte source.
pub trait ReadString: crate::var::ReadVarInt {
    /// Reads a VarInt length, then that many bytes, decoded as UTF-8; fails
    /// with `InvalidLength` on a length of zero or less, `IoError` when the
    /// bytes run out, and `InvalidUtf8` on malformed bytes.
    fn read_string(&mut self) -> (r: Result<String, DeserializeError>)
        requires
            old(self).source_ok(),
        ensures
            final(self).source_ok(),
            match parse_string(old(self).unread()) {
                Ok((chars, n)) => r matches Ok(out) && out@ == chars && final(self).unread()
                    == old(self).unread().skip(n),
                Err(e) => r == Err::<String, DeserializeError>(e),
            },
    ;
}

/// Decodes a length-prefixed string from the front of `s`: the characters
/// and the number of bytes consumed, or the error, exactly as `read_string`
/// hands them out.
pub open spec fn parse_string(s: Seq<u8>) -> Result<(Seq<char>, int), DeserializeError> {
    match parse_varint(s, 5) {
        VarIntParse::Value(v, n) => {
            let len = (v as i32) as int;
            if len <= 0 {
                Err(DeserializeError::InvalidLength)
            } else if s.len() < n + len {
                Err(DeserializeError::IoError)
            } else {
                let bytes = s.subrange(n, n + len);
                if valid_utf8(bytes) {
                    Ok((decode_utf8(bytes), n + len))
                } else {
                    Err(DeserializeError::InvalidUtf8)
                }
            }
        },
        VarIntParse::TooBig => Err(DeserializeError::VarIntTooBig),
        VarIntParse::TooShort => Err(DeserializeError::IoError),
    }
}

/// Relies on `String::from_utf8`: it succeeds exactly on valid UTF-8 input
/// and returns the string whose characters the bytes decode to.
#[verifier::external_body]
fn string_from_utf8(bytes: Vec<u8>) -> (r: Option<String>)
    ensures
        r is Some <==> valid_utf8(bytes@),
        r is Some ==> r->0@ == decode_utf8(bytes@),
{
    match String::from_utf8(bytes) {
        Ok(s) => Some(s),
        Err(_) => None,
    }
}

impl ByteBuf {
    /// Appends the VarInt byte count of `value`'s UTF-8 form, then the bytes.
    pub fn write_string(&mut self, value: &str)
        requires
            encode_utf8(value@).len() <= 0x7fff_ffff,
        ensures
            final(self).data() == old(self).data() + varint_encoding(
                encode_utf8(value@).len() as u32,
            ) + encode_utf8(value@),
            final(self).cursor() == old(self).cursor(),
            old(self).wf() ==> final(self).wf(),
    {
        let len: usize = value.len();
        self.write_var_int(len as i32);
        self.extend_from_slice(value.as_bytes());
    }

    /// Reads a VarInt length, then that many bytes, decoded as UTF-8; fails
    /// with `InvalidLength` on a length of zero or less, `IoError` when the
    /// bytes run out, and `InvalidUtf8` on malformed bytes.
    pub fn read_string(&mut self) -> (r: Result<String, DeserializeError>)
        requires
            old(self).wf(),
        ensures
            final(self).wf(),
            final(self).data() == old(self).data(),
            final(self).cursor() >= old(self).cursor(),
            match parse_string(old(self).readable()) {
                Ok((chars, n)) => r matches Ok(out) && out@ == chars && final(self).cursor()
                    == old(self).cursor() + n,
                Err(e) => r == Err::<String, DeserializeError>(e),
            },
    {
        let len = match self.read_var_int() {
            Ok(l) => l,
            Err(e) => { return Err(e) },
        };
        if len <= 0 {
            return Err(DeserializeError::InvalidLength);
        }
        let bytes = match self.read_bytes(len as usize) {
            Some(b) => b,
            None => { return Err(DeserializeError::IoError) },
        };
        proof {
            let n = parse_varint(old(self).readable(), 5)->Value_1;
            assert(bytes@ =~= old(self).readable().subrange(n, n + len as int));
        }
        match string_from_utf8(bytes) {
            Some(s) => Ok(s),
            None => Err(DeserializeError::InvalidUtf8),
        }
    }
}

impl WriteString for ByteBuf {
    fn write_string(&mut self, value: &str) {
        self.write_string(value)
    }
}

impl ReadString for ByteBuf {
    fn read_string(&mut self) -> (r: Result<String, DeserializeError>) {
        let r = self.read_string();
        proof {
            if let Ok((chars, n)) = parse_string(old(self).readable()) {
                assert(self.readable() =~= old(self).readable().skip(n));
            }
        }
        r
    }
}

/// String round trip: the length-prefixed UTF-8 form written for a
/// non-empty string, whatever follows it, reads back as exactly that string
/// and consumes exactly the prefix and the bytes.
pub proof fn lemma_string_round_trip(s: Seq<char>, rest: Seq<u8>)
    requires
        0 < encode_utf8(s).len() <= 0x7fff_ffff,
    ensures
        parse_string(varint_encoding(encode_utf8(s).len() as u32) + encode_utf8(s) + rest) == Ok::<
            (Seq<char>, int),
            DeserializeError,
        >((s, varint_len(encode_utf8(s).len() as u32) + encode_utf8(s).len())),
{
    let bytes = encode_utf8(s);
    let blen: u32 = bytes.len() as u32;
    let whole = varint_encoding(blen) + bytes + rest;
    assert(whole =~= varint_encoding(blen) + (bytes + rest));
    crate::var::lemma_varint_round_trip(blen, bytes + rest);
    let n = varint_len(blen);
    crate::var::lemma_varint_len_bounds(blen);
    assert(whole.subrange(n, n + blen as int) =~= bytes);
    vstd::utf8::encode_utf8_valid_utf8(s);
    vstd::utf8::encode_utf8_decode_utf8(s);
}

/// When the length-prefixed UTF-8 form of a non-empty string leads `s`, the
/// string is what a read from `s` yields, consuming exactly that form.
pub proof fn lemma_parse_string_prefix(c: Seq<char>, s: Seq<u8>)
    requires
        0 < encode_utf8(c).len() <= 0x7fff_ffff,
        crate::buffer::prefix_of(
            varint_encoding(encode_utf8(c).len() as u32) + encode_utf8(c),
            s,
        ),
    ensures
        parse_string(s) == Ok::<(Seq<char>, int), DeserializeError>(
            (c, varint_len(encode_utf8(c).len() as u32) + encode_utf8(c).len()),
        ),
{
    let p = varint_encoding(encode_utf8(c).len() as u32) + encode_utf8(c);
    let rest = s.skip(p.len() as int);
    assert(s =~= p + rest);
    assert(p + rest =~= varint_encoding(encode_utf8(c).len() as u32) + encode_utf8(c) + rest);
    lemma_string_round_trip(c, rest);
}

} // verus!
