//! Packets the server sends to the client.

use crate::buffer::{
    be_bytes, lemma_be_bytes_injective, lemma_pow256_values, prefix_of, ByteBuf,
};
use crate::packet::{PacketID, PacketSerializer};
use crate::protocol::{ProtocolToID, ProtocolVersion};
use crate::var::{
    lemma_parse_varint_prefix, parse_varint, varint_encoding, varint_len, DeserializeError,
    VarIntParse,
};
use vstd::prelude::*;

verus! {

broadcast use crate::buffer::lemma_be_bytes_len;

/// Orders the client to use compression with the given threshold from now
/// on.
#[derive(Debug)]
pub struct SetCompression {
    pub threshold: i32,
}

impl Default for SetCompression {
    fn default() -> (r: Self)
        ensures
            r.threshold == 0,
    {
        SetCompression { threshold: 0 }
    }
}

impl ProtocolToID for SetCompression {
    open spec fn spec_id(&self, ver: &ProtocolVersion) -> i32 {
        PacketID::SetCompression.spec_value()
    }

    fn resolve_id(&self, _ver: &ProtocolVersion) -> (r: i32) {
        PacketID::SetCompression.value()
    }
}

impl PacketSerializer for SetCompression {
    open spec fn wire_body(&self) -> Seq<u8> {
        varint_encoding(self.threshold as u32)
    }

    open spec fn serialize_pre(&self) -> bool {
        true
    }

    open spec fn parseable(&self) -> bool {
        true
    }

    open spec fn eqv(&self, other: &Self) -> bool {
        self.threshold == other.threshold
    }

    fn check_pre(&self) -> (r: bool) {
        true
    }

    fn serialize(&self, buf: &mut ByteBuf, _ver: &ProtocolVersion) {
        buf.write_var_int(self.threshold);
    }

    fn deserialize(&mut self, buf: &mut ByteBuf) -> (r: Result<(), DeserializeError>) {
        proof {
            assert forall|v: SetCompression|
                v.parseable() && prefix_of(v.wire_body(), old(buf).readable()) implies parse_varint(
                old(buf).readable(),
                5,
            ) == VarIntParse::Value(v.threshold as u32, varint_len(v.threshold as u32)) && ((
            v.threshold as u32) as i32) == v.threshold by {
                lemma_parse_varint_prefix(v.threshold as u32, old(buf).readable());
                let t = v.threshold;
                assert(((t as u32) as i32) == t) by (bit_vector);
            }
        }
        let t = match buf.read_var_int() {
            Ok(t) => t,
            Err(e) => { return Err(e) },
        };
        self.threshold = t;
        Ok(())
    }
}

/// A liveness probe carrying an opaque identifier the client echoes back.
#[derive(Debug)]
pub struct KeepAlive {
    pub id: i64,
}

impl Default for KeepAlive {
    fn default() -> (r: Self)
        ensures
            r.id == 0,
    {
        KeepAlive { id: 0 }
    }
}

impl ProtocolToID for KeepAlive {
    open spec fn spec_id(&self, ver: &ProtocolVersion) -> i32 {
        PacketID::KeepAliveCB.spec_value()
    }

    fn resolve_id(&self, _ver: &ProtocolVersion) -> (r: i32) {
        PacketID::KeepAliveCB.value()
    }
}

impl PacketSerializer for KeepAlive {
    open spec fn wire_body(&self) -> Seq<u8> {
        be_bytes((self.id as u64) as int, 8)
    }

    open spec fn serialize_pre(&self) -> bool {
        true
    }

    open spec fn parseable(&self) -> bool {
        true
    }

    open spec fn eqv(&self, other: &Self) -> bool {
        self.id == other.id
    }

    fn check_pre(&self) -> (r: bool) {
        true
    }

    fn serialize(&self, buf: &mut ByteBuf, _ver: &ProtocolVersion) {
        buf.write_i64_be(self.id);
    }

    fn deserialize(&mut self, buf: &mut ByteBuf) -> (r: Result<(), DeserializeError>) {
        proof {
            assert forall|v: KeepAlive|
                v.parseable() && prefix_of(v.wire_body(), old(buf).readable()) implies old(
                buf,
            ).readable().len() >= 8 && old(buf).readable().take(8) == be_bytes(
                (v.id as u64) as int,
                8,
            ) by {
                assert(old(buf).readable().take(8) =~= v.wire_body());
            }
        }
        let x = match buf.read_i64_be() {
            Some(x) => x,
            None => { return Err(DeserializeError::IoError) },
        };
        proof {
            assert forall|v: KeepAlive|
                v.parseable() && prefix_of(v.wire_body(), old(buf).readable()) implies x
                == v.id by {
                lemma_pow256_values();
                lemma_be_bytes_injective((x as u64) as int, (v.id as u64) as int, 8);
                let y = v.id;
                assert((x as u64) == (y as u64) ==> x == y) by (bit_vector);
            }
        }
        self.id = x;
        Ok(())
    }
}

/// Asks the client to begin encryption setup; it carries an opaque
/// identifier in this protocol model.
#[derive(Debug)]
pub struct EncryptionRequest {
    pub id: i64,
}

impl Default for EncryptionRequest {
    fn default() -> (r: Self)
        ensures
            r.id == 0,
    {
        EncryptionRequest { id: 0 }
    }
}

impl ProtocolToID for EncryptionRequest {
    open spec fn spec_id(&self, ver: &ProtocolVersion) -> i32 {
        PacketID::EncryptionRequest.spec_value()
    }

    fn resolve_id(&self, _ver: &ProtocolVersion) -> (r: i32) {
        PacketID::EncryptionRequest.value()
    }
}

impl PacketSerializer for EncryptionRequest {
    open spec fn wire_body(&self) -> Seq<u8> {
        be_bytes((self.id as u64) as int, 8)
    }

    open spec fn serialize_pre(&self) -> bool {
        true
    }

    open spec fn parseable(&self) -> bool {
        true
    }

    open spec fn eqv(&self, other: &Self) -> bool {
        self.id == other.id
    }

    fn check_pre(&self) -> (r: bool) {
        true
    }

    fn serialize(&self, buf: &mut ByteBuf, _ver: &ProtocolVersion) {
        buf.write_i64_be(self.id);
    }

    fn deserialize(&mut self, buf: &mut ByteBuf) -> (r: Result<(), DeserializeError>) {
        proof {
            assert forall|v: EncryptionRequest|
                v.parseable() && prefix_of(v.wire_body(), old(buf).readable()) implies old(
                buf,
            ).readable().len() >= 8 && old(buf).readable().take(8) == be_bytes(
                (v.id as u64) as int,
                8,
            ) by {
                assert(old(buf).readable().take(8) =~= v.wire_body());
            }
        }
        let x = match buf.read_i64_be() {
            Some(x) => x,
            None => { return Err(DeserializeError::IoError) },
        };
        proof {
            assert forall|v: EncryptionRequest|
                v.parseable() && prefix_of(v.wire_body(), old(buf).readable()) implies x
                == v.id by {
                lemma_pow256_values();
                lemma_be_bytes_injective((x as u64) as int, (v.id as u64) as int, 8);
                let y = v.id;
                assert((x as u64) == (y as u64) ==> x == y) by (bit_vector);
            }
        }
        self.id = x;
        Ok(())
    }
}

} // verus!
