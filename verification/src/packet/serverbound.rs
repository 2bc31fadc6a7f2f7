//! Packets the client sends to the server.

use crate::buffer::{
    be_bytes, lemma_be_bytes_injective, lemma_pow256_values, lemma_prefix_split, prefix_of,
    ByteBuf,
};
use crate::packet::{PacketID, PacketSerializer};
use crate::protocol::{ProtocolToID, ProtocolVersion};
use crate::strings::{lemma_parse_string_prefix, parse_string};
use crate::var::{
    lemma_parse_varint_prefix, parse_varint, varint_encoding, varint_len, DeserializeError,
    VarIntParse,
};
use vstd::prelude::*;
use vstd::utf8::encode_utf8;

verus! {

broadcast use crate::buffer::lemma_be_bytes_len;

/// The connection state a handshake asks the server to move to.
#[derive(Debug, Clone, PartialEq, Eq, Structural)]
pub enum LoginState {
    Undefined,
    Login,
}

impl Default for LoginState {
    fn default() -> (r: Self)
        ensures
            r == LoginState::Undefined,
    {
        LoginState::Undefined
    }
}

impl LoginState {
    /// The integer each state travels as.
    pub open spec fn spec_i32(&self) -> i32 {
        match self {
            LoginState::Undefined => 0,
            LoginState::Login => 2,
        }
    }

    /// The integer to put on the wire.
    pub fn as_i32(&self) -> (r: i32)
        ensures
            r == self.spec_i32(),
    {
        match self {
            LoginState::Undefined => 0,
            LoginState::Login => 2,
        }
    }

    /// The state a wire integer names; integers that name none map to
    /// `Undefined` explicitly.
    pub open spec fn spec_from_i32(v: i32) -> LoginState {
        if v == 2 {
            LoginState::Login
        } else {
            LoginState::Undefined
        }
    }

    /// Maps a wire integer back to a state, `Undefined` for unknown ones.
    pub fn from_i32(v: i32) -> (r: LoginState)
        ensures
            r == LoginState::spec_from_i32(v),
    {
        if v == 2 {
            LoginState::Login
        } else {
            LoginState::Undefined
        }
    }
}

/// Opens a connection: the protocol version, the server address and port,
/// and the state to continue in.
#[derive(Debug)]
pub struct Handshake {
    pub protocol_version: i32,
    pub address: String,
    pub port: u16,
    pub next_state: LoginState,
}

impl Default for Handshake {
    fn default() -> (r: Self)
        ensures
            r.protocol_version == 0,
            r.address@ == Seq::<char>::empty(),
            r.port == 0,
            r.next_state == LoginState::Undefined,
    {
        Handshake {
            protocol_version: 0,
            address: String::new(),
            port: 0,
            next_state: LoginState::Undefined,
        }
    }
}

impl ProtocolToID for Handshake {
    open spec fn spec_id(&self, ver: &ProtocolVersion) -> i32 {
        PacketID::Handshake.spec_value()
    }

    fn resolve_id(&self, _ver: &ProtocolVersion) -> (r: i32) {
        PacketID::Handshake.value()
    }
}

impl Handshake {
    /// The serialized address: its UTF-8 byte count as a VarInt, then the
    /// bytes.
    pub open spec fn address_bytes(&self) -> Seq<u8> {
        varint_encoding(encode_utf8(self.address@).len() as u32) + encode_utf8(self.address@)
    }
}

impl PacketSerializer for Handshake {
    open spec fn wire_body(&self) -> Seq<u8> {
        varint_encoding(self.protocol_version as u32) + self.address_bytes() + be_bytes(
            self.port as int,
            2,
        ) + varint_encoding(self.next_state.spec_i32() as u32)
    }

    open spec fn serialize_pre(&self) -> bool {
        encode_utf8(self.address@).len() <= 0x7fff_ffff
    }

    open spec fn parseable(&self) -> bool {
        0 < encode_utf8(self.address@).len() <= 0x7fff_ffff
    }

    open spec fn eqv(&self, other: &Self) -> bool {
        &&& self.protocol_version == other.protocol_version
        &&& self.address@ == other.address@
        &&& self.port == other.port
        &&& self.next_state == other.next_state
    }

    fn check_pre(&self) -> (r: bool) {
        self.address.as_str().as_bytes().len() <= 0x7fff_ffff
    }

    fn serialize(&self, buf: &mut ByteBuf, _ver: &ProtocolVersion) {
        buf.write_var_int(self.protocol_version);
        buf.write_string(self.address.as_str());
        buf.write_u16_be(self.port);
        buf.write_var_int(self.next_state.as_i32());
        proof {
            assert(final(buf).data() =~= old(buf).data() + self.wire_body());
        }
    }

    fn deserialize(&mut self, buf: &mut ByteBuf) -> (r: Result<(), DeserializeError>) {
        let ghost s0 = old(buf).readable();
        proof {
            assert forall|v: Handshake|
                v.parseable() && prefix_of(v.wire_body(), s0) implies parse_varint(s0, 5)
                == VarIntParse::Value(
                v.protocol_version as u32,
                varint_len(v.protocol_version as u32),
            ) && ((v.protocol_version as u32) as i32) == v.protocol_version by {
                lemma_handshake_split(v, s0);
                lemma_parse_varint_prefix(v.protocol_version as u32, s0);
                let t = v.protocol_version;
                assert(((t as u32) as i32) == t) by (bit_vector);
            }
        }
        let pv = match buf.read_var_int() {
            Ok(x) => x,
            Err(e) => { return Err(e) },
        };
        let ghost s1 = buf.readable();
        proof {
            crate::var::lemma_parse_varint_consumed(s0, 5);
            let n1 = parse_varint(s0, 5)->Value_1;
            assert(s1 =~= s0.skip(n1));
            assert forall|v: Handshake|
                v.parseable() && prefix_of(v.wire_body(), s0) implies parse_string(s1) == Ok::<
                (Seq<char>, int),
                DeserializeError,
            >((v.address@, v.address_bytes().len() as int)) by {
                lemma_handshake_split(v, s0);
                lemma_parse_string_prefix(v.address@, s1);
            }
        }
        let addr = match buf.read_string() {
            Ok(s) => s,
            Err(e) => { return Err(e) },
        };
        let ghost s2 = buf.readable();
        proof {
            let n2 = parse_string(s1)->Ok_0.1;
            assert(s2 =~= s1.skip(n2));
            assert forall|v: Handshake|
                v.parseable() && prefix_of(v.wire_body(), s0) implies s2.len() >= 2 && s2.take(2)
                == be_bytes(v.port as int, 2) by {
                lemma_handshake_split(v, s0);
            }
        }
        let port = match buf.read_u16_be() {
            Some(p) => p,
            None => { return Err(DeserializeError::IoError) },
        };
        let ghost s3 = buf.readable();
        proof {
            assert(s3 =~= s2.skip(2));
            assert forall|v: Handshake|
                v.parseable() && prefix_of(v.wire_body(), s0) implies parse_varint(s3, 5)
                == VarIntParse::Value(
                v.next_state.spec_i32() as u32,
                varint_len(v.next_state.spec_i32() as u32),
            ) && port == v.port by {
                lemma_handshake_split(v, s0);
                lemma_parse_varint_prefix(v.next_state.spec_i32() as u32, s3);
                lemma_pow256_values();
                lemma_be_bytes_injective(port as int, v.port as int, 2);
            }
        }
        let ns = match buf.read_var_int() {
            Ok(x) => x,
            Err(e) => { return Err(e) },
        };
        self.protocol_version = pv;
        self.address = addr;
        self.port = port;
        self.next_state = LoginState::from_i32(ns);
        proof {
            assert forall|v: Handshake|
                v.parseable() && prefix_of(v.wire_body(), s0) implies ns == v.next_state.spec_i32()
                && LoginState::spec_from_i32(v.next_state.spec_i32()) == v.next_state
                && v.wire_body().len() == varint_len(v.protocol_version as u32)
                + v.address_bytes().len() + 2 + varint_len(v.next_state.spec_i32() as u32) by {
                lemma_handshake_split(v, s0);
            }
        }
        Ok(())
    }
}

/// Splits a handshake's body prefix into its four serialized fields: each
/// leads the bytes that remain once the fields before it are consumed.
proof fn lemma_handshake_split(v: Handshake, s0: Seq<u8>)
    requires
        prefix_of(v.wire_body(), s0),
    ensures
        ({
            let a = varint_encoding(v.protocol_version as u32);
            let b = v.address_bytes();
            let c = be_bytes(v.port as int, 2);
            let d = varint_encoding(v.next_state.spec_i32() as u32);
            &&& prefix_of(a, s0)
            &&& prefix_of(b, s0.skip(a.len() as int))
            &&& prefix_of(c, s0.skip(a.len() as int).skip(b.len() as int))
            &&& prefix_of(d, s0.skip(a.len() as int).skip(b.len() as int).skip(2))
            &&& v.wire_body().len() == a.len() + b.len() + 2 + d.len()
        }),
{
    broadcast use crate::buffer::lemma_be_bytes_len;

    let a = varint_encoding(v.protocol_version as u32);
    let b = v.address_bytes();
    let c = be_bytes(v.port as int, 2);
    let d = varint_encoding(v.next_state.spec_i32() as u32);
    assert(v.wire_body() =~= a + (b + (c + d)));
    lemma_prefix_split(a, b + (c + d), s0);
    let s1 = s0.skip(a.len() as int);
    lemma_prefix_split(b, c + d, s1);
    let s2 = s1.skip(b.len() as int);
    lemma_prefix_split(c, d, s2);
}

/// Starts the login with the client's username.
#[derive(Debug)]
pub struct LoginStart {
    pub username: String,
}

impl Default for LoginStart {
    fn default() -> (r: Self)
        ensures
            r.username@ == Seq::<char>::empty(),
    {
        LoginStart { username: String::new() }
    }
}

impl ProtocolToID for LoginStart {
    open spec fn spec_id(&self, ver: &ProtocolVersion) -> i32 {
        0x00
    }

    fn resolve_id(&self, _ver: &ProtocolVersion) -> (r: i32) {
        0x00
    }
}

impl PacketSerializer for LoginStart {
    open spec fn wire_body(&self) -> Seq<u8> {
        varint_encoding(encode_utf8(self.username@).len() as u32) + encode_utf8(self.username@)
    }

    open spec fn serialize_pre(&self) -> bool {
        encode_utf8(self.username@).len() <= 0x7fff_ffff
    }

    open spec fn parseable(&self) -> bool {
        0 < encode_utf8(self.username@).len() <= 0x7fff_ffff
    }

    open spec fn eqv(&self, other: &Self) -> bool {
        self.username@ == other.username@
    }

    fn check_pre(&self) -> (r: bool) {
        self.username.as_str().as_bytes().len() <= 0x7fff_ffff
    }

    fn serialize(&self, buf: &mut ByteBuf, _ver: &ProtocolVersion) {
        buf.write_string(self.username.as_str());
        proof {
            assert(final(buf).data() =~= old(buf).data() + self.wire_body());
        }
    }

    fn deserialize(&mut self, buf: &mut ByteBuf) -> (r: Result<(), DeserializeError>) {
        let ghost s0 = old(buf).readable();
        proof {
            assert forall|v: LoginStart|
                v.parseable() && prefix_of(v.wire_body(), s0) implies parse_string(s0) == Ok::<
                (Seq<char>, int),
                DeserializeError,
            >((v.username@, v.wire_body().len() as int)) by {
                lemma_parse_string_prefix(v.username@, s0);
            }
        }
        let name = match buf.read_string() {
            Ok(s) => s,
            Err(e) => { return Err(e) },
        };
        self.username = name;
        Ok(())
    }
}

/// The client's echo of a liveness probe, carrying the probe's identifier.
#[derive(Debug)]
pub struct KeepAlive {
    pub id: i64,
}

impl Default for KeepAlive {
    fn default() -> (r: Self)
        ensures
            r.id == 0,
    {
        KeepAlive { id: 0 }
    }
}

impl ProtocolToID for KeepAlive {
    open spec fn spec_id(&self, ver: &ProtocolVersion) -> i32 {
        PacketID::KeepAliveSB.spec_value()
    }

    fn resolve_id(&self, _ver: &ProtocolVersion) -> (r: i32) {
        PacketID::KeepAliveSB.value()
    }
}

impl PacketSerializer for KeepAlive {
    open spec fn wire_body(&self) -> Seq<u8> {
        be_bytes((self.id as u64) as int, 8)
    }

    open spec fn serialize_pre(&self) -> bool {
        true
    }

    open spec fn parseable(&self) -> bool {
        true
    }

    open spec fn eqv(&self, other: &Self) -> bool {
        self.id == other.id
    }

    fn check_pre(&self) -> (r: bool) {
        true
    }

    fn serialize(&self, buf: &mut ByteBuf, _ver: &ProtocolVersion) {
        buf.write_i64_be(self.id);
    }

    fn deserialize(&mut self, buf: &mut ByteBuf) -> (r: Result<(), DeserializeError>) {
        proof {
            assert forall|v: KeepAlive|
                v.parseable() && prefix_of(v.wire_body(), old(buf).readable()) implies old(
                buf,
            ).readable().len() >= 8 && old(buf).readable().take(8) == be_bytes(
                (v.id as u64) as int,
                8,
            ) by {
                assert(old(buf).readable().take(8) =~= v.wire_body());
            }
        }
        let x = match buf.read_i64_be() {
            Some(x) => x,
            None => { return Err(DeserializeError::IoError) },
        };
        proof {
            assert forall|v: KeepAlive|
                v.parseable() && prefix_of(v.wire_body(), old(buf).readable()) implies x
                == v.id by {
                lemma_pow256_values();
                lemma_be_bytes_injective((x as u64) as int, (v.id as u64) as int, 8);
                let y = v.id;
                assert((x as u64) == (y as u64) ==> x == y) by (bit_vector);
            }
        }
        self.id = x;
        Ok(())
    }
}

} // verus!
