//! Packets: the capability set the frame codec depends on — resolve an id,
//! serialize a body, deserialize one — and the numeric packet ids, with an
//! explicit integer-to-id mapping in place of any unchecked reinterpretation.

use crate::buffer::{prefix_of, ByteBuf};
use crate::protocol::{ProtocolToID, ProtocolVersion};
use crate::var::DeserializeError;
use vstd::prelude::*;

pub mod clientbound;
pub mod serverbound;

verus! {

/// Serializing a packet's body to a buffer and reading one back.
pub trait PacketSerializer: ProtocolToID + Sized {
    /// The exact bytes `serialize` appends: the packet's body, id excluded.
    spec fn wire_body(&self) -> Seq<u8>;

    /// The machine limits under which the body can be written: lengths must
    /// fit their VarInt prefixes.
    spec fn serialize_pre(&self) -> bool;

    /// The values whose written form reads back: `serialize_pre`, and any
    /// length-prefixed string non-empty, since a read rejects a length of
    /// zero.
    spec fn parseable(&self) -> bool;

    /// Whether two packets carry the same values, strings compared by their
    /// characters.
    spec fn eqv(&self, other: &Self) -> bool;

    /// True exactly when the packet is within `serialize_pre`'s limits.
    fn check_pre(&self) -> (r: bool)
        ensures
            r == self.serialize_pre(),
    ;

    /// Appends the packet's body — no frame, no id — to `buf`.
    fn serialize(&self, buf: &mut ByteBuf, ver: &ProtocolVersion)
        requires
            old(buf).wf(),
            self.serialize_pre(),
        ensures
            final(buf).wf(),
            final(buf).data() == old(buf).data() + self.wire_body(),
            final(buf).cursor() == old(buf).cursor(),
    ;

    /// Reads the packet's fields from `buf`, which must be positioned at the
    /// start of the body: whenever the unread bytes begin with the written
    /// form of a parseable value, that value is recovered and exactly its
    /// bytes are consumed.
    fn deserialize(&mut self, buf: &mut ByteBuf) -> (r: Result<(), DeserializeError>)
        requires
            old(buf).wf(),
        ensures
            final(buf).wf(),
            final(buf).data() == old(buf).data(),
            final(buf).cursor() >= old(buf).cursor(),
            forall|v: Self|
                v.parseable() && prefix_of(v.wire_body(), old(buf).readable()) ==> r == Ok::<
                    (),
                    DeserializeError,
                >(()) && final(self).eqv(&v) && final(buf).cursor() == old(buf).cursor()
                    + v.wire_body().len(),
    ;
}

/// A packet that can frame itself: id first, body after.
pub trait Packet: PacketSerializer + ProtocolToID {
    /// A fresh buffer holding the packet's id as a VarInt, then its body.
    fn serialize_with_id(&self, ver: &ProtocolVersion) -> (r: Box<ByteBuf>)
        requires
            self.serialize_pre(),
        ensures
            r.wf(),
            r.cursor() == 0,
            r.data() == crate::frame::body_bytes(self.spec_id(ver), self.wire_body()),
    ;
}

impl<T: PacketSerializer + ProtocolToID> Packet for T {
    fn serialize_with_id(&self, ver: &ProtocolVersion) -> (r: Box<ByteBuf>) {
        let mut buf = ByteBuf::new();
        buf.write_var_int(self.resolve_id(ver));
        self.serialize(&mut buf, ver);
        Box::new(buf)
    }
}

/// Reads one packet of type `T` from a buffer positioned at the start of
/// its body: a fresh default value filled by `deserialize`.
pub fn deserialize_new<T: Default + Packet>(buf: &mut ByteBuf) -> (r: Result<
    Box<T>,
    DeserializeError,
>)
    requires
        old(buf).wf(),
    ensures
        final(buf).wf(),
        final(buf).data() == old(buf).data(),
        final(buf).cursor() >= old(buf).cursor(),
        forall|v: T|
            v.parseable() && prefix_of(v.wire_body(), old(buf).readable()) ==> (r matches Ok(b)
                && b.eqv(&v) && final(buf).cursor() == old(buf).cursor() + v.wire_body().len()),
{
    let mut p: T = T::default();
    match p.deserialize(buf) {
        Ok(()) => Ok(Box::new(p)),
        Err(e) => Err(e),
    }
}

/// The packet ids the client knows, with an explicit variant for any id it
/// does not.
#[derive(Debug, Clone, Copy, PartialEq, Eq, Structural)]
pub enum PacketID {
    KeepAliveCB,
    KeepAliveSB,
    SetCompression,
    Handshake,
    EncryptionRequest,
    Unknown,
}

impl PacketID {
    /// The numeric id each variant stands for; `Unknown` has none and maps
    /// to a negative sentinel.
    pub open spec fn spec_value(&self) -> i32 {
        match self {
            PacketID::KeepAliveCB => 0x1fi32,
            PacketID::KeepAliveSB => 0x0bi32,
            PacketID::SetCompression => 0x03i32,
            PacketID::Handshake => 0x00i32,
            PacketID::EncryptionRequest => 0x01i32,
            PacketID::Unknown => -1i32,
        }
    }

    /// The numeric id to put on the wire.
    pub fn value(&self) -> (r: i32)
        ensures
            r == self.spec_value(),
    {
        match self {
            PacketID::KeepAliveCB => 0x1f,
            PacketID::KeepAliveSB => 0x0b,
            PacketID::SetCompression => 0x03,
            PacketID::Handshake => 0x00,
            PacketID::EncryptionRequest => 0x01,
            PacketID::Unknown => -1,
        }
    }
}

/// The id each known integer maps to, and `Unknown` for every other.
pub open spec fn spec_to_packet_id(id: i32) -> PacketID {
    if id == 0x1f {
        PacketID::KeepAliveCB
    } else if id == 0x0b {
        PacketID::KeepAliveSB
    } else if id == 0x03 {
        PacketID::SetCompression
    } else if id == 0x00 {
        PacketID::Handshake
    } else if id == 0x01 {
        PacketID::EncryptionRequest
    } else {
        PacketID::Unknown
    }
}

/// Maps a wire id to the packet id it names: an exhaustive mapping, with an
/// explicit `Unknown` for integers that name no packet.
pub fn to_packet_id(id: i32) -> (r: PacketID)
    ensures
        r == spec_to_packet_id(id),
{
    if id == 0x1f {
        PacketID::KeepAliveCB
    } else if id == 0x0b {
        PacketID::KeepAliveSB
    } else if id == 0x03 {
        PacketID::SetCompression
    } else if id == 0x00 {
        PacketID::Handshake
    } else if id == 0x01 {
        PacketID::EncryptionRequest
    } else {
        PacketID::Unknown
    }
}

/// Every known id maps back to itself: the mapping inverts `spec_value` on
/// all variants but `Unknown`.
pub proof fn lemma_to_packet_id_inverts(p: PacketID)
    requires
        p != PacketID::Unknown,
    ensures
        spec_to_packet_id(p.spec_value()) == p,
{
}

} // verus!
