//! Protocol versions, and the resolution of a packet type's numeric id for
//! a given version.

use vstd::prelude::*;

verus! {

/// A protocol version tag.
#[allow(non_camel_case_types)]
#[derive(Debug, Clone, Copy, PartialEq, Eq, Structural)]
pub enum ProtocolVersion {
    V_1_12_2,
}

impl ProtocolVersion {
    /// The numeric version the tag stands for on the wire.
    pub fn number(&self) -> (r: i32)
        ensures
            r == 340,
    {
        match self {
            ProtocolVersion::V_1_12_2 => 340,
        }
    }
}

/// Resolving a packet type's numeric id for a protocol version.
pub trait ProtocolToID {
    /// The id `resolve_id` returns for `ver`.
    spec fn spec_id(&self, ver: &ProtocolVersion) -> i32;

    /// The packet id to put on the wire for protocol version `ver`.
    fn resolve_id(&self, ver: &ProtocolVersion) -> (r: i32)
        ensures
            r == self.spec_id(ver),
    ;
}

} // verus!
