//! A binary framing layer for a length-prefixed, request/response network
//! protocol: a variable-length integer (VarInt) codec, a cursor-based byte
//! buffer with bounds-checked reads and writes, a packet frame codec with
//! optional zlib compression, and the connection-level logic that reassembles
//! frames split across socket reads.

pub mod buffer;
pub mod connection;
pub mod crypt;
pub mod frame;
pub mod packet;
pub mod protocol;
pub mod strings;
pub mod var;
