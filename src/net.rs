use vstd::prelude::*;
use crate::data_types::Chunk;

verus! {

/// A message as it travels: a type tag and the encoded payload of that type.
pub struct NetPayload {
    pub payload_type: String,
    pub data: String,
}

impl NetPayload {
    /// A copy of this message.
    pub fn copy(&self) -> (r: NetPayload)
        ensures
            r.payload_type@ == self.payload_type@,
            r.data@ == self.data@,
    {
        NetPayload { payload_type: self.payload_type.clone(), data: self.data.clone() }
    }
}

/// A message together with the client it came from.
pub struct ChannelDataContainer {
    pub client_id: i32,
    pub payload: NetPayload,
}

/// A change of one cell, addressed inside a chunk.
#[derive(Clone, Copy, Debug, PartialEq, Eq, Structural)]
pub struct NetDiff {
    pub chunk_id: u32,
    pub x: u32,
    pub y: u32,
    pub z: u32,
    pub density: u8,
    pub material: u8,
}

/// Several cell changes, applied in order.
pub struct NetDiffList {
    pub list: Vec<NetDiff>,
}

/// A chunk coordinate whose contents a client asks for.
#[derive(Clone, Copy, Debug, PartialEq, Eq, Structural)]
pub struct NetChunkRequest {
    pub x: u32,
    pub y: u32,
    pub z: u32,
}

/// Several chunk requests, served in order.
pub struct NetChunkRequestList {
    pub list: Vec<NetChunkRequest>,
}

/// A chunk coordinate a client no longer wants changes of.
#[derive(Clone, Copy, Debug, PartialEq, Eq, Structural)]
pub struct NetDeRegisterRequest {
    pub x: u32,
    pub y: u32,
    pub z: u32,
}

/// The full contents of a chunk, with its chunk coordinate.
pub struct NetChunk {
    pub x: u32,
    pub y: u32,
    pub z: u32,
    pub density: Vec<u8>,
    pub material: Vec<u8>,
}

/// Several chunks.
pub struct NetChunkList {
    pub list: Vec<NetChunk>,
}

impl NetChunk {
    /// The contents of `chunk`, labelled with chunk coordinate `(x, y, z)`.
    pub fn from_chunk(chunk: Chunk, x: u32, y: u32, z: u32) -> (r: NetChunk)
        ensures
            r.x == x,
            r.y == y,
            r.z == z,
            r.density@ == chunk.density@,
            r.material@ == chunk.material@,
    {
        NetChunk { x, y, z, density: chunk.density, material: chunk.material }
    }
}

} // verus!
