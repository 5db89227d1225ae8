//! IFF chunks, the container format of HOD files.
use vstd::prelude::*;

verus! {

/// How a chunk is framed.
#[derive(Clone, Copy, Debug, PartialEq, Eq, Structural)]
pub enum ChunkType {
    Normal,
}

/// One chunk: its four-character id, framing, version, payload and nested chunks.
pub struct IffChunk {
    pub id: String,
    pub chunk_type: ChunkType,
    pub version: u32,
    pub data: Vec<u8>,
    pub children: Vec<IffChunk>,
}

} // verus!
