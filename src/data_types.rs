use vstd::prelude::*;

verus! {

/// Number of cells along one edge of a chunk.
pub const CHUNK_SIDE_LENGTH: u32 = 32;

/// Number of cells in a chunk (`CHUNK_SIDE_LENGTH` cubed).
pub const CHUNK_SIZE: usize = 32768;

/// Number of chunks along one edge of the world grid.
pub const GRID_SIDE_LENGTH: u32 = 32;

/// One sample of the volume: how solid the cell is and what it is made of.
#[derive(Clone, Copy, Debug, PartialEq, Eq, Structural)]
pub struct Point {
    pub density: u8,
    pub material: u8,
}

/// Eight samples side by side, density and material apart.
pub struct Voxel {
    pub density: [u8; 8],
    pub material: [u8; 8],
}

/// A cube of `CHUNK_SIZE` cells, held as two parallel buffers indexed by the
/// Z-order index of a cell inside the chunk.
pub struct Chunk {
    pub density: Vec<u8>,
    pub material: Vec<u8>,
}

/// The density and material buffers of a chunk.
pub struct ChunkCells {
    pub density: Seq<u8>,
    pub material: Seq<u8>,
}

impl View for Chunk {
    type V = ChunkCells;

    open spec fn view(&self) -> ChunkCells {
        ChunkCells { density: self.density@, material: self.material@ }
    }
}

impl ChunkCells {
    /// Both buffers hold exactly one entry per cell.
    pub open spec fn wf(self) -> bool {
        self.density.len() == CHUNK_SIZE && self.material.len() == CHUNK_SIZE
    }
}

/// The cells of a chunk that nothing has written to.
pub open spec fn zeroed_cells() -> ChunkCells {
    ChunkCells {
        density: Seq::new(CHUNK_SIZE as nat, |i: int| 0u8),
        material: Seq::new(CHUNK_SIZE as nat, |i: int| 0u8),
    }
}

impl Chunk {
    /// A chunk whose every cell has density and material zero.
    pub fn zeroed() -> (r: Chunk)
        ensures
            r@ == zeroed_cells(),
    {
        let r = Chunk { density: vec![0u8; CHUNK_SIZE], material: vec![0u8; CHUNK_SIZE] };
        assert(r.density@ =~= zeroed_cells().density);
        assert(r.material@ =~= zeroed_cells().material);
        r
    }

    /// A copy of this chunk.
    pub fn copy(&self) -> (r: Chunk)
        ensures
            r@ == self@,
    {
        Chunk { density: self.density.clone(), material: self.material.clone() }
    }
}

} // verus!
