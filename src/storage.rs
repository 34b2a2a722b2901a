use std::collections::HashMap;
use vstd::prelude::*;
use crate::data_types::{
    Chunk, ChunkCells, Point, zeroed_cells, CHUNK_SIDE_LENGTH, CHUNK_SIZE, GRID_SIDE_LENGTH,
};
use crate::spatial::{chunk_id, chunk_id_spec, morton, morton_encode};
use vstd::std_specs::hash::{axiom_spec_keys_iter, spec_keys_iter};
use vstd::std_specs::iter::IteratorSpec;

verus! {

broadcast use vstd::std_specs::hash::group_hash_axioms;

/// Why a cell could not be read.
#[derive(Clone, Copy, Debug, PartialEq, Eq, Structural)]
pub enum StorageError {
    /// No chunk has been created at the cell's chunk coordinate.
    MissingChunk,
}

/// Index of a cell inside its chunk, for in-chunk coordinates below 32.
pub open spec fn cell_index(rel_x: u32, rel_y: u32, rel_z: u32) -> int {
    morton(rel_x as nat, rel_y as nat, rel_z as nat, 5) as int
}

/// Identifier of the chunk that holds the absolute cell `(x, y, z)`.
pub open spec fn owning_chunk(x: u32, y: u32, z: u32) -> u32 {
    chunk_id_spec(x / 32, y / 32, z / 32)
}

/// Index of the absolute cell `(x, y, z)` inside its chunk.
pub open spec fn owning_index(x: u32, y: u32, z: u32) -> int {
    cell_index(x % 32, y % 32, z % 32)
}

/// The absolute cell `(x, y, z)` lies in a chunk of the grid.
pub open spec fn in_grid(x: u32, y: u32, z: u32) -> bool {
    x / 32 < 32 && y / 32 < 32 && z / 32 < 32
}

/// `cells` with the cell at `i` set to `p`.
pub open spec fn write_cell(cells: ChunkCells, i: int, p: Point) -> ChunkCells {
    ChunkCells {
        density: cells.density.update(i, p.density),
        material: cells.material.update(i, p.material),
    }
}

/// The point held at index `i` of `cells`.
pub open spec fn read_cell(cells: ChunkCells, i: int) -> Point {
    Point { density: cells.density[i], material: cells.material[i] }
}

/// Every chunk of `chunks` holds one entry per cell in each buffer.
pub open spec fn all_chunks_wf(chunks: Map<u32, ChunkCells>) -> bool {
    forall|k: u32| #[trigger] chunks.contains_key(k) ==> chunks[k].wf()
}

/// What reading the absolute cell `(x, y, z)` gives over `chunks`.
pub open spec fn cell_at(chunks: Map<u32, ChunkCells>, x: u32, y: u32, z: u32) -> Result<
    Point,
    StorageError,
> {
    if chunks.contains_key(owning_chunk(x, y, z)) {
        Ok(read_cell(chunks[owning_chunk(x, y, z)], owning_index(x, y, z)))
    } else {
        Err(StorageError::MissingChunk)
    }
}

/// `chunks` after writing `p` at the absolute cell `(x, y, z)`: the owning
/// chunk is created zeroed if absent; outside the grid nothing changes.
pub open spec fn stored_after_global_write(
    chunks: Map<u32, ChunkCells>,
    x: u32,
    y: u32,
    z: u32,
    p: Point,
) -> Map<u32, ChunkCells> {
    if in_grid(x, y, z) {
        let key = owning_chunk(x, y, z);
        let before = if chunks.contains_key(key) {
            chunks[key]
        } else {
            zeroed_cells()
        };
        chunks.insert(key, write_cell(before, owning_index(x, y, z), p))
    } else {
        chunks
    }
}

/// `chunks` after writing `p` at in-chunk position `(x, y, z)` of chunk
/// `chunk_id`: only an existing chunk and a position inside it are written.
pub open spec fn stored_after_relative_write(
    chunks: Map<u32, ChunkCells>,
    x: u32,
    y: u32,
    z: u32,
    chunk_id: u32,
    p: Point,
) -> Map<u32, ChunkCells> {
    if x < 32 && y < 32 && z < 32 && chunks.contains_key(chunk_id) {
        chunks.insert(chunk_id, write_cell(chunks[chunk_id], cell_index(x, y, z), p))
    } else {
        chunks
    }
}

/// What reading the chunk at chunk coordinate `(x, y, z)` gives: its cells,
/// or zeroed cells when it has never been created.
pub open spec fn chunk_at(chunks: Map<u32, ChunkCells>, x: u32, y: u32, z: u32) -> ChunkCells {
    if chunks.contains_key(chunk_id_spec(x, y, z)) {
        chunks[chunk_id_spec(x, y, z)]
    } else {
        zeroed_cells()
    }
}

/// `chunks` with chunk `id` present: unchanged if it was, else zeroed.
pub open spec fn with_chunk(chunks: Map<u32, ChunkCells>, id: u32) -> Map<u32, ChunkCells> {
    if chunks.contains_key(id) {
        chunks
    } else {
        chunks.insert(id, zeroed_cells())
    }
}

/// Making a chunk present does not change what any chunk reads as.
pub proof fn lemma_with_chunk_reads_same(chunks: Map<u32, ChunkCells>, id: u32, x: u32, y: u32, z: u32)
    ensures
        chunk_at(with_chunk(chunks, id), x, y, z) == chunk_at(chunks, x, y, z),
{
}

/// A cell written inside the grid reads back as the value written.
pub proof fn lemma_read_after_global_write(
    chunks: Map<u32, ChunkCells>,
    x: u32,
    y: u32,
    z: u32,
    p: Point,
)
    requires
        all_chunks_wf(chunks),
        in_grid(x, y, z),
    ensures
        cell_at(stored_after_global_write(chunks, x, y, z, p), x, y, z) == Ok::<
            Point,
            StorageError,
        >(p),
{
    lemma_in_chunk_index(x % 32, y % 32, z % 32);
    let key = owning_chunk(x, y, z);
    if chunks.contains_key(key) {
        assert(chunks[key].wf());
    }
}

/// Sparse store of chunks, keyed by chunk identifier; a chunk exists once
/// something has been written to it.
pub struct Storage {
    chunks: HashMap<u32, Chunk>,
}

impl View for Storage {
    type V = Map<u32, ChunkCells>;

    closed spec fn view(&self) -> Map<u32, ChunkCells> {
        self.chunks@.map_values(|c: Chunk| c@)
    }
}

proof fn lemma_in_chunk_index(rel_x: u32, rel_y: u32, rel_z: u32)
    requires
        rel_x < 32,
        rel_y < 32,
        rel_z < 32,
    ensures
        0 <= cell_index(rel_x, rel_y, rel_z) < CHUNK_SIZE,
{
    reveal_with_fuel(crate::spatial::pow2, 6);
    assert(crate::spatial::pow2(5) == 32);
    crate::spatial::lemma_morton_bound(rel_x as nat, rel_y as nat, rel_z as nat, 5);
}

impl Storage {
    /// Every stored chunk holds one entry per cell in each buffer.
    pub closed spec fn wf(&self) -> bool {
        forall|k: u32| #[trigger] self.chunks@.contains_key(k) ==> self.chunks@[k]@.wf()
    }

    /// The stored chunks are all well formed.
    pub proof fn lemma_chunks_wf(&self)
        requires
            self.wf(),
        ensures
            all_chunks_wf(self@),
    {
        assert forall|k: u32| #[trigger] self@.contains_key(k) implies self@[k].wf() by {
            self.lemma_view_wf(k);
        }
    }

    /// An empty store.
    pub fn new() -> (r: Storage)
        ensures
            r.wf(),
            r@ == Map::<u32, ChunkCells>::empty(),
    {
        let r = Storage { chunks: HashMap::new() };
        assert(r@ =~= Map::<u32, ChunkCells>::empty());
        r
    }

    /// Number of chunks that have been created.
    #[allow(non_snake_case)]
    pub fn getChunkCount(&self) -> (r: usize)
        ensures
            r == self@.len(),
    {
        assert(self@.dom() =~= self.chunks@.dom());
        self.chunks.len()
    }

    /// The identifiers of the created chunks, each once.
    #[allow(non_snake_case)]
    pub fn listChunkCoords(&self) -> (r: Vec<u32>)
        ensures
            r@.to_set() == self@.dom(),
            r@.no_duplicates(),
    {
        let mut out: Vec<u32> = Vec::new();
        let ghost all = spec_keys_iter(&self.chunks).remaining();
        proof {
            axiom_spec_keys_iter(&self.chunks);
        }
        for id in it: self.chunks.keys()
            invariant
                it.seq() == all,
                out@ == all.take(it.index() as int).map_values(|c: &u32| *c),
        {
            out.push(*id);
            proof {
                assert(out@ =~= all.take(it.index() + 1).map_values(|c: &u32| *c));
            }
        }
        proof {
            assert(out@ =~= all.map_values(|c: &u32| *c));
            assert(out@ =~= all.unref());
            assert(self@.dom() =~= self.chunks@.dom());
        }
        out
    }

    proof fn lemma_view_wf(&self, k: u32)
        requires
            self.wf(),
            self@.contains_key(k),
        ensures
            self@[k].wf(),
            self.chunks@.contains_key(k),
    {
        assert(self.chunks@.contains_key(k));
    }

    /// Sets cell `i` of the existing chunk `key` to `point`.
    fn write_existing(&mut self, key: u32, i: usize, point: Point)
        requires
            old(self).wf(),
            old(self)@.contains_key(key),
            i < CHUNK_SIZE,
        ensures
            final(self).wf(),
            final(self)@ == old(self)@.insert(key, write_cell(old(self)@[key], i as int, point)),
    {
        proof {
            old(self).lemma_view_wf(key);
        }
        let removed = self.chunks.remove(&key);
        match removed {
            Some(mut chunk) => {
                assert(chunk@ == old(self)@[key]);
                chunk.density[i] = point.density;
                chunk.material[i] = point.material;
                self.chunks.insert(key, chunk);
                proof {
                    assert(chunk@ == write_cell(old(self)@[key], i as int, point));
                    assert(self@ =~= old(self)@.insert(key, write_cell(old(self)@[key], i as int, point)));
                }
            },
            None => {
                assert(false);
            },
        }
    }

    /// Creates a zeroed chunk at chunk coordinate `(x, y, z)` unless one is
    /// there already.
    pub fn ensure_chunk(&mut self, x: u32, y: u32, z: u32)
        requires
            old(self).wf(),
        ensures
            final(self).wf(),
            final(self)@ == with_chunk(old(self)@, chunk_id_spec(x, y, z)),
    {
        let key = chunk_id(x, y, z);
        if !self.chunks.contains_key(&key) {
            self.create_chunk(x, y, z);
        } else {
            assert(self@.contains_key(key));
        }
    }

}

/// The operations of a chunk store.
pub trait Operations {
    /// The store's invariant, which every operation keeps.
    spec fn inv(&self) -> bool;

    fn get(&self, x: u32, y: u32, z: u32) -> (r: Result<Point, StorageError>)
        requires
            self.inv(),
    ;

    fn set_global(&mut self, x: u32, y: u32, z: u32, point: Point)
        requires
            old(self).inv(),
        ensures
            final(self).inv(),
    ;

    fn set_relative(&mut self, x: u32, y: u32, z: u32, chunk_id: u32, point: Point)
        requires
            old(self).inv(),
        ensures
            final(self).inv(),
    ;

    fn get_chunk(&self, x: u32, y: u32, z: u32) -> (r: Chunk)
        requires
            self.inv(),
    ;

    fn create_chunk(&mut self, x: u32, y: u32, z: u32)
        requires
            old(self).inv(),
        ensures
            final(self).inv(),
    ;

    fn add_chunk(&mut self, x: u32, y: u32, z: u32, chunk: Chunk)
        requires
            old(self).inv(),
            chunk@.wf(),
        ensures
            final(self).inv(),
    ;

    fn get_chunk_id(&self, x: u32, y: u32, z: u32) -> (r: u32);
}

impl Operations for Storage {
    open spec fn inv(&self) -> bool {
        self.wf()
    }

    /// Identifier of the chunk at chunk coordinate `(x, y, z)`.
    fn get_chunk_id(&self, x: u32, y: u32, z: u32) -> (r: u32)
        ensures
            r == chunk_id_spec(x, y, z),
    {
        chunk_id(x, y, z)
    }

    /// The cell at absolute position `(x, y, z)`, or `MissingChunk` when the
    /// chunk that holds it has never been created.
    fn get(&self, x: u32, y: u32, z: u32) -> (r: Result<Point, StorageError>)
        ensures
            r == cell_at(self@, x, y, z),
    {
        let key = chunk_id(x / CHUNK_SIDE_LENGTH, y / CHUNK_SIDE_LENGTH, z / CHUNK_SIDE_LENGTH);
        proof {
            lemma_in_chunk_index(x % 32, y % 32, z % 32);
            reveal_with_fuel(crate::spatial::log2, 6);
            reveal_with_fuel(crate::spatial::is_pow2, 6);
        }
        let i = morton_encode(
            x % CHUNK_SIDE_LENGTH,
            y % CHUNK_SIDE_LENGTH,
            z % CHUNK_SIDE_LENGTH,
            CHUNK_SIDE_LENGTH,
        ) as usize;
        match self.chunks.get(&key) {
            Some(chunk) => {
                proof {
                    self.lemma_view_wf(key);
                }
                Ok(Point { density: chunk.density[i], material: chunk.material[i] })
            },
            None => {
                assert(!self@.contains_key(key));
                Err(StorageError::MissingChunk)
            },
        }
    }

    /// Writes `point` at absolute position `(x, y, z)`, creating its chunk
    /// if needed. A position whose chunk lies outside the grid is ignored.
    fn set_global(&mut self, x: u32, y: u32, z: u32, point: Point)
        ensures
            final(self).wf(),
            final(self)@ == stored_after_global_write(old(self)@, x, y, z, point),
    {
        let x_chunk = x / CHUNK_SIDE_LENGTH;
        let y_chunk = y / CHUNK_SIDE_LENGTH;
        let z_chunk = z / CHUNK_SIDE_LENGTH;
        if x_chunk < GRID_SIDE_LENGTH && y_chunk < GRID_SIDE_LENGTH && z_chunk < GRID_SIDE_LENGTH {
            let key = chunk_id(x_chunk, y_chunk, z_chunk);
            proof {
                lemma_in_chunk_index(x % 32, y % 32, z % 32);
                reveal_with_fuel(crate::spatial::log2, 6);
                reveal_with_fuel(crate::spatial::is_pow2, 6);
            }
            let i = morton_encode(
                x % CHUNK_SIDE_LENGTH,
                y % CHUNK_SIDE_LENGTH,
                z % CHUNK_SIDE_LENGTH,
                CHUNK_SIDE_LENGTH,
            ) as usize;
            if !self.chunks.contains_key(&key) {
                self.create_chunk(x_chunk, y_chunk, z_chunk);
                assert(self@[key] == zeroed_cells());
            }
            self.write_existing(key, i, point);
        }
    }

    /// Writes `point` at in-chunk position `(x, y, z)` of chunk `chunk_id`.
    /// Nothing changes when that chunk does not exist or a coordinate is
    /// outside the chunk.
    fn set_relative(&mut self, x: u32, y: u32, z: u32, chunk_id: u32, point: Point)
        ensures
            final(self).wf(),
            final(self)@ == stored_after_relative_write(old(self)@, x, y, z, chunk_id, point),
    {
        if x < CHUNK_SIDE_LENGTH && y < CHUNK_SIDE_LENGTH && z < CHUNK_SIDE_LENGTH {
            proof {
                lemma_in_chunk_index(x, y, z);
                reveal_with_fuel(crate::spatial::log2, 6);
                reveal_with_fuel(crate::spatial::is_pow2, 6);
            }
            let i = morton_encode(x, y, z, CHUNK_SIDE_LENGTH) as usize;
            if self.chunks.contains_key(&chunk_id) {
                self.write_existing(chunk_id, i, point);
            }
        }
    }

    /// A copy of the chunk at chunk coordinate `(x, y, z)`, or a zeroed
    /// chunk when it has never been created.
    fn get_chunk(&self, x: u32, y: u32, z: u32) -> (r: Chunk)
        ensures
            r@ == chunk_at(self@, x, y, z),
            r@.wf(),
    {
        let key = chunk_id(x, y, z);
        match self.chunks.get(&key) {
            Some(chunk) => {
                proof {
                    self.lemma_view_wf(key);
                }
                chunk.copy()
            },
            None => Chunk::zeroed(),
        }
    }

    /// Puts a zeroed chunk at chunk coordinate `(x, y, z)`, replacing any
    /// chunk there.
    fn create_chunk(&mut self, x: u32, y: u32, z: u32)
        ensures
            final(self).wf(),
            final(self)@ == old(self)@.insert(chunk_id_spec(x, y, z), zeroed_cells()),
    {
        let key = chunk_id(x, y, z);
        self.chunks.insert(key, Chunk::zeroed());
        assert(self@ =~= old(self)@.insert(key, zeroed_cells()));
    }

    /// Stores a copy of `chunk` at chunk coordinate `(x, y, z)`, replacing
    /// any chunk there.
    fn add_chunk(&mut self, x: u32, y: u32, z: u32, chunk: Chunk)
        ensures
            final(self).wf(),
            final(self)@ == old(self)@.insert(chunk_id_spec(x, y, z), chunk@),
    {
        let key = chunk_id(x, y, z);
        self.chunks.insert(key, chunk.copy());
        assert(self@ =~= old(self)@.insert(key, chunk@));
    }
}

} // verus!
