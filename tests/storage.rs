use volume_server::data_types::{Chunk, Point, CHUNK_SIZE};
use volume_server::spatial::morton_encode;
use volume_server::storage::{Operations, Storage, StorageError};

fn pt(density: u8, material: u8) -> Point {
    Point { density, material }
}

#[test]
fn new_storage_is_empty() {
    let s = Storage::new();
    assert_eq!(s.getChunkCount(), 0);
}

#[test]
fn get_on_missing_chunk_fails() {
    let s = Storage::new();
    assert_eq!(s.get(5, 6, 7), Err(StorageError::MissingChunk));
}

#[test]
fn set_global_then_get_returns_value() {
    let mut s = Storage::new();
    s.set_global(40, 3, 70, pt(100, 1));
    assert_eq!(s.get(40, 3, 70), Ok(pt(100, 1)));
    assert_eq!(s.getChunkCount(), 1);
    // a neighbour in the same chunk is untouched
    assert_eq!(s.get(41, 3, 70), Ok(pt(0, 0)));
}

#[test]
fn set_global_last_cell_of_grid() {
    let mut s = Storage::new();
    s.set_global(1023, 1023, 1023, pt(9, 8));
    assert_eq!(s.get(1023, 1023, 1023), Ok(pt(9, 8)));
}

#[test]
fn set_global_outside_grid_is_ignored() {
    let mut s = Storage::new();
    s.set_global(1024, 0, 0, pt(1, 1));
    s.set_global(0, 1024, 0, pt(1, 1));
    s.set_global(0, 0, u32::MAX, pt(1, 1));
    assert_eq!(s.getChunkCount(), 0);
}

#[test]
fn set_global_overwrites() {
    let mut s = Storage::new();
    s.set_global(1, 2, 3, pt(1, 1));
    s.set_global(1, 2, 3, pt(2, 3));
    assert_eq!(s.get(1, 2, 3), Ok(pt(2, 3)));
    assert_eq!(s.getChunkCount(), 1);
}

#[test]
fn get_chunk_of_missing_chunk_is_zeroed() {
    let s = Storage::new();
    let c = s.get_chunk(3, 4, 5);
    assert_eq!(c.density.len(), CHUNK_SIZE);
    assert_eq!(c.material.len(), CHUNK_SIZE);
    assert!(c.density.iter().all(|b| *b == 0));
    assert!(c.material.iter().all(|b| *b == 0));
    assert_eq!(s.getChunkCount(), 0);
}

#[test]
fn get_chunk_reflects_writes() {
    let mut s = Storage::new();
    s.set_global(33, 1, 1, pt(7, 2));
    let c = s.get_chunk(1, 0, 0);
    let i = morton_encode(1, 1, 1, 32) as usize;
    assert_eq!(c.density[i], 7);
    assert_eq!(c.material[i], 2);
    assert_eq!(c.density.iter().filter(|b| **b != 0).count(), 1);
}

#[test]
fn set_relative_on_missing_chunk_is_ignored() {
    let mut s = Storage::new();
    s.set_relative(1, 1, 1, 0, pt(5, 5));
    assert_eq!(s.getChunkCount(), 0);
    assert_eq!(s.get(1, 1, 1), Err(StorageError::MissingChunk));
}

#[test]
fn set_relative_writes_existing_chunk() {
    let mut s = Storage::new();
    s.create_chunk(0, 1, 0);
    let id = s.get_chunk_id(0, 1, 0);
    assert_eq!(id, 32);
    s.set_relative(2, 3, 4, id, pt(11, 12));
    assert_eq!(s.get(2, 35, 4), Ok(pt(11, 12)));
}

#[test]
fn set_relative_outside_chunk_is_ignored() {
    let mut s = Storage::new();
    s.create_chunk(0, 0, 0);
    s.set_relative(32, 0, 0, 0, pt(5, 5));
    let c = s.get_chunk(0, 0, 0);
    assert!(c.density.iter().all(|b| *b == 0));
}

#[test]
fn create_chunk_replaces_with_zeros() {
    let mut s = Storage::new();
    s.set_global(0, 0, 0, pt(1, 1));
    s.create_chunk(0, 0, 0);
    assert_eq!(s.get(0, 0, 0), Ok(pt(0, 0)));
    assert_eq!(s.getChunkCount(), 1);
}

#[test]
fn add_chunk_stores_copy() {
    let mut s = Storage::new();
    let mut density = vec![0u8; CHUNK_SIZE];
    let material = vec![3u8; CHUNK_SIZE];
    density[0] = 42;
    s.add_chunk(1, 1, 1, Chunk { density, material });
    assert_eq!(s.get(32, 32, 32), Ok(pt(42, 3)));
    assert_eq!(s.get(33, 32, 32), Ok(pt(0, 3)));
}

#[test]
fn list_chunk_coords_names_each_chunk() {
    let mut s = Storage::new();
    assert!(s.listChunkCoords().is_empty());
    s.set_global(0, 0, 0, pt(1, 1));
    s.set_global(1, 1, 1, pt(1, 1));
    s.set_global(32, 64, 0, pt(1, 1));
    let mut ids = s.listChunkCoords();
    ids.sort();
    assert_eq!(ids, vec![0, 65]);
}
