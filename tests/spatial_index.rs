use volume_server::spatial::{chunk_id, morton_decode, morton_encode};

#[test]
fn morton_encode_interleaves_bits() {
    assert_eq!(morton_encode(0, 0, 0, 32), 0);
    assert_eq!(morton_encode(1, 0, 0, 32), 1);
    assert_eq!(morton_encode(0, 1, 0, 32), 2);
    assert_eq!(morton_encode(0, 0, 1, 32), 4);
    assert_eq!(morton_encode(1, 1, 1, 32), 7);
    assert_eq!(morton_encode(2, 0, 0, 32), 8);
    // x = 011, y = 101, z = 110; each group of three bits reads (z y x)
    assert_eq!(morton_encode(3, 5, 6, 32), 0b110_101_011);
}

#[test]
fn morton_encode_largest_cell_is_last_slot() {
    assert_eq!(morton_encode(31, 31, 31, 32), 32767);
    assert_eq!(morton_encode(1023, 1023, 1023, 1024), (1u32 << 30) - 1);
}

#[test]
fn morton_encode_side_one() {
    assert_eq!(morton_encode(0, 0, 0, 1), 0);
}

#[test]
fn morton_round_trip_over_small_cube() {
    for x in 0..8u32 {
        for y in 0..8u32 {
            for z in 0..8u32 {
                let i = morton_encode(x, y, z, 8);
                assert!(i < 512);
                assert_eq!(morton_decode(i, 8), (x, y, z));
            }
        }
    }
}

#[test]
fn morton_round_trip_in_chunk() {
    for &(x, y, z) in &[(0u32, 0u32, 0u32), (1, 1, 1), (31, 0, 17), (5, 30, 12), (31, 31, 31)] {
        assert_eq!(morton_decode(morton_encode(x, y, z, 32), 32), (x, y, z));
    }
}

#[test]
fn morton_encode_is_injective_in_chunk() {
    let mut seen = vec![false; 32768];
    for x in 0..32u32 {
        for y in 0..32u32 {
            for z in 0..32u32 {
                let i = morton_encode(x, y, z, 32) as usize;
                assert!(!seen[i]);
                seen[i] = true;
            }
        }
    }
    assert!(seen.iter().all(|b| *b));
}

#[test]
fn chunk_id_is_linear() {
    assert_eq!(chunk_id(0, 0, 0), 0);
    assert_eq!(chunk_id(1, 0, 0), 1);
    assert_eq!(chunk_id(0, 1, 0), 32);
    assert_eq!(chunk_id(0, 0, 1), 1024);
    assert_eq!(chunk_id(1, 2, 3), 3137);
    assert_eq!(chunk_id(31, 31, 31), 32767);
}

#[test]
fn chunk_id_is_injective_in_grid() {
    let mut seen = vec![false; 32768];
    for x in 0..32u32 {
        for y in 0..32u32 {
            for z in 0..32u32 {
                let id = chunk_id(x, y, z) as usize;
                assert!(!seen[id]);
                seen[id] = true;
            }
        }
    }
}

#[test]
fn chunk_id_wraps_outside_grid() {
    assert_eq!(chunk_id(u32::MAX, 0, 0), u32::MAX);
    assert_eq!(chunk_id(0, 0, 1 << 22), 0);
}
