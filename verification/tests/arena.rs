use runtime::memory::arena::{region_bytes, BYTES_PER_MB};
use runtime::{ArenaError, ArenaHandle, ModelArena};

#[test]
fn test_arena_initialization() {
    let arena = ModelArena::new(1).expect("Failed to create arena");
    assert_eq!(arena.capacity(), 1024 * 1024);
    assert_eq!(arena.used_bytes(), 0);
}

#[test]
fn test_allocation_success() {
    let mut arena = ModelArena::new(10).unwrap();

    let ptr = arena.allocate(1024).expect("Should fit");
    assert_eq!(ptr.len, 1024);
    assert_eq!(arena.used_bytes(), 1024);

    let ptr2 = arena.allocate(1024).expect("Should fit");

    // The second sub-range begins exactly 1024 bytes after the first.
    assert_eq!(ptr.offset + 1024, ptr2.offset);
}

#[test]
fn test_out_of_memory() {
    let mut arena = ModelArena::new(1).unwrap();

    let _ = arena.allocate(600 * 1024).unwrap();

    let result = arena.allocate(500 * 1024);

    match result {
        Err(ArenaError::OutOfMemory { requested, available }) => {
            assert_eq!(requested, 500 * 1024);
            assert!(available < 500 * 1024);
        }
        _ => panic!("Should have failed with OOM"),
    }
}

#[test]
fn test_reset_behavior() {
    let mut arena = ModelArena::new(1).unwrap();
    let _ = arena.allocate(1024).unwrap();

    arena.reset();
    assert_eq!(arena.used_bytes(), 0);

    let _ = arena.allocate(1024 * 1024).unwrap();
}

#[test]
fn region_bytes_scales_megabytes() {
    assert_eq!(BYTES_PER_MB, 1_048_576);
    assert_eq!(region_bytes(0), Some(0));
    assert_eq!(region_bytes(1), Some(1_048_576));
    assert_eq!(region_bytes(50), Some(52_428_800));
}

#[test]
fn region_bytes_refuses_sizes_past_the_limit() {
    let limit = (usize::MAX / 2 - 31) / BYTES_PER_MB;
    assert_eq!(region_bytes(limit), Some(limit * BYTES_PER_MB));
    assert_eq!(region_bytes(limit + 1), None);
    assert_eq!(region_bytes(usize::MAX), None);
}

#[test]
fn new_fails_on_a_size_no_region_can_have() {
    assert_eq!(ModelArena::new(usize::MAX).err(), Some(ArenaError::AllocationFailed));
    let limit = (usize::MAX / 2 - 31) / BYTES_PER_MB;
    assert_eq!(ModelArena::new(limit + 1).err(), Some(ArenaError::AllocationFailed));
}

#[test]
fn with_region_fails_without_a_region() {
    assert_eq!(ModelArena::with_region(4096, None).err(), Some(ArenaError::AllocationFailed));
}

#[test]
fn with_region_fails_on_a_capacity_past_the_limit() {
    let too_large = usize::MAX / 2 - 30;
    assert_eq!(
        ModelArena::with_region(too_large, Some(Vec::new())).err(),
        Some(ArenaError::AllocationFailed)
    );
}

#[test]
fn with_region_starts_empty_whatever_the_region_held() {
    let mut arena = ModelArena::with_region(8, Some(vec![7u8; 5])).unwrap();
    assert_eq!(arena.capacity(), 8);
    assert_eq!(arena.used_bytes(), 0);
    assert_eq!(arena.allocate(8), Ok(ArenaHandle { offset: 0, len: 8 }));
    for i in 0..8 {
        assert_eq!(arena.read(ArenaHandle { offset: 0, len: 8 }, i), Some(0));
    }
}

#[test]
fn allocations_within_capacity_all_succeed_and_tile_the_region() {
    let mut arena = ModelArena::with_region(100, Some(Vec::new())).unwrap();
    let sizes = [10usize, 0, 25, 40, 25];
    let mut handles = Vec::new();
    let mut total = 0usize;
    for size in sizes {
        let handle = arena.allocate(size).unwrap();
        assert_eq!(handle, ArenaHandle { offset: total, len: size });
        total += size;
        handles.push(handle);
    }
    assert_eq!(arena.used_bytes(), 100);
    for i in 0..handles.len() {
        for j in (i + 1)..handles.len() {
            let (a, b) = (handles[i], handles[j]);
            assert!(a.offset + a.len <= b.offset || b.offset + b.len <= a.offset);
        }
    }
}

#[test]
fn failed_allocation_reports_what_is_left_and_changes_nothing() {
    let mut arena = ModelArena::with_region(100, Some(Vec::new())).unwrap();
    assert_eq!(arena.allocate(60), Ok(ArenaHandle { offset: 0, len: 60 }));
    assert_eq!(
        arena.allocate(41),
        Err(ArenaError::OutOfMemory { requested: 41, available: 40 })
    );
    assert_eq!(arena.used_bytes(), 60);
    assert_eq!(arena.allocate(40), Ok(ArenaHandle { offset: 60, len: 40 }));
    assert_eq!(
        arena.allocate(1),
        Err(ArenaError::OutOfMemory { requested: 1, available: 0 })
    );
    assert_eq!(arena.allocate(0), Ok(ArenaHandle { offset: 100, len: 0 }));
    assert_eq!(arena.used_bytes(), 100);
}

#[test]
fn huge_request_is_out_of_memory_without_overflow() {
    let mut arena = ModelArena::with_region(16, Some(Vec::new())).unwrap();
    arena.allocate(10).unwrap();
    assert_eq!(
        arena.allocate(usize::MAX),
        Err(ArenaError::OutOfMemory { requested: usize::MAX, available: 6 })
    );
    assert_eq!(arena.used_bytes(), 10);
}

#[test]
fn full_capacity_fits_after_reset() {
    let mut arena = ModelArena::with_region(64, Some(Vec::new())).unwrap();
    arena.allocate(64).unwrap();
    assert!(arena.allocate(1).is_err());
    arena.reset();
    assert_eq!(arena.used_bytes(), 0);
    assert_eq!(arena.capacity(), 64);
    assert_eq!(arena.allocate(64), Ok(ArenaHandle { offset: 0, len: 64 }));
    assert_eq!(arena.used_bytes(), 64);
}

#[test]
fn consecutive_kilobytes_have_no_gap() {
    let mut arena = ModelArena::new(10).unwrap();
    let first = arena.allocate(1024).unwrap();
    let second = arena.allocate(1024).unwrap();
    assert_eq!(first, ArenaHandle { offset: 0, len: 1024 });
    assert_eq!(second.offset, first.offset + 1024);
    assert_eq!(arena.used_bytes(), 2048);
}

#[test]
fn allocation_is_zero_filled_even_over_written_bytes() {
    let mut arena = ModelArena::with_region(4, Some(Vec::new())).unwrap();
    let handle = arena.allocate(4).unwrap();
    assert!(arena.write(handle, 2, 0xAB));
    assert_eq!(arena.read(handle, 2), Some(0xAB));
    assert_eq!(arena.read(handle, 1), Some(0));
    arena.reset();
    assert_eq!(arena.read(handle, 2), None);
    let again = arena.allocate(4).unwrap();
    assert_eq!(again, handle);
    for i in 0..4 {
        assert_eq!(arena.read(again, i), Some(0));
    }
}

#[test]
fn read_and_write_refuse_places_outside_the_handle_or_above_the_watermark() {
    let mut arena = ModelArena::with_region(16, Some(Vec::new())).unwrap();
    let handle = arena.allocate(8).unwrap();
    assert_eq!(arena.read(handle, 8), None);
    assert!(!arena.write(handle, 8, 1));
    let beyond = ArenaHandle { offset: 4, len: 8 };
    assert_eq!(arena.read(beyond, 0), None);
    assert!(!arena.write(beyond, 0, 1));
    let wrapping = ArenaHandle { offset: usize::MAX, len: 2 };
    assert_eq!(arena.read(wrapping, 1), None);
    let inside = ArenaHandle { offset: 4, len: 4 };
    assert!(arena.write(inside, 3, 9));
    assert_eq!(arena.read(handle, 7), Some(9));
    assert_eq!(arena.used_bytes(), 8);
}

#[test]
fn arena_of_no_bytes_is_always_made_and_holds_nothing() {
    let mut arena = ModelArena::new(0).unwrap();
    assert_eq!(arena.capacity(), 0);
    assert_eq!(arena.used_bytes(), 0);
    assert_eq!(
        arena.allocate(1),
        Err(ArenaError::OutOfMemory { requested: 1, available: 0 })
    );
    assert_eq!(arena.allocate(0), Ok(ArenaHandle { offset: 0, len: 0 }));
}
