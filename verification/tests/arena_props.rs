//! The buffer arena's bookkeeping: region placement, non-overlap and
//! synthetic-pointer resolution.

use wgpu_array::arena::BufferArena;

#[test]
fn arena_regions_never_overlap() {
    let mut arena: BufferArena<u32> = BufferArena::new();
    let p1 = arena.allocate(10, 100, 4);
    let p2 = arena.allocate(11, 37, 8);
    let p3 = arena.allocate(12, 0, 4);
    let p4 = arena.allocate(13, 8, 2);
    // The first region starts at its alignment; each later one starts at the
    // next multiple of its alignment at or past the previous end.
    assert_eq!(p1, 4);
    assert_eq!(p2, 104);
    assert_eq!(p3, 144);
    assert_eq!(p4, 144);
    let sizes = [100, 37, 0, 8];
    let ranges: Vec<(usize, usize)> = arena.regions.iter().map(|r| (r.start, r.end)).collect();
    for (i, a) in ranges.iter().enumerate() {
        // Each region's length is exactly what allocation asked for.
        assert_eq!(a.1 - a.0, sizes[i]);
        for (j, b) in ranges.iter().enumerate() {
            if i != j {
                assert!(a.1 <= b.0 || b.1 <= a.0);
            }
        }
    }
}

#[test]
fn arena_pointer_resolution() {
    let mut arena: BufferArena<u32> = BufferArena::new();
    let p1 = arena.allocate(1, 12, 4);
    let p2 = arena.allocate(2, 20, 4);
    // Every pointer allocate returned resolves, with offset zero at the start.
    assert_eq!(arena.resolve_buffer(p1), Some(&1));
    assert_eq!(arena.resolve_buffer(p2), Some(&2));
    assert_eq!(arena.resolve_offset(p1, 4), Some(0));
    assert_eq!(arena.resolve_offset(p2, 4), Some(0));
    // Interior pointers resolve to their element offset within the owner.
    assert_eq!(arena.resolve_offset(p1 + 8, 4), Some(2));
    assert_eq!(arena.resolve_buffer(p1 + 11), Some(&1));
    assert_eq!(arena.resolve_offset(p2 + 4, 2), Some(2));
    // The second region starts exactly at the first one's (aligned) end.
    assert_eq!(p2, p1 + 12);
    assert_eq!(arena.resolve_buffer(p1 + 12), Some(&2));
    // Addresses outside every region fail to resolve; no pointer is null.
    assert_eq!(arena.resolve_buffer(0), None);
    assert_eq!(arena.resolve_offset(3, 4), None);
    assert_eq!(arena.resolve_buffer(p2 + 20), None);
}
