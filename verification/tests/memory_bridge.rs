//! Ownership transfer through the arena: reclaiming host-written spans and
//! exposing guest buffers.

use space_lib::arena::Arena;
use space_lib::error::HostError;

#[test]
fn materialize_reads_exactly_the_reported_length() {
    let mut arena = Arena::new();
    // The host wrote a 5-byte span with capacity 8...
    let ptr = arena.append_bytes(&[10, 20, 30, 40, 50, 0, 0, 0]);
    // ...and a triple describing it.
    let off = arena.append_triple(ptr as u32, 8, 5);
    let buffer = arena.materialize_buffer(off as u32).expect("sound triple");
    assert_eq!(buffer.len(), 5);
    assert_eq!(buffer.into_vec(), vec![10, 20, 30, 40, 50]);
}

#[test]
fn release_uses_capacity_not_length() {
    let mut arena = Arena::new();
    let ptr = arena.append_bytes(&[1, 2, 3, 4, 5, 6, 7, 8]);
    let off = arena.append_triple(ptr as u32, 8, 5);
    let buffer = arena.materialize_buffer(off as u32).expect("sound triple");
    // The allocator must get the whole span back, not the readable part.
    assert_eq!(buffer.release(), 8);
}

#[test]
fn length_beyond_capacity_fails_closed() {
    let mut arena = Arena::new();
    let ptr = arena.append_bytes(&[1, 2, 3, 4]);
    // A triple claiming 9 readable bytes in a 4-byte capacity is corrupt.
    let off = arena.append_triple(ptr as u32, 4, 9);
    match arena.materialize_buffer(off as u32) {
        Err(e) => assert_eq!(e, HostError::MemoryAccess),
        Ok(_) => panic!("corrupt triple accepted"),
    }
}

#[test]
fn out_of_range_triples_fail_closed() {
    let mut arena = Arena::new();
    let off = arena.append_triple(1000, 50, 10);
    assert!(arena.materialize_buffer(off as u32).is_err());
    // An offset with no 12 bytes behind it.
    assert!(arena.materialize_buffer(1_000_000).is_err());
}

#[test]
fn expose_empty_buffer_keeps_a_valid_address() {
    let mut arena = Arena::new();
    let slice = arena.expose_buffer(Vec::new());
    assert_eq!(slice.len, 0);
    assert!(slice.ptr >= 1);
}

#[test]
fn expose_places_the_bytes_at_the_descriptor() {
    let mut arena = Arena::new();
    let slice = arena.expose_buffer(vec![9, 8, 7]);
    assert_eq!(slice.len, 3);
    let back = arena.read_bytes(slice.ptr, slice.len);
    assert_eq!(back, vec![9, 8, 7]);
}

#[test]
fn reads_see_what_appends_wrote() {
    let mut arena = Arena::new();
    assert_eq!(arena.len(), 1);
    assert_eq!(arena.read_u8(0), 0);
    let ptr = arena.append_bytes(&[0xab, 0xcd]);
    assert_eq!(arena.read_u8(ptr), 0xab);
    assert_eq!(arena.read_u8(ptr + 1), 0xcd);
    let off = arena.append_u32(0x1234_5678);
    assert_eq!(arena.read_u32(off), 0x1234_5678);
}
