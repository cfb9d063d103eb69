//! Behavior of the generated entry point: a length-prefixed encoded input
//! in, a descriptor of the encoded result out.

use space_lib::arena::Arena;
use space_lib::codec::{read_uint, write_uint};
use space_lib::export::{double_entry, read_input, write_input};

#[test]
fn entry_point_returns_the_doubled_input() {
    let mut arena = Arena::new();
    let mut encoded = Vec::new();
    write_uint(&mut encoded, 21);
    let addr = write_input(&mut arena, &encoded);

    let slice = double_entry(&mut arena, addr);

    assert!(slice.ptr >= 1);
    let out = arena.read_bytes(slice.ptr, slice.len);
    let (value, end) = read_uint(&out, 0).expect("result decodes");
    assert_eq!(value, 42);
    assert_eq!(end, out.len());
}

#[test]
fn entry_point_handles_large_values() {
    let mut arena = Arena::new();
    let mut encoded = Vec::new();
    write_uint(&mut encoded, 0x8000_0001);
    let addr = write_input(&mut arena, &encoded);
    let slice = double_entry(&mut arena, addr);
    let out = arena.read_bytes(slice.ptr, slice.len);
    let (value, _) = read_uint(&out, 0).expect("result decodes");
    assert_eq!(value, 0x1_0000_0002);
}

#[test]
fn input_reads_back_exactly() {
    let mut arena = Arena::new();
    let payload = vec![5u8, 6, 7, 8, 9];
    let addr = write_input(&mut arena, &payload);
    assert_eq!(read_input(&arena, addr), payload);

    // An empty input is a valid buffer too.
    let addr2 = write_input(&mut arena, &[]);
    assert_eq!(read_input(&arena, addr2), Vec::<u8>::new());
}
