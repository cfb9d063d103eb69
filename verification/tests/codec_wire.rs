//! Exact wire bytes of the codec primitives, and their round trips.

use space_lib::codec::{read_bin, read_str, read_uint, write_bin, write_str, write_uint};

fn enc_uint(n: u64) -> Vec<u8> {
    let mut out = Vec::new();
    write_uint(&mut out, n);
    out
}

#[test]
fn uint_shortest_forms() {
    assert_eq!(enc_uint(0), vec![0x00]);
    assert_eq!(enc_uint(1), vec![0x01]);
    assert_eq!(enc_uint(0x7f), vec![0x7f]);
    assert_eq!(enc_uint(0x80), vec![0xcc, 0x80]);
    assert_eq!(enc_uint(0xff), vec![0xcc, 0xff]);
    assert_eq!(enc_uint(0x100), vec![0xcd, 0x01, 0x00]);
    assert_eq!(enc_uint(0xffff), vec![0xcd, 0xff, 0xff]);
    assert_eq!(enc_uint(0x1_0000), vec![0xce, 0x00, 0x01, 0x00, 0x00]);
    assert_eq!(enc_uint(0xffff_ffff), vec![0xce, 0xff, 0xff, 0xff, 0xff]);
    assert_eq!(
        enc_uint(0x1_0000_0000),
        vec![0xcf, 0x00, 0x00, 0x00, 0x01, 0x00, 0x00, 0x00, 0x00]
    );
    assert_eq!(
        enc_uint(u64::MAX),
        vec![0xcf, 0xff, 0xff, 0xff, 0xff, 0xff, 0xff, 0xff, 0xff]
    );
}

#[test]
fn uint_round_trip() {
    for n in [
        0u64,
        1,
        0x7f,
        0x80,
        0xff,
        0x100,
        0x1234,
        0xffff,
        0x1_0000,
        0xdead_beef,
        0xffff_ffff,
        0x1_0000_0000,
        0x1234_5678_9abc_def0,
        u64::MAX,
    ] {
        let bytes = enc_uint(n);
        let (v, end) = read_uint(&bytes, 0).expect("canonical encoding parses");
        assert_eq!(v, n);
        assert_eq!(end, bytes.len());
    }
}

#[test]
fn uint_rejects_non_minimal_forms() {
    // 0x42 fits a fixint, so the tagged forms are refused.
    assert!(read_uint(&[0xcc, 0x42], 0).is_err());
    assert!(read_uint(&[0xcd, 0x00, 0x42], 0).is_err());
    assert!(read_uint(&[0xce, 0x00, 0x00, 0x00, 0x42], 0).is_err());
    assert!(read_uint(&[0xcf, 0, 0, 0, 0, 0, 0, 0, 0x42], 0).is_err());
}

#[test]
fn uint_rejects_truncated_and_foreign_input() {
    assert!(read_uint(&[], 0).is_err());
    assert!(read_uint(&[0xcc], 0).is_err());
    assert!(read_uint(&[0xcd, 0x01], 0).is_err());
    assert!(read_uint(&[0xce, 0x01, 0x02, 0x03], 0).is_err());
    // A map tag is not an integer.
    assert!(read_uint(&[0x81], 0).is_err());
}

#[test]
fn str_exact_bytes_and_round_trip() {
    let mut out = Vec::new();
    write_str(&mut out, "url");
    assert_eq!(out, vec![0xa3, b'u', b'r', b'l']);

    let mut out = Vec::new();
    write_str(&mut out, "");
    assert_eq!(out, vec![0xa0]);

    // 32 characters leave the fixstr range.
    let long = "abcdefghijklmnopqrstuvwxyz012345";
    assert_eq!(long.len(), 32);
    let mut out = Vec::new();
    write_str(&mut out, long);
    assert_eq!(out[0], 0xd9);
    assert_eq!(out[1], 32);
    let (back, end) = read_str(&out, 0).expect("str parses");
    assert_eq!(back, long);
    assert_eq!(end, out.len());

    // Non-ASCII text survives the round trip through its UTF-8 form.
    let mut out = Vec::new();
    write_str(&mut out, "héllo✓");
    let (back, _) = read_str(&out, 0).expect("utf-8 str parses");
    assert_eq!(back, "héllo✓");
}

#[test]
fn str_rejects_invalid_utf8() {
    // fixstr of length 2 holding a lone continuation byte.
    assert!(read_str(&[0xa2, 0xff, 0x20], 0).is_err());
}

#[test]
fn bin_exact_bytes_and_round_trip() {
    let mut out = Vec::new();
    write_bin(&mut out, &[1, 2, 3]);
    assert_eq!(out, vec![0xc4, 3, 1, 2, 3]);
    let (back, end) = read_bin(&out, 0).expect("bin parses");
    assert_eq!(back, vec![1, 2, 3]);
    assert_eq!(end, out.len());

    let payload = vec![7u8; 300];
    let mut out = Vec::new();
    write_bin(&mut out, &payload);
    assert_eq!(out[0], 0xc5);
    assert_eq!(out[1], 0x01);
    assert_eq!(out[2], 0x2c);
    let (back, _) = read_bin(&out, 0).expect("bin16 parses");
    assert_eq!(back, payload);
}

#[test]
fn bin_rejects_truncated_payload() {
    assert!(read_bin(&[0xc4, 3, 1, 2], 0).is_err());
}
