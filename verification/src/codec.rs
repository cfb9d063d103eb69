//! Binary envelope codec: the compact, schema-less wire form used for every
//! value that crosses the guest/host boundary.
//!
//! Each value is written as a one-byte tag followed by its payload, in the
//! shortest form that holds it, so a logical value always serializes to the
//! same bytes. The spec functions `enc_*` define those bytes; the matching
//! `dec_*` functions define the unique parse of a byte sequence, rejecting
//! non-minimal forms, so that encoding and decoding are exact inverses.

use vstd::prelude::*;
use vstd::utf8::{decode_utf8, encode_utf8, valid_utf8};

verus! {

/// Big-endian bytes of a value below 2^16.
pub open spec fn be2(n: nat) -> Seq<u8> {
    seq![(n / 0x100) as u8, (n % 0x100) as u8]
}

/// Big-endian bytes of a value below 2^32.
pub open spec fn be4(n: nat) -> Seq<u8> {
    seq![
        ((n / 0x100_0000) % 0x100) as u8,
        ((n / 0x1_0000) % 0x100) as u8,
        ((n / 0x100) % 0x100) as u8,
        (n % 0x100) as u8,
    ]
}

/// Big-endian bytes of a value below 2^64.
pub open spec fn be8(n: nat) -> Seq<u8> {
    seq![
        ((n / 0x100_0000_0000_0000) % 0x100) as u8,
        ((n / 0x1_0000_0000_0000) % 0x100) as u8,
        ((n / 0x100_0000_0000) % 0x100) as u8,
        ((n / 0x1_0000_0000) % 0x100) as u8,
        ((n / 0x100_0000) % 0x100) as u8,
        ((n / 0x1_0000) % 0x100) as u8,
        ((n / 0x100) % 0x100) as u8,
        (n % 0x100) as u8,
    ]
}

/// Encoding of an unsigned integer: the value itself when it fits in a
/// positive fixint, otherwise the shortest tagged big-endian form.
pub open spec fn enc_uint(n: u64) -> Seq<u8> {
    if n < 0x80 {
        seq![n as u8]
    } else if n < 0x100 {
        seq![0xccu8, n as u8]
    } else if n < 0x1_0000 {
        seq![0xcdu8] + be2(n as nat)
    } else if n < 0x1_0000_0000 {
        seq![0xceu8] + be4(n as nat)
    } else {
        seq![0xcfu8] + be8(n as nat)
    }
}

/// The unique parse of an unsigned integer at the head of `s`: the value
/// and the number of bytes consumed. Fails on truncated input, a foreign
/// tag, or a non-minimal form.
pub open spec fn dec_uint(s: Seq<u8>) -> Option<(u64, int)> {
    if s.len() < 1 {
        None
    } else if s[0] < 0x80 {
        Some((s[0] as u64, 1))
    } else if s[0] == 0xcc {
        if s.len() >= 2 && s[1] >= 0x80 {
            Some((s[1] as u64, 2))
        } else {
            None
        }
    } else if s[0] == 0xcd {
        if s.len() >= 3 && (s[1] as nat) * 0x100 + s[2] as nat >= 0x100 {
            Some((((s[1] as nat) * 0x100 + s[2] as nat) as u64, 3))
        } else {
            None
        }
    } else if s[0] == 0xce {
        if s.len() >= 5 && be_val4(s.subrange(1, 5)) >= 0x1_0000 {
            Some((be_val4(s.subrange(1, 5)) as u64, 5))
        } else {
            None
        }
    } else if s[0] == 0xcf {
        if s.len() >= 9 && be_val8(s.subrange(1, 9)) >= 0x1_0000_0000 {
            Some((be_val8(s.subrange(1, 9)) as u64, 9))
        } else {
            None
        }
    } else {
        None
    }
}

/// The value of 4 big-endian bytes.
pub open spec fn be_val4(s: Seq<u8>) -> nat {
    (s[0] as nat) * 0x100_0000 + (s[1] as nat) * 0x1_0000 + (s[2] as nat) * 0x100 + s[3] as nat
}

/// The value of 8 big-endian bytes.
pub open spec fn be_val8(s: Seq<u8>) -> nat {
    (s[0] as nat) * 0x100_0000_0000_0000 + (s[1] as nat) * 0x1_0000_0000_0000 + (s[2] as nat)
        * 0x100_0000_0000 + (s[3] as nat) * 0x1_0000_0000 + (s[4] as nat) * 0x100_0000 + (
    s[5] as nat) * 0x1_0000 + (s[6] as nat) * 0x100 + s[7] as nat
}

/// Appends the encoding of `n` to `out`.
pub fn write_uint(out: &mut Vec<u8>, n: u64)
    ensures
        final(out)@ == old(out)@ + enc_uint(n),
{
    if n < 0x80 {
        out.push(n as u8);
    } else if n < 0x100 {
        out.push(0xcc);
        out.push(n as u8);
    } else if n < 0x1_0000 {
        out.push(0xcd);
        out.push((n / 0x100) as u8);
        out.push((n % 0x100) as u8);
    } else if n < 0x1_0000_0000 {
        out.push(0xce);
        out.push(((n / 0x100_0000) % 0x100) as u8);
        out.push(((n / 0x1_0000) % 0x100) as u8);
        out.push(((n / 0x100) % 0x100) as u8);
        out.push((n % 0x100) as u8);
    } else {
        out.push(0xcf);
        out.push(((n / 0x100_0000_0000_0000) % 0x100) as u8);
        out.push(((n / 0x1_0000_0000_0000) % 0x100) as u8);
        out.push(((n / 0x100_0000_0000) % 0x100) as u8);
        out.push(((n / 0x1_0000_0000) % 0x100) as u8);
        out.push(((n / 0x100_0000) % 0x100) as u8);
        out.push(((n / 0x1_0000) % 0x100) as u8);
        out.push(((n / 0x100) % 0x100) as u8);
        out.push((n % 0x100) as u8);
    }
    proof {
        assert(out@ =~= old(out)@ + enc_uint(n));
    }
}

/// Parses an unsigned integer at position `pos`, exactly as [`dec_uint`]
/// reads the remainder of the input.
pub fn read_uint(bytes: &[u8], pos: usize) -> (r: Result<(u64, usize), ()>)
    requires
        pos <= bytes@.len(),
    ensures
        match r {
            Ok((v, end)) => {
                &&& pos < end <= bytes@.len()
                &&& dec_uint(bytes@.skip(pos as int)) == Some((v, end - pos))
            },
            Err(()) => dec_uint(bytes@.skip(pos as int)) is None,
        },
{
    let n = bytes.len();
    if pos >= n {
        return Err(());
    }
    let tag = bytes[pos];
    if tag < 0x80 {
        Ok((tag as u64, pos + 1))
    } else if tag == 0xcc {
        if n - pos >= 2 && bytes[pos + 1] >= 0x80 {
            Ok((bytes[pos + 1] as u64, pos + 2))
        } else {
            Err(())
        }
    } else if tag == 0xcd {
        if n - pos < 3 {
            return Err(());
        }
        let v = (bytes[pos + 1] as u64) * 0x100 + (bytes[pos + 2] as u64);
        if v >= 0x100 {
            Ok((v, pos + 3))
        } else {
            Err(())
        }
    } else if tag == 0xce {
        if n - pos < 5 {
            return Err(());
        }
        let v = (bytes[pos + 1] as u64) * 0x100_0000 + (bytes[pos + 2] as u64) * 0x1_0000 + (
        bytes[pos + 3] as u64) * 0x100 + (bytes[pos + 4] as u64);
        proof {
            assert(bytes@.skip(pos as int).subrange(1, 5) =~= bytes@.subrange(
                pos + 1,
                pos + 5,
            ));
        }
        if v >= 0x1_0000 {
            Ok((v, pos + 5))
        } else {
            Err(())
        }
    } else if tag == 0xcf {
        if n - pos < 9 {
            return Err(());
        }
        let v = (bytes[pos + 1] as u64) * 0x100_0000_0000_0000 + (bytes[pos + 2] as u64)
            * 0x1_0000_0000_0000 + (bytes[pos + 3] as u64) * 0x100_0000_0000 + (bytes[pos
            + 4] as u64) * 0x1_0000_0000 + (bytes[pos + 5] as u64) * 0x100_0000 + (bytes[pos
            + 6] as u64) * 0x1_0000 + (bytes[pos + 7] as u64) * 0x100 + (bytes[pos + 8] as u64);
        proof {
            assert(bytes@.skip(pos as int).subrange(1, 9) =~= bytes@.subrange(
                pos + 1,
                pos + 9,
            ));
        }
        if v >= 0x1_0000_0000 {
            Ok((v, pos + 9))
        } else {
            Err(())
        }
    } else {
        Err(())
    }
}

/// Parsing an encoded integer consumes exactly that encoding and yields the
/// value back, whatever follows it.
pub proof fn lemma_dec_uint_enc(n: u64, rest: Seq<u8>)
    ensures
        dec_uint(enc_uint(n) + rest) == Some((n, enc_uint(n).len() as int)),
{
    let s = enc_uint(n) + rest;
    if n < 0x80 {
    } else if n < 0x100 {
    } else if n < 0x1_0000 {
        assert(s[1] as nat == n as nat / 0x100 && s[2] as nat == n as nat % 0x100);
    } else if n < 0x1_0000_0000 {
        assert(s.subrange(1, 5) =~= be4(n as nat));
        assert(be_val4(be4(n as nat)) == n as nat) by {
            lemma_be4_val(n as nat);
        }
    } else {
        assert(s.subrange(1, 9) =~= be8(n as nat));
        assert(be_val8(be8(n as nat)) == n as nat) by {
            lemma_be8_val(n as nat);
        }
    }
}

/// Reassembling the big-endian bytes of a value below 2^32 gives it back.
proof fn lemma_be4_val(n: nat)
    requires
        n < 0x1_0000_0000,
    ensures
        be_val4(be4(n)) == n,
{
    let m = n as u32;
    assert(((m / 0x100_0000) % 0x100) * 0x100_0000 + ((m / 0x1_0000) % 0x100) * 0x1_0000 + ((m
        / 0x100) % 0x100) * 0x100 + m % 0x100 == m) by (bit_vector);
}

/// Reassembling the big-endian bytes of a value below 2^64 gives it back.
proof fn lemma_be8_val(n: nat)
    requires
        n < 0x1_0000_0000_0000_0000,
    ensures
        be_val8(be8(n)) == n,
{
    let m = n as u64;
    assert(((m / 0x100_0000_0000_0000) % 0x100) * 0x100_0000_0000_0000 + ((m / 0x1_0000_0000_0000)
        % 0x100) * 0x1_0000_0000_0000 + ((m / 0x100_0000_0000) % 0x100) * 0x100_0000_0000 + ((m
        / 0x1_0000_0000) % 0x100) * 0x1_0000_0000 + ((m / 0x100_0000) % 0x100) * 0x100_0000 + ((m
        / 0x1_0000) % 0x100) * 0x1_0000 + ((m / 0x100) % 0x100) * 0x100 + m % 0x100 == m)
        by (bit_vector);
}

/// A parsed integer re-encodes to exactly the bytes it was parsed from:
/// the wire form is canonical.
pub proof fn lemma_dec_uint_canonical(s: Seq<u8>)
    requires
        dec_uint(s) is Some,
    ensures
        ({
            let (v, k) = dec_uint(s)->Some_0;
            &&& 0 < k <= s.len()
            &&& s.take(k) =~= enc_uint(v)
        }),
{
    let (v, k) = dec_uint(s)->Some_0;
    if s[0] < 0x80 {
    } else if s[0] == 0xcc {
    } else if s[0] == 0xcd {
        let m = (s[1] as nat) * 0x100 + s[2] as nat;
        assert(m / 0x100 == s[1] as nat && m % 0x100 == s[2] as nat);
    } else if s[0] == 0xce {
        let b = s.subrange(1, 5);
        let m = be_val4(b);
        lemma_be4_decompose(b);
        assert(s.take(5) =~= seq![0xceu8] + be4(m));
    } else {
        let b = s.subrange(1, 9);
        let m = be_val8(b);
        lemma_be8_decompose(b);
        assert(s.take(9) =~= seq![0xcfu8] + be8(m));
    }
}

/// The big-endian form of a 4-byte value is those bytes.
proof fn lemma_be4_decompose(b: Seq<u8>)
    requires
        b.len() == 4,
    ensures
        be_val4(b) < 0x1_0000_0000,
        be4(be_val4(b)) =~= b,
{
    let b0 = b[0];
    let b1 = b[1];
    let b2 = b[2];
    let b3 = b[3];
    let m = be_val4(b);
    assert(m < 0x1_0000_0000);
    let w = m as u32;
    assert((w / 0x100_0000) % 0x100 == b0 && (w / 0x1_0000) % 0x100 == b1 && (w / 0x100) % 0x100
        == b2 && w % 0x100 == b3) by (bit_vector)
        requires
            w == (b0 as u32) * 0x100_0000 + (b1 as u32) * 0x1_0000 + (b2 as u32) * 0x100 + (
            b3 as u32),
    ;
    assert(be4(m) =~= b);
}

/// The big-endian form of an 8-byte value is those bytes.
proof fn lemma_be8_decompose(b: Seq<u8>)
    requires
        b.len() == 8,
    ensures
        be_val8(b) < 0x1_0000_0000_0000_0000,
        be8(be_val8(b)) =~= b,
{
    let b0 = b[0];
    let b1 = b[1];
    let b2 = b[2];
    let b3 = b[3];
    let b4 = b[4];
    let b5 = b[5];
    let b6 = b[6];
    let b7 = b[7];
    let m = be_val8(b);
    assert(m < 0x1_0000_0000_0000_0000);
    let w = m as u64;
    assert((w / 0x100_0000_0000_0000) % 0x100 == b0 && (w / 0x1_0000_0000_0000) % 0x100 == b1 && (w
        / 0x100_0000_0000) % 0x100 == b2 && (w / 0x1_0000_0000) % 0x100 == b3 && (w / 0x100_0000)
        % 0x100 == b4 && (w / 0x1_0000) % 0x100 == b5 && (w / 0x100) % 0x100 == b6 && w % 0x100
        == b7) by (bit_vector)
        requires
            w == (b0 as u64) * 0x100_0000_0000_0000 + (b1 as u64) * 0x1_0000_0000_0000 + (
            b2 as u64) * 0x100_0000_0000 + (b3 as u64) * 0x1_0000_0000 + (b4 as u64) * 0x100_0000
                + (b5 as u64) * 0x1_0000 + (b6 as u64) * 0x100 + (b7 as u64),
    ;
}

/// The value of 2 big-endian bytes.
pub open spec fn be_val2(s: Seq<u8>) -> nat {
    (s[0] as nat) * 0x100 + s[1] as nat
}

/// Header of a text value of the given byte length: the length is folded
/// into the tag when it fits, else written big-endian after it.
pub open spec fn enc_str_header(len: nat) -> Seq<u8> {
    if len < 32 {
        seq![(0xa0 + len) as u8]
    } else if len < 0x100 {
        seq![0xd9u8, len as u8]
    } else if len < 0x1_0000 {
        seq![0xdau8] + be2(len)
    } else {
        seq![0xdbu8] + be4(len)
    }
}

/// A text value is representable when its UTF-8 form fits a 4-byte length.
pub open spec fn str_encodable(s: Seq<char>) -> bool {
    encode_utf8(s).len() < 0x1_0000_0000
}

/// Encoding of a text value: shortest header, then the UTF-8 bytes.
pub open spec fn enc_str(s: Seq<char>) -> Seq<u8> {
    enc_str_header(encode_utf8(s).len()) + encode_utf8(s)
}

/// Header of a raw byte run of the given length.
pub open spec fn enc_bin_header(len: nat) -> Seq<u8> {
    if len < 0x100 {
        seq![0xc4u8, len as u8]
    } else if len < 0x1_0000 {
        seq![0xc5u8] + be2(len)
    } else {
        seq![0xc6u8] + be4(len)
    }
}

/// A byte run is representable when its length fits 4 bytes.
pub open spec fn bin_encodable(b: Seq<u8>) -> bool {
    b.len() < 0x1_0000_0000
}

/// Encoding of a raw byte run: shortest header, then the bytes themselves.
pub open spec fn enc_bin(b: Seq<u8>) -> Seq<u8> {
    enc_bin_header(b.len()) + b
}

/// Header announcing an array of `n` values.
pub open spec fn enc_array_header(n: nat) -> Seq<u8> {
    if n < 16 {
        seq![(0x90 + n) as u8]
    } else if n < 0x1_0000 {
        seq![0xdcu8] + be2(n)
    } else {
        seq![0xddu8] + be4(n)
    }
}

/// Header announcing a map of `n` key/value pairs.
pub open spec fn enc_map_header(n: nat) -> Seq<u8> {
    if n < 16 {
        seq![(0x80 + n) as u8]
    } else if n < 0x1_0000 {
        seq![0xdeu8] + be2(n)
    } else {
        seq![0xdfu8] + be4(n)
    }
}

/// The unique parse of a text header: the announced byte length and the
/// header size. Rejects non-minimal length forms.
pub open spec fn dec_str_header(s: Seq<u8>) -> Option<(nat, int)> {
    if s.len() < 1 {
        None
    } else if 0xa0 <= s[0] < 0xc0 {
        Some(((s[0] - 0xa0) as nat, 1))
    } else if s[0] == 0xd9 {
        if s.len() >= 2 && s[1] >= 32 {
            Some((s[1] as nat, 2))
        } else {
            None
        }
    } else if s[0] == 0xda {
        if s.len() >= 3 && be_val2(s.subrange(1, 3)) >= 0x100 {
            Some((be_val2(s.subrange(1, 3)), 3))
        } else {
            None
        }
    } else if s[0] == 0xdb {
        if s.len() >= 5 && be_val4(s.subrange(1, 5)) >= 0x1_0000 {
            Some((be_val4(s.subrange(1, 5)), 5))
        } else {
            None
        }
    } else {
        None
    }
}

/// The unique parse of a text value: its characters and the bytes consumed.
/// Fails if the input is truncated or the payload is not valid UTF-8.
pub open spec fn dec_str(s: Seq<u8>) -> Option<(Seq<char>, int)> {
    match dec_str_header(s) {
        Option::None => None,
        Option::Some((len, h)) => if s.len() >= h + len && valid_utf8(
            s.subrange(h, h + len),
        ) {
            Some((decode_utf8(s.subrange(h, h + len)), h + len))
        } else {
            None
        },
    }
}

/// The unique parse of a raw byte-run header.
pub open spec fn dec_bin_header(s: Seq<u8>) -> Option<(nat, int)> {
    if s.len() < 1 {
        None
    } else if s[0] == 0xc4 {
        if s.len() >= 2 {
            Some((s[1] as nat, 2))
        } else {
            None
        }
    } else if s[0] == 0xc5 {
        if s.len() >= 3 && be_val2(s.subrange(1, 3)) >= 0x100 {
            Some((be_val2(s.subrange(1, 3)), 3))
        } else {
            None
        }
    } else if s[0] == 0xc6 {
        if s.len() >= 5 && be_val4(s.subrange(1, 5)) >= 0x1_0000 {
            Some((be_val4(s.subrange(1, 5)), 5))
        } else {
            None
        }
    } else {
        None
    }
}

/// The unique parse of a raw byte run: the bytes and the length consumed.
pub open spec fn dec_bin(s: Seq<u8>) -> Option<(Seq<u8>, int)> {
    match dec_bin_header(s) {
        Option::None => None,
        Option::Some((len, h)) => if s.len() >= h + len {
            Some((s.subrange(h, h + len), h + len))
        } else {
            None
        },
    }
}

/// The unique parse of an array header: element count and bytes consumed.
pub open spec fn dec_array_header(s: Seq<u8>) -> Option<(nat, int)> {
    if s.len() < 1 {
        None
    } else if 0x90 <= s[0] < 0xa0 {
        Some(((s[0] - 0x90) as nat, 1))
    } else if s[0] == 0xdc {
        if s.len() >= 3 && be_val2(s.subrange(1, 3)) >= 16 {
            Some((be_val2(s.subrange(1, 3)), 3))
        } else {
            None
        }
    } else if s[0] == 0xdd {
        if s.len() >= 5 && be_val4(s.subrange(1, 5)) >= 0x1_0000 {
            Some((be_val4(s.subrange(1, 5)), 5))
        } else {
            None
        }
    } else {
        None
    }
}

/// The unique parse of a map header: pair count and bytes consumed.
pub open spec fn dec_map_header(s: Seq<u8>) -> Option<(nat, int)> {
    if s.len() < 1 {
        None
    } else if 0x80 <= s[0] < 0x90 {
        Some(((s[0] - 0x80) as nat, 1))
    } else if s[0] == 0xde {
        if s.len() >= 3 && be_val2(s.subrange(1, 3)) >= 16 {
            Some((be_val2(s.subrange(1, 3)), 3))
        } else {
            None
        }
    } else if s[0] == 0xdf {
        if s.len() >= 5 && be_val4(s.subrange(1, 5)) >= 0x1_0000 {
            Some((be_val4(s.subrange(1, 5)), 5))
        } else {
            None
        }
    } else {
        None
    }
}

/// Relies on `String::from_utf8`: it succeeds exactly on input that is
/// valid UTF-8 and returns the string those bytes spell.
#[verifier::external_body]
pub(crate) fn utf8_to_string(bytes: Vec<u8>) -> (r: Option<String>)
    ensures
        r is Some <==> valid_utf8(bytes@),
        r is Some ==> r->Some_0@ == decode_utf8(bytes@),
{
    String::from_utf8(bytes).ok()
}

/// Appends the encoding of the text `s` to `out`.
pub fn write_str(out: &mut Vec<u8>, s: &str)
    requires
        str_encodable(s@),
    ensures
        final(out)@ == old(out)@ + enc_str(s@),
{
    let len = s.as_bytes().len();
    if len < 32 {
        out.push(0xa0 + len as u8);
    } else if len < 0x100 {
        out.push(0xd9);
        out.push(len as u8);
    } else if len < 0x1_0000 {
        out.push(0xda);
        out.push((len / 0x100) as u8);
        out.push((len % 0x100) as u8);
    } else {
        out.push(0xdb);
        out.push(((len / 0x100_0000) % 0x100) as u8);
        out.push(((len / 0x1_0000) % 0x100) as u8);
        out.push(((len / 0x100) % 0x100) as u8);
        out.push((len % 0x100) as u8);
    }
    out.extend_from_slice(s.as_bytes());
    proof {
        assert(out@ =~= old(out)@ + enc_str(s@));
    }
}

/// Appends the encoding of the byte run `b` to `out`.
pub fn write_bin(out: &mut Vec<u8>, b: &[u8])
    requires
        bin_encodable(b@),
    ensures
        final(out)@ == old(out)@ + enc_bin(b@),
{
    let len = b.len();
    if len < 0x100 {
        out.push(0xc4);
        out.push(len as u8);
    } else if len < 0x1_0000 {
        out.push(0xc5);
        out.push((len / 0x100) as u8);
        out.push((len % 0x100) as u8);
    } else {
        out.push(0xc6);
        out.push(((len / 0x100_0000) % 0x100) as u8);
        out.push(((len / 0x1_0000) % 0x100) as u8);
        out.push(((len / 0x100) % 0x100) as u8);
        out.push((len % 0x100) as u8);
    }
    out.extend_from_slice(b);
    proof {
        assert(out@ =~= old(out)@ + enc_bin(b@));
    }
}

/// Appends an array header announcing `n` elements to `out`.
pub fn write_array_header(out: &mut Vec<u8>, n: usize)
    requires
        n < 0x1_0000_0000,
    ensures
        final(out)@ == old(out)@ + enc_array_header(n as nat),
{
    if n < 16 {
        out.push(0x90 + n as u8);
    } else if n < 0x1_0000 {
        out.push(0xdc);
        out.push((n / 0x100) as u8);
        out.push((n % 0x100) as u8);
    } else {
        out.push(0xdd);
        out.push(((n / 0x100_0000) % 0x100) as u8);
        out.push(((n / 0x1_0000) % 0x100) as u8);
        out.push(((n / 0x100) % 0x100) as u8);
        out.push((n % 0x100) as u8);
    }
    proof {
        assert(out@ =~= old(out)@ + enc_array_header(n as nat));
    }
}

/// Appends a map header announcing `n` pairs to `out`.
pub fn write_map_header(out: &mut Vec<u8>, n: usize)
    requires
        n < 0x1_0000_0000,
    ensures
        final(out)@ == old(out)@ + enc_map_header(n as nat),
{
    if n < 16 {
        out.push(0x80 + n as u8);
    } else if n < 0x1_0000 {
        out.push(0xde);
        out.push((n / 0x100) as u8);
        out.push((n % 0x100) as u8);
    } else {
        out.push(0xdf);
        out.push(((n / 0x100_0000) % 0x100) as u8);
        out.push(((n / 0x1_0000) % 0x100) as u8);
        out.push(((n / 0x100) % 0x100) as u8);
        out.push((n % 0x100) as u8);
    }
    proof {
        assert(out@ =~= old(out)@ + enc_map_header(n as nat));
    }
}

/// Parses a text value at position `pos`, exactly as [`dec_str`] reads the
/// remainder of the input.
pub fn read_str(bytes: &[u8], pos: usize) -> (r: Result<(String, usize), ()>)
    requires
        pos <= bytes@.len(),
    ensures
        match r {
            Ok((v, end)) => {
                &&& pos < end <= bytes@.len()
                &&& dec_str(bytes@.skip(pos as int)) == Some((v@, end - pos))
            },
            Err(()) => dec_str(bytes@.skip(pos as int)) is None,
        },
{
    let ghost tail = bytes@.skip(pos as int);
    let n = bytes.len();
    if pos >= n {
        return Err(());
    }
    let tag = bytes[pos];
    let (len, hsize): (usize, usize) = if 0xa0 <= tag && tag < 0xc0 {
        ((tag - 0xa0) as usize, 1)
    } else if tag == 0xd9 {
        if n - pos >= 2 && bytes[pos + 1] >= 32 {
            (bytes[pos + 1] as usize, 2)
        } else {
            return Err(());
        }
    } else if tag == 0xda {
        if n - pos < 3 {
            return Err(());
        }
        let v = (bytes[pos + 1] as usize) * 0x100 + (bytes[pos + 2] as usize);
        proof {
            assert(tail.subrange(1, 3) =~= bytes@.subrange(pos + 1, pos + 3));
        }
        if v >= 0x100 {
            (v, 3)
        } else {
            return Err(());
        }
    } else if tag == 0xdb {
        if n - pos < 5 {
            return Err(());
        }
        let v = (bytes[pos + 1] as usize) * 0x100_0000 + (bytes[pos + 2] as usize) * 0x1_0000 + (
        bytes[pos + 3] as usize) * 0x100 + (bytes[pos + 4] as usize);
        proof {
            assert(tail.subrange(1, 5) =~= bytes@.subrange(pos + 1, pos + 5));
        }
        if v >= 0x1_0000 {
            (v, 5)
        } else {
            return Err(());
        }
    } else {
        return Err(());
    };
    proof {
        assert(dec_str_header(tail) == Some((len as nat, hsize as int)));
    }
    if n - pos - hsize < len {
        return Err(());
    }
    let payload = vstd::slice::slice_subrange(bytes, pos + hsize, pos + hsize + len);
    proof {
        assert(payload@ =~= tail.subrange(hsize as int, hsize + len));
    }
    let owned = vstd::slice::slice_to_vec(payload);
    match utf8_to_string(owned) {
        Some(text) => Ok((text, pos + hsize + len)),
        None => Err(()),
    }
}

/// Parses a raw byte run at position `pos`, exactly as [`dec_bin`] reads
/// the remainder of the input.
pub fn read_bin(bytes: &[u8], pos: usize) -> (r: Result<(Vec<u8>, usize), ()>)
    requires
        pos <= bytes@.len(),
    ensures
        match r {
            Ok((v, end)) => {
                &&& pos < end <= bytes@.len()
                &&& dec_bin(bytes@.skip(pos as int)) == Some((v@, end - pos))
            },
            Err(()) => dec_bin(bytes@.skip(pos as int)) is None,
        },
{
    let ghost tail = bytes@.skip(pos as int);
    let n = bytes.len();
    if pos >= n {
        return Err(());
    }
    let tag = bytes[pos];
    let (len, hsize): (usize, usize) = if tag == 0xc4 {
        if n - pos >= 2 {
            (bytes[pos + 1] as usize, 2)
        } else {
            return Err(());
        }
    } else if tag == 0xc5 {
        if n - pos < 3 {
            return Err(());
        }
        let v = (bytes[pos + 1] as usize) * 0x100 + (bytes[pos + 2] as usize);
        proof {
            assert(tail.subrange(1, 3) =~= bytes@.subrange(pos + 1, pos + 3));
        }
        if v >= 0x100 {
            (v, 3)
        } else {
            return Err(());
        }
    } else if tag == 0xc6 {
        if n - pos < 5 {
            return Err(());
        }
        let v = (bytes[pos + 1] as usize) * 0x100_0000 + (bytes[pos + 2] as usize) * 0x1_0000 + (
        bytes[pos + 3] as usize) * 0x100 + (bytes[pos + 4] as usize);
        proof {
            assert(tail.subrange(1, 5) =~= bytes@.subrange(pos + 1, pos + 5));
        }
        if v >= 0x1_0000 {
            (v, 5)
        } else {
            return Err(());
        }
    } else {
        return Err(());
    };
    proof {
        assert(dec_bin_header(tail) == Some((len as nat, hsize as int)));
    }
    if n - pos - hsize < len {
        return Err(());
    }
    let payload = vstd::slice::slice_subrange(bytes, pos + hsize, pos + hsize + len);
    proof {
        assert(payload@ =~= tail.subrange(hsize as int, hsize + len));
    }
    Ok((vstd::slice::slice_to_vec(payload), pos + hsize + len))
}

/// Parses an array header at position `pos`, exactly as
/// [`dec_array_header`] reads the remainder of the input.
pub fn read_array_header(bytes: &[u8], pos: usize) -> (r: Result<(usize, usize), ()>)
    requires
        pos <= bytes@.len(),
    ensures
        match r {
            Ok((count, end)) => {
                &&& pos < end <= bytes@.len()
                &&& dec_array_header(bytes@.skip(pos as int)) == Some((
                    count as nat,
                    end - pos,
                ))
            },
            Err(()) => dec_array_header(bytes@.skip(pos as int)) is None,
        },
{
    let ghost tail = bytes@.skip(pos as int);
    let n = bytes.len();
    if pos >= n {
        return Err(());
    }
    let tag = bytes[pos];
    if 0x90 <= tag && tag < 0xa0 {
        Ok(((tag - 0x90) as usize, pos + 1))
    } else if tag == 0xdc {
        if n - pos < 3 {
            return Err(());
        }
        let v = (bytes[pos + 1] as usize) * 0x100 + (bytes[pos + 2] as usize);
        proof {
            assert(tail.subrange(1, 3) =~= bytes@.subrange(pos + 1, pos + 3));
        }
        if v >= 16 {
            Ok((v, pos + 3))
        } else {
            Err(())
        }
    } else if tag == 0xdd {
        if n - pos < 5 {
            return Err(());
        }
        let v = (bytes[pos + 1] as usize) * 0x100_0000 + (bytes[pos + 2] as usize) * 0x1_0000 + (
        bytes[pos + 3] as usize) * 0x100 + (bytes[pos + 4] as usize);
        proof {
            assert(tail.subrange(1, 5) =~= bytes@.subrange(pos + 1, pos + 5));
        }
        if v >= 0x1_0000 {
            Ok((v, pos + 5))
        } else {
            Err(())
        }
    } else {
        Err(())
    }
}

/// Parses a map header at position `pos`, exactly as [`dec_map_header`]
/// reads the remainder of the input.
pub fn read_map_header(bytes: &[u8], pos: usize) -> (r: Result<(usize, usize), ()>)
    requires
        pos <= bytes@.len(),
    ensures
        match r {
            Ok((count, end)) => {
                &&& pos < end <= bytes@.len()
                &&& dec_map_header(bytes@.skip(pos as int)) == Some((count as nat, end - pos))
            },
            Err(()) => dec_map_header(bytes@.skip(pos as int)) is None,
        },
{
    let ghost tail = bytes@.skip(pos as int);
    let n = bytes.len();
    if pos >= n {
        return Err(());
    }
    let tag = bytes[pos];
    if 0x80 <= tag && tag < 0x90 {
        Ok(((tag - 0x80) as usize, pos + 1))
    } else if tag == 0xde {
        if n - pos < 3 {
            return Err(());
        }
        let v = (bytes[pos + 1] as usize) * 0x100 + (bytes[pos + 2] as usize);
        proof {
            assert(tail.subrange(1, 3) =~= bytes@.subrange(pos + 1, pos + 3));
        }
        if v >= 16 {
            Ok((v, pos + 3))
        } else {
            Err(())
        }
    } else if tag == 0xdf {
        if n - pos < 5 {
            return Err(());
        }
        let v = (bytes[pos + 1] as usize) * 0x100_0000 + (bytes[pos + 2] as usize) * 0x1_0000 + (
        bytes[pos + 3] as usize) * 0x100 + (bytes[pos + 4] as usize);
        proof {
            assert(tail.subrange(1, 5) =~= bytes@.subrange(pos + 1, pos + 5));
        }
        if v >= 0x1_0000 {
            Ok((v, pos + 5))
        } else {
            Err(())
        }
    } else {
        Err(())
    }
}

/// Parsing an encoded text value consumes exactly that encoding and yields
/// the characters back, whatever follows it.
pub proof fn lemma_dec_str_enc(s: Seq<char>, rest: Seq<u8>)
    requires
        str_encodable(s),
    ensures
        dec_str(enc_str(s) + rest) == Some((s, enc_str(s).len() as int)),
{
    broadcast use vstd::utf8::group_utf8_lib;

    let u = encode_utf8(s);
    let h = enc_str_header(u.len());
    let full = enc_str(s) + rest;
    if u.len() < 32 {
    } else if u.len() < 0x100 {
    } else if u.len() < 0x1_0000 {
        assert(full.subrange(1, 3) =~= be2(u.len()));
        assert(be_val2(be2(u.len())) == u.len());
    } else {
        assert(full.subrange(1, 5) =~= be4(u.len()));
        lemma_be4_decompose(be4(u.len()));
        assert(be_val4(be4(u.len())) == u.len());
    }
    assert(dec_str_header(full) == Some((u.len(), h.len() as int)));
    assert(full.subrange(h.len() as int, h.len() as int + u.len() as int) =~= u);
    assert(decode_utf8(u) == s);
}

/// A parsed text value re-encodes to exactly the bytes it was parsed from.
pub proof fn lemma_dec_str_canonical(s: Seq<u8>)
    requires
        dec_str(s) is Some,
    ensures
        ({
            let (v, k) = dec_str(s)->Some_0;
            &&& 0 < k <= s.len()
            &&& s.take(k) =~= enc_str(v)
            &&& str_encodable(v)
        }),
{
    broadcast use vstd::utf8::group_utf8_lib;

    let (v, k) = dec_str(s)->Some_0;
    let (len, h) = dec_str_header(s)->Some_0;
    let payload = s.subrange(h as int, h + len);
    assert(encode_utf8(v) == payload);
    if s[0] == 0xda {
        let b = s.subrange(1, 3);
        assert(be2(be_val2(b)) =~= b);
    } else if s[0] == 0xdb {
        let b = s.subrange(1, 5);
        lemma_be4_decompose(b);
    }
    assert(s.take(k) =~= enc_str_header(len) + payload);
}

/// Parsing an encoded byte run consumes exactly that encoding and yields
/// the bytes back, whatever follows them.
pub proof fn lemma_dec_bin_enc(b: Seq<u8>, rest: Seq<u8>)
    requires
        bin_encodable(b),
    ensures
        dec_bin(enc_bin(b) + rest) == Some((b, enc_bin(b).len() as int)),
{
    let h = enc_bin_header(b.len());
    let full = enc_bin(b) + rest;
    if b.len() < 0x100 {
    } else if b.len() < 0x1_0000 {
        assert(full.subrange(1, 3) =~= be2(b.len()));
    } else {
        assert(full.subrange(1, 5) =~= be4(b.len()));
        lemma_be4_decompose(be4(b.len()));
    }
    assert(dec_bin_header(full) == Some((b.len(), h.len() as int)));
    assert(full.subrange(h.len() as int, h.len() as int + b.len() as int) =~= b);
}

/// A parsed byte run re-encodes to exactly the bytes it was parsed from.
pub proof fn lemma_dec_bin_canonical(s: Seq<u8>)
    requires
        dec_bin(s) is Some,
    ensures
        ({
            let (v, k) = dec_bin(s)->Some_0;
            &&& 0 < k <= s.len()
            &&& s.take(k) =~= enc_bin(v)
            &&& bin_encodable(v)
        }),
{
    let (v, k) = dec_bin(s)->Some_0;
    let (len, h) = dec_bin_header(s)->Some_0;
    if s[0] == 0xc5 {
        let b = s.subrange(1, 3);
        assert(be2(be_val2(b)) =~= b);
    } else if s[0] == 0xc6 {
        let b = s.subrange(1, 5);
        lemma_be4_decompose(b);
    }
    assert(s.take(k) =~= enc_bin_header(len) + v);
}

/// Parsing an encoded array header consumes exactly that header and yields
/// the element count back, whatever follows it.
pub proof fn lemma_dec_array_header_enc(n: nat, rest: Seq<u8>)
    requires
        n < 0x1_0000_0000,
    ensures
        dec_array_header(enc_array_header(n) + rest) == Some((
            n,
            enc_array_header(n).len() as int,
        )),
{
    let full = enc_array_header(n) + rest;
    if n < 16 {
    } else if n < 0x1_0000 {
        assert(full.subrange(1, 3) =~= be2(n));
    } else {
        assert(full.subrange(1, 5) =~= be4(n));
        lemma_be4_decompose(be4(n));
    }
}

/// A parsed array header re-encodes to exactly the bytes it was parsed from.
pub proof fn lemma_dec_array_header_canonical(s: Seq<u8>)
    requires
        dec_array_header(s) is Some,
    ensures
        ({
            let (n, k) = dec_array_header(s)->Some_0;
            &&& 0 < k <= s.len()
            &&& s.take(k) =~= enc_array_header(n)
            &&& n < 0x1_0000_0000
        }),
{
    let (n, k) = dec_array_header(s)->Some_0;
    if s[0] == 0xdc {
        let b = s.subrange(1, 3);
        assert(be2(be_val2(b)) =~= b);
        assert(s.take(k) =~= seq![0xdcu8] + b);
    } else if s[0] == 0xdd {
        let b = s.subrange(1, 5);
        lemma_be4_decompose(b);
        assert(s.take(k) =~= seq![0xddu8] + b);
    } else {
        assert(s.take(k) =~= enc_array_header(n));
    }
}

/// Parsing an encoded map header consumes exactly that header and yields
/// the pair count back, whatever follows it.
pub proof fn lemma_dec_map_header_enc(n: nat, rest: Seq<u8>)
    requires
        n < 0x1_0000_0000,
    ensures
        dec_map_header(enc_map_header(n) + rest) == Some((n, enc_map_header(n).len() as int)),
{
    let full = enc_map_header(n) + rest;
    if n < 16 {
    } else if n < 0x1_0000 {
        assert(full.subrange(1, 3) =~= be2(n));
    } else {
        assert(full.subrange(1, 5) =~= be4(n));
        lemma_be4_decompose(be4(n));
    }
}

/// A parsed map header re-encodes to exactly the bytes it was parsed from.
pub proof fn lemma_dec_map_header_canonical(s: Seq<u8>)
    requires
        dec_map_header(s) is Some,
    ensures
        ({
            let (n, k) = dec_map_header(s)->Some_0;
            &&& 0 < k <= s.len()
            &&& s.take(k) =~= enc_map_header(n)
            &&& n < 0x1_0000_0000
        }),
{
    let (n, k) = dec_map_header(s)->Some_0;
    if s[0] == 0xde {
        let b = s.subrange(1, 3);
        assert(be2(be_val2(b)) =~= b);
        assert(s.take(k) =~= seq![0xdeu8] + b);
    } else if s[0] == 0xdf {
        let b = s.subrange(1, 5);
        lemma_be4_decompose(b);
        assert(s.take(k) =~= seq![0xdfu8] + b);
    } else {
        assert(s.take(k) =~= enc_map_header(n));
    }
}

} // verus!
