//! Runtime behavior of an exported entry point.
//!
//! At build time every user-authored handler of one typed argument is
//! wrapped into an entry point with the fixed signature the host can call:
//! one integer argument, the address of a length-prefixed input buffer, and
//! one returned buffer descriptor. This module gives that generated
//! behavior a verified form: reading the input ([`read_input`]), and a
//! representative complete entry point ([`double_entry`]) whose returned
//! descriptor provably holds the encoding of the wrapped function's result.
//!
//! Decoding the input cannot fail recoverably — there is no channel to
//! report a decode failure through this return path, so the wrapper aborts
//! on ill-formed input. Here that fatal path is excluded by precondition.

use vstd::prelude::*;

use crate::arena::{le32_at, Arena};
use crate::codec::{dec_uint, enc_uint, read_uint, write_uint};
use crate::SpaceSlice;

verus! {

/// The byte length announced by the 4-byte prefix at `addr`.
pub open spec fn input_len(mem: Seq<u8>, addr: int) -> nat {
    le32_at(mem, addr)
}

/// An input buffer is well formed when its prefix and the bytes the prefix
/// announces lie inside memory.
pub open spec fn input_ok(mem: Seq<u8>, addr: int) -> bool {
    &&& 0 <= addr
    &&& addr + 4 <= mem.len()
    &&& addr + 4 + input_len(mem, addr) <= mem.len()
}

/// The encoded argument: the announced number of bytes, 4 bytes past `addr`.
pub open spec fn input_bytes(mem: Seq<u8>, addr: int) -> Seq<u8> {
    mem.subrange(addr + 4, addr + 4 + input_len(mem, addr))
}

/// Reads the length-prefixed input buffer of an exported call: the length
/// prefix at `addr`, then exactly that many bytes starting 4 bytes later.
pub fn read_input(arena: &Arena, addr: usize) -> (r: Vec<u8>)
    requires
        input_ok(arena@, addr as int),
    ensures
        r@ == input_bytes(arena@, addr as int),
{
    let _n = arena.len();
    let len = arena.read_u32(addr);
    arena.read_bytes(addr + 4, len as usize)
}

/// Writes a length-prefixed input buffer at the end of memory, as the host
/// does before invoking an exported entry point, returning its address.
pub fn write_input(arena: &mut Arena, bytes: &[u8]) -> (r: usize)
    requires
        old(arena).wf(),
        bytes@.len() < 0x1_0000_0000,
    ensures
        final(arena).wf(),
        r == old(arena)@.len(),
        final(arena)@.take(r as int) == old(arena)@,
        input_ok(final(arena)@, r as int),
        input_bytes(final(arena)@, r as int) == bytes@,
{
    let ghost base = arena@;
    let r = arena.append_u32(bytes.len() as u32);
    let ghost mid = arena@;
    let _ = arena.append_bytes(bytes);
    proof {
        assert(arena@.take(r as int) =~= base);
        assert(le32_at(arena@, r as int) == le32_at(mid, r as int));
        assert(input_bytes(arena@, r as int) =~= bytes@);
    }
    r
}

/// The entry point the export transformation generates for a function that
/// doubles its integer argument — a representative of the generated
/// wrapper of any single-argument handler. It decodes the argument from the
/// length-prefixed input buffer, runs the handler, encodes the result, and
/// returns it through the ownership bridge: the returned descriptor points
/// at exactly the encoding of the doubled input, at a non-null address the
/// guest never releases.
pub fn double_entry(arena: &mut Arena, addr: usize) -> (r: SpaceSlice)
    requires
        old(arena).wf(),
        input_ok(old(arena)@, addr as int),
        ({
            let d = dec_uint(input_bytes(old(arena)@, addr as int));
            &&& d is Some
            &&& d->Some_0.1 == input_bytes(old(arena)@, addr as int).len()
            &&& d->Some_0.0 <= u64::MAX / 2
        }),
    ensures
        final(arena).wf(),
        r.ptr == old(arena)@.len() >= 1,
        ({
            let n = dec_uint(input_bytes(old(arena)@, addr as int))->Some_0.0;
            let out = enc_uint((2 * n) as u64);
            &&& r.len == out.len()
            &&& final(arena)@ == old(arena)@ + out
            &&& final(arena)@.subrange(r.ptr as int, r.ptr + r.len) == out
            &&& dec_uint(final(arena)@.subrange(r.ptr as int, r.ptr + r.len)) == Some((
                (2 * n) as u64,
                out.len() as int,
            ))
        }),
{
    let input = read_input(arena, addr);
    proof {
        assert(input@.skip(0) =~= input@);
    }
    let (n, _consumed) = match read_uint(input.as_slice(), 0) {
        Ok(x) => x,
        Err(()) => vstd::pervasive::unreached(),
    };
    let doubled = 2 * n;
    let mut out: Vec<u8> = Vec::new();
    write_uint(&mut out, doubled);
    let slice = arena.expose_buffer(out);
    proof {
        let enc = enc_uint(doubled);
        crate::codec::lemma_dec_uint_enc(doubled, Seq::<u8>::empty());
        assert(enc + Seq::<u8>::empty() =~= enc);
        assert(final(arena)@.subrange(slice.ptr as int, slice.ptr + slice.len) =~= enc);
    }
    slice
}

} // verus!
