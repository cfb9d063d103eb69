//! Memory ownership bridge: an explicit model of the guest's flat,
//! byte-addressable memory and of the two operations that transfer buffer
//! ownership across the guest/host boundary.
//!
//! A memory region has exactly one owner at a time. [`Arena::materialize_buffer`]
//! is the single point where a host-written span becomes guest-owned, and
//! [`Arena::expose_buffer`] the single point where a guest buffer becomes
//! host-owned; the guest never releases an exposed buffer itself.

use vstd::prelude::*;

use crate::SpaceSlice;
use crate::error::HostError;

verus! {

/// The little-endian 32-bit value stored at `off`.
pub open spec fn le32_at(mem: Seq<u8>, off: int) -> nat {
    mem[off] as nat + (mem[off + 1] as nat) * 0x100 + (mem[off + 2] as nat) * 0x1_0000 + (mem[off
        + 3] as nat) * 0x100_0000
}

/// A raw buffer triple as the host writes it at a success offset:
/// (pointer, capacity, length), three little-endian 32-bit values.
pub open spec fn triple_at(mem: Seq<u8>, off: int) -> (nat, nat, nat) {
    (le32_at(mem, off), le32_at(mem, off + 4), le32_at(mem, off + 8))
}

/// A triple is sound when it lies inside memory, its length does not exceed
/// its capacity, and the span it describes lies inside memory.
pub open spec fn triple_ok(mem: Seq<u8>, off: int) -> bool {
    &&& 0 <= off
    &&& off + 12 <= mem.len()
    &&& triple_at(mem, off).2 <= triple_at(mem, off).1
    &&& triple_at(mem, off).0 + triple_at(mem, off).1 <= mem.len()
}

/// A byte buffer reclaimed from a host-written span. The readable bytes are
/// truncated to the reported length, but the reported capacity is kept: an
/// eventual release must return the whole span `[pointer, pointer+capacity)`
/// to the allocator, never just the readable part.
pub struct OwnedBuffer {
    /// The readable bytes: exactly the reported length of them.
    pub data: Vec<u8>,
    /// The capacity the host reported for the span.
    pub capacity: u32,
}

impl OwnedBuffer {
    /// A buffer is well formed when its readable length fits its capacity.
    pub open spec fn wf(&self) -> bool {
        self.data@.len() <= self.capacity
    }

    /// The readable length.
    pub fn len(&self) -> (r: usize)
        ensures
            r == self.data@.len(),
    {
        self.data.len()
    }

    /// Releases the buffer, consuming it exactly once. The returned size is
    /// what the release hands back to the allocator: the full reported
    /// capacity, not the readable length.
    pub fn release(self) -> (r: u32)
        ensures
            r == self.capacity,
    {
        self.capacity
    }

    /// Takes the readable bytes out of the buffer.
    pub fn into_vec(self) -> (r: Vec<u8>)
        ensures
            r@ == self.data@,
    {
        self.data
    }
}

/// The guest's linear memory: a single contiguous byte-addressable region.
/// Address 0 is reserved at construction, so no buffer ever lies at the
/// null address.
pub struct Arena {
    mem: Vec<u8>,
}

impl View for Arena {
    type V = Seq<u8>;

    closed spec fn view(&self) -> Seq<u8> {
        self.mem@
    }
}

impl Arena {
    /// An arena is well formed when its reserved first byte exists.
    pub open spec fn wf(&self) -> bool {
        self@.len() >= 1
    }

    /// A fresh arena: one reserved byte at address 0.
    pub fn new() -> (r: Arena)
        ensures
            r.wf(),
            r@ == seq![0u8],
    {
        let mut mem: Vec<u8> = Vec::new();
        mem.push(0);
        proof {
            assert(mem@ =~= seq![0u8]);
        }
        Arena { mem }
    }

    /// The size of the memory region.
    pub fn len(&self) -> (r: usize)
        ensures
            r == self@.len(),
    {
        self.mem.len()
    }

    /// The byte at address `i`.
    pub fn read_u8(&self, i: usize) -> (r: u8)
        requires
            i < self@.len(),
        ensures
            r == self@[i as int],
    {
        self.mem[i]
    }

    /// The little-endian 32-bit value at `offset`.
    pub fn read_u32(&self, offset: usize) -> (r: u32)
        requires
            offset + 4 <= self@.len(),
        ensures
            r as nat == le32_at(self@, offset as int),
    {
        let _n = self.mem.len();
        (self.mem[offset] as u32) + (self.mem[offset + 1] as u32) * 0x100 + (self.mem[offset
            + 2] as u32) * 0x1_0000 + (self.mem[offset + 3] as u32) * 0x100_0000
    }

    /// Appends bytes at the end of memory, returning their address.
    pub fn append_bytes(&mut self, bytes: &[u8]) -> (r: usize)
        ensures
            r == old(self)@.len(),
            final(self)@ == old(self)@ + bytes@,
    {
        let r = self.mem.len();
        self.mem.extend_from_slice(bytes);
        r
    }

    /// Appends a little-endian 32-bit value at the end of memory, returning
    /// its address.
    pub fn append_u32(&mut self, v: u32) -> (r: usize)
        ensures
            r == old(self)@.len(),
            final(self)@.len() == old(self)@.len() + 4,
            final(self)@.take(r as int) == old(self)@,
            le32_at(final(self)@, r as int) == v as nat,
    {
        let r = self.mem.len();
        self.mem.push((v % 0x100) as u8);
        self.mem.push(((v / 0x100) % 0x100) as u8);
        self.mem.push(((v / 0x1_0000) % 0x100) as u8);
        self.mem.push(((v / 0x100_0000) % 0x100) as u8);
        proof {
            assert(self@.take(r as int) =~= old(self)@);
            let m = v as u32;
            assert(m % 0x100 + ((m / 0x100) % 0x100) * 0x100 + ((m / 0x1_0000) % 0x100) * 0x1_0000
                + ((m / 0x100_0000) % 0x100) * 0x100_0000 == m) by (bit_vector);
        }
        r
    }

    /// Appends a raw buffer triple at the end of memory, returning its
    /// offset. This is how a host writes its answer into guest memory.
    pub fn append_triple(&mut self, ptr: u32, cap: u32, len: u32) -> (r: usize)
        ensures
            r == old(self)@.len(),
            final(self)@.len() == old(self)@.len() + 12,
            final(self)@.take(r as int) == old(self)@,
            triple_at(final(self)@, r as int) == (ptr as nat, cap as nat, len as nat),
    {
        let r = self.append_u32(ptr);
        let _ = self.append_u32(cap);
        let _ = self.append_u32(len);
        proof {
            assert(self@.take(r as int) =~= old(self)@);
            assert(le32_at(self@, r as int) == ptr as nat);
            assert(le32_at(self@, r + 4) == cap as nat);
        }
        r
    }

    /// The bytes of the span `[ptr, ptr+len)`.
    pub fn read_bytes(&self, ptr: usize, len: usize) -> (r: Vec<u8>)
        requires
            ptr + len <= self@.len(),
        ensures
            r@ == self@.subrange(ptr as int, (ptr + len) as int),
    {
        let _n = self.mem.len();
        let s = vstd::slice::slice_subrange(self.mem.as_slice(), ptr, ptr + len);
        vstd::slice::slice_to_vec(s)
    }

    /// Reconstructs the guest-owned buffer a host call left behind: reads
    /// the raw buffer triple at `offset` and takes ownership of the span it
    /// describes. Fails closed — with a memory-access error, touching
    /// nothing — when the triple lies outside memory, claims a length
    /// beyond its capacity, or describes a span outside memory.
    ///
    /// After this call the guest is the sole owner of the span; the host
    /// must not access or free it afterward.
    pub fn materialize_buffer(&self, offset: u32) -> (r: Result<OwnedBuffer, HostError>)
        ensures
            r is Ok <==> triple_ok(self@, offset as int),
            r is Err ==> r == Result::<OwnedBuffer, HostError>::Err(HostError::MemoryAccess),
            r is Ok ==> {
                let (ptr, cap, len) = triple_at(self@, offset as int);
                &&& r->Ok_0.wf()
                &&& r->Ok_0.data@ == self@.subrange(ptr as int, (ptr + len) as int)
                &&& r->Ok_0.capacity as nat == cap
                &&& len <= cap
            },
    {
        let off = offset as usize;
        if self.mem.len() < 12 || off > self.mem.len() - 12 {
            return Err(HostError::MemoryAccess);
        }
        let ptr = self.read_u32(off);
        let cap = self.read_u32(off + 4);
        let len = self.read_u32(off + 8);
        if len > cap {
            return Err(HostError::MemoryAccess);
        }
        if (ptr as usize) > self.mem.len() || (cap as usize) > self.mem.len() - (ptr as usize) {
            return Err(HostError::MemoryAccess);
        }
        let data = self.read_bytes(ptr as usize, len as usize);
        Ok(OwnedBuffer { data, capacity: cap })
    }

    /// Hands a guest buffer over to the host: places the bytes in memory
    /// and returns their descriptor. The guest never releases those bytes
    /// itself — from here on the host is their sole owner — so the
    /// descriptor stays valid after this call returns. The address is never
    /// null, even for an empty buffer.
    pub fn expose_buffer(&mut self, bytes: Vec<u8>) -> (r: SpaceSlice)
        requires
            old(self).wf(),
        ensures
            final(self).wf(),
            r.len == bytes@.len(),
            r.ptr == old(self)@.len(),
            r.ptr >= 1,
            final(self)@ == old(self)@ + bytes@,
    {
        let ptr = self.append_bytes(bytes.as_slice());
        SpaceSlice { len: bytes.len(), ptr }
    }
}

} // verus!
