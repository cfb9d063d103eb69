//! Guest-side marshaling for a sandboxed, linear-memory module that calls
//! host-provided capabilities (HTTP requests) and exposes its own entry
//! points to the embedding host.
//!
//! The host boundary understands only raw bytes and integers, so every call
//! crosses it in three steps: a request is encoded into a compact binary
//! envelope ([`common`]), the host answers with a single status word
//! ([`common::extract`]), and on success the response bytes are reclaimed
//! from guest memory through an explicit ownership transfer ([`arena`]).

use vstd::prelude::*;

pub mod arena;
pub mod codec;
pub mod common;
pub mod error;
pub mod export;
pub mod http;
pub mod json;
pub mod solana;
pub mod supabase;

verus! {

/// Descriptor for a guest-produced buffer that is handed to the host: the
/// byte length and the address of the bytes inside the guest's memory.
///
/// The guest never releases the underlying bytes itself; once a
/// `SpaceSlice` is returned across the boundary, the host is their sole
/// owner and must free or copy them before the guest instance is reused.
pub struct SpaceSlice {
    pub len: usize,
    pub ptr: usize,
}

} // verus!
