//! Core of an in-process tracing agent: applications register named
//! tracepoints and submit small binary payloads; the agent batches active
//! events and ships them to a single connected collector over a fixed binary
//! framing protocol, announcing itself by UDP while no collector is attached.
//!
//! This crate holds the verified logic: the wire codec, tracepoint name
//! normalization, the registry, the batching buffer with its flush packing,
//! the announcement datagram layout, and the engine state machine that an
//! event loop drives. All socket, timer and thread plumbing lives outside.

use vstd::prelude::*;

pub mod codec;
pub mod engine;
pub mod beacon;
pub mod buffer;
pub mod names;
pub mod registry;

verus! {

/// Longest tracepoint name kept after normalization, in bytes.
pub const MAX_TRACEPOINT_NAME_LEN: usize = 32;

/// Largest payload a single submission may carry, in bytes.
pub const MAX_SUBMIT_LEN: usize = 2048;

/// Hard threshold on the batching buffer: a send window, header included,
/// never exceeds this many bytes, and occupancy beyond it forces a flush.
pub const QUEUE_TOTAL_SIZE: usize = 4096;

/// Bytes a timestamp contributes to an event's buffer occupancy.
pub const TIMESTAMP_LEN: usize = 8;

/// Wall-clock nanoseconds since the Unix epoch from a duration split into
/// whole seconds and leftover nanoseconds. A caller whose clock reads
/// before the epoch, or so far past it that the count would not fit,
/// records the timestamp as zero instead of calling this.
pub fn timestamp_ns(secs: u64, nanos: u32) -> (r: u64)
    requires
        nanos < 1_000_000_000,
        secs <= 18_446_744_072,
    ensures
        r == secs * 1_000_000_000 + nanos,
{
    secs * 1_000_000_000 + nanos as u64
}

} // verus!
