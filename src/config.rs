use vstd::prelude::*;

verus! {

/// Total number of bytes a run writes (5 GiB).
pub const TOTAL: u64 = 5368709120;

/// Length of one write unit (512 KiB).
pub const DATA_LEN: u64 = 524288;

/// Number of writes enqueued before one submission.
pub const BATCH_SIZE: u64 = 64;

/// Completions are drained without blocking after every this many rounds.
pub const DRAIN_EVERY: u64 = 4;

/// The byte every write unit is filled with.
pub const PAYLOAD_BYTE: u8 = 0x61;

/// Per-run options; every combination is legal.
#[derive(Debug, Default, Clone, Copy, PartialEq, Eq, Structural)]
pub struct Setup {
    /// Flush the file to durable storage after all writes.
    pub fsync: bool,
    /// Open the file for direct, unbuffered I/O.
    pub direct: bool,
    /// Reserve the file's whole extent before any write.
    pub fallocate: bool,
}

/// The payload of one write unit: `len` copies of the constant byte.
pub fn payload(len: usize) -> (r: Vec<u8>)
    ensures
        r@ == Seq::new(len as nat, |_i: int| PAYLOAD_BYTE),
{
    let mut v: Vec<u8> = Vec::with_capacity(len);
    let mut i: usize = 0;
    while i < len
        invariant
            i <= len,
            v@ == Seq::new(i as nat, |_i: int| PAYLOAD_BYTE),
        decreases len - i,
    {
        v.push(PAYLOAD_BYTE);
        i += 1;
    }
    v
}

} // verus!
