use vstd::prelude::*;

verus! {

/// Total size in bytes of the shared segment that backs one channel.
pub const CAPACITY: usize = 4096;

/// Size of the header at the start of the segment: `head` (8 bytes),
/// `tail` (8 bytes) and the notification word (4 bytes).
pub const HEADER_LEN: usize = 20;

/// Size of the circular payload that follows the header.
pub const PAYLOAD_LEN: usize = 4076;

/// Offset of the producer cursor within the segment.
pub const HEAD_OFFSET: usize = 0;

/// Offset of the consumer cursor within the segment.
pub const TAIL_OFFSET: usize = 8;

/// Offset of the notification word within the segment.
pub const NOTIFY_OFFSET: usize = 16;

/// The payload fills the rest of the segment after the header.
pub proof fn lemma_layout()
    ensures
        HEADER_LEN + PAYLOAD_LEN == CAPACITY,
        TAIL_OFFSET == HEAD_OFFSET + 8,
        NOTIFY_OFFSET == TAIL_OFFSET + 8,
        HEADER_LEN == NOTIFY_OFFSET + 4,
{
}

} // verus!
