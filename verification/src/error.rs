//! What can go wrong: the faults of the codec and the refusals of the feed
//! channel.

use vstd::prelude::*;

verus! {

/// A decoding fault. Each one is final for the session it occurred on: the
/// stream is corrupt from that byte on, and the codec never tries again.
#[derive(Clone, Copy, PartialEq, Eq, Structural, Debug)]
pub enum DecodeError {
    /// The bytes end before the value does.
    Truncated,
    /// The header declares a body longer than the protocol allows; the
    /// declared length is kept.
    FrameTooLong(u32),
    /// The message tag belongs to no variant of the catalogue decoded.
    UnknownTag(u8),
    /// The tag of a status reply belongs to none of its variants.
    UnknownStatusTag(u8),
    /// A text field does not hold UTF-8.
    InvalidUtf8,
    /// The frame's body goes on after the message has ended.
    TrailingBytes,
}

/// Why the feed channel refused an operation. The channel is unchanged
/// whenever one of these is returned.
#[derive(Clone, Copy, PartialEq, Eq, Structural, Debug)]
pub enum FeedError {
    /// No job is kept under the key: none was begun, or it has been evicted.
    UnknownJob,
    /// The job has completed, and its counters are frozen.
    JobCompleted,
    /// A job is already kept under the key.
    JobExists,
    /// A counter is at its largest value and cannot take the update.
    CounterOverflow,
    /// More items were to leave the cache than it holds.
    NothingCached,
}

} // verus!
