//! The four dispositions of an inbound item, the counters that a job keeps of
//! them, and the reply that a status query gets.

use crate::error::{DecodeError, FeedError};
use crate::wire::{get_u16, put_u16, u16_from_le, u16_le};
use vstd::prelude::*;
use vstd::slice::slice_subrange;

verus! {

/// Where an inbound item ended up.
#[derive(Clone, Copy, PartialEq, Eq, Structural, Debug)]
pub enum Disposition {
    /// Linked into the canonical index.
    Chained,
    /// Valid, but what it depends on is missing: held until a later item
    /// brings it.
    Cached,
    /// A duplicate of an item that was processed before: counted, not
    /// processed again.
    Known,
    /// Failed validation and was discarded for good.
    Invalid,
}

/// What is known of an inbound item when it reaches the channel. The source
/// has parsed and validated it, and the index has looked it up.
#[derive(Clone, Copy, PartialEq, Eq, Structural, Debug)]
pub struct Item {
    /// The index holds the item already.
    pub duplicate: bool,
    /// The item passed validation.
    pub valid: bool,
    /// What the item depends on is in the index.
    pub linked: bool,
}

/// The disposition that an item gets. A duplicate is known, whatever else
/// holds of it, since it is not processed again; of the others the invalid
/// ones are discarded, and a valid one is chained or cached by whether its
/// dependency is there.
pub open spec fn disposition_of(item: Item) -> Disposition {
    if item.duplicate {
        Disposition::Known
    } else if !item.valid {
        Disposition::Invalid
    } else if item.linked {
        Disposition::Chained
    } else {
        Disposition::Cached
    }
}

/// Classifies an inbound item.
pub fn classify(item: Item) -> (disposition: Disposition)
    ensures
        disposition == disposition_of(item),
{
    if item.duplicate {
        Disposition::Known
    } else if !item.valid {
        Disposition::Invalid
    } else if item.linked {
        Disposition::Chained
    } else {
        Disposition::Cached
    }
}

/// Only an item that is new, valid and waiting for its dependency is cached;
/// in particular none that is already known.
pub proof fn lemma_cached_only_if_not_known(item: Item)
    ensures
        disposition_of(item) == Disposition::Cached <==> !item.duplicate && item.valid
            && !item.linked,
        item.duplicate ==> disposition_of(item) == Disposition::Known,
{
}

/// The counters of one ingestion job.
#[derive(Clone, Copy, PartialEq, Eq, Structural, Debug)]
pub struct FeedStatus {
    pub chained: u16,
    pub cached: u16,
    pub known: u16,
    pub invalid: u16,
}

impl FeedStatus {
    /// The number of items counted, over all four dispositions.
    pub open spec fn spec_total(self) -> nat {
        (self.chained + self.cached + self.known + self.invalid) as nat
    }

    /// The counter kept for a disposition.
    pub open spec fn spec_count(self, disposition: Disposition) -> u16 {
        match disposition {
            Disposition::Chained => self.chained,
            Disposition::Cached => self.cached,
            Disposition::Known => self.known,
            Disposition::Invalid => self.invalid,
        }
    }

    /// Whether one more item of a disposition can be counted.
    pub open spec fn can_record(self, disposition: Disposition) -> bool {
        self.spec_count(disposition) < u16::MAX
    }

    /// The counters after one more item of a disposition.
    pub open spec fn after_record(self, disposition: Disposition) -> FeedStatus
        recommends
            self.can_record(disposition),
    {
        match disposition {
            Disposition::Chained => FeedStatus { chained: (self.chained + 1) as u16, ..self },
            Disposition::Cached => FeedStatus { cached: (self.cached + 1) as u16, ..self },
            Disposition::Known => FeedStatus { known: (self.known + 1) as u16, ..self },
            Disposition::Invalid => FeedStatus { invalid: (self.invalid + 1) as u16, ..self },
        }
    }

    /// Whether `count` cached items can become chained.
    pub open spec fn can_resolve(self, count: u16) -> bool {
        count <= self.cached && self.chained + count <= u16::MAX
    }

    /// The counters after `count` cached items have become chained.
    pub open spec fn after_resolve(self, count: u16) -> FeedStatus
        recommends
            self.can_resolve(count),
    {
        FeedStatus {
            chained: (self.chained + count) as u16,
            cached: (self.cached - count) as u16,
            ..self
        }
    }

    /// Counters that have seen nothing.
    pub fn new() -> (status: FeedStatus)
        ensures
            status == (FeedStatus { chained: 0, cached: 0, known: 0, invalid: 0 }),
            status.spec_total() == 0,
    {
        FeedStatus { chained: 0, cached: 0, known: 0, invalid: 0 }
    }

    /// The number of items counted, over all four dispositions.
    pub fn total(&self) -> (total: u32)
        ensures
            total == self.spec_total(),
    {
        self.chained as u32 + self.cached as u32 + self.known as u32 + self.invalid as u32
    }

    /// The counter kept for a disposition.
    pub fn count(&self, disposition: Disposition) -> (count: u16)
        ensures
            count == self.spec_count(disposition),
    {
        match disposition {
            Disposition::Chained => self.chained,
            Disposition::Cached => self.cached,
            Disposition::Known => self.known,
            Disposition::Invalid => self.invalid,
        }
    }

    /// Counts one more item of a disposition. A counter that is full refuses,
    /// and nothing changes.
    pub fn record(&mut self, disposition: Disposition) -> (r: Result<(), FeedError>)
        ensures
            old(self).can_record(disposition) ==> r is Ok && *final(self) == old(
                self,
            ).after_record(disposition),
            !old(self).can_record(disposition) ==> r == Err::<(), _>(FeedError::CounterOverflow)
                && *final(self) == *old(self),
    {
        if self.count(disposition) == u16::MAX {
            return Err(FeedError::CounterOverflow);
        }
        match disposition {
            Disposition::Chained => {
                self.chained = self.chained + 1;
            },
            Disposition::Cached => {
                self.cached = self.cached + 1;
            },
            Disposition::Known => {
                self.known = self.known + 1;
            },
            Disposition::Invalid => {
                self.invalid = self.invalid + 1;
            },
        }
        Ok(())
    }

    /// Moves `count` items from cached to chained, both counters in one
    /// step. Where the cache holds fewer, or the chained counter cannot take
    /// them, nothing changes.
    pub fn resolve(&mut self, count: u16) -> (r: Result<(), FeedError>)
        ensures
            old(self).can_resolve(count) ==> r is Ok && *final(self) == old(self).after_resolve(
                count,
            ),
            count > old(self).cached ==> r == Err::<(), _>(FeedError::NothingCached),
            count <= old(self).cached && !old(self).can_resolve(count) ==> r == Err::<(), _>(
                FeedError::CounterOverflow,
            ),
            r is Err ==> *final(self) == *old(self),
    {
        if count > self.cached {
            return Err(FeedError::NothingCached);
        }
        if count > u16::MAX - self.chained {
            return Err(FeedError::CounterOverflow);
        }
        *self = FeedStatus {
            chained: self.chained + count,
            cached: self.cached - count,
            known: self.known,
            invalid: self.invalid,
        };
        Ok(())
    }
}

impl Default for FeedStatus {
    fn default() -> (status: FeedStatus)
        ensures
            status == (FeedStatus { chained: 0, cached: 0, known: 0, invalid: 0 }),
    {
        FeedStatus::new()
    }
}

/// Counting an item raises its own counter by one and the total by one, and
/// leaves the other three as they were: no counter goes down.
pub proof fn lemma_record_counts_one(status: FeedStatus, disposition: Disposition)
    requires
        status.can_record(disposition),
    ensures
        status.after_record(disposition).spec_total() == status.spec_total() + 1,
        status.after_record(disposition).spec_count(disposition) == status.spec_count(disposition)
            + 1,
        forall|other: Disposition|
            other != disposition ==> status.after_record(disposition).spec_count(other)
                == status.spec_count(other),
{
}

/// Resolving takes from cached exactly what it adds to chained: the total,
/// known and invalid stay as they were.
pub proof fn lemma_resolve_moves_cached_to_chained(status: FeedStatus, count: u16)
    requires
        status.can_resolve(count),
    ensures
        status.after_resolve(count).spec_total() == status.spec_total(),
        status.after_resolve(count).chained == status.chained + count,
        status.after_resolve(count).cached == status.cached - count,
        status.after_resolve(count).known == status.known,
        status.after_resolve(count).invalid == status.invalid,
{
}

/// The answer to a status query: one job as it stands at one instant.
#[derive(Clone, Copy, PartialEq, Eq, Structural, Debug)]
pub enum StatusReply {
    /// The job is in progress; these are its counters.
    Active(FeedStatus),
    /// The job has finished.
    Completed,
    /// No job is known under the key: none was begun, or it was evicted.
    NotFound,
}

/// The tag of an active job's reply.
pub const STATUS_TAG_ACTIVE: u8 = 0x00;

/// The tag of a completed job's reply.
pub const STATUS_TAG_COMPLETED: u8 = 0x01;

/// The tag of the reply for an unknown job.
pub const STATUS_TAG_NOT_FOUND: u8 = 0x02;

/// The encoding of a set of counters: chained, cached, known, invalid, two
/// bytes each.
pub open spec fn feed_status_encoding(status: FeedStatus) -> Seq<u8> {
    u16_le(status.chained) + u16_le(status.cached) + u16_le(status.known) + u16_le(
        status.invalid,
    )
}

/// The counters that eight bytes stand for.
pub open spec fn feed_status_from(bytes: Seq<u8>) -> FeedStatus
    recommends
        bytes.len() == 8,
{
    FeedStatus {
        chained: u16_from_le(bytes.subrange(0, 2)),
        cached: u16_from_le(bytes.subrange(2, 4)),
        known: u16_from_le(bytes.subrange(4, 6)),
        invalid: u16_from_le(bytes.subrange(6, 8)),
    }
}

/// The encoding of a status reply: its tag, and for an active job its
/// counters.
pub open spec fn status_reply_encoding(reply: StatusReply) -> Seq<u8> {
    match reply {
        StatusReply::Active(status) => seq![STATUS_TAG_ACTIVE] + feed_status_encoding(status),
        StatusReply::Completed => seq![STATUS_TAG_COMPLETED],
        StatusReply::NotFound => seq![STATUS_TAG_NOT_FOUND],
    }
}

/// What stands at the front of `input` when a status reply is read there.
pub open spec fn status_reply_decoding(input: Seq<u8>) -> Result<(StatusReply, int), DecodeError> {
    if input.len() < 1 {
        Err(DecodeError::Truncated)
    } else if input[0] == STATUS_TAG_ACTIVE {
        if input.len() < 9 {
            Err(DecodeError::Truncated)
        } else {
            Ok((StatusReply::Active(feed_status_from(input.subrange(1, 9))), 9))
        }
    } else if input[0] == STATUS_TAG_COMPLETED {
        Ok((StatusReply::Completed, 1))
    } else if input[0] == STATUS_TAG_NOT_FOUND {
        Ok((StatusReply::NotFound, 1))
    } else {
        Err(DecodeError::UnknownStatusTag(input[0]))
    }
}

/// A status reply decodes to itself, whatever follows it.
pub proof fn lemma_status_reply_roundtrip(reply: StatusReply, rest: Seq<u8>)
    ensures
        status_reply_decoding(status_reply_encoding(reply) + rest) == Ok::<_, DecodeError>(
            (reply, status_reply_encoding(reply).len() as int),
        ),
{
    let input = status_reply_encoding(reply) + rest;
    match reply {
        StatusReply::Active(status) => {
            let body = input.subrange(1, 9);
            assert(body.subrange(0, 2) =~= u16_le(status.chained));
            assert(body.subrange(2, 4) =~= u16_le(status.cached));
            assert(body.subrange(4, 6) =~= u16_le(status.known));
            assert(body.subrange(6, 8) =~= u16_le(status.invalid));
            crate::wire::lemma_u16_value_roundtrip(status.chained);
            crate::wire::lemma_u16_value_roundtrip(status.cached);
            crate::wire::lemma_u16_value_roundtrip(status.known);
            crate::wire::lemma_u16_value_roundtrip(status.invalid);
        },
        _ => {},
    }
}

/// What decodes as a status reply is that reply's encoding.
pub proof fn lemma_status_reply_decoded(input: Seq<u8>)
    requires
        status_reply_decoding(input) is Ok,
    ensures
        ({
            let (reply, taken) = status_reply_decoding(input).unwrap();
            &&& 0 < taken <= input.len()
            &&& input.subrange(0, taken) == status_reply_encoding(reply)
        }),
{
    let (reply, taken) = status_reply_decoding(input).unwrap();
    if input[0] == STATUS_TAG_ACTIVE {
        let body = input.subrange(1, 9);
        crate::wire::lemma_u16_bytes_roundtrip(body.subrange(0, 2));
        crate::wire::lemma_u16_bytes_roundtrip(body.subrange(2, 4));
        crate::wire::lemma_u16_bytes_roundtrip(body.subrange(4, 6));
        crate::wire::lemma_u16_bytes_roundtrip(body.subrange(6, 8));
        assert(body =~= body.subrange(0, 2) + body.subrange(2, 4) + body.subrange(4, 6)
            + body.subrange(6, 8));
    }
    assert(input.subrange(0, taken) =~= status_reply_encoding(reply));
}

impl StatusReply {
    /// Appends the reply's encoding to `out`.
    pub fn encode_into(&self, out: &mut Vec<u8>)
        ensures
            final(out)@ == old(out)@ + status_reply_encoding(*self),
    {
        match self {
            StatusReply::Active(status) => {
                out.push(STATUS_TAG_ACTIVE);
                put_u16(out, status.chained);
                put_u16(out, status.cached);
                put_u16(out, status.known);
                put_u16(out, status.invalid);
            },
            StatusReply::Completed => {
                out.push(STATUS_TAG_COMPLETED);
            },
            StatusReply::NotFound => {
                out.push(STATUS_TAG_NOT_FOUND);
            },
        }
        assert(out@ =~= old(out)@ + status_reply_encoding(*self));
    }

    /// Reads a reply from the front of `input`. On success the second value
    /// is the number of bytes that it took.
    pub fn decode_from(input: &[u8]) -> (r: Result<(StatusReply, usize), DecodeError>)
        ensures
            match r {
                Ok((reply, taken)) => status_reply_decoding(input@) == Ok::<_, DecodeError>(
                    (reply, taken as int),
                ),
                Err(e) => status_reply_decoding(input@) == Err::<(StatusReply, int), _>(e),
            },
    {
        if input.len() < 1 {
            return Err(DecodeError::Truncated);
        }
        let tag = input[0];
        if tag == STATUS_TAG_ACTIVE {
            if input.len() < 9 {
                return Err(DecodeError::Truncated);
            }
            let chained = get_u16(slice_subrange(input, 1, 3)).unwrap();
            let cached = get_u16(slice_subrange(input, 3, 5)).unwrap();
            let known = get_u16(slice_subrange(input, 5, 7)).unwrap();
            let invalid = get_u16(slice_subrange(input, 7, 9)).unwrap();
            proof {
                let body = input@.subrange(1, 9);
                assert(body.subrange(0, 2) =~= input@.subrange(1, 3).subrange(0, 2));
                assert(body.subrange(2, 4) =~= input@.subrange(3, 5).subrange(0, 2));
                assert(body.subrange(4, 6) =~= input@.subrange(5, 7).subrange(0, 2));
                assert(body.subrange(6, 8) =~= input@.subrange(7, 9).subrange(0, 2));
            }
            Ok((StatusReply::Active(FeedStatus { chained, cached, known, invalid }), 9))
        } else if tag == STATUS_TAG_COMPLETED {
            Ok((StatusReply::Completed, 1))
        } else if tag == STATUS_TAG_NOT_FOUND {
            Ok((StatusReply::NotFound, 1))
        } else {
            Err(DecodeError::UnknownStatusTag(tag))
        }
    }
}

} // verus!
