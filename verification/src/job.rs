//! One ingestion job: its counters while it is active, and its end.
//!
//! A job is active from the moment it is begun until it is completed. While
//! it is active every item delivered to it is counted under exactly one
//! disposition, so the four counters always add up to the number of items
//! delivered. Once completed, the counters are frozen for good.

use crate::error::FeedError;
use crate::status::{classify, disposition_of, Disposition, FeedStatus, Item, StatusReply};
use vstd::prelude::*;

verus! {

/// A job as a plain value.
pub struct JobView {
    /// The counters.
    pub status: FeedStatus,
    /// The number of items delivered to the job so far.
    pub observed: nat,
    /// When the job was completed, in seconds; `None` while it is active.
    pub completed_at: Option<u64>,
}

impl JobView {
    /// A job that has just begun.
    pub open spec fn fresh() -> JobView {
        JobView {
            status: FeedStatus { chained: 0, cached: 0, known: 0, invalid: 0 },
            observed: 0,
            completed_at: None,
        }
    }

    /// The counters add up to the number of items delivered.
    pub open spec fn consistent(self) -> bool {
        self.status.spec_total() == self.observed
    }

    /// The job is in progress.
    pub open spec fn is_active(self) -> bool {
        self.completed_at is None
    }

    /// What a status query is told of the job.
    pub open spec fn reply(self) -> StatusReply {
        if self.is_active() {
            StatusReply::Active(self.status)
        } else {
            StatusReply::Completed
        }
    }

    /// Whether the job's retention has run out at `now`: it was completed,
    /// and at least `retention` seconds have passed since.
    pub open spec fn expired(self, retention: u64, now: u64) -> bool {
        match self.completed_at {
            None => false,
            Some(at) => now >= at && now - at >= retention,
        }
    }

    /// The job after one more item was delivered, or why the item was
    /// refused.
    pub open spec fn observing(self, item: Item) -> Result<JobView, FeedError> {
        if !self.is_active() {
            Err(FeedError::JobCompleted)
        } else if !self.status.can_record(disposition_of(item)) {
            Err(FeedError::CounterOverflow)
        } else {
            Ok(
                JobView {
                    status: self.status.after_record(disposition_of(item)),
                    observed: self.observed + 1,
                    ..self
                },
            )
        }
    }

    /// The job after `count` cached items were chained, or why they were
    /// not.
    pub open spec fn resolving(self, count: u16) -> Result<JobView, FeedError> {
        if !self.is_active() {
            Err(FeedError::JobCompleted)
        } else if count > self.status.cached {
            Err(FeedError::NothingCached)
        } else if !self.status.can_resolve(count) {
            Err(FeedError::CounterOverflow)
        } else {
            Ok(JobView { status: self.status.after_resolve(count), ..self })
        }
    }

    /// The job after it was completed at `now`, or why it was not.
    pub open spec fn completing(self, now: u64) -> Result<JobView, FeedError> {
        if !self.is_active() {
            Err(FeedError::JobCompleted)
        } else {
            Ok(JobView { completed_at: Some(now), ..self })
        }
    }
}

/// A job that has just begun has counted nothing and was delivered nothing.
pub proof fn lemma_fresh_job_consistent()
    ensures
        JobView::fresh().consistent(),
        JobView::fresh().reply() == StatusReply::Active(
            FeedStatus { chained: 0, cached: 0, known: 0, invalid: 0 },
        ),
{
}

/// Each delivery that a job accepts is counted once: afterwards the counters
/// again add up to the number of items delivered, which is one more than
/// before. A delivery that is refused changes nothing.
pub proof fn lemma_observing_keeps_sum(job: JobView, item: Item)
    requires
        job.consistent(),
        job.observing(item) is Ok,
    ensures
        job.observing(item).unwrap().consistent(),
        job.observing(item).unwrap().observed == job.observed + 1,
        job.observing(item).unwrap().is_active(),
{
}

/// Chaining cached items delivers nothing: the counters add up to the same
/// number as before, in the one step that changes both of them.
pub proof fn lemma_resolving_keeps_sum(job: JobView, count: u16)
    requires
        job.consistent(),
        job.resolving(count) is Ok,
    ensures
        job.resolving(count).unwrap().consistent(),
        job.resolving(count).unwrap().observed == job.observed,
        job.resolving(count).unwrap().is_active(),
{
}

/// While a job is active no counter ever goes down, but for cached in the
/// step that chains what leaves it: a delivery raises one counter by one, and
/// resolving lowers cached by exactly what it adds to chained.
pub proof fn lemma_counters_only_grow(job: JobView, item: Item, count: u16)
    ensures
        job.observing(item) matches Ok(next) ==> {
            &&& next.status.chained >= job.status.chained
            &&& next.status.cached >= job.status.cached
            &&& next.status.known >= job.status.known
            &&& next.status.invalid >= job.status.invalid
            &&& next.status.spec_total() == job.status.spec_total() + 1
        },
        job.resolving(count) matches Ok(next) ==> {
            &&& next.status.chained - job.status.chained == count
            &&& job.status.cached - next.status.cached == count
            &&& next.status.known == job.status.known
            &&& next.status.invalid == job.status.invalid
        },
{
}

/// A completed job stays completed with the counters it had: every further
/// delivery, resolution and completion is refused.
pub proof fn lemma_completed_is_frozen(job: JobView, item: Item, count: u16, now: u64)
    requires
        !job.is_active(),
    ensures
        job.reply() == StatusReply::Completed,
        job.observing(item) == Err::<JobView, _>(FeedError::JobCompleted),
        job.resolving(count) == Err::<JobView, _>(FeedError::JobCompleted),
        job.completing(now) == Err::<JobView, _>(FeedError::JobCompleted),
{
}

/// One ingestion job.
#[derive(Clone, Copy, PartialEq, Eq, Debug)]
pub struct IngestionJob {
    status: FeedStatus,
    observed: u32,
    completed_at: Option<u64>,
}

impl View for IngestionJob {
    type V = JobView;

    closed spec fn view(&self) -> JobView {
        JobView {
            status: self.status,
            observed: self.observed as nat,
            completed_at: self.completed_at,
        }
    }
}

impl IngestionJob {
    /// What holds of every job: its counters add up to the number of items
    /// delivered to it.
    #[verifier::type_invariant]
    pub open spec fn sums_up(self) -> bool {
        self@.consistent()
    }

    /// A job that has just begun.
    pub fn new() -> (job: IngestionJob)
        ensures
            job@ == JobView::fresh(),
    {
        IngestionJob { status: FeedStatus::new(), observed: 0, completed_at: None }
    }

    /// The counters, which add up to the number of items delivered.
    pub fn status(&self) -> (status: FeedStatus)
        ensures
            status == self@.status,
            status.spec_total() == self@.observed,
            self@.consistent(),
    {
        proof {
            use_type_invariant(self);
        }
        self.status
    }

    /// The number of items delivered so far.
    pub fn observed(&self) -> (observed: u32)
        ensures
            observed == self@.observed,
            observed == self@.status.spec_total(),
    {
        proof {
            use_type_invariant(self);
        }
        self.observed
    }

    /// When the job was completed; `None` while it is active.
    pub fn completed_at(&self) -> (at: Option<u64>)
        ensures
            at == self@.completed_at,
    {
        self.completed_at
    }

    /// Whether the job is in progress.
    pub fn is_active(&self) -> (active: bool)
        ensures
            active == self@.is_active(),
    {
        self.completed_at.is_none()
    }

    /// What a status query is told of the job.
    pub fn reply(&self) -> (reply: StatusReply)
        ensures
            reply == self@.reply(),
            reply matches StatusReply::Active(status) ==> status.spec_total() == self@.observed,
    {
        proof {
            use_type_invariant(self);
        }
        match self.completed_at {
            None => StatusReply::Active(self.status),
            Some(_) => StatusReply::Completed,
        }
    }

    /// Whether the job's retention has run out at `now`.
    pub fn expired(&self, retention: u64, now: u64) -> (expired: bool)
        ensures
            expired == self@.expired(retention, now),
    {
        match self.completed_at {
            None => false,
            Some(at) => now >= at && now - at >= retention,
        }
    }

    /// Takes delivery of one item: classifies it and counts it. A completed
    /// job takes none, and a full counter takes no more; the job is then as
    /// it was.
    pub fn observe(&mut self, item: Item) -> (r: Result<Disposition, FeedError>)
        ensures
            match old(self)@.observing(item) {
                Ok(next) => r == Ok::<_, FeedError>(disposition_of(item)) && final(self)@ == next,
                Err(e) => r == Err::<Disposition, _>(e) && final(self)@ == old(self)@,
            },
            final(self)@.consistent(),
    {
        proof {
            use_type_invariant(&*self);
        }
        if self.completed_at.is_some() {
            return Err(FeedError::JobCompleted);
        }
        let disposition = classify(item);
        let mut status = self.status;
        match status.record(disposition) {
            Err(e) => Err(e),
            Ok(()) => {
                *self = IngestionJob {
                    status,
                    observed: self.observed + 1,
                    completed_at: self.completed_at,
                };
                Ok(disposition)
            },
        }
    }

    /// Chains `count` items that were cached: cached goes down and chained
    /// goes up by `count`, in one step.
    pub fn resolve(&mut self, count: u16) -> (r: Result<(), FeedError>)
        ensures
            match old(self)@.resolving(count) {
                Ok(next) => r is Ok && final(self)@ == next,
                Err(e) => r == Err::<(), _>(e) && final(self)@ == old(self)@,
            },
            final(self)@.consistent(),
    {
        proof {
            use_type_invariant(&*self);
        }
        if self.completed_at.is_some() {
            return Err(FeedError::JobCompleted);
        }
        let mut status = self.status;
        match status.resolve(count) {
            Err(e) => Err(e),
            Ok(()) => {
                *self = IngestionJob {
                    status,
                    observed: self.observed,
                    completed_at: self.completed_at,
                };
                Ok(())
            },
        }
    }

    /// Completes the job at `now`, in seconds. Its counters are frozen from
    /// here on.
    pub fn complete(&mut self, now: u64) -> (r: Result<(), FeedError>)
        ensures
            match old(self)@.completing(now) {
                Ok(next) => r is Ok && final(self)@ == next,
                Err(e) => r == Err::<(), _>(e) && final(self)@ == old(self)@,
            },
            final(self)@.consistent(),
    {
        proof {
            use_type_invariant(&*self);
        }
        if self.completed_at.is_some() {
            return Err(FeedError::JobCompleted);
        }
        *self = IngestionJob {
            status: self.status,
            observed: self.observed,
            completed_at: Some(now),
        };
        Ok(())
    }
}

impl Default for IngestionJob {
    fn default() -> (job: IngestionJob)
        ensures
            job@ == JobView::fresh(),
    {
        IngestionJob::new()
    }
}

} // verus!
