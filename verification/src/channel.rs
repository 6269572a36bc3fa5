//! The feed channel: every ingestion job that is tracked, under its key.
//!
//! The channel alone owns the jobs. The ingestion side begins a job, delivers
//! items to it, chains what was cached and completes it; a status query only
//! reads. A completed job is kept for the retention that the channel was
//! made with: the first sweep at or after that many seconds since its
//! completion evicts it, and from then on its key is unknown. The key is then
//! free again, and a job begun under it is a new job.
//!
//! Every operation takes the channel whole, by `&mut` to change it and by `&`
//! to read it, so no reader sees a job between two states. Time is handed in
//! by the caller, in seconds on whatever clock it keeps.

use crate::error::FeedError;
use crate::job::{IngestionJob, JobView};
use crate::status::{disposition_of, Disposition, Item, StatusReply};
use vstd::prelude::*;

verus! {

/// A feed channel as a plain value.
pub struct ChannelView {
    /// How long a completed job is kept, in seconds.
    pub retention: u64,
    /// The jobs that are tracked, completed ones included until a sweep
    /// evicts them.
    pub jobs: Map<u64, JobView>,
}

impl ChannelView {
    /// A channel that tracks nothing yet.
    pub open spec fn empty(retention: u64) -> ChannelView {
        ChannelView { retention, jobs: Map::empty() }
    }

    /// Whether a job is tracked under `key`.
    pub open spec fn tracks(self, key: u64) -> bool {
        self.jobs.dom().contains(key)
    }

    /// In every job that is tracked the counters add up to the number of
    /// items delivered.
    pub open spec fn consistent(self) -> bool {
        forall|key: u64| #[trigger] self.tracks(key) ==> self.jobs[key].consistent()
    }

    /// What a status query for `key` is told.
    pub open spec fn reply(self, key: u64) -> StatusReply {
        if self.tracks(key) {
            self.jobs[key].reply()
        } else {
            StatusReply::NotFound
        }
    }

    /// The channel with the job under `key` replaced.
    pub open spec fn with_job(self, key: u64, job: JobView) -> ChannelView {
        ChannelView { jobs: self.jobs.insert(key, job), ..self }
    }

    /// The channel after a job was begun under `key`, or why none was.
    pub open spec fn beginning(self, key: u64) -> Result<ChannelView, FeedError> {
        if self.tracks(key) {
            Err(FeedError::JobExists)
        } else {
            Ok(self.with_job(key, JobView::fresh()))
        }
    }

    /// The channel after an item was delivered to the job under `key`, or
    /// why it was refused.
    pub open spec fn observing(self, key: u64, item: Item) -> Result<ChannelView, FeedError> {
        if !self.tracks(key) {
            Err(FeedError::UnknownJob)
        } else {
            match self.jobs[key].observing(item) {
                Err(e) => Err(e),
                Ok(job) => Ok(self.with_job(key, job)),
            }
        }
    }

    /// The channel after `count` cached items of the job under `key` were
    /// chained, or why they were not.
    pub open spec fn resolving(self, key: u64, count: u16) -> Result<ChannelView, FeedError> {
        if !self.tracks(key) {
            Err(FeedError::UnknownJob)
        } else {
            match self.jobs[key].resolving(count) {
                Err(e) => Err(e),
                Ok(job) => Ok(self.with_job(key, job)),
            }
        }
    }

    /// The channel after the job under `key` was completed at `now`, or why
    /// it was not.
    pub open spec fn completing(self, key: u64, now: u64) -> Result<ChannelView, FeedError> {
        if !self.tracks(key) {
            Err(FeedError::UnknownJob)
        } else {
            match self.jobs[key].completing(now) {
                Err(e) => Err(e),
                Ok(job) => Ok(self.with_job(key, job)),
            }
        }
    }

    /// Whether the sweep at `now` keeps the job under `key`.
    pub open spec fn keeps(self, key: u64, now: u64) -> bool {
        self.tracks(key) && !self.jobs[key].expired(self.retention, now)
    }

    /// The channel after the sweep at `now`: the jobs whose retention has
    /// run out are gone, the others are as they were.
    pub open spec fn sweeping(self, now: u64) -> ChannelView {
        ChannelView {
            jobs: Map::new(|key: u64| self.keeps(key, now), |key: u64| self.jobs[key]),
            ..self
        }
    }
}

/// A key under which no job was ever begun is not found.
pub proof fn lemma_never_begun_not_found(retention: u64, key: u64)
    ensures
        ChannelView::empty(retention).reply(key) == StatusReply::NotFound,
        ChannelView::empty(retention).consistent(),
{
}

/// A job that was just begun is active, with all counters at zero.
pub proof fn lemma_begun_is_active(channel: ChannelView, key: u64)
    requires
        channel.beginning(key) is Ok,
    ensures
        channel.beginning(key).unwrap().reply(key) == JobView::fresh().reply(),
        channel.reply(key) == StatusReply::NotFound,
{
}

/// A job that was completed, and that no sweep has evicted yet, is reported
/// as completed.
pub proof fn lemma_completed_until_evicted(channel: ChannelView, key: u64, at: u64, now: u64)
    requires
        channel.completing(key, at) is Ok,
    ensures
        channel.completing(key, at).unwrap().reply(key) == StatusReply::Completed,
        !channel.completing(key, at).unwrap().jobs[key].expired(channel.retention, now)
            ==> channel.completing(key, at).unwrap().sweeping(now).reply(key)
            == StatusReply::Completed,
{
}

/// Once a sweep has evicted a job, its key is not found; and a sweep evicts
/// exactly the completed jobs whose retention has run out, so it never takes
/// an active one.
pub proof fn lemma_evicted_not_found(channel: ChannelView, key: u64, now: u64)
    ensures
        channel.tracks(key) && channel.jobs[key].expired(channel.retention, now)
            ==> channel.sweeping(now).reply(key) == StatusReply::NotFound,
        channel.keeps(key, now) ==> channel.sweeping(now).reply(key) == channel.reply(key),
        channel.reply(key) is Active ==> channel.sweeping(now).reply(key) == channel.reply(key),
        !channel.tracks(key) ==> channel.sweeping(now).reply(key) == StatusReply::NotFound,
{
}

/// A job completed at `at` outlives every sweep before `at + retention` and
/// none from then on.
pub proof fn lemma_retention_is_exact(channel: ChannelView, key: u64, at: u64, now: u64)
    requires
        channel.completing(key, at) is Ok,
    ensures
        channel.completing(key, at).unwrap().sweeping(now).tracks(key) <==> now < at
            + channel.retention,
{
}

/// No job returns from completed to active: whatever is done to the channel,
/// a key that was reported as completed is reported as completed or, once
/// evicted, as not found.
pub proof fn lemma_completed_never_reactivates(
    channel: ChannelView,
    key: u64,
    other: u64,
    item: Item,
    count: u16,
    now: u64,
)
    requires
        channel.reply(key) == StatusReply::Completed,
    ensures
        channel.beginning(other) matches Ok(next) ==> next.reply(key) == StatusReply::Completed,
        channel.observing(other, item) matches Ok(next) ==> next.reply(key)
            == StatusReply::Completed,
        channel.resolving(other, count) matches Ok(next) ==> next.reply(key)
            == StatusReply::Completed,
        channel.completing(other, now) matches Ok(next) ==> next.reply(key)
            == StatusReply::Completed,
        !(channel.sweeping(now).reply(key) is Active),
{
}

/// Every step keeps the counters of every job adding up to the number of
/// items delivered to it.
pub proof fn lemma_steps_keep_sums(
    channel: ChannelView,
    key: u64,
    item: Item,
    count: u16,
    now: u64,
)
    requires
        channel.consistent(),
    ensures
        channel.beginning(key) matches Ok(next) ==> next.consistent(),
        channel.observing(key, item) matches Ok(next) ==> next.consistent()
            && next.jobs[key].observed == channel.jobs[key].observed + 1,
        channel.resolving(key, count) matches Ok(next) ==> next.consistent()
            && next.jobs[key].observed == channel.jobs[key].observed,
        channel.completing(key, now) matches Ok(next) ==> next.consistent(),
        channel.sweeping(now).consistent(),
{
    assert forall|k: u64| #[trigger] channel.tracks(k) implies channel.jobs[k].consistent() by {}
    if let Ok(next) = channel.beginning(key) {
        assert forall|k: u64| #[trigger] next.tracks(k) implies next.jobs[k].consistent() by {
            if k != key {
                assert(channel.tracks(k));
            }
        }
    }
    if let Ok(next) = channel.observing(key, item) {
        assert(channel.tracks(key));
        assert forall|k: u64| #[trigger] next.tracks(k) implies next.jobs[k].consistent() by {
            assert(channel.tracks(k));
        }
    }
    if let Ok(next) = channel.resolving(key, count) {
        assert(channel.tracks(key));
        assert forall|k: u64| #[trigger] next.tracks(k) implies next.jobs[k].consistent() by {
            assert(channel.tracks(k));
        }
    }
    if let Ok(next) = channel.completing(key, now) {
        assert(channel.tracks(key));
        assert forall|k: u64| #[trigger] next.tracks(k) implies next.jobs[k].consistent() by {
            assert(channel.tracks(k));
        }
    }
    let swept = channel.sweeping(now);
    assert forall|k: u64| #[trigger] swept.tracks(k) implies swept.jobs[k].consistent() by {
        assert(channel.tracks(k));
    }
}

/// A job and the key it is kept under.
#[derive(Clone, Copy, Debug)]
struct JobRecord {
    key: u64,
    job: IngestionJob,
}

/// No key occurs twice among the records.
spec fn distinct_keys(records: Seq<JobRecord>) -> bool {
    forall|i: int, j: int|
        0 <= i < j < records.len() ==> #[trigger] records[i].key != #[trigger] records[j].key
}

/// Whether a record is kept under `key`.
spec fn has_key(records: Seq<JobRecord>, key: u64) -> bool {
    exists|i: int| 0 <= i < records.len() && #[trigger] records[i].key == key
}

/// The place of the record that is kept under `key`.
spec fn place_of(records: Seq<JobRecord>, key: u64) -> int {
    choose|i: int| 0 <= i < records.len() && #[trigger] records[i].key == key
}

/// The jobs that the records hold, each under its key.
spec fn jobs_of(records: Seq<JobRecord>) -> Map<u64, JobView> {
    Map::new(|key: u64| has_key(records, key), |key: u64| records[place_of(records, key)].job@)
}

/// Where no key occurs twice, the record at a place is the one kept under
/// its key.
proof fn lemma_place_found(records: Seq<JobRecord>, i: int)
    requires
        distinct_keys(records),
        0 <= i < records.len(),
    ensures
        has_key(records, records[i].key),
        place_of(records, records[i].key) == i,
        jobs_of(records).dom().contains(records[i].key),
        jobs_of(records)[records[i].key] == records[i].job@,
{
    let key = records[i].key;
    assert(has_key(records, key));
    let p = place_of(records, key);
    assert(0 <= p < records.len() && records[p].key == key);
    if p < i {
        assert(records[p].key != records[i].key);
    } else if i < p {
        assert(records[i].key != records[p].key);
    }
}

/// Replacing the job at a place replaces it under its key and nowhere else.
proof fn lemma_jobs_after_update(records: Seq<JobRecord>, i: int, job: IngestionJob)
    requires
        distinct_keys(records),
        0 <= i < records.len(),
    ensures
        distinct_keys(records.update(i, JobRecord { key: records[i].key, job })),
        jobs_of(records.update(i, JobRecord { key: records[i].key, job })) == jobs_of(
            records,
        ).insert(records[i].key, job@),
{
    let key = records[i].key;
    let updated = records.update(i, JobRecord { key, job });
    assert(distinct_keys(updated)) by {
        assert forall|a: int, b: int| 0 <= a < b < updated.len() implies #[trigger] updated[a].key
            != #[trigger] updated[b].key by {
            assert(records[a].key != records[b].key);
        }
    }
    assert forall|k: u64| has_key(updated, k) <==> has_key(records, k) by {
        if has_key(updated, k) {
            let p = place_of(updated, k);
            assert(records[p].key == k);
        }
        if has_key(records, k) {
            let p = place_of(records, k);
            assert(updated[p].key == k);
        }
    }
    assert forall|k: u64| has_key(updated, k) implies #[trigger] jobs_of(updated)[k] == jobs_of(
        records,
    ).insert(key, job@)[k] by {
        let p = place_of(updated, k);
        lemma_place_found(updated, p);
        lemma_place_found(records, p);
    }
    lemma_place_found(records, i);
    assert(jobs_of(updated) =~= jobs_of(records).insert(key, job@));
}

/// Adding a record under a new key adds its job and changes nothing else.
proof fn lemma_jobs_after_push(records: Seq<JobRecord>, record: JobRecord)
    requires
        distinct_keys(records),
        !has_key(records, record.key),
    ensures
        distinct_keys(records.push(record)),
        jobs_of(records.push(record)) == jobs_of(records).insert(record.key, record.job@),
{
    let pushed = records.push(record);
    assert(distinct_keys(pushed)) by {
        assert forall|a: int, b: int| 0 <= a < b < pushed.len() implies #[trigger] pushed[a].key
            != #[trigger] pushed[b].key by {
            if b < records.len() {
                assert(records[a].key != records[b].key);
            } else {
                assert(records[a].key == pushed[a].key);
                if records[a].key == record.key {
                    assert(has_key(records, record.key));
                }
            }
        }
    }
    assert forall|k: u64| has_key(pushed, k) <==> (has_key(records, k) || k == record.key) by {
        if has_key(pushed, k) {
            let p = place_of(pushed, k);
            if p < records.len() {
                assert(records[p].key == k);
            }
        }
        if has_key(records, k) {
            let p = place_of(records, k);
            assert(pushed[p].key == k);
        }
        if k == record.key {
            assert(pushed[records.len() as int].key == k);
        }
    }
    assert forall|k: u64| has_key(pushed, k) implies #[trigger] jobs_of(pushed)[k] == jobs_of(
        records,
    ).insert(record.key, record.job@)[k] by {
        let p = place_of(pushed, k);
        lemma_place_found(pushed, p);
        if p < records.len() {
            lemma_place_found(records, p);
        }
    }
    assert(jobs_of(pushed) =~= jobs_of(records).insert(record.key, record.job@));
}

/// The feed channel.
#[derive(Debug)]
pub struct FeedChannel {
    retention: u64,
    records: Vec<JobRecord>,
}

impl View for FeedChannel {
    type V = ChannelView;

    closed spec fn view(&self) -> ChannelView {
        ChannelView { retention: self.retention, jobs: jobs_of(self.records@) }
    }
}

impl FeedChannel {
    #[verifier::type_invariant]
    spec fn well_formed(self) -> bool {
        &&& distinct_keys(self.records@)
        &&& forall|i: int|
            0 <= i < self.records@.len() ==> (#[trigger] self.records@[i]).job@.consistent()
    }

    /// The sums hold in every job of a well-formed channel.
    proof fn lemma_consistent(self)
        requires
            self.well_formed(),
        ensures
            self@.consistent(),
    {
        assert forall|key: u64| #[trigger]
            self@.tracks(key) implies self@.jobs[key].consistent() by {
            let p = place_of(self.records@, key);
            assert(self.records@[p].job@.consistent());
        }
    }

    /// A channel that tracks nothing yet and keeps completed jobs for
    /// `retention` seconds.
    pub fn new(retention: u64) -> (channel: FeedChannel)
        ensures
            channel@ == ChannelView::empty(retention),
            channel@.consistent(),
    {
        let channel = FeedChannel { retention, records: Vec::new() };
        assert(channel@.jobs =~= Map::empty());
        channel
    }

    /// How long a completed job is kept, in seconds.
    pub fn retention(&self) -> (retention: u64)
        ensures
            retention == self@.retention,
    {
        self.retention
    }

    /// The place of the record under `key`.
    fn find(&self, key: u64) -> (place: Option<usize>)
        ensures
            match place {
                Some(i) => i < self.records@.len() && self.records@[i as int].key == key
                    && self@.tracks(key) && self@.jobs[key] == self.records@[i as int].job@,
                None => !has_key(self.records@, key) && !self@.tracks(key),
            },
    {
        proof {
            use_type_invariant(self);
        }
        let mut i: usize = 0;
        while i < self.records.len()
            invariant
                i <= self.records@.len(),
                distinct_keys(self.records@),
                forall|j: int| 0 <= j < i ==> (#[trigger] self.records@[j]).key != key,
            decreases self.records@.len() - i,
        {
            if self.records[i].key == key {
                proof {
                    lemma_place_found(self.records@, i as int);
                }
                return Some(i);
            }
            i += 1;
        }
        None
    }

    /// Puts `job` in the place of the job at `place`, under the same key.
    fn put(&mut self, place: usize, job: IngestionJob)
        requires
            place < old(self).records@.len(),
        ensures
            final(self)@ == old(self)@.with_job(old(self).records@[place as int].key, job@),
            final(self)@.consistent(),
    {
        proof {
            use_type_invariant(&*self);
            use_type_invariant(&job);
            lemma_jobs_after_update(self.records@, place as int, job);
        }
        // The records are taken out, changed and put back: the channel is
        // well formed at each step, with none or all of them.
        let mut records: Vec<JobRecord> = Vec::new();
        std::mem::swap(&mut self.records, &mut records);
        let key = records[place].key;
        records[place] = JobRecord { key, job };
        std::mem::swap(&mut self.records, &mut records);
        proof {
            self.lemma_consistent();
        }
    }

    /// Adds `job` under `key`, which no record has yet.
    fn add(&mut self, key: u64, job: IngestionJob)
        requires
            !old(self)@.tracks(key),
        ensures
            final(self)@ == old(self)@.with_job(key, job@),
            final(self)@.consistent(),
    {
        let record = JobRecord { key, job };
        proof {
            use_type_invariant(&*self);
            use_type_invariant(&job);
            lemma_jobs_after_push(self.records@, record);
        }
        let mut records: Vec<JobRecord> = Vec::new();
        std::mem::swap(&mut self.records, &mut records);
        records.push(record);
        std::mem::swap(&mut self.records, &mut records);
        proof {
            self.lemma_consistent();
        }
    }

    /// Whether a job is tracked under `key`.
    pub fn tracks(&self, key: u64) -> (found: bool)
        ensures
            found == self@.tracks(key),
    {
        self.find(key).is_some()
    }

    /// The job under `key`, as it stands.
    pub fn job(&self, key: u64) -> (job: Option<IngestionJob>)
        ensures
            match job {
                Some(job) => self@.tracks(key) && job@ == self@.jobs[key] && job@.consistent(),
                None => !self@.tracks(key),
            },
    {
        proof {
            use_type_invariant(self);
        }
        match self.find(key) {
            Some(i) => Some(self.records[i].job),
            None => None,
        }
    }

    /// Answers a status query: the job under `key` as it stands at this
    /// instant. Nothing is changed.
    pub fn query(&self, key: u64) -> (reply: StatusReply)
        ensures
            reply == self@.reply(key),
            reply matches StatusReply::Active(status) ==> status.spec_total()
                == self@.jobs[key].observed,
            self@.consistent(),
    {
        proof {
            use_type_invariant(self);
            self.lemma_consistent();
        }
        match self.find(key) {
            Some(i) => self.records[i].job.reply(),
            None => StatusReply::NotFound,
        }
    }

    /// Begins a job under `key`: active, with all counters at zero.
    pub fn begin(&mut self, key: u64) -> (r: Result<(), FeedError>)
        ensures
            match old(self)@.beginning(key) {
                Ok(next) => r is Ok && final(self)@ == next,
                Err(e) => r == Err::<(), _>(e) && final(self)@ == old(self)@,
            },
            final(self)@.consistent(),
    {
        proof {
            use_type_invariant(&*self);
            self.lemma_consistent();
        }
        match self.find(key) {
            Some(_) => Err(FeedError::JobExists),
            None => {
                self.add(key, IngestionJob::new());
                Ok(())
            },
        }
    }

    /// Delivers one item to the job under `key`, which classifies and counts
    /// it.
    pub fn observe(&mut self, key: u64, item: Item) -> (r: Result<Disposition, FeedError>)
        ensures
            match old(self)@.observing(key, item) {
                Ok(next) => r == Ok::<_, FeedError>(disposition_of(item)) && final(self)@ == next,
                Err(e) => r == Err::<Disposition, _>(e) && final(self)@ == old(self)@,
            },
            final(self)@.consistent(),
    {
        proof {
            use_type_invariant(&*self);
            self.lemma_consistent();
        }
        match self.find(key) {
            None => Err(FeedError::UnknownJob),
            Some(i) => {
                let mut job = self.records[i].job;
                match job.observe(item) {
                    Err(e) => Err(e),
                    Ok(disposition) => {
                        self.put(i, job);
                        Ok(disposition)
                    },
                }
            },
        }
    }

    /// Chains `count` cached items of the job under `key`: its cached
    /// counter goes down and its chained counter goes up by `count`, in one
    /// step.
    pub fn resolve(&mut self, key: u64, count: u16) -> (r: Result<(), FeedError>)
        ensures
            match old(self)@.resolving(key, count) {
                Ok(next) => r is Ok && final(self)@ == next,
                Err(e) => r == Err::<(), _>(e) && final(self)@ == old(self)@,
            },
            final(self)@.consistent(),
    {
        proof {
            use_type_invariant(&*self);
            self.lemma_consistent();
        }
        match self.find(key) {
            None => Err(FeedError::UnknownJob),
            Some(i) => {
                let mut job = self.records[i].job;
                match job.resolve(count) {
                    Err(e) => Err(e),
                    Ok(()) => {
                        self.put(i, job);
                        Ok(())
                    },
                }
            },
        }
    }

    /// Completes the job under `key` at `now`, in seconds.
    pub fn complete(&mut self, key: u64, now: u64) -> (r: Result<(), FeedError>)
        ensures
            match old(self)@.completing(key, now) {
                Ok(next) => r is Ok && final(self)@ == next,
                Err(e) => r == Err::<(), _>(e) && final(self)@ == old(self)@,
            },
            final(self)@.consistent(),
    {
        proof {
            use_type_invariant(&*self);
            self.lemma_consistent();
        }
        match self.find(key) {
            None => Err(FeedError::UnknownJob),
            Some(i) => {
                let mut job = self.records[i].job;
                match job.complete(now) {
                    Err(e) => Err(e),
                    Ok(()) => {
                        self.put(i, job);
                        Ok(())
                    },
                }
            },
        }
    }

    /// Sweeps at `now`, in seconds: evicts every completed job whose
    /// retention has run out, and no other.
    pub fn sweep(&mut self, now: u64)
        ensures
            final(self)@ == old(self)@.sweeping(now),
            final(self)@.consistent(),
    {
        proof {
            use_type_invariant(&*self);
        }
        let ghost before = self.records@;
        let retention = self.retention;
        let mut kept: Vec<JobRecord> = Vec::new();
        let mut i: usize = 0;
        while i < self.records.len()
            invariant
                i <= self.records@.len(),
                self.records@ == before,
                distinct_keys(before),
                distinct_keys(kept@),
                forall|a: int|
                    0 <= a < kept@.len() ==> before.subrange(0, i as int).contains(
                        #[trigger] kept@[a],
                    ) && !kept@[a].job@.expired(retention, now),
                forall|j: int|
                    0 <= j < i && !(#[trigger] before[j]).job@.expired(retention, now)
                        ==> kept@.contains(before[j]),
            decreases self.records@.len() - i,
        {
            let record = self.records[i];
            let ghost earlier = kept@;
            let ghost seen = before.subrange(0, i as int);
            let ghost seen_next = before.subrange(0, i + 1);
            proof {
                assert forall|r: JobRecord| seen.contains(r) implies seen_next.contains(r) by {
                    let j = choose|j: int| 0 <= j < seen.len() && seen[j] == r;
                    assert(seen_next[j] == r);
                }
                assert(seen_next[i as int] == record);
            }
            if !record.job.expired(retention, now) {
                proof {
                    if has_key(earlier, record.key) {
                        let a = place_of(earlier, record.key);
                        assert(seen.contains(earlier[a]));
                        let j = choose|j: int| 0 <= j < seen.len() && seen[j] == earlier[a];
                        assert(before[j].key != before[i as int].key);
                    }
                    lemma_jobs_after_push(earlier, record);
                }
                kept.push(record);
                proof {
                    assert forall|j: int|
                        0 <= j < i + 1 && !(#[trigger] before[j]).job@.expired(
                            retention,
                            now,
                        ) implies kept@.contains(before[j]) by {
                        if j < i {
                            assert(earlier.contains(before[j]));
                            let a = choose|a: int|
                                0 <= a < earlier.len() && earlier[a] == before[j];
                            assert(kept@[a] == before[j]);
                        } else {
                            assert(kept@[earlier.len() as int] == before[j]);
                        }
                    }
                }
            }
            i += 1;
        }
        proof {
            let swept = (ChannelView { retention, jobs: jobs_of(before) }).sweeping(now);
            assert(before.subrange(0, i as int) =~= before);
            assert forall|key: u64| has_key(kept@, key) <==> swept.jobs.dom().contains(key) by {
                if has_key(kept@, key) {
                    let a = place_of(kept@, key);
                    assert(before.contains(kept@[a]));
                    let j = choose|j: int| 0 <= j < before.len() && before[j] == kept@[a];
                    lemma_place_found(before, j);
                }
                if swept.jobs.dom().contains(key) {
                    let j = place_of(before, key);
                    lemma_place_found(before, j);
                    assert(kept@.contains(before[j]));
                    let a = choose|a: int| 0 <= a < kept@.len() && kept@[a] == before[j];
                    assert(kept@[a].key == key);
                }
            }
            assert forall|key: u64| has_key(kept@, key) implies #[trigger] jobs_of(kept@)[key]
                == swept.jobs[key] by {
                let a = place_of(kept@, key);
                lemma_place_found(kept@, a);
                assert(before.contains(kept@[a]));
                let j = choose|j: int| 0 <= j < before.len() && before[j] == kept@[a];
                lemma_place_found(before, j);
            }
            assert(jobs_of(kept@) =~= swept.jobs);
            assert forall|a: int| 0 <= a < kept@.len() implies (#[trigger]
                kept@[a]).job@.consistent() by {
                assert(before.contains(kept@[a]));
                let j = choose|j: int| 0 <= j < before.len() && before[j] == kept@[a];
                assert(before[j].job@.consistent());
            }
        }
        self.records = kept;
        proof {
            self.lemma_consistent();
        }
    }
}

} // verus!
