//! A minimal time-ordered job queue: jobs ordered by their run time, ties
//! kept in insertion order, and a per-tick poll that removes every job whose
//! run time has elapsed. Dispatching the popped jobs is an open extension
//! point; the polling loop and its sleeps live outside the library.

use vstd::prelude::*;

verus! {

/// A scheduled job: when to run it (epoch seconds) and its type.
#[derive(Debug, Clone)]
pub struct ScheduledJob {
    /// When to run the job, in seconds since the epoch.
    pub run_at: u64,
    /// Job name or type.
    pub job_type: String,
}

impl PartialEq for ScheduledJob {
    /// Jobs are equal when both the run time and the type agree.
    fn eq(&self, other: &Self) -> (r: bool) {
        self.run_at == other.run_at && self.job_type == other.job_type
    }
}

impl vstd::std_specs::cmp::PartialEqSpecImpl for ScheduledJob {
    open spec fn obeys_eq_spec() -> bool {
        true
    }

    open spec fn eq_spec(&self, other: &Self) -> bool {
        self.run_at == other.run_at && self.job_type@ == other.job_type@
    }
}

impl Eq for ScheduledJob {

}

impl PartialOrd for ScheduledJob {
    /// Jobs are ordered by run time alone.
    fn partial_cmp(&self, other: &Self) -> (r: Option<core::cmp::Ordering>) {
        if self.run_at < other.run_at {
            Some(core::cmp::Ordering::Less)
        } else if self.run_at == other.run_at {
            Some(core::cmp::Ordering::Equal)
        } else {
            Some(core::cmp::Ordering::Greater)
        }
    }
}

impl vstd::std_specs::cmp::PartialOrdSpecImpl for ScheduledJob {
    open spec fn obeys_partial_cmp_spec() -> bool {
        true
    }

    open spec fn partial_cmp_spec(&self, other: &Self) -> Option<core::cmp::Ordering> {
        if self.run_at < other.run_at {
            Some(core::cmp::Ordering::Less)
        } else if self.run_at == other.run_at {
            Some(core::cmp::Ordering::Equal)
        } else {
            Some(core::cmp::Ordering::Greater)
        }
    }
}

/// Jobs sorted by run time, ascending.
pub open spec fn sorted_by_run_at(s: Seq<ScheduledJob>) -> bool {
    forall|i: int, j: int| 0 <= i <= j < s.len() ==> #[trigger] s[i].run_at <= #[trigger] s[j].run_at
}

/// The position after every job due at or before `t`: since the queue is
/// sorted, the index of the first job with a later run time. Ties therefore
/// keep first-in-first-out order.
pub open spec fn first_later(s: Seq<ScheduledJob>, t: u64) -> nat
    decreases s.len(),
{
    if s.len() == 0 {
        0
    } else if s[0].run_at > t {
        0
    } else {
        1 + first_later(s.skip(1), t)
    }
}

/// `first_later` is exactly the scanned position.
pub proof fn lemma_first_later_is(s: Seq<ScheduledJob>, t: u64, k: int)
    requires
        0 <= k <= s.len(),
        forall|m: int| 0 <= m < k ==> (#[trigger] s[m]).run_at <= t,
        k == s.len() || s[k].run_at > t,
    ensures
        first_later(s, t) == k,
    decreases s.len(),
{
    if k > 0 {
        let rest = s.skip(1);
        assert forall|m: int| 0 <= m < k - 1 implies (#[trigger] rest[m]).run_at <= t by {
            assert(rest[m] == s[m + 1]);
        }
        if k - 1 < rest.len() {
            assert(rest[k - 1] == s[k]);
        }
        lemma_first_later_is(rest, t, k - 1);
    }
}

/// The time-ordered job queue.
pub struct Scheduler {
    jobs: Vec<ScheduledJob>,
}

impl View for Scheduler {
    type V = Seq<ScheduledJob>;

    closed spec fn view(&self) -> Seq<ScheduledJob> {
        self.jobs@
    }
}

impl Scheduler {
    /// The queue is always sorted by run time.
    pub open spec fn well_formed(&self) -> bool {
        sorted_by_run_at(self@)
    }

    /// Create an empty scheduler.
    pub fn new() -> (s: Self)
        ensures
            s@ =~= Seq::<ScheduledJob>::empty(),
            s.well_formed(),
    {
        Scheduler { jobs: Vec::new() }
    }

    /// Number of queued jobs.
    pub fn len(&self) -> (n: usize)
        ensures
            n == self@.len(),
    {
        self.jobs.len()
    }

    /// Schedule a job: it enters after every job due at or before its run
    /// time, so equal run times are served first-in-first-out.
    pub fn schedule(&mut self, job: ScheduledJob)
        requires
            old(self).well_formed(),
        ensures
            final(self)@ == old(self)@.insert(
                first_later(old(self)@, job.run_at) as int,
                job,
            ),
            final(self).well_formed(),
    {
        let ghost orig = self.jobs@;
        let t = job.run_at;
        let mut i: usize = 0;
        while i < self.jobs.len() && self.jobs[i].run_at <= t
            invariant
                i <= self.jobs.len(),
                self.jobs@ == orig,
                forall|m: int| 0 <= m < i ==> (#[trigger] orig[m]).run_at <= t,
            decreases self.jobs.len() - i,
        {
            i += 1;
        }
        proof {
            lemma_first_later_is(orig, t, i as int);
        }
        self.jobs.insert(i, job);
        proof {
            let pos = i as int;
            let now = self.jobs@;
            assert forall|a: int, b: int| 0 <= a <= b < now.len() implies (#[trigger] now[a]).run_at
                <= (#[trigger] now[b]).run_at by {
                // jobs before the insertion point are due at or before t;
                // sortedness puts every later job above t
                assert(forall|m: int| 0 <= m < pos ==> (#[trigger] orig[m]).run_at <= t);
                assert(forall|m: int|
                    pos <= m < orig.len() ==> t < (#[trigger] orig[m]).run_at) by {
                    assert forall|m: int| pos <= m < orig.len() implies t < (
                    #[trigger] orig[m]).run_at by {
                        assert(orig[pos].run_at <= orig[m].run_at);
                    }
                }
                if a < pos {
                    assert(now[a] == orig[a]);
                } else if a == pos {
                    assert(now[a] == job);
                } else {
                    assert(now[a] == orig[a - 1]);
                }
                if b < pos {
                    assert(now[b] == orig[b]);
                } else if b == pos {
                    assert(now[b] == job);
                } else {
                    assert(now[b] == orig[b - 1]);
                }
            }
        }
    }

    /// Remove and return, in order, every job due at or before `now`. The
    /// remainder keeps its order; everything left is due strictly later.
    pub fn pop_due(&mut self, now: u64) -> (due: Vec<ScheduledJob>)
        requires
            old(self).well_formed(),
        ensures
            due@ == old(self)@.take(first_later(old(self)@, now) as int),
            final(self)@ == old(self)@.skip(first_later(old(self)@, now) as int),
            final(self).well_formed(),
            forall|m: int| 0 <= m < due@.len() ==> (#[trigger] due@[m]).run_at <= now,
            forall|m: int| 0 <= m < final(self)@.len() ==> (#[trigger] final(self)@[m]).run_at > now,
    {
        let ghost orig = self.jobs@;
        let mut due: Vec<ScheduledJob> = Vec::new();
        while self.jobs.len() > 0 && self.jobs[0].run_at <= now
            invariant
                sorted_by_run_at(orig),
                due@ + self.jobs@ =~= orig,
                forall|m: int| 0 <= m < due@.len() ==> (#[trigger] due@[m]).run_at <= now,
            decreases self.jobs.len(),
        {
            let j = self.jobs.remove(0);
            due.push(j);
        }
        proof {
            assert forall|m: int| 0 <= m < due@.len() implies (#[trigger] orig[m]).run_at <= now by {
                assert(orig[m] == due@[m]);
            }
            if self.jobs.len() > 0 {
                assert(orig[due@.len() as int] == self.jobs@[0]);
            }
            lemma_first_later_is(orig, now, due@.len() as int);
            assert(due@ =~= orig.take(due@.len() as int));
            assert(self.jobs@ =~= orig.skip(due@.len() as int));
            assert forall|m: int| 0 <= m < self.jobs@.len() implies (#[trigger] self.jobs@[m]).run_at
                > now by {
                if self.jobs.len() > 0 {
                    assert(self.jobs@[0].run_at > now);
                    assert(self.jobs@[m] == orig[due@.len() + m]);
                    assert(orig[due@.len() as int] == self.jobs@[0]);
                    assert(orig[due@.len() as int].run_at <= orig[due@.len() + m].run_at);
                }
            }
            assert forall|a: int, b: int| 0 <= a <= b < self.jobs@.len() implies (
            #[trigger] self.jobs@[a]).run_at <= (#[trigger] self.jobs@[b]).run_at by {
                assert(self.jobs@[a] == orig[due@.len() + a]);
                assert(self.jobs@[b] == orig[due@.len() + b]);
            }
        }
        due
    }

    /// One poll: read the clock and pop everything already due. The caller
    /// runs this periodically and dispatches the returned jobs.
    pub fn tick(&mut self) -> (due: Vec<ScheduledJob>)
        requires
            old(self).well_formed(),
        ensures
            final(self).well_formed(),
            exists|now: u64|
                {
                    &&& due@ == old(self)@.take(#[trigger] first_later(old(self)@, now) as int)
                    &&& final(self)@ == old(self)@.skip(first_later(old(self)@, now) as int)
                },
    {
        let now = now_epoch_seconds();
        let due = self.pop_due(now);
        proof {
            assert(due@ == old(self)@.take(first_later(old(self)@, now) as int) && self@ == old(
                self,
            )@.skip(first_later(old(self)@, now) as int));
        }
        due
    }
}

/// Read the wall clock.
///
/// Relies on `chrono::Utc::now` and `timestamp()`: the current time in whole
/// seconds since the epoch. `Utc::now` panics if the system clock is set
/// before the epoch; whenever it returns, the timestamp is nonnegative.
/// Nothing is promised about the value.
#[verifier::external_body]
fn now_epoch_seconds() -> u64 {
    chrono::Utc::now().timestamp() as u64
}

} // verus!
