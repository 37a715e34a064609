use vstd::prelude::*;

use crate::config::Setup;
use crate::plan::{
    contents, grows_to, lead_ops, lemma_run_fills_file, lemma_schedule_layout, schedule, Op, WritePlan,
};

verus! {

/// The next step for the driver of the ring.
#[derive(Debug, Clone, Copy, PartialEq, Eq, Structural)]
pub enum Action {
    /// Place the operation on the submission queue.
    Enqueue(Op),
    /// Hand every queued entry to the kernel without waiting.
    Submit,
    /// Harvest the completions already available, without blocking.
    Drain,
    /// Block until at least `want` completions are available, then harvest them.
    Wait { want: u64 },
    /// Every operation has completed.
    Done,
}

/// A report that the ring cannot have produced.
#[derive(Debug, Clone, Copy, PartialEq, Eq, Structural)]
pub enum EngineError {
    /// More completions were reported than operations were in flight.
    TooManyCompletions { reported: u64, in_flight: u64 },
}

/// The accounting of a run, as counts.
pub struct EngineView {
    pub plan: WritePlan,
    pub setup: Setup,
    /// Operations placed on the submission queue so far.
    pub enqueued: nat,
    /// Operations on the queue that were not handed to the kernel yet.
    pub queued: nat,
    /// Operations handed to the kernel.
    pub submitted: nat,
    /// Completions harvested.
    pub completed: nat,
    /// Completions the run waits for: every write, plus the reservation and
    /// the flush once they were issued.
    pub required: nat,
    /// Harvested completions that reported an error.
    pub failed: nat,
    /// The operations enqueued so far, in order.
    pub issued: Seq<Op>,
    /// A non-blocking drain follows once completions are outstanding.
    pub drain_pending: bool,
    /// Steps left before the run only waits for completions: three for each
    /// operation not enqueued yet, two for each queued one, one for a drain
    /// that is due.
    pub work_left: nat,
}

/// Number of negative results (failed operations) among `results`.
pub open spec fn failures(results: Seq<i32>) -> nat
    decreases results.len(),
{
    if results.len() == 0 {
        0
    } else {
        failures(results.drop_last()) + if results.last() < 0 { 1nat } else { 0nat }
    }
}

/// Counts the failed operations among harvested completion results.
pub fn count_failures(results: &[i32]) -> (r: u64)
    ensures
        r == failures(results@),
        r <= results@.len(),
{
    let mut n: u64 = 0;
    let mut i: usize = 0;
    while i < results.len()
        invariant
            i <= results@.len(),
            n == failures(results@.take(i as int)),
            n <= i,
        decreases results@.len() - i,
    {
        assert(results@.take(i + 1).drop_last() =~= results@.take(i as int));
        if results[i] < 0 {
            n += 1;
        }
        i += 1;
    }
    assert(results@.take(i as int) =~= results@);
    n
}

/// The submit/complete protocol of one run, as a state machine.
///
/// Each call of `advance` reports the completions harvested since the last
/// call and returns the next step. The steps enqueue the run's operations in
/// schedule order, submit the reservation on its own, submit the writes a
/// batch at a time, drain without blocking after every `drain_every`-th
/// round, submit the flush after the last write, and then wait until every
/// issued operation has completed.
pub struct Engine {
    plan: WritePlan,
    setup: Setup,
    prealloc_sent: bool,
    next_write: u64,
    slot: u64,
    rounds: u64,
    flush_sent: bool,
    queued: u64,
    submitted: u64,
    completed: u64,
    required: u64,
    failed: u64,
    drain_due: bool,
    issued: Ghost<Seq<Op>>,
}

impl View for Engine {
    type V = EngineView;

    closed spec fn view(&self) -> EngineView {
        EngineView {
            plan: self.plan,
            setup: self.setup,
            enqueued: self.enqueued_count(),
            queued: self.queued as nat,
            submitted: self.submitted as nat,
            completed: self.completed as nat,
            required: self.required as nat,
            failed: self.failed as nat,
            issued: self.issued@,
            drain_pending: self.drain_due,
            work_left: (3 * (schedule(self.plan, self.setup).len() - self.enqueued_count()) + 2
                * self.queued + (if self.drain_due { 1int } else { 0int })) as nat,
        }
    }
}

impl EngineView {
    /// Number of operations the whole run issues.
    pub open spec fn run_len(&self) -> nat {
        schedule(self.plan, self.setup).len()
    }

    /// The queued entries form a group that goes to the kernel now: the
    /// reservation alone, a full batch of writes, the last writes, or the flush.
    pub open spec fn submit_due(&self) -> bool {
        &&& self.queued > 0
        &&& self.queued == self.plan.batch || self.enqueued <= lead_ops(self.setup)
            || self.enqueued >= lead_ops(self.setup) + self.plan.num_pages()
    }

    /// Submitting the queued entries closes a round of writes whose index
    /// (counted from zero) is a multiple of `drain_every`.
    pub open spec fn drains_after_submit(&self) -> bool {
        let w = self.enqueued - lead_ops(self.setup);
        &&& 0 < w <= self.plan.num_pages()
        &&& (w / self.plan.batch as int - 1) % self.plan.drain_every as int == 0
    }

    /// The protocol's next step once `completed` completions were harvested
    /// in all: a due drain while operations are in flight; else a due
    /// submission; else the next operation of the schedule; else a wait for
    /// every missing completion; else the end of the run.
    pub open spec fn next_step(&self, completed: nat) -> Action {
        if self.drain_pending && completed < self.submitted {
            Action::Drain
        } else if self.submit_due() {
            Action::Submit
        } else if self.enqueued < self.run_len() {
            Action::Enqueue(schedule(self.plan, self.setup)[self.enqueued as int])
        } else if completed < self.required {
            Action::Wait { want: (self.required - completed) as u64 }
        } else {
            Action::Done
        }
    }

    /// Every operation was issued, handed to the kernel and completed.
    pub open spec fn finished(&self) -> bool {
        &&& self.enqueued == self.run_len()
        &&& self.queued == 0
        &&& self.completed == self.required
    }
}

impl Engine {
    closed spec fn enqueued_count(&self) -> nat {
        ((if self.prealloc_sent { 1int } else { 0int }) + self.next_write + (if self.flush_sent {
            1int
        } else {
            0int
        })) as nat
    }

    pub closed spec fn wf(&self) -> bool {
        let p = self.plan.num_pages();
        &&& self.plan.valid()
        &&& self.next_write <= p
        &&& self.slot <= self.plan.batch
        &&& self.rounds + self.slot <= self.next_write
        &&& self.rounds * self.plan.batch + self.slot == self.next_write
        &&& (self.slot == 0 && self.queued == 1) ==> ((self.prealloc_sent && self.next_write == 0)
            || self.flush_sent)
        &&& self.prealloc_sent ==> self.setup.fallocate
        &&& (self.setup.fallocate && !self.prealloc_sent) ==> (self.next_write == 0
            && self.queued == 0 && !self.flush_sent)
        &&& self.flush_sent ==> (self.setup.fsync && self.next_write == p && self.slot == 0)
        &&& self.slot > 0 ==> self.queued == self.slot
        &&& self.slot == 0 ==> self.queued <= 1
        &&& self.drain_due ==> self.queued == 0
        &&& self.submitted + self.queued == self@.enqueued
        &&& self.completed <= self.submitted
        &&& self.failed <= self.completed
        &&& self.issued@ == schedule(self.plan, self.setup).take(self@.enqueued as int)
        &&& self.required == p + (if self.prealloc_sent { 1nat } else { 0nat }) + (if self.flush_sent { 1nat } else { 0nat })
    }

    /// A run of `plan` under `setup` that has issued nothing yet.
    pub fn new(plan: WritePlan, setup: Setup) -> (r: Engine)
        requires
            plan.valid(),
        ensures
            r.wf(),
            r@.plan == plan,
            r@.setup == setup,
            r@.enqueued == 0,
            r@.queued == 0,
            r@.submitted == 0,
            r@.completed == 0,
            r@.failed == 0,
            r@.required == plan.num_pages(),
            r@.issued == Seq::<Op>::empty(),
            r@.work_left == 3 * r@.run_len(),
    {
        let pages = plan.pages();
        assert(schedule(plan, setup).take(0) =~= Seq::<Op>::empty());
        Engine {
            plan,
            setup,
            prealloc_sent: false,
            next_write: 0,
            slot: 0,
            rounds: 0,
            flush_sent: false,
            queued: 0,
            submitted: 0,
            completed: 0,
            required: pages,
            failed: 0,
            drain_due: false,
            issued: Ghost(Seq::empty()),
        }
    }

    /// Completions harvested so far.
    pub fn completed_count(&self) -> (r: u64)
        ensures
            r == self@.completed,
    {
        self.completed
    }

    /// Completions the run waits for, as far as it has issued operations.
    pub fn required_count(&self) -> (r: u64)
        ensures
            r == self@.required,
    {
        self.required
    }

    /// Harvested completions that reported an error.
    pub fn failed_count(&self) -> (r: u64)
        ensures
            r == self@.failed,
    {
        self.failed
    }

    /// Operations handed to the kernel whose completion was not harvested yet.
    pub fn in_flight(&self) -> (r: u64)
        requires
            self.wf(),
        ensures
            r == self@.submitted - self@.completed,
    {
        self.submitted - self.completed
    }

    /// Appends to the log of issued operations the one that the schedule
    /// places next.
    fn note_issued(&mut self, op: Op)
        requires
            old(self)@.enqueued < old(self)@.run_len(),
            old(self).issued@ == schedule(old(self).plan, old(self).setup).take(
                old(self)@.enqueued as int,
            ),
            op == schedule(old(self).plan, old(self).setup)[old(self)@.enqueued as int],
        ensures
            final(self).issued@ == schedule(old(self).plan, old(self).setup).take(
                old(self)@.enqueued + 1int,
            ),
            final(self).issued@ == old(self).issued@.push(op),
            final(self).plan == old(self).plan,
            final(self).setup == old(self).setup,
            final(self).prealloc_sent == old(self).prealloc_sent,
            final(self).next_write == old(self).next_write,
            final(self).slot == old(self).slot,
            final(self).rounds == old(self).rounds,
            final(self).flush_sent == old(self).flush_sent,
            final(self).queued == old(self).queued,
            final(self).submitted == old(self).submitted,
            final(self).completed == old(self).completed,
            final(self).required == old(self).required,
            final(self).failed == old(self).failed,
            final(self).drain_due == old(self).drain_due,
    {
        proof {
            let s = schedule(self.plan, self.setup);
            assert(s.take(self@.enqueued + 1int) =~= s.take(self@.enqueued as int).push(op));
        }
        self.issued = Ghost(self.issued@.push(op));
    }

    /// Records the completions harvested since the last call and returns the
    /// next step.
    #[verifier::rlimit(60)]
    pub fn advance(&mut self, harvested: &[i32]) -> (r: Result<Action, EngineError>)
        requires
            old(self).wf(),
        ensures
            final(self).wf(),
            final(self)@.plan == old(self)@.plan,
            final(self)@.setup == old(self)@.setup,
            r.is_err() <==> harvested@.len() > old(self)@.submitted - old(self)@.completed,
            r.is_err() ==> r == Err::<Action, EngineError>(
                EngineError::TooManyCompletions {
                    reported: harvested@.len() as u64,
                    in_flight: (old(self)@.submitted - old(self)@.completed) as u64,
                },
            ) && final(self)@ == old(self)@,
            ((r matches Ok(Action::Enqueue(_))) || (r matches Ok(Action::Submit)) || (r matches Ok(Action::Drain)))
                ==> final(self)@.work_left < old(self)@.work_left,
            ((r matches Ok(Action::Wait { .. })) || (r matches Ok(Action::Done)))
                ==> final(self)@.work_left == 0,
            (old(self)@.work_left == 0 && harvested@.len() == old(self)@.required - old(self)@.completed)
                ==> r == Ok::<Action, EngineError>(Action::Done),
            !(r matches Ok(Action::Enqueue(_))) ==> final(self)@.issued == old(self)@.issued,
            r.is_ok() ==> r == Ok::<Action, EngineError>(
                old(self)@.next_step((old(self)@.completed + harvested@.len()) as nat),
            ),
            r.is_ok() ==> final(self)@.drain_pending == (r == Ok::<Action, EngineError>(Action::Submit)
                && old(self)@.drains_after_submit()),
            r.is_ok() ==> final(self)@.completed == old(self)@.completed + harvested@.len()
                && final(self)@.failed == old(self)@.failed + failures(harvested@),
            r.is_ok() ==> (r == Ok::<Action, EngineError>(Action::Done) <==> final(self)@.finished()),
            match r {
                Ok(Action::Enqueue(op)) => {
                    &&& old(self)@.enqueued < old(self)@.run_len()
                    &&& op == schedule(old(self)@.plan, old(self)@.setup)[old(self)@.enqueued as int]
                    &&& final(self)@.enqueued == old(self)@.enqueued + 1
                    &&& final(self)@.queued == old(self)@.queued + 1
                    &&& final(self)@.issued == old(self)@.issued.push(op)
                    &&& final(self)@.submitted == old(self)@.submitted
                },
                Ok(Action::Submit) => {
                    &&& old(self)@.queued > 0
                    &&& final(self)@.queued == 0
                    &&& final(self)@.submitted == old(self)@.submitted + old(self)@.queued
                    &&& final(self)@.enqueued == old(self)@.enqueued
                },
                Ok(Action::Drain) => {
                    &&& final(self)@.enqueued == old(self)@.enqueued
                    &&& final(self)@.queued == old(self)@.queued
                    &&& final(self)@.submitted == old(self)@.submitted
                    &&& final(self)@.completed < final(self)@.submitted
                },
                Ok(Action::Wait { want }) => {
                    &&& final(self)@.enqueued == final(self)@.run_len()
                    &&& final(self)@.queued == 0
                    &&& final(self)@.submitted == final(self)@.required
                    &&& want > 0
                    &&& want == final(self)@.required - final(self)@.completed
                    &&& final(self)@.enqueued == old(self)@.enqueued
                },
                Ok(Action::Done) => final(self)@.enqueued == old(self)@.enqueued,
                Err(_) => true,
            },
    {
        proof {
            lemma_schedule_layout(self.plan, self.setup);
        }
        let in_flight = self.submitted - self.completed;
        let reported = harvested.len() as u64;
        if reported > in_flight {
            return Err(EngineError::TooManyCompletions { reported, in_flight });
        }
        let failed_now = count_failures(harvested);
        self.completed = self.completed + reported;
        self.failed = self.failed + failed_now;
        let pages = self.plan.pages();
        if self.drain_due {
            self.drain_due = false;
            if self.submitted > self.completed {
                return Ok(Action::Drain);
            }
        }
        if self.queued > 0 && (self.slot == 0 || self.slot == self.plan.batch || self.next_write == pages) {
            self.submitted = self.submitted + self.queued;
            self.queued = 0;
            if self.slot > 0 {
                proof {
                    let b = self.plan.batch as int;
                    let k = pages as int / b;
                    let r = self.rounds as int;
                    let sl = self.slot as int;
                    vstd::arithmetic::div_mod::lemma_fundamental_div_mod(pages as int, b);
                    if self.next_write == pages {
                        assert(sl == b) by (nonlinear_arith)
                            requires r * b + sl == k * b, 0 < sl <= b, pages as int == b * k + 0;
                    }
                    assert(r * b + b == (r + 1) * b) by (nonlinear_arith);
                    vstd::arithmetic::div_mod::lemma_div_by_multiple(r + 1, b);
                    assert(self.next_write as int / b - 1 == r);
                }
                self.drain_due = self.rounds % self.plan.drain_every == 0;
                self.rounds = self.rounds + 1;
                self.slot = 0;
            }
            return Ok(Action::Submit);
        }
        if self.setup.fallocate && !self.prealloc_sent {
            let op = Op::Fallocate { len: self.plan.total };
            self.note_issued(op);
            self.prealloc_sent = true;
            self.queued = 1;
            self.required = self.required + 1;
            return Ok(Action::Enqueue(op));
        }
        if self.next_write < pages {
            let offset = self.plan.write_offset(self.next_write);
            proof {
                assert(lead_ops(self.setup) + self.next_write == old(self)@.enqueued);
                assert(schedule(self.plan, self.setup)[lead_ops(self.setup) + self.next_write]
                    == Op::Write { offset, len: self.plan.chunk });
            }
            let op = Op::Write { offset, len: self.plan.chunk };
            self.note_issued(op);
            self.next_write = self.next_write + 1;
            self.slot = self.slot + 1;
            self.queued = self.queued + 1;
            return Ok(Action::Enqueue(op));
        }
        if self.setup.fsync && !self.flush_sent {
            self.note_issued(Op::Fsync);
            self.flush_sent = true;
            self.queued = 1;
            self.required = self.required + 1;
            return Ok(Action::Enqueue(Op::Fsync));
        }
        if self.completed < self.required {
            return Ok(Action::Wait { want: self.required - self.completed });
        }
        Ok(Action::Done)
    }
}

/// A finished run issued exactly the run's schedule, so the file it leaves
/// has `total` bytes, each holding the payload.
pub proof fn lemma_finished_run_fills_file(e: &Engine, fill: u8)
    requires
        e.wf(),
        e@.finished(),
    ensures
        e@.issued == schedule(e@.plan, e@.setup),
        e@.completed == e@.required,
        e@.required == e@.run_len(),
        grows_to(e@.issued, e@.plan.total as int),
        contents(e@.issued, e@.plan.total as nat, fill) == Seq::new(e@.plan.total as nat, |_b: int| fill),
{
    lemma_schedule_layout(e.plan, e.setup);
    assert(schedule(e.plan, e.setup).take(e@.enqueued as int) =~= schedule(e.plan, e.setup));
    lemma_run_fills_file(e.plan, e.setup, fill);
}

/// Completion accounting holds in every state of a run: no more completions
/// are counted than operations were submitted, no more are submitted than
/// issued, no more are issued than required, the submission queue never
/// holds more than one batch, and the required count never exceeds the run.
pub proof fn lemma_accounting(e: &Engine)
    requires
        e.wf(),
    ensures
        e@.completed <= e@.submitted,
        e@.submitted <= e@.enqueued,
        e@.enqueued <= e@.required,
        e@.required <= e@.run_len(),
        e@.queued <= e@.plan.batch,
        e@.failed <= e@.completed,
{
    lemma_schedule_layout(e.plan, e.setup);
}

} // verus!
