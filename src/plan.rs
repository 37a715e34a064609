use vstd::prelude::*;

use crate::config::{Setup, BATCH_SIZE, DATA_LEN, DRAIN_EVERY, TOTAL};

verus! {

/// The shape of one run: `total` bytes written as `total / chunk` writes of
/// `chunk` bytes, enqueued `batch` at a time, with a non-blocking drain of
/// completions after every `drain_every`-th submitted round.
#[derive(Debug, Clone, Copy, PartialEq, Eq, Structural)]
pub struct WritePlan {
    pub total: u64,
    pub chunk: u64,
    pub batch: u64,
    pub drain_every: u64,
}

/// One operation placed on the submission queue.
#[derive(Debug, Clone, Copy, PartialEq, Eq, Structural)]
pub enum Op {
    /// Reserve `[0, len)` of the file.
    Fallocate { len: u64 },
    /// Write one payload unit of `len` bytes at `offset`.
    Write { offset: u64, len: u64 },
    /// Flush the file to durable storage.
    Fsync,
}

/// Largest file offset the kernel interface takes (`off_t`).
pub const MAX_OFFSET: u64 = 9223372036854775807;

/// Largest submission batch: the ring's queue holds twice a batch, as a `u32`.
pub const MAX_BATCH: u64 = 2147483647;

/// What makes a plan usable: the writes tile the file exactly, the rounds
/// hold every write, offsets fit `off_t`, and the queue depth fits a `u32`.
pub open spec fn plan_valid(total: u64, chunk: u64, batch: u64, drain_every: u64) -> bool {
    &&& chunk > 0
    &&& batch > 0
    &&& drain_every > 0
    &&& total % chunk == 0
    &&& (total / chunk) % batch == 0
    &&& total <= MAX_OFFSET
    &&& batch <= MAX_BATCH
}

impl WritePlan {
    pub open spec fn valid(&self) -> bool {
        plan_valid(self.total, self.chunk, self.batch, self.drain_every)
    }

    /// Number of write operations in a run.
    pub open spec fn num_pages(&self) -> nat {
        (self.total / self.chunk) as nat
    }

    /// Byte range `[start, end)` written by the `n`-th write.
    pub open spec fn page_start(&self, n: int) -> int {
        n * self.chunk
    }

    pub open spec fn page_end(&self, n: int) -> int {
        n * self.chunk + self.chunk
    }

    /// The write whose range holds byte `b`.
    pub open spec fn page_of(&self, b: int) -> int {
        b / self.chunk as int
    }

    /// A plan from its four parameters, or `None` where they are not usable.
    pub fn new(total: u64, chunk: u64, batch: u64, drain_every: u64) -> (r: Option<WritePlan>)
        ensures
            r.is_some() <==> plan_valid(total, chunk, batch, drain_every),
            r.is_some() ==> r.unwrap() == (WritePlan { total, chunk, batch, drain_every }),
    {
        if chunk == 0 || batch == 0 || drain_every == 0 || total > MAX_OFFSET || batch > MAX_BATCH {
            return None;
        }
        if total % chunk != 0 || (total / chunk) % batch != 0 {
            return None;
        }
        Some(WritePlan { total, chunk, batch, drain_every })
    }

    /// The plan of a full-size run.
    pub fn standard() -> (r: WritePlan)
        ensures
            r.valid(),
            r == (WritePlan {
                total: TOTAL,
                chunk: DATA_LEN,
                batch: BATCH_SIZE,
                drain_every: DRAIN_EVERY,
            }),
    {
        let r = WritePlan { total: TOTAL, chunk: DATA_LEN, batch: BATCH_SIZE, drain_every: DRAIN_EVERY };
        assert(r.valid());
        r
    }

    /// Number of write operations in a run.
    pub fn pages(&self) -> (r: u64)
        requires
            self.valid(),
        ensures
            r == self.num_pages(),
    {
        self.total / self.chunk
    }

    /// Entries the ring's queues are sized for: two batches, so a full batch
    /// fits while earlier completions are still draining.
    pub fn queue_depth(&self) -> (r: u32)
        requires
            self.valid(),
        ensures
            r == 2 * self.batch,
    {
        (2 * self.batch) as u32
    }

    /// File offset of the `n`-th write, counted over the whole run.
    pub fn write_offset(&self, n: u64) -> (r: u64)
        requires
            self.valid(),
            n < self.num_pages(),
        ensures
            r == self.page_start(n as int),
            r + self.chunk <= self.total,
    {
        proof {
            lemma_page_in_file(*self, n as int);
        }
        n * self.chunk
    }
}

/// The `n`-th write lies inside the file.
pub proof fn lemma_page_in_file(plan: WritePlan, n: int)
    requires
        plan.valid(),
        0 <= n < plan.num_pages(),
    ensures
        0 <= plan.page_start(n),
        plan.page_end(n) <= plan.total,
{
    let c = plan.chunk as int;
    let p = plan.num_pages() as int;
    assert(plan.total as int == p * c) by {
        vstd::arithmetic::div_mod::lemma_fundamental_div_mod(plan.total as int, c);
    }
    assert(0 <= n * c) by (nonlinear_arith)
        requires 0 <= n, 0 < c;
    assert(n * c + c <= p * c) by (nonlinear_arith)
        requires n + 1 <= p, 0 < c;
}

/// The writes of a run, in issue order: the `n`-th covers `[n * chunk, n * chunk + chunk)`.
pub open spec fn write_ops(plan: WritePlan) -> Seq<Op> {
    Seq::new(plan.num_pages(), |n: int| Op::Write { offset: (n * plan.chunk) as u64, len: plan.chunk })
}

/// Every operation a run issues, in order: the optional reservation of the
/// whole file, every write, then the optional flush.
pub open spec fn schedule(plan: WritePlan, setup: Setup) -> Seq<Op> {
    let pre: Seq<Op> = if setup.fallocate { seq![Op::Fallocate { len: plan.total }] } else { seq![] };
    let post: Seq<Op> = if setup.fsync { seq![Op::Fsync] } else { seq![] };
    pre + write_ops(plan) + post
}

/// Number of operations issued before the first write.
pub open spec fn lead_ops(setup: Setup) -> nat {
    if setup.fallocate { 1 } else { 0 }
}

/// Number of operations issued after the last write.
pub open spec fn trail_ops(setup: Setup) -> nat {
    if setup.fsync { 1 } else { 0 }
}

/// End of the file extent an operation leaves behind (a reservation without
/// keep-size grows the file as a write does).
pub open spec fn op_end(op: Op) -> int {
    match op {
        Op::Fallocate { len } => len as int,
        Op::Write { offset, len } => offset + len,
        Op::Fsync => 0,
    }
}

/// Byte `b` is written by some operation of `ops`.
pub open spec fn written(ops: Seq<Op>, b: int) -> bool {
    exists|k: int|
        0 <= k < ops.len() && (#[trigger] ops[k]) is Write && ops[k]->Write_offset <= b
            < ops[k]->Write_offset + ops[k]->Write_len
}

/// The file that `ops` produce from an empty file has exactly `size` bytes.
pub open spec fn grows_to(ops: Seq<Op>, size: int) -> bool {
    &&& forall|k: int| 0 <= k < ops.len() ==> op_end(#[trigger] ops[k]) <= size
    &&& size > 0 ==> exists|k: int| 0 <= k < ops.len() && op_end(#[trigger] ops[k]) == size
}

/// Contents of the first `size` bytes after `ops` ran on an empty file, every
/// write carrying `fill`: written bytes hold `fill`, holes read as zero.
pub open spec fn contents(ops: Seq<Op>, size: nat, fill: u8) -> Seq<u8> {
    Seq::new(size, |b: int| if written(ops, b) { fill } else { 0u8 })
}

/// Positions in a run's schedule: the reservation comes first, the `n`-th
/// write stands at `lead_ops + n`, and the flush comes last.
pub proof fn lemma_schedule_layout(plan: WritePlan, setup: Setup)
    requires
        plan.valid(),
    ensures
        schedule(plan, setup).len() == lead_ops(setup) + plan.num_pages() + trail_ops(setup),
        setup.fallocate ==> schedule(plan, setup)[0] == (Op::Fallocate { len: plan.total }),
        forall|n: int|
            0 <= n < plan.num_pages() ==> #[trigger] schedule(plan, setup)[lead_ops(setup) + n]
                == (Op::Write { offset: (n * plan.chunk) as u64, len: plan.chunk }),
        setup.fsync ==> schedule(plan, setup)[schedule(plan, setup).len() - 1] == Op::Fsync,
{
}

/// The writes of a run tile the file: the ranges of two distinct writes are
/// disjoint, each lies in `[0, total)`, and every byte of `[0, total)` lies in
/// one of them.
pub proof fn lemma_pages_tile_file(plan: WritePlan)
    requires
        plan.valid(),
    ensures
        forall|i: int, j: int|
            0 <= i < plan.num_pages() && 0 <= j < plan.num_pages() && i != j ==> (
            #[trigger] plan.page_end(i) <= plan.page_start(j) || #[trigger] plan.page_end(j)
                <= plan.page_start(i)),
        forall|i: int|
            0 <= i < plan.num_pages() ==> 0 <= #[trigger] plan.page_start(i) && plan.page_end(i)
                <= plan.total,
        forall|b: int|
            0 <= b < plan.total ==> 0 <= #[trigger] plan.page_of(b) < plan.num_pages()
                && plan.page_start(plan.page_of(b)) <= b < plan.page_end(plan.page_of(b)),
{
    let c = plan.chunk as int;
    assert forall|i: int, j: int|
        0 <= i < plan.num_pages() && 0 <= j < plan.num_pages() && i != j implies (
        #[trigger] plan.page_end(i) <= plan.page_start(j) || #[trigger] plan.page_end(j)
            <= plan.page_start(i)) by {
        if i < j {
            assert(i * c + c <= j * c) by (nonlinear_arith)
                requires i + 1 <= j, 0 < c;
        } else {
            assert(j * c + c <= i * c) by (nonlinear_arith)
                requires j + 1 <= i, 0 < c;
        }
    }
    assert forall|i: int|
        0 <= i < plan.num_pages() implies 0 <= #[trigger] plan.page_start(i) && plan.page_end(i)
            <= plan.total by {
        lemma_page_in_file(plan, i);
    }
    assert forall|b: int| 0 <= b < plan.total implies 0 <= #[trigger] plan.page_of(b)
        < plan.num_pages() && plan.page_start(plan.page_of(b)) <= b < plan.page_end(
        plan.page_of(b),
    ) by {
        let i = b / c;
        vstd::arithmetic::div_mod::lemma_fundamental_div_mod(b, c);
        vstd::arithmetic::div_mod::lemma_div_is_ordered(b, plan.total as int, c);
        assert(b / c < plan.total as int / c) by {
            vstd::arithmetic::div_mod::lemma_fundamental_div_mod(plan.total as int, c);
            let p = plan.total as int / c;
            assert(i < p) by (nonlinear_arith)
                requires b == c * i + b % c, 0 <= b % c < c, b < plan.total, plan.total == c * p, 0 < c;
        }
        assert(plan.page_start(i) <= b < plan.page_end(i)) by (nonlinear_arith)
            requires b == c * i + b % c, 0 <= b % c < c, plan.page_start(i) == i * c,
                plan.page_end(i) == i * c + c;
    }
}

/// A run fills the file: whatever the setup, the file ends with exactly
/// `total` bytes and every one of them holds the payload.
pub proof fn lemma_run_fills_file(plan: WritePlan, setup: Setup, fill: u8)
    requires
        plan.valid(),
    ensures
        grows_to(schedule(plan, setup), plan.total as int),
        contents(schedule(plan, setup), plan.total as nat, fill) == Seq::new(
            plan.total as nat,
            |_b: int| fill,
        ),
{
    let s = schedule(plan, setup);
    let lead = lead_ops(setup) as int;
    let p = plan.num_pages() as int;
    lemma_schedule_layout(plan, setup);
    lemma_pages_tile_file(plan);
    assert forall|k: int| 0 <= k < s.len() implies op_end(#[trigger] s[k]) <= plan.total by {
        if lead <= k < lead + p {
            assert(s[lead + (k - lead)] == s[k]);
            lemma_page_in_file(plan, k - lead);
        }
    }
    if plan.total > 0 {
        assert(plan.total as int == p * plan.chunk) by {
            vstd::arithmetic::div_mod::lemma_fundamental_div_mod(plan.total as int, plan.chunk as int);
        }
        assert(p > 0) by (nonlinear_arith)
            requires plan.total as int == p * plan.chunk, plan.total > 0;
        lemma_page_in_file(plan, p - 1);
        assert((p - 1) * plan.chunk + plan.chunk == p * plan.chunk) by (nonlinear_arith);
        assert(op_end(s[lead + (p - 1)]) == plan.total);
    }
    assert forall|b: int| 0 <= b < plan.total implies written(s, b) by {
        let i = plan.page_of(b);
        lemma_page_in_file(plan, i);
        assert(s[lead + i] is Write);
    }
    assert(contents(s, plan.total as nat, fill) =~= Seq::new(plan.total as nat, |_b: int| fill));
}

/// The optional reservation and flush leave the file unchanged: two runs of
/// one plan under any two setups produce the same file.
pub proof fn lemma_setup_keeps_contents(plan: WritePlan, a: Setup, b: Setup, fill: u8)
    requires
        plan.valid(),
    ensures
        contents(schedule(plan, a), plan.total as nat, fill) == contents(
            schedule(plan, b),
            plan.total as nat,
            fill,
        ),
        grows_to(schedule(plan, a), plan.total as int) && grows_to(
            schedule(plan, b),
            plan.total as int,
        ),
{
    lemma_run_fills_file(plan, a, fill);
    lemma_run_fills_file(plan, b, fill);
}

/// The operations of a run, in the order they are issued.
pub fn operations(plan: &WritePlan, setup: Setup) -> (r: Vec<Op>)
    requires
        plan.valid(),
    ensures
        r@ == schedule(*plan, setup),
{
    let mut ops: Vec<Op> = Vec::new();
    if setup.fallocate {
        ops.push(Op::Fallocate { len: plan.total });
    }
    let pages = plan.pages();
    let ghost pre: Seq<Op> = ops@;
    let mut n: u64 = 0;
    while n < pages
        invariant
            plan.valid(),
            pages == plan.num_pages(),
            n <= pages,
            pre == (if setup.fallocate { seq![Op::Fallocate { len: plan.total }] } else { seq![] }),
            ops@ == pre + write_ops(*plan).take(n as int),
        decreases pages - n,
    {
        let offset = plan.write_offset(n);
        ops.push(Op::Write { offset, len: plan.chunk });
        proof {
            assert(write_ops(*plan).take(n + 1) =~= write_ops(*plan).take(n as int).push(
                Op::Write { offset, len: plan.chunk },
            ));
        }
        n += 1;
    }
    assert(write_ops(*plan).take(n as int) =~= write_ops(*plan));
    if setup.fsync {
        ops.push(Op::Fsync);
    }
    assert(ops@ =~= schedule(*plan, setup));
    ops
}

} // verus!
