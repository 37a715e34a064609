use io_uring_write_file::engine::count_failures;
use io_uring_write_file::{Action, Engine, EngineError, Op, Setup, Timer, WritePlan};

/// A kernel stand-in: submitted operations complete with `result`, on a
/// drain only when `drain_sees_all` holds, always on a wait.
struct Run {
    actions: Vec<Action>,
    engine: Engine,
    max_queued: u64,
}

fn run(plan: WritePlan, setup: Setup, drain_sees_all: bool, result: i32) -> Run {
    let mut engine = Engine::new(plan, setup);
    let mut queued: u64 = 0;
    let mut in_kernel: u64 = 0;
    let mut max_queued: u64 = 0;
    let mut harvested: Vec<i32> = Vec::new();
    let mut actions = Vec::new();
    loop {
        let action = engine.advance(&harvested).unwrap();
        harvested.clear();
        assert!(engine.completed_count() <= engine.required_count());
        actions.push(action);
        match action {
            Action::Enqueue(_) => {
                queued += 1;
                max_queued = max_queued.max(queued);
            }
            Action::Submit => {
                in_kernel += queued;
                queued = 0;
            }
            Action::Drain => {
                if drain_sees_all {
                    harvested = vec![result; in_kernel as usize];
                    in_kernel = 0;
                }
            }
            Action::Wait { want } => {
                assert!(want <= in_kernel);
                harvested = vec![result; in_kernel as usize];
                in_kernel = 0;
            }
            Action::Done => break,
        }
        assert!(actions.len() < 100_000);
    }
    Run { actions, engine, max_queued }
}

fn enqueued(actions: &[Action]) -> Vec<Op> {
    actions
        .iter()
        .filter_map(|a| match a {
            Action::Enqueue(op) => Some(*op),
            _ => None,
        })
        .collect()
}

fn position(actions: &[Action], wanted: Action) -> usize {
    actions.iter().position(|a| *a == wanted).unwrap()
}

fn small() -> WritePlan {
    WritePlan::new(4096, 1024, 1, 4).unwrap()
}

fn setup(fsync: bool, fallocate: bool) -> Setup {
    Setup { fsync, direct: false, fallocate }
}

fn writes() -> Vec<Op> {
    vec![
        Op::Write { offset: 0, len: 1024 },
        Op::Write { offset: 1024, len: 1024 },
        Op::Write { offset: 2048, len: 1024 },
        Op::Write { offset: 3072, len: 1024 },
    ]
}

#[test]
fn scenario_a_plain_run() {
    let r = run(small(), setup(false, false), true, 0);
    assert_eq!(enqueued(&r.actions), writes());
    assert_eq!(r.engine.required_count(), 4);
    assert_eq!(r.engine.completed_count(), 4);
    assert_eq!(r.engine.failed_count(), 0);
    assert_eq!(r.actions.last(), Some(&Action::Done));
}

#[test]
fn scenario_b_reservation_goes_first() {
    let r = run(small(), setup(false, true), true, 0);
    let ops = enqueued(&r.actions);
    assert_eq!(ops[0], Op::Fallocate { len: 4096 });
    assert_eq!(ops[1..].to_vec(), writes());
    assert_eq!(r.actions[0], Action::Enqueue(Op::Fallocate { len: 4096 }));
    assert_eq!(r.actions[1], Action::Submit);
    assert_eq!(r.engine.required_count(), 5);
    assert_eq!(r.engine.completed_count(), 5);
}

#[test]
fn scenario_c_flush_after_all_writes() {
    let r = run(small(), setup(true, false), false, 0);
    let ops = enqueued(&r.actions);
    assert_eq!(ops[..4].to_vec(), writes());
    assert_eq!(ops[4], Op::Fsync);
    let flush = position(&r.actions, Action::Enqueue(Op::Fsync));
    let last_write = position(&r.actions, Action::Enqueue(Op::Write { offset: 3072, len: 1024 }));
    assert!(last_write < flush);
    assert_eq!(r.actions[last_write + 1], Action::Submit);
    assert_eq!(r.actions[flush + 1], Action::Submit);
    assert_eq!(r.engine.required_count(), 5);
    assert_eq!(r.engine.completed_count(), 5);
}

#[test]
fn scenario_d_same_writes_whatever_the_setup() {
    let base = run(small(), setup(false, false), true, 0);
    for (fsync, fallocate) in [(true, false), (false, true), (true, true)] {
        let other = run(small(), setup(fsync, fallocate), true, 0);
        let ops: Vec<Op> = enqueued(&other.actions)
            .into_iter()
            .filter(|op| matches!(op, Op::Write { .. }))
            .collect();
        assert_eq!(ops, enqueued(&base.actions));
    }
}

#[test]
fn waits_for_exactly_the_missing_completions() {
    let r = run(small(), setup(true, true), false, 0);
    let waits: Vec<&Action> = r.actions.iter().filter(|a| matches!(a, Action::Wait { .. })).collect();
    assert_eq!(waits, vec![&Action::Wait { want: 6 }]);
    assert_eq!(r.engine.completed_count(), 6);
}

#[test]
fn drains_after_every_fourth_round() {
    let plan = WritePlan::new(9 * 1024, 1024, 1, 4).unwrap();
    let r = run(plan, setup(false, false), false, 0);
    let drains: Vec<usize> = r
        .actions
        .iter()
        .enumerate()
        .filter(|(_, a)| **a == Action::Drain)
        .map(|(i, _)| i)
        .collect();
    // Rounds 0, 4 and 8: each drain follows the enqueue and submit of its round.
    assert_eq!(drains.len(), 3);
    assert_eq!(drains[0], 2);
    assert_eq!(r.actions[drains[1] - 1], Action::Submit);
}

#[test]
fn queue_never_holds_more_than_a_batch() {
    let plan = WritePlan::new(64 * 1024, 1024, 8, 2).unwrap();
    let r = run(plan, setup(true, true), true, 0);
    assert_eq!(r.max_queued, 8);
    assert!(r.max_queued <= plan.queue_depth() as u64);
    assert_eq!(r.engine.completed_count(), 66);
}

#[test]
fn failed_completions_are_counted() {
    let r = run(small(), setup(true, false), false, -5);
    assert_eq!(r.engine.completed_count(), 5);
    assert_eq!(r.engine.failed_count(), 5);
}

#[test]
fn too_many_completions_is_an_error() {
    let mut e = Engine::new(small(), setup(false, false));
    assert_eq!(e.advance(&[]), Ok(Action::Enqueue(Op::Write { offset: 0, len: 1024 })));
    assert_eq!(e.advance(&[]), Ok(Action::Submit));
    assert_eq!(e.in_flight(), 1);
    assert_eq!(
        e.advance(&[0, 0]),
        Err(EngineError::TooManyCompletions { reported: 2, in_flight: 1 })
    );
    assert_eq!(e.completed_count(), 0);
    assert_eq!(e.advance(&[]), Ok(Action::Drain));
    assert_eq!(
        e.advance(&[0]),
        Ok(Action::Enqueue(Op::Write { offset: 1024, len: 1024 }))
    );
    assert_eq!(e.completed_count(), 1);
}

#[test]
fn empty_plan_is_done_at_once() {
    let mut e = Engine::new(WritePlan::new(0, 1024, 1, 4).unwrap(), setup(false, false));
    assert_eq!(e.advance(&[]), Ok(Action::Done));
    assert_eq!(e.required_count(), 0);
}

#[test]
fn counts_negative_results() {
    assert_eq!(count_failures(&[]), 0);
    assert_eq!(count_failures(&[0, -1, 4096, -22]), 2);
}

#[test]
fn timer_measures_elapsed_time() {
    let t = Timer::start();
    let d = t.stop();
    assert!(d.as_secs() < 60);
}
