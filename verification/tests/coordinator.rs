use cxl::coordinator::teardown_plan;
use cxl::coordinator::Command as RunCommand;
use cxl::coordinator::CrashPolicy;
use cxl::coordinator::Step;
use cxl::coordinator::TeardownAction;
use cxl::coordinator::WorkerStatus;
use cxl::rpc::Command;
use cxl::workload::Workload;

fn scenario() -> RunCommand {
    RunCommand {
        seed: 35092,
        heap_id: String::from("rs"),
        heap_size: 7516258304,
        batch: 100,
        rounds: 100,
    }
}

/// The crash round of the scenario, drawn the way the crash policy draws it:
/// from the worker's own generator, before any round is replayed.
fn scenario_crash_round() -> usize {
    let mut w = Workload::new(100, 35092);
    w.draw_round(100)
}

#[test]
fn init_batch_carries_heap_id_and_size() {
    let cfg = scenario();
    let b = cfg.init_batch();
    assert_eq!(b.len(), 1);
    assert_eq!(b[0], Command::Init { id: String::from("rs"), size: 7516258304 });
}

#[test]
fn crash_free_workers_get_every_round() {
    // Workers 0, 1 and 3 of the scenario: 100 batches of 200 commands each.
    let cfg = scenario();
    let batches = cfg.crash_free();
    assert_eq!(batches.len(), 100);
    for b in &batches {
        assert_eq!(b.len(), 200);
    }
}

#[test]
fn crash_with_restart_replays_the_whole_stream() {
    let cfg = scenario();
    let steps = cfg.crash(true);
    let c = scenario_crash_round();
    assert_eq!(steps.len(), 100 + 3);

    // The batches it would have produced had it never crashed: the same
    // generator, after the same crash-round draw, run for all 100 rounds.
    let mut reference = Workload::new(100, 35092);
    let c_again = reference.draw_round(100);
    assert_eq!(c_again, c);
    let uninterrupted: Vec<Vec<Command>> = (0..100).map(|_| reference.next()).collect();

    for r in 0..c {
        match &steps[r] {
            Step::Send(b) => assert_eq!(b, &uninterrupted[r]),
            other => panic!("step {} is {:?}", r, kind(other)),
        }
    }
    match &steps[c] {
        Step::Send(b) => {
            assert_eq!(b.len(), 1);
            assert_eq!(b[0], Command::Crash { delay: 0, random: false });
        }
        other => panic!("crash step is {:?}", kind(other)),
    }
    assert!(matches!(steps[c + 1], Step::Restart));
    match &steps[c + 2] {
        Step::Send(b) => {
            assert_eq!(b.len(), 2);
            assert_eq!(b[0], Command::Init { id: String::from("rs"), size: 7516258304 });
            assert_eq!(b[1], Command::Recover);
        }
        other => panic!("reinit step is {:?}", kind(other)),
    }
    for r in c..100 {
        match &steps[r + 3] {
            Step::Send(b) => assert_eq!(b, &uninterrupted[r]),
            other => panic!("resumed step {} is {:?}", r, kind(other)),
        }
    }
}

#[test]
fn crash_without_restart_stops_at_the_crash() {
    let cfg = scenario();
    let steps = cfg.crash(false);
    let c = scenario_crash_round();
    assert_eq!(steps.len(), c + 2);
    for r in 0..c {
        assert!(matches!(steps[r], Step::Send(_)));
    }
    match &steps[c] {
        Step::Send(b) => {
            assert_eq!(b.len(), 1);
            assert_eq!(b[0], Command::Crash { delay: 0, random: false });
        }
        other => panic!("crash step is {:?}", kind(other)),
    }
    assert!(matches!(steps[c + 1], Step::AwaitTermination));
}

#[test]
fn plan_for_worker_dispatches_on_the_policy() {
    let cfg = scenario();
    let policy = CrashPolicy::One { id: 2, restart: false };
    let c = scenario_crash_round();
    let crashed = cfg.plan_for_worker(2, &policy);
    assert_eq!(crashed.len(), c + 2);
    let spared = cfg.plan_for_worker(3, &policy);
    assert_eq!(spared.len(), 100);
    assert!(spared.iter().all(|s| matches!(s, Step::Send(_))));
    let crash_free = cfg.plan_for_worker(2, &CrashPolicy::Zero);
    assert_eq!(crash_free.len(), 100);
}

#[test]
fn teardown_touches_every_live_worker_exactly_once() {
    let status = vec![
        WorkerStatus::Live,
        WorkerStatus::Live,
        WorkerStatus::Terminated,
        WorkerStatus::Live,
    ];
    let plan = teardown_plan(&status);
    let mut exits = vec![0usize; 4];
    let mut waits = vec![0usize; 4];
    let mut seen_wait = false;
    for action in &plan {
        match action {
            TeardownAction::SendExit { worker } => {
                assert!(!seen_wait, "an Exit was sent after a wait began");
                exits[*worker] += 1;
            }
            TeardownAction::Wait { worker } => {
                seen_wait = true;
                waits[*worker] += 1;
            }
        }
    }
    // Exactly one Exit and one wait for each live worker; the confirmed
    // terminated worker 2 is not touched at all.
    assert_eq!(exits, vec![1, 1, 0, 1]);
    assert_eq!(waits, vec![1, 1, 0, 1]);
}

#[test]
fn teardown_of_all_live_and_all_terminated() {
    let all_live = vec![WorkerStatus::Live; 3];
    assert_eq!(teardown_plan(&all_live).len(), 6);
    let all_done = vec![WorkerStatus::Terminated; 3];
    assert_eq!(teardown_plan(&all_done).len(), 0);
}

fn kind(s: &Step) -> &'static str {
    match s {
        Step::Send(_) => "Send",
        Step::AwaitTermination => "AwaitTermination",
        Step::Restart => "Restart",
    }
}
