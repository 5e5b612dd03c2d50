use rand::distributions::Distribution;
use rand::distributions::Uniform;
use rand::SeedableRng;
use rand_xoshiro::Xoshiro256StarStar;

use cxl::rpc::Command;
use cxl::worker::WorkerAction;
use cxl::worker::WorkerState;

#[test]
fn malloc_assigns_consecutive_indices() {
    let mut s = WorkerState::new(2);
    for expected in 0..5 {
        match s.apply(&Command::Malloc { size: 64 }) {
            Ok(WorkerAction::Allocate { size, index }) => {
                assert_eq!(size, 64);
                assert_eq!(index, expected);
            }
            other => panic!("malloc gave {:?}", action_kind(&other)),
        }
    }
}

#[test]
fn free_releases_the_recorded_handle() {
    let mut s = WorkerState::new(2);
    let index = match s.apply(&Command::Malloc { size: 32 }) {
        Ok(WorkerAction::Allocate { index, .. }) => index,
        other => panic!("malloc gave {:?}", action_kind(&other)),
    };
    s.record_allocation(index, 0xAB00);
    assert_eq!(s.outstanding(), 1);
    match s.apply(&Command::Free { index }) {
        Ok(WorkerAction::Release { handle }) => assert_eq!(handle, 0xAB00),
        other => panic!("free gave {:?}", action_kind(&other)),
    }
    assert_eq!(s.outstanding(), 0);
}

#[test]
fn free_of_unknown_index_is_an_index_error() {
    let mut s = WorkerState::new(2);
    match s.apply(&Command::Free { index: 3 }) {
        Err(e) => assert_eq!(e.index, 3),
        Ok(a) => panic!("stray free gave {:?}", action_kind(&Ok(a))),
    }
    // A double free errs the second time.
    let index = match s.apply(&Command::Malloc { size: 8 }) {
        Ok(WorkerAction::Allocate { index, .. }) => index,
        other => panic!("malloc gave {:?}", action_kind(&other)),
    };
    s.record_allocation(index, 1);
    assert!(s.apply(&Command::Free { index }).is_ok());
    assert!(s.apply(&Command::Free { index }).is_err());
}

#[test]
fn synchronous_crash_terminates_now() {
    let mut s = WorkerState::new(2);
    assert!(matches!(
        s.apply(&Command::Crash { delay: 0, random: false }),
        Ok(WorkerAction::CrashNow)
    ));
    // delay 0 terminates synchronously whatever the random flag says.
    assert!(matches!(
        s.apply(&Command::Crash { delay: 0, random: true }),
        Ok(WorkerAction::CrashNow)
    ));
}

#[test]
fn fixed_delay_crash_keeps_the_delay() {
    let mut s = WorkerState::new(2);
    match s.apply(&Command::Crash { delay: 1_000_000, random: false }) {
        Ok(WorkerAction::CrashAfter { delay_ns }) => assert_eq!(delay_ns, 1_000_000),
        other => panic!("crash gave {:?}", action_kind(&other)),
    }
}

#[test]
fn random_delay_crash_draws_from_the_workers_own_stream() {
    let mut s = WorkerState::new(2);
    let delay = 1_000_000u64;
    let drawn = match s.apply(&Command::Crash { delay, random: true }) {
        Ok(WorkerAction::CrashAfter { delay_ns }) => delay_ns,
        other => panic!("crash gave {:?}", action_kind(&other)),
    };
    let mut rng = Xoshiro256StarStar::seed_from_u64(2);
    let expected = Uniform::new_inclusive(0u64, delay).sample(&mut rng);
    assert_eq!(drawn, expected);
    assert!(drawn <= delay);
}

#[test]
fn init_recover_exit_pass_through() {
    let mut s = WorkerState::new(2);
    match s.apply(&Command::Init { id: String::from("rs"), size: 512 }) {
        Ok(WorkerAction::InitHeap { id, size }) => {
            assert_eq!(id, "rs");
            assert_eq!(size, 512);
        }
        other => panic!("init gave {:?}", action_kind(&other)),
    }
    assert!(matches!(s.apply(&Command::Recover), Ok(WorkerAction::RecoverHeap)));
    assert!(matches!(s.apply(&Command::Exit), Ok(WorkerAction::ExitClean)));
}

fn action_kind(r: &Result<WorkerAction, cxl::worker::IndexError>) -> &'static str {
    match r {
        Ok(WorkerAction::CrashNow) => "CrashNow",
        Ok(WorkerAction::CrashAfter { .. }) => "CrashAfter",
        Ok(WorkerAction::InitHeap { .. }) => "InitHeap",
        Ok(WorkerAction::Allocate { .. }) => "Allocate",
        Ok(WorkerAction::Release { .. }) => "Release",
        Ok(WorkerAction::RecoverHeap) => "RecoverHeap",
        Ok(WorkerAction::ExitClean) => "ExitClean",
        Err(_) => "IndexError",
    }
}
