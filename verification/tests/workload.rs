use rand::distributions::Distribution;
use rand::distributions::Uniform;
use rand::seq::SliceRandom;
use rand::SeedableRng;
use rand_xoshiro::Xoshiro256StarStar;

use cxl::rpc::Command;
use cxl::workload::Workload;

/// One round computed directly with the rand crates, exactly as the workload
/// generator is specified: `batch` sizes from `[1, 8193]`, then the shuffle
/// buffer permuted in place and offset by the round's first index.
fn reference_round(
    rng: &mut Xoshiro256StarStar,
    shuffle: &mut Vec<usize>,
    round: usize,
    batch: usize,
) -> Vec<Command> {
    let sizes = Uniform::new_inclusive(1u64, 8193u64);
    let mut cmds = Vec::new();
    for _ in 0..batch {
        cmds.push(Command::Malloc { size: sizes.sample(rng) as usize });
    }
    shuffle.shuffle(rng);
    for k in 0..batch {
        cmds.push(Command::Free { index: shuffle[k] + round * batch });
    }
    cmds
}

#[test]
fn determinism_two_generators_agree() {
    let mut a = Workload::new(64, 35092);
    let mut b = Workload::new(64, 35092);
    for _ in 0..20 {
        assert_eq!(a.next(), b.next());
    }
}

#[test]
fn different_seeds_differ() {
    let mut a = Workload::new(64, 35092);
    let mut b = Workload::new(64, 35093);
    assert_ne!(a.next(), b.next());
}

#[test]
fn matches_the_rand_crates_directly() {
    let batch = 16;
    let seed = 35092;
    let mut w = Workload::new(batch, seed);
    let mut rng = Xoshiro256StarStar::seed_from_u64(seed);
    let mut shuffle: Vec<usize> = (0..batch).collect();
    for round in 0..8 {
        let expected = reference_round(&mut rng, &mut shuffle, round, batch);
        assert_eq!(w.next(), expected);
    }
}

#[test]
fn draw_round_matches_the_rand_crates_directly() {
    let seed = 35092;
    let mut w = Workload::new(100, seed);
    let c = w.draw_round(100);
    let mut rng = Xoshiro256StarStar::seed_from_u64(seed);
    let expected = Uniform::new_inclusive(0u64, 99u64).sample(&mut rng) as usize;
    assert_eq!(c, expected);
    assert!(c < 100);
}

#[test]
fn same_round_pairing() {
    let batch = 100;
    let mut w = Workload::new(batch, 35092);
    for round in 0..10 {
        let cmds = w.next();
        assert_eq!(cmds.len(), 2 * batch);
        for k in 0..batch {
            match cmds[k] {
                Command::Malloc { size } => assert!((1..=8193).contains(&size)),
                ref other => panic!("slot {} of round {} is {:?}", k, round, other),
            }
        }
        let mut freed: Vec<usize> = cmds[batch..]
            .iter()
            .map(|c| match c {
                Command::Free { index } => *index,
                other => panic!("free half holds {:?}", other),
            })
            .collect();
        freed.sort();
        let expected: Vec<usize> = (round * batch..(round + 1) * batch).collect();
        assert_eq!(freed, expected);
    }
}

#[test]
fn smallest_batch_size() {
    let mut w = Workload::new(1, 7);
    let cmds = w.next();
    assert_eq!(cmds.len(), 2);
    assert!(matches!(cmds[0], Command::Malloc { .. }));
    assert_eq!(cmds[1], Command::Free { index: 0 });
    let cmds = w.next();
    assert_eq!(cmds[1], Command::Free { index: 1 });
}
