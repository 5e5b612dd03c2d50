//! Deterministic, seed-driven generation of allocation/free command batches.
//!
//! For a round `r` the generator emits `batch` `Malloc` commands whose sizes
//! are drawn uniformly from `[1, 8193]`, followed by `batch` `Free` commands
//! whose indices are `{0, ..., batch-1}` under a freshly drawn permutation,
//! offset by `r * batch`. The generator is a pure function of its seed: its
//! whole evolution is captured by [`WorkloadModel`] and [`model_step`].

use vstd::prelude::*;
use rand::distributions::Distribution;
use rand::distributions::Uniform;
use rand::seq::SliceRandom;
use rand::SeedableRng;
use rand_xoshiro::Xoshiro256StarStar;
use crate::rpc::Command;

verus! {

/// Smallest allocation size a `Malloc` command may carry.
pub const MIN_ALLOC_SIZE: u64 = 1;

/// Largest allocation size a `Malloc` command may carry.
pub const MAX_ALLOC_SIZE: u64 = 8193;

#[verifier::external_type_specification]
#[verifier::external_body]
pub struct ExXoshiro256StarStar(Xoshiro256StarStar);

/// The four 64-bit state words of a xoshiro256** generator seeded from the
/// given value. Named, not written out: the seeding routine (SplitMix64 over
/// PCG output) is an outside algorithm; all the harness needs is that the
/// state is a function of the seed alone.
pub uninterp spec fn xoshiro_seed_state(seed: u64) -> Seq<u64>;

/// The value drawn uniformly from `[lo, hi]` by a xoshiro256** generator in
/// the given state, together with the state the draw leaves behind.
pub uninterp spec fn uniform_draw(lo: u64, hi: u64, state: Seq<u64>) -> (u64, Seq<u64>);

/// The permutation a Fisher-Yates shuffle applies to the given sequence when
/// driven by a xoshiro256** generator in the given state, together with the
/// state the shuffle leaves behind.
pub uninterp spec fn shuffle_draw(v: Seq<usize>, state: Seq<u64>) -> (Seq<usize>, Seq<u64>);

/// A xoshiro256** generator paired with the ghost model of its state words.
/// Every mutation goes through a trusted wrapper that advances the model in
/// lockstep, so the model determines every future draw.
pub struct SeededRng {
    pub inner: Xoshiro256StarStar,
    /// Ghost model of the generator's four state words.
    pub state: Ghost<Seq<u64>>,
}

/// Relies on rand_xoshiro::Xoshiro256StarStar::seed_from_u64: the generator's
/// state (four 64-bit words, filled by SplitMix64) is a function of the seed
/// alone, with no other entropy.
#[verifier::external_body]
pub fn rng_from_seed(seed: u64) -> (r: SeededRng)
    ensures
        r.state@ == xoshiro_seed_state(seed),
{
    SeededRng { inner: Xoshiro256StarStar::seed_from_u64(seed), state: Ghost(Seq::empty()) }
}

/// Relies on rand::distributions::Uniform::new_inclusive and
/// rand::distributions::Distribution::sample: `new_inclusive(lo, hi)` samples
/// uniformly from the closed range `[lo, hi]` (it panics when `lo > hi`, which
/// the precondition rules out), and with a xoshiro256** generator the value
/// drawn and the state left behind are functions of the bounds and the state
/// alone.
#[verifier::external_body]
pub fn sample_inclusive(rng: &mut SeededRng, lo: u64, hi: u64) -> (r: u64)
    requires
        lo <= hi,
    ensures
        r == uniform_draw(lo, hi, old(rng).state@).0,
        final(rng).state@ == uniform_draw(lo, hi, old(rng).state@).1,
        lo <= r <= hi,
{
    Uniform::new_inclusive(lo, hi).sample(&mut rng.inner)
}

/// Relies on rand::seq::SliceRandom::shuffle: it permutes the slice in place
/// by Fisher-Yates swaps, so the result holds exactly the old elements, and
/// with a xoshiro256** generator the permutation chosen and the state left
/// behind are functions of the slice contents and the state alone.
#[verifier::external_body]
pub fn shuffle_indices(v: &mut Vec<usize>, rng: &mut SeededRng)
    ensures
        final(v)@ == shuffle_draw(old(v)@, old(rng).state@).0,
        final(rng).state@ == shuffle_draw(old(v)@, old(rng).state@).1,
        final(v)@.to_multiset() == old(v)@.to_multiset(),
{
    v.shuffle(&mut rng.inner)
}

/// The mathematical state of a workload generator: the generator state words,
/// the current contents of the shuffle buffer, the round counter, and the
/// batch size.
pub struct WorkloadModel {
    pub state: Seq<u64>,
    pub shuffle: Seq<usize>,
    pub round: nat,
    pub batch: nat,
}

/// The identity permutation `0, 1, ..., n-1`, the shuffle buffer's initial
/// contents.
pub open spec fn identity_perm(n: nat) -> Seq<usize> {
    Seq::new(n, |i: int| i as usize)
}

/// A model is well formed when its batch size is positive and its shuffle
/// buffer holds each of `0, ..., batch-1` exactly once.
pub open spec fn model_wf(m: WorkloadModel) -> bool {
    &&& m.batch >= 1
    &&& m.shuffle.to_multiset() == identity_perm(m.batch).to_multiset()
}

/// The sizes of the first `n` uniform draws from `[MIN_ALLOC_SIZE,
/// MAX_ALLOC_SIZE]` starting in `state`, with the state left after them.
pub open spec fn draw_sizes(state: Seq<u64>, n: nat) -> (Seq<u64>, Seq<u64>)
    decreases n,
{
    if n == 0 {
        (Seq::empty(), state)
    } else {
        let prev = draw_sizes(state, (n - 1) as nat);
        let d = uniform_draw(MIN_ALLOC_SIZE, MAX_ALLOC_SIZE, prev.1);
        (prev.0.push(d.0), d.1)
    }
}

/// The `Malloc` commands of one round, in draw order.
pub open spec fn malloc_cmds(sizes: Seq<u64>) -> Seq<Command> {
    sizes.map_values(|s: u64| Command::Malloc { size: s as usize })
}

/// The `Free` commands of one round: the drawn permutation, offset by the
/// round's first index.
pub open spec fn free_cmds(perm: Seq<usize>, offset: int) -> Seq<Command> {
    perm.map_values(|i: usize| Command::Free { index: (offset + i) as usize })
}

/// One round of the generator: draw `batch` sizes, shuffle the buffer, emit
/// the mallocs followed by the offset frees, and advance the model.
pub open spec fn model_step(m: WorkloadModel) -> (Seq<Command>, WorkloadModel) {
    let sizes = draw_sizes(m.state, m.batch);
    let sh = shuffle_draw(m.shuffle, sizes.1);
    (
        malloc_cmds(sizes.0) + free_cmds(sh.0, (m.round * m.batch) as int),
        (WorkloadModel { state: sh.1, shuffle: sh.0, round: m.round + 1, batch: m.batch }),
    )
}

/// The model after `r` rounds have been produced from `m0`.
pub open spec fn model_at(m0: WorkloadModel, r: nat) -> WorkloadModel
    decreases r,
{
    if r == 0 {
        m0
    } else {
        model_step(model_at(m0, (r - 1) as nat)).1
    }
}

/// The batch produced for round index `r` by a generator started at `m0`.
pub open spec fn batch_at(m0: WorkloadModel, r: nat) -> Seq<Command> {
    model_step(model_at(m0, r)).0
}

/// The model a freshly constructed generator starts from.
pub open spec fn initial_model(seed: u64, batch: nat) -> WorkloadModel {
    WorkloadModel {
        state: xoshiro_seed_state(seed),
        shuffle: identity_perm(batch),
        round: 0,
        batch: batch,
    }
}

/// A `Malloc` command whose size lies in the drawn range.
pub open spec fn is_malloc_sized(c: Command) -> bool {
    c matches Command::Malloc { size } && MIN_ALLOC_SIZE <= size <= MAX_ALLOC_SIZE
}

/// A `Free` command whose index lies in `[lo, hi)`.
pub open spec fn is_free_in(c: Command, lo: int, hi: int) -> bool {
    c matches Command::Free { index } && lo <= index < hi
}

/// Some command in the batch's second half frees exactly the index `idx`.
pub open spec fn batch_frees_index(b: Seq<Command>, batch: nat, idx: int) -> bool {
    exists|k: int| batch <= k < 2 * batch && b[k] == (Command::Free { index: idx as usize })
}

/// The same-round pairing discipline of one batch: `2*batch` commands whose
/// second half frees exactly the indices `{round*batch, ..., round*batch +
/// batch - 1}` — the indices the first half's allocations are assigned — each
/// exactly once.
pub open spec fn frees_pair_round(b: Seq<Command>, round: nat, batch: nat) -> bool {
    let lo = (round * batch) as int;
    &&& b.len() == 2 * batch
    &&& (forall|k: int|
        batch <= k < 2 * batch ==> is_free_in(#[trigger] b[k], lo, lo + batch))
    &&& (forall|k1: int, k2: int|
        batch <= k1 < k2 < 2 * batch ==> b[k1] != b[k2])
    &&& (forall|idx: int| lo <= idx < lo + batch ==> #[trigger] batch_frees_index(b, batch, idx))
}

/// The number of sizes drawn is the number asked for.
pub proof fn lemma_draw_sizes_len(state: Seq<u64>, n: nat)
    ensures
        draw_sizes(state, n).0.len() == n,
    decreases n,
{
    if n > 0 {
        lemma_draw_sizes_len(state, (n - 1) as nat);
    }
}

/// A sequence with the same multiset as the identity permutation of `n` has
/// length `n`, holds only values below `n`, holds each value below `n`, and
/// has no duplicates.
pub proof fn lemma_perm_bounds(perm: Seq<usize>, n: nat)
    requires
        n <= usize::MAX,
        perm.to_multiset() == identity_perm(n).to_multiset(),
    ensures
        perm.len() == n,
        forall|k: int| 0 <= k < perm.len() ==> (#[trigger] perm[k]) < n,
        perm.no_duplicates(),
        forall|v: usize| v < n ==> perm.contains(v),
{
    broadcast use vstd::seq_lib::group_to_multiset_ensures;

    let id = identity_perm(n);
    assert(id.len() == n);
    assert(perm.len() == perm.to_multiset().len());
    assert(id.len() == id.to_multiset().len());
    assert(id.no_duplicates());
    id.lemma_multiset_has_no_duplicates();
    perm.lemma_multiset_has_no_duplicates_conv();
    assert forall|k: int| 0 <= k < perm.len() implies (#[trigger] perm[k]) < n by {
        assert(perm.contains(perm[k]));
        assert(perm.to_multiset().count(perm[k]) > 0);
        assert(id.to_multiset().count(perm[k]) > 0);
        assert(id.contains(perm[k]));
        let j = choose|j: int| 0 <= j < id.len() && id[j] == perm[k];
        assert(id[j] == j as usize);
    }
    assert forall|v: usize| v < n implies perm.contains(v) by {
        assert(id[v as int] == v);
        assert(id.contains(v));
        assert(id.to_multiset().count(v) > 0);
        assert(perm.to_multiset().count(v) > 0);
    }
}

/// Determinism: the stream of batches is a function of the seed and the batch
/// size alone. Two generators independently constructed from the same
/// `(seed, batch)` agree on the model, and hence the batch, of every round.
pub proof fn lemma_workload_deterministic(
    seed: u64,
    batch: nat,
    m1: WorkloadModel,
    m2: WorkloadModel,
    r: nat,
)
    requires
        m1 == initial_model(seed, batch),
        m2 == initial_model(seed, batch),
    ensures
        model_at(m1, r) == model_at(m2, r),
        batch_at(m1, r) == batch_at(m2, r),
{
}

/// Same-round pairing, one round of the model: from a well-formed model whose
/// shuffle draw permutes the buffer (the fact the trusted shuffle wrapper
/// supplies for every draw it actually makes), the round's frees release
/// exactly the indices `{round*batch, ..., round*batch + batch - 1}` assigned
/// to the round's allocations, each exactly once — no cross-round frees and no
/// double frees — and the model stays well formed.
pub proof fn lemma_same_round_pairing(m: WorkloadModel)
    requires
        model_wf(m),
        m.batch <= usize::MAX,
        (m.round + 1) * m.batch <= usize::MAX,
        shuffle_draw(m.shuffle, draw_sizes(m.state, m.batch).1).0.to_multiset()
            == m.shuffle.to_multiset(),
    ensures
        model_wf(model_step(m).1),
        frees_pair_round(model_step(m).0, m.round, m.batch),
{
    let batch = m.batch;
    let round = m.round;
    let lo = (round * batch) as int;
    let sizes = draw_sizes(m.state, batch).0;
    let perm = shuffle_draw(m.shuffle, draw_sizes(m.state, batch).1).0;
    let b = model_step(m).0;
    lemma_draw_sizes_len(m.state, batch);
    lemma_perm_bounds(perm, batch);
    assert((round + 1) * batch == round * batch + batch) by (nonlinear_arith);
    assert(b.len() == 2 * batch);
    assert forall|k: int| batch <= k < 2 * batch implies is_free_in(
        #[trigger] b[k],
        lo,
        lo + batch,
    ) by {
        assert(b[k] == free_cmds(perm, lo)[k - batch]);
        assert(perm[k - batch] < batch);
    }
    assert forall|k1: int, k2: int| batch <= k1 < k2 < 2 * batch implies b[k1] != b[k2] by {
        assert(b[k1] == free_cmds(perm, lo)[k1 - batch]);
        assert(b[k2] == free_cmds(perm, lo)[k2 - batch]);
        assert(perm[k1 - batch] < batch);
        assert(perm[k2 - batch] < batch);
        assert(perm[k1 - batch] != perm[k2 - batch]);
    }
    assert forall|idx: int| lo <= idx < lo + batch implies #[trigger] batch_frees_index(
        b,
        batch,
        idx,
    ) by {
        let v = (idx - lo) as usize;
        assert(perm.contains(v));
        let j = choose|j: int| 0 <= j < perm.len() && perm[j] == v;
        assert(b[batch + j] == free_cmds(perm, lo)[j]);
        assert(b[batch + j] == (Command::Free { index: idx as usize }));
    }
}

/// A deterministic generator of one worker's workload, one batch per round.
pub struct Workload {
    rng: SeededRng,
    shuffle: Vec<usize>,
    round: usize,
    batch: usize,
}

impl Workload {
    /// The model this generator currently embodies.
    pub closed spec fn model(self) -> WorkloadModel {
        WorkloadModel {
            state: self.rng.state@,
            shuffle: self.shuffle@,
            round: self.round as nat,
            batch: self.batch as nat,
        }
    }

    /// Well-formedness: the model is well formed.
    pub open spec fn wf(self) -> bool {
        model_wf(self.model())
    }

    /// Construct the generator for `(batch, seed)`. Starting from the same
    /// arguments always yields the same model, hence the same rounds.
    pub fn new(batch: usize, seed: u64) -> (w: Workload)
        requires
            batch >= 1,
        ensures
            w.wf(),
            w.model() == initial_model(seed, batch as nat),
    {
        let rng = rng_from_seed(seed);
        let mut shuffle: Vec<usize> = Vec::new();
        let mut i: usize = 0;
        while i < batch
            invariant
                i <= batch,
                shuffle@ == identity_perm(i as nat),
            decreases batch - i,
        {
            shuffle.push(i);
            proof {
                assert(shuffle@ =~= identity_perm((i + 1) as nat));
            }
            i += 1;
        }
        let w = Workload { rng, shuffle, round: 0, batch };
        proof {
            assert(w.model() == initial_model(seed, batch as nat));
        }
        w
    }

    /// Draw a round number uniformly from `[0, rounds)` out of this
    /// generator's own stream, as the crash policy does before any round is
    /// replayed. The draw, like everything else, is a function of the model,
    /// so it is reproducible from the seed.
    pub fn draw_round(&mut self, rounds: usize) -> (c: usize)
        requires
            old(self).wf(),
            rounds >= 1,
        ensures
            final(self).wf(),
            c as u64 == uniform_draw(0, (rounds - 1) as u64, old(self).model().state).0,
            c < rounds,
            final(self).model() == (WorkloadModel {
                state: uniform_draw(0, (rounds - 1) as u64, old(self).model().state).1,
                shuffle: old(self).model().shuffle,
                round: old(self).model().round,
                batch: old(self).model().batch,
            }),
    {
        let c = sample_inclusive(&mut self.rng, 0, (rounds - 1) as u64);
        c as usize
    }

    /// Produce the batch of the current round and advance to the next round.
    ///
    /// The batch returned is a function of the generator's model alone, so a
    /// generator reconstructed from the same seed replays it exactly; and its
    /// frees release exactly the indices its allocations are assigned.
    pub fn next(&mut self) -> (b: Vec<Command>)
        requires
            old(self).wf(),
            (old(self).model().round + 1) * old(self).model().batch <= usize::MAX,
        ensures
            final(self).wf(),
            final(self).model() == model_step(old(self).model()).1,
            b@ == model_step(old(self).model()).0,
            frees_pair_round(b@, old(self).model().round, old(self).model().batch),
            forall|k: int|
                0 <= k < old(self).model().batch ==> is_malloc_sized(#[trigger] b@[k]),
    {
        let ghost m0 = self.model();
        proof {
            assert((m0.round + 1) * m0.batch == m0.round * m0.batch + m0.batch)
                by (nonlinear_arith);
            lemma_perm_bounds(m0.shuffle, m0.batch);
        }
        let batch = self.batch;
        let mut cmds: Vec<Command> = Vec::new();
        let mut k: usize = 0;
        while k < batch
            invariant
                k <= batch,
                batch == m0.batch,
                self.batch == batch,
                self.round as nat == m0.round,
                self.shuffle@ == m0.shuffle,
                self.rng.state@ == draw_sizes(m0.state, k as nat).1,
                cmds@ == malloc_cmds(draw_sizes(m0.state, k as nat).0),
                forall|j: int| 0 <= j < k ==> is_malloc_sized(#[trigger] cmds@[j]),
            decreases batch - k,
        {
            let s = sample_inclusive(&mut self.rng, MIN_ALLOC_SIZE, MAX_ALLOC_SIZE);
            cmds.push(Command::Malloc { size: s as usize });
            proof {
                lemma_draw_sizes_len(m0.state, k as nat);
                assert(draw_sizes(m0.state, (k + 1) as nat).0 =~= draw_sizes(
                    m0.state,
                    k as nat,
                ).0.push(s));
                assert(cmds@ =~= malloc_cmds(draw_sizes(m0.state, (k + 1) as nat).0));
            }
            k += 1;
        }
        let ghost sizes = draw_sizes(m0.state, m0.batch).0;
        proof {
            lemma_draw_sizes_len(m0.state, m0.batch);
        }
        shuffle_indices(&mut self.shuffle, &mut self.rng);
        let ghost perm = self.shuffle@;
        proof {
            assert(perm.to_multiset() == identity_perm(m0.batch).to_multiset());
            lemma_perm_bounds(perm, m0.batch);
        }
        let offset = self.round * batch;
        let mut k2: usize = 0;
        while k2 < batch
            invariant
                k2 <= batch,
                batch == m0.batch,
                self.batch == batch,
                self.round as nat == m0.round,
                offset as nat == m0.round * m0.batch,
                offset + batch <= usize::MAX,
                self.shuffle@ == perm,
                perm.len() == batch,
                sizes.len() == batch,
                sizes == draw_sizes(m0.state, m0.batch).0,
                forall|j: int| 0 <= j < perm.len() ==> (#[trigger] perm[j]) < batch,
                self.rng.state@ == model_step(m0).1.state,
                self.shuffle@ == model_step(m0).1.shuffle,
                cmds@ == malloc_cmds(sizes) + free_cmds(perm, offset as int).subrange(
                    0,
                    k2 as int,
                ),
                forall|j: int| 0 <= j < batch ==> is_malloc_sized(#[trigger] cmds@[j]),
            decreases batch - k2,
        {
            let idx = self.shuffle[k2] + offset;
            cmds.push(Command::Free { index: idx });
            proof {
                assert(free_cmds(perm, offset as int).subrange(0, (k2 + 1) as int) =~= free_cmds(
                    perm,
                    offset as int,
                ).subrange(0, k2 as int).push(Command::Free { index: idx }));
                assert(cmds@ =~= malloc_cmds(sizes) + free_cmds(perm, offset as int).subrange(
                    0,
                    (k2 + 1) as int,
                ));
            }
            k2 += 1;
        }
        proof {
            assert(m0.round + 1 <= (m0.round + 1) * m0.batch) by (nonlinear_arith)
                requires m0.batch >= 1;
        }
        self.round += 1;
        proof {
            assert(free_cmds(perm, offset as int).subrange(
                0,
                batch as int,
            ) =~= free_cmds(perm, offset as int));
            assert(cmds@ == model_step(m0).0);
            assert(self.model() == model_step(m0).1);
            lemma_same_round_pairing(m0);
        }
        cmds
    }
}

} // verus!
