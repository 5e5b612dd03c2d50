//! The coordinator's orchestration policies: per-worker command scripts for
//! the crash-free and single-crash runs, and the teardown plan.
//!
//! The coordinator itself owns processes and connections; the decisions it
//! takes — which batches to send, when to inject the crash, what must follow a
//! restart, whom to tear down — are pure functions of the run configuration
//! and are verified here. The surrounding process runs each script step by
//! step against the real worker pool.

use vstd::prelude::*;
use crate::rpc;
use crate::workload::batch_at;
use crate::workload::frees_pair_round;
use crate::workload::identity_perm;
use crate::workload::initial_model;
use crate::workload::is_malloc_sized;
use crate::workload::uniform_draw;
use crate::workload::xoshiro_seed_state;
use crate::workload::Workload;
use crate::workload::WorkloadModel;

verus! {

/// The crash-mode selector of a run: no crash, or one crash of the worker
/// with the given id, with or without a restart.
pub enum CrashPolicy {
    Zero,
    One { id: u8, restart: bool },
}

/// One step of a worker's script, performed in order by the worker's task.
pub enum Step {
    /// Send one batch of commands on the worker's connection.
    Send(Vec<rpc::Command>),
    /// Reap the worker's process and confirm that it terminated: the
    /// anticipated abnormal exit after a synchronous `Crash` command.
    AwaitTermination,
    /// Reap the previous process instance, spawn a fresh one under the same
    /// logical id and listening arrangement, and re-establish the connection.
    Restart,
}

/// The configuration of one run, shared by every worker.
pub struct Command {
    pub seed: u64,
    pub heap_id: String,
    pub heap_size: u64,
    pub batch: usize,
    pub rounds: usize,
}

/// The step sends exactly the batch `b`.
pub open spec fn step_sends(s: Step, b: Seq<rpc::Command>) -> bool {
    s matches Step::Send(v) && v@ == b
}

/// The step sends the two-command batch that must follow a restart: `Init`
/// with the run's heap id and size, then `Recover`.
pub open spec fn sends_init_recover(s: Step, heap_id: Seq<char>, heap_size: u64) -> bool {
    s matches Step::Send(v) && v@.len() == 2 && (v@[0] matches rpc::Command::Init {
        id,
        size,
    } && id@ == heap_id && size == heap_size) && v@[1] == rpc::Command::Recover
}

/// The synchronous, unconditional crash command.
pub open spec fn crash_command() -> rpc::Command {
    rpc::Command::Crash { delay: 0, random: false }
}

/// The model a crash-path workload continues from: the crash round is drawn
/// from the worker's own generator before any round is produced, so the
/// stream the rounds are drawn from starts past that draw.
pub open spec fn crash_model(seed: u64, batch: nat, rounds: usize) -> WorkloadModel {
    WorkloadModel {
        state: uniform_draw(0, (rounds - 1) as u64, xoshiro_seed_state(seed)).1,
        shuffle: identity_perm(batch),
        round: 0,
        batch: batch,
    }
}

/// The round before which the chosen worker is crashed, drawn uniformly from
/// `[0, rounds)` out of that worker's own seeded stream — reproducible for a
/// fixed seed.
pub open spec fn crash_round_of(seed: u64, rounds: usize) -> u64 {
    uniform_draw(0, (rounds - 1) as u64, xoshiro_seed_state(seed)).0
}

/// A crash-free script: one `Send` per round, each carrying exactly the
/// round's batch of the worker's stream.
pub open spec fn is_crash_free_plan(steps: Seq<Step>, seed: u64, batch: nat, rounds: usize) -> bool {
    &&& steps.len() == rounds
    &&& forall|r: int|
        0 <= r < rounds ==> step_sends(
            #[trigger] steps[r],
            batch_at(initial_model(seed, batch), r as nat),
        )
}

/// A single-crash script for the chosen worker: the rounds before the drawn
/// crash round `c`, then the synchronous `Crash`; then, without restart,
/// nothing but the wait that confirms the termination — or, with restart, the
/// restart, the mandatory `Init` + `Recover` re-initialization, and the
/// remaining rounds `[c, rounds)` of the very same stream, its round counter
/// carried on from `c`.
pub open spec fn is_crash_plan(
    steps: Seq<Step>,
    seed: u64,
    batch: nat,
    rounds: usize,
    restart: bool,
    heap_id: Seq<char>,
    heap_size: u64,
) -> bool {
    let m = crash_model(seed, batch, rounds);
    let c = crash_round_of(seed, rounds) as int;
    &&& 0 <= c < rounds
    &&& steps.len() == if restart {
        rounds + 3
    } else {
        c + 2
    }
    &&& forall|r: int| 0 <= r < c ==> step_sends(#[trigger] steps[r], batch_at(m, r as nat))
    &&& step_sends(steps[c], seq![crash_command()])
    &&& if restart {
        &&& steps[c + 1] is Restart
        &&& sends_init_recover(steps[c + 2], heap_id, heap_size)
        &&& forall|r: int|
            c <= r < rounds ==> step_sends(#[trigger] steps[r + 3], batch_at(m, r as nat))
    } else {
        steps[c + 1] is AwaitTermination
    }
}

impl Command {
    /// A usable configuration: at least one round of a non-empty batch, and
    /// every allocation index of the run fits the machine.
    pub open spec fn wf(self) -> bool {
        &&& self.batch >= 1
        &&& self.rounds >= 1
        &&& self.rounds * self.batch <= usize::MAX
    }

    /// The batch every worker receives first: `Init` with the run's shared
    /// heap id and size.
    pub fn init_batch(&self) -> (b: Vec<rpc::Command>)
        ensures
            b@.len() == 1,
            b@[0] matches rpc::Command::Init { id, size } && id@ == self.heap_id@ && size
                == self.heap_size,
    {
        let mut b: Vec<rpc::Command> = Vec::new();
        b.push(rpc::Command::Init { id: self.heap_id.clone(), size: self.heap_size });
        b
    }

    /// The crash-free policy for one worker: the batches of all `rounds`
    /// rounds of its stream, in order. Each batch pairs its frees with its
    /// own round's allocations, and its allocation sizes lie in the drawn
    /// range.
    pub fn crash_free(&self) -> (out: Vec<Vec<rpc::Command>>)
        requires
            self.wf(),
        ensures
            out@.len() == self.rounds,
            forall|r: int|
                0 <= r < self.rounds ==> (#[trigger] out@[r])@ == batch_at(
                    initial_model(self.seed, self.batch as nat),
                    r as nat,
                ),
            forall|r: int|
                0 <= r < self.rounds ==> frees_pair_round(
                    (#[trigger] out@[r])@,
                    r as nat,
                    self.batch as nat,
                ),
            forall|r: int, k: int|
                0 <= r < self.rounds && 0 <= k < self.batch ==> is_malloc_sized(
                    #[trigger] out@[r]@[k],
                ),
    {
        let ghost m0 = initial_model(self.seed, self.batch as nat);
        let mut workload = Workload::new(self.batch, self.seed);
        let mut out: Vec<Vec<rpc::Command>> = Vec::new();
        let mut r: usize = 0;
        while r < self.rounds
            invariant
                r <= self.rounds,
                self.wf(),
                m0 == initial_model(self.seed, self.batch as nat),
                workload.wf(),
                workload.model() == crate::workload::model_at(m0, r as nat),
                out@.len() == r,
                forall|j: int|
                    0 <= j < r ==> (#[trigger] out@[j])@ == batch_at(m0, j as nat),
                forall|j: int|
                    0 <= j < r ==> frees_pair_round(
                        (#[trigger] out@[j])@,
                        j as nat,
                        self.batch as nat,
                    ),
                forall|j: int, k: int|
                    0 <= j < r && 0 <= k < self.batch ==> is_malloc_sized(
                        #[trigger] out@[j]@[k],
                    ),
            decreases self.rounds - r,
        {
            proof {
                lemma_model_at_round(m0, r as nat);
                assert((r + 1) * self.batch <= self.rounds * self.batch) by (nonlinear_arith)
                    requires
                        r + 1 <= self.rounds,
                        self.batch >= 0,
                ;
            }
            let b = workload.next();
            out.push(b);
            r += 1;
        }
        out
    }

    /// The single-crash policy for the chosen worker: replay the rounds before
    /// the drawn crash round, inject the synchronous `Crash`, and — when a
    /// restart is asked for — restart, re-send `Init` and `Recover`, and
    /// replay the remaining rounds from the same generator, its round counter
    /// carried on, not reset.
    pub fn crash(&self, restart: bool) -> (steps: Vec<Step>)
        requires
            self.wf(),
        ensures
            is_crash_plan(
                steps@,
                self.seed,
                self.batch as nat,
                self.rounds,
                restart,
                self.heap_id@,
                self.heap_size,
            ),
            forall|r: int|
                0 <= r < crash_round_of(self.seed, self.rounds) ==> ((#[trigger] steps@[r])
                    matches Step::Send(v) && frees_pair_round(v@, r as nat, self.batch as nat)),
            restart ==> forall|r: int|
                crash_round_of(self.seed, self.rounds) <= r < self.rounds ==> ((
                #[trigger] steps@[r + 3]) matches Step::Send(v) && frees_pair_round(
                    v@,
                    r as nat,
                    self.batch as nat,
                )),
    {
        let ghost m = crash_model(self.seed, self.batch as nat, self.rounds);
        let mut workload = Workload::new(self.batch, self.seed);
        let c = workload.draw_round(self.rounds);
        proof {
            assert(workload.model() == m);
            assert(c as u64 == crash_round_of(self.seed, self.rounds));
        }
        let mut steps: Vec<Step> = Vec::new();
        let mut r: usize = 0;
        while r < c
            invariant
                r <= c,
                c < self.rounds,
                self.wf(),
                m == crash_model(self.seed, self.batch as nat, self.rounds),
                workload.wf(),
                workload.model() == crate::workload::model_at(m, r as nat),
                steps@.len() == r,
                forall|j: int|
                    0 <= j < r ==> step_sends(#[trigger] steps@[j], batch_at(m, j as nat)),
                forall|j: int|
                    0 <= j < r ==> ((#[trigger] steps@[j]) matches Step::Send(v)
                        && frees_pair_round(v@, j as nat, self.batch as nat)),
            decreases c - r,
        {
            proof {
                lemma_model_at_round(m, r as nat);
                assert((r + 1) * self.batch <= self.rounds * self.batch) by (nonlinear_arith)
                    requires
                        r + 1 <= self.rounds,
                        self.batch >= 0,
                ;
            }
            let b = workload.next();
            steps.push(Step::Send(b));
            r += 1;
        }
        let mut crash_batch: Vec<rpc::Command> = Vec::new();
        crash_batch.push(rpc::Command::Crash { delay: 0, random: false });
        proof {
            assert(crash_batch@ =~= seq![crash_command()]);
        }
        steps.push(Step::Send(crash_batch));
        if !restart {
            steps.push(Step::AwaitTermination);
            return steps;
        }
        steps.push(Step::Restart);
        let mut reinit: Vec<rpc::Command> = Vec::new();
        reinit.push(rpc::Command::Init { id: self.heap_id.clone(), size: self.heap_size });
        reinit.push(rpc::Command::Recover);
        steps.push(Step::Send(reinit));
        while r < self.rounds
            invariant
                c <= r <= self.rounds,
                c < self.rounds,
                self.wf(),
                m == crash_model(self.seed, self.batch as nat, self.rounds),
                workload.wf(),
                workload.model() == crate::workload::model_at(m, r as nat),
                steps@.len() == r + 3,
                forall|j: int|
                    0 <= j < c ==> step_sends(#[trigger] steps@[j], batch_at(m, j as nat)),
                forall|j: int|
                    0 <= j < c ==> ((#[trigger] steps@[j]) matches Step::Send(v)
                        && frees_pair_round(v@, j as nat, self.batch as nat)),
                step_sends(steps@[c as int], seq![crash_command()]),
                steps@[c + 1] is Restart,
                sends_init_recover(steps@[c + 2], self.heap_id@, self.heap_size),
                forall|j: int|
                    c <= j < r ==> step_sends(#[trigger] steps@[j + 3], batch_at(m, j as nat)),
                forall|j: int|
                    c <= j < r ==> ((#[trigger] steps@[j + 3]) matches Step::Send(v)
                        && frees_pair_round(v@, j as nat, self.batch as nat)),
            decreases self.rounds - r,
        {
            proof {
                lemma_model_at_round(m, r as nat);
                assert((r + 1) * self.batch <= self.rounds * self.batch) by (nonlinear_arith)
                    requires
                        r + 1 <= self.rounds,
                        self.batch >= 0,
                ;
            }
            let b = workload.next();
            steps.push(Step::Send(b));
            r += 1;
        }
        steps
    }

    /// The dispatch decision of the run, per worker: the chosen worker of a
    /// single-crash run follows the crash script, every other worker — and
    /// every worker of a crash-free run — follows the crash-free script.
    pub fn plan_for_worker(&self, id: u8, policy: &CrashPolicy) -> (steps: Vec<Step>)
        requires
            self.wf(),
        ensures
            match *policy {
                CrashPolicy::One { id: k, restart } => if k == id {
                    is_crash_plan(
                        steps@,
                        self.seed,
                        self.batch as nat,
                        self.rounds,
                        restart,
                        self.heap_id@,
                        self.heap_size,
                    )
                } else {
                    is_crash_free_plan(steps@, self.seed, self.batch as nat, self.rounds)
                },
                CrashPolicy::Zero => is_crash_free_plan(
                    steps@,
                    self.seed,
                    self.batch as nat,
                    self.rounds,
                ),
            },
    {
        let crashes_here = match policy {
            CrashPolicy::One { id: k, restart: _ } => *k == id,
            CrashPolicy::Zero => false,
        };
        if crashes_here {
            let restart = match policy {
                CrashPolicy::One { id: _, restart } => *restart,
                CrashPolicy::Zero => false,
            };
            self.crash(restart)
        } else {
            let batches = self.crash_free();
            let mut steps: Vec<Step> = Vec::new();
            let mut i: usize = 0;
            let n = batches.len();
            let mut rest = batches;
            let ghost all = rest@;
            while i < n
                invariant
                    i <= n,
                    n == all.len(),
                    rest@ == all.skip(i as int),
                    steps@.len() == i,
                    forall|j: int|
                        0 <= j < i ==> step_sends(#[trigger] steps@[j], all[j]@),
                decreases n - i,
            {
                let b = rest.remove(0);
                steps.push(Step::Send(b));
                proof {
                    assert(rest@ =~= all.skip(i + 1));
                }
                i += 1;
            }
            steps
        }
    }
}

/// Crash/restart replay: the batches a crashed-and-restarted worker receives
/// before the crash (rounds `[0, c)`) and after recovery (rounds
/// `[c, rounds)`) are together exactly the batches of rounds `0..rounds` of
/// its uninterrupted stream — numerically identical to what it would have
/// received had it never crashed.
pub proof fn lemma_crash_replay(m: WorkloadModel, c: nat, rounds: nat)
    requires
        c <= rounds,
    ensures
        Seq::new(c, |r: int| batch_at(m, r as nat)) + Seq::new(
            (rounds - c) as nat,
            |r: int| batch_at(m, (c + r) as nat),
        ) =~= Seq::new(rounds, |r: int| batch_at(m, r as nat)),
{
}

/// What the coordinator believes about one worker when the run ends.
#[derive(Clone, Copy, Debug, PartialEq, Eq, Structural)]
pub enum WorkerStatus {
    /// The worker's current process instance is believed alive; teardown owes
    /// it an `Exit` and a wait.
    Live,
    /// The worker's termination was already confirmed by a completed wait
    /// (the crash-without-restart path); teardown must not touch it again.
    Terminated,
}

/// One action of the teardown phase, identified by the worker it touches.
#[derive(Clone, Copy, Debug, PartialEq, Eq, Structural)]
pub enum TeardownAction {
    /// Send the one-command `Exit` batch on the worker's connection.
    SendExit { worker: usize },
    /// Wait for the worker's process to exit and reap it.
    Wait { worker: usize },
}

/// The `Exit` sends of the teardown: one per live worker, in id order.
pub open spec fn exit_actions(st: Seq<WorkerStatus>) -> Seq<TeardownAction>
    decreases st.len(),
{
    if st.len() == 0 {
        Seq::empty()
    } else {
        let prefix = exit_actions(st.drop_last());
        if st.last() is Live {
            prefix.push(TeardownAction::SendExit { worker: (st.len() - 1) as usize })
        } else {
            prefix
        }
    }
}

/// The waits of the teardown: one per live worker, in id order, after all the
/// sends.
pub open spec fn wait_actions(st: Seq<WorkerStatus>) -> Seq<TeardownAction>
    decreases st.len(),
{
    if st.len() == 0 {
        Seq::empty()
    } else {
        let prefix = wait_actions(st.drop_last());
        if st.last() is Live {
            prefix.push(TeardownAction::Wait { worker: (st.len() - 1) as usize })
        } else {
            prefix
        }
    }
}

/// The whole teardown plan: every `Exit` is sent before any wait, so a worker
/// that ignores its `Exit` is still only waited on after every other worker
/// has been told to leave.
pub open spec fn teardown_actions(st: Seq<WorkerStatus>) -> Seq<TeardownAction> {
    exit_actions(st) + wait_actions(st)
}

/// How often an action occurs in a plan.
pub open spec fn action_count(plan: Seq<TeardownAction>, a: TeardownAction) -> nat {
    plan.to_multiset().count(a)
}

/// The teardown plan for the pool as the run left it: `Exit` to every worker
/// still believed alive, then a wait on each of them, each exactly once;
/// failures along the way are the caller's to log, never a reason to skip the
/// remaining workers.
pub fn teardown_plan(status: &Vec<WorkerStatus>) -> (plan: Vec<TeardownAction>)
    ensures
        plan@ == teardown_actions(status@),
{
    let n = status.len();
    let mut plan: Vec<TeardownAction> = Vec::new();
    let mut i: usize = 0;
    while i < n
        invariant
            i <= n,
            n == status@.len(),
            plan@ == exit_actions(status@.take(i as int)),
        decreases n - i,
    {
        proof {
            assert(status@.take(i + 1).drop_last() =~= status@.take(i as int));
        }
        match status[i] {
            WorkerStatus::Live => {
                plan.push(TeardownAction::SendExit { worker: i });
            },
            WorkerStatus::Terminated => {},
        }
        i += 1;
    }
    proof {
        assert(status@.take(n as int) =~= status@);
    }
    let mut i2: usize = 0;
    while i2 < n
        invariant
            i2 <= n,
            n == status@.len(),
            plan@ == exit_actions(status@) + wait_actions(status@.take(i2 as int)),
        decreases n - i2,
    {
        proof {
            assert(status@.take(i2 + 1).drop_last() =~= status@.take(i2 as int));
        }
        match status[i2] {
            WorkerStatus::Live => {
                plan.push(TeardownAction::Wait { worker: i2 });
            },
            WorkerStatus::Terminated => {},
        }
        i2 += 1;
    }
    proof {
        assert(status@.take(n as int) =~= status@);
    }
    plan
}

/// The `Exit` sends touch exactly the live workers, once each, and contain no
/// wait.
pub proof fn lemma_exit_actions_count(st: Seq<WorkerStatus>, a: TeardownAction)
    requires
        st.len() <= usize::MAX,
    ensures
        action_count(exit_actions(st), a) == (match a {
            TeardownAction::SendExit { worker } => if worker < st.len() && st[worker as int]
                is Live {
                1nat
            } else {
                0nat
            },
            TeardownAction::Wait { worker: _ } => 0nat,
        }),
    decreases st.len(),
{
    broadcast use vstd::seq_lib::group_to_multiset_ensures;
    broadcast use vstd::multiset::group_multiset_axioms;
    broadcast use vstd::multiset::group_multiset_properties;

    if st.len() == 0 {
        assert(!exit_actions(st).contains(a));
    } else {
        lemma_exit_actions_count(st.drop_last(), a);
        assert(st.drop_last().len() == st.len() - 1);
        if st.last() is Live {
            let x = TeardownAction::SendExit { worker: (st.len() - 1) as usize };
            assert(exit_actions(st) == exit_actions(st.drop_last()).push(x));
        }
    }
}

/// The waits touch exactly the live workers, once each, and contain no send.
pub proof fn lemma_wait_actions_count(st: Seq<WorkerStatus>, a: TeardownAction)
    requires
        st.len() <= usize::MAX,
    ensures
        action_count(wait_actions(st), a) == (match a {
            TeardownAction::Wait { worker } => if worker < st.len() && st[worker as int]
                is Live {
                1nat
            } else {
                0nat
            },
            TeardownAction::SendExit { worker: _ } => 0nat,
        }),
    decreases st.len(),
{
    broadcast use vstd::seq_lib::group_to_multiset_ensures;
    broadcast use vstd::multiset::group_multiset_axioms;
    broadcast use vstd::multiset::group_multiset_properties;

    if st.len() == 0 {
        assert(!wait_actions(st).contains(a));
    } else {
        lemma_wait_actions_count(st.drop_last(), a);
        assert(st.drop_last().len() == st.len() - 1);
        if st.last() is Live {
            let x = TeardownAction::Wait { worker: (st.len() - 1) as usize };
            assert(wait_actions(st) == wait_actions(st.drop_last()).push(x));
        }
    }
}

/// Teardown completeness: whatever state the run left the pool in, the
/// teardown plan sends exactly one `Exit` to, and waits exactly once on,
/// every worker still believed alive — a broken connection elsewhere never
/// removes a worker from the plan — and it touches a worker whose termination
/// was already confirmed (and whose process was already reaped) not at all.
pub proof fn lemma_teardown_complete(st: Seq<WorkerStatus>)
    requires
        st.len() <= usize::MAX,
    ensures
        forall|w: usize|
            w < st.len() && st[w as int] is Live ==> action_count(
                teardown_actions(st),
                (TeardownAction::SendExit { worker: w }),
            ) == 1 && action_count(teardown_actions(st), (TeardownAction::Wait { worker: w }))
                == 1,
        forall|w: usize|
            w < st.len() && st[w as int] is Terminated ==> action_count(
                teardown_actions(st),
                (TeardownAction::SendExit { worker: w }),
            ) == 0 && action_count(teardown_actions(st), (TeardownAction::Wait { worker: w }))
                == 0,
{
    broadcast use vstd::multiset::group_multiset_axioms;
    broadcast use vstd::multiset::group_multiset_properties;

    vstd::seq_lib::lemma_multiset_commutative(exit_actions(st), wait_actions(st));
    assert forall|w: usize| w < st.len() implies action_count(
        teardown_actions(st),
        (TeardownAction::SendExit { worker: w }),
    ) == (if st[w as int] is Live {
        1nat
    } else {
        0nat
    }) && action_count(teardown_actions(st), (TeardownAction::Wait { worker: w })) == (
    if st[w as int] is Live {
        1nat
    } else {
        0nat
    }) by {
        lemma_exit_actions_count(st, TeardownAction::SendExit { worker: w });
        lemma_wait_actions_count(st, TeardownAction::SendExit { worker: w });
        lemma_exit_actions_count(st, TeardownAction::Wait { worker: w });
        lemma_wait_actions_count(st, TeardownAction::Wait { worker: w });
    }
}

/// The round counter and batch size of a model after `r` rounds: the counter
/// has advanced by `r`, the batch size is unchanged.
pub proof fn lemma_model_at_round(m0: WorkloadModel, r: nat)
    ensures
        crate::workload::model_at(m0, r).round == m0.round + r,
        crate::workload::model_at(m0, r).batch == m0.batch,
    decreases r,
{
    if r > 0 {
        lemma_model_at_round(m0, (r - 1) as nat);
    }
}

} // verus!
