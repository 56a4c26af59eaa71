//! The correspondence solver.
//!
//! A `SolverJob` carries one solve as an explicit state machine: every call
//! of `step` performs one bounded work unit, polls the cancellation request
//! it is handed, and returns the progress messages that unit emitted.  Both
//! strategies keep a candidate assignment that starts at the identity and
//! only ever improves, so the returned permutation never costs more than
//! doing nothing.
//!
//! - `Optimal` sweeps all index pairs systematically and applies every
//!   cost-lowering exchange, until a whole sweep finds none (or the sweep
//!   budget ends).
//! - `Heuristic` draws index pairs from a deterministic pseudo-random
//!   sequence and applies the cost-lowering exchanges it happens upon,
//!   under a fixed iteration budget.

use vstd::prelude::*;
use vstd::pervasive::VecAdditionalExecFns;
use crate::cost::{
    cost_ctx, pair_cost, total_cost, total_cost_exec, lemma_total_cost_swap,
    lemma_two_terms_bound, lemma_cost_prefix_bounds, PAIR_COST_BOUND, LAMBDA_MAX,
};
use crate::grid::{Particle, ParticleGrid, MAX_PARTICLES};
use crate::jobs::CancelFlag;
use crate::perm::{
    is_permutation, identity_seq, identity_assignment, copy_assignment,
    lemma_swap_preserves_permutation,
};
use crate::progress::{
    is_terminal, nondecreasing, progress_in_range, progress_values, terminal_only_last,
    cancelled_count, lemma_cancelled_exactly_once, lemma_nondecreasing_join,
    lemma_progress_values_add, lemma_progress_values_in_range, lemma_progress_values_push_other,
    lemma_progress_values_push_progress, ProgressMsg, PROGRESS_FULL,
};
use crate::settings::{Algorithm, GenerationSettings, SolveError};

verus! {

/// Sweep budget of the `Optimal` strategy.
pub const MAX_SWEEPS: usize = 16;

/// Round budget of the `Heuristic` strategy; each round tries as many
/// random pairs as there are particles.
pub const HEUR_ROUNDS: usize = 50;

/// How a run ended.
#[derive(Clone, Debug)]
pub enum SolveOutcome {
    /// The final assignment; a permutation costing at most the identity.
    Completed(Vec<usize>),
    /// The run stopped on a cancellation request; no assignment is
    /// delivered.
    Cancelled,
}

/// Everything one finished run produced: its outcome and the full ordered
/// message log.
#[derive(Debug)]
pub struct SolveRun {
    pub outcome: SolveOutcome,
    pub log: Vec<ProgressMsg>,
}

/// How far a live run has come; `Running` until a terminal message went
/// out.
#[derive(Clone, Copy, PartialEq, Eq, Structural, Debug)]
pub enum JobState {
    Running,
    Completed,
    Cancelled,
}

/// One solve as an explicit state machine.  The fields are public so that
/// the contracts can speak of them; every method requires and preserves
/// `wf`.
#[derive(Debug)]
pub struct SolverJob {
    /// Source particles, one per source index.
    pub src: Vec<Particle>,
    /// Target particles, one per target index.
    pub tgt: Vec<Particle>,
    /// Normalized color weight.
    pub lambda: i64,
    /// The strategy this job runs.
    pub algorithm: Algorithm,
    /// Particle count of either grid.
    pub n: usize,
    /// Grid side, for preview sizing.
    pub width: u32,
    /// Current best assignment; always a permutation.
    pub assign: Vec<usize>,
    /// Total cost of `assign`.
    pub cost: i64,
    /// Total cost of the identity assignment, fixed at construction.
    pub identity_cost: i64,
    /// Sweeps (`Optimal`) or rounds (`Heuristic`) completed so far.
    pub round: usize,
    /// Next row inside the current sweep (`Optimal` only).
    pub row: usize,
    /// Whether the current sweep found an improving exchange.
    pub improved: bool,
    /// State of the pseudo-random pair sequence (`Heuristic` only).
    pub rng: u64,
    /// Last progress permille that went out; never decreases.
    pub last_progress: u32,
    /// Whether a terminal message went out, and which.
    pub state: JobState,
}

impl SolverJob {
    /// The job invariant: the task is well-formed, the candidate is a
    /// permutation, its cost is tracked exactly and never exceeds the
    /// identity cost, and the schedule counters are in range.
    pub open spec fn wf(self) -> bool {
        &&& cost_ctx(self.src@, self.tgt@, self.assign@, self.lambda as int)
        &&& 1 <= self.n <= MAX_PARTICLES
        &&& self.n == self.src@.len()
        &&& (self.width as int) * (self.width as int) == self.n
        &&& is_permutation(self.assign@, self.n as nat)
        &&& self.cost == total_cost(self.src@, self.tgt@, self.assign@, self.lambda as int)
        &&& self.cost <= self.identity_cost
        &&& self.identity_cost == total_cost(
            self.src@,
            self.tgt@,
            identity_seq(self.n as nat),
            self.lambda as int,
        )
        &&& 0 <= self.cost
        &&& self.identity_cost <= self.n * PAIR_COST_BOUND
        &&& self.last_progress <= PROGRESS_FULL
        &&& (self.state is Running ==> match self.algorithm {
            Algorithm::Optimal => self.round < MAX_SWEEPS && self.row < self.n,
            Algorithm::Heuristic => self.round < HEUR_ROUNDS,
        })
    }

    /// The task itself (grids, weight, strategy) never changes over a run.
    pub open spec fn same_task(self, other: SolverJob) -> bool {
        &&& other.src@ == self.src@
        &&& other.tgt@ == self.tgt@
        &&& other.lambda == self.lambda
        &&& other.algorithm == self.algorithm
        &&& other.n == self.n
        &&& other.width == self.width
        &&& other.identity_cost == self.identity_cost
    }

    /// Upper bound on the work units still to come; zero once terminal.
    pub open spec fn work_left(self) -> int {
        if !(self.state is Running) {
            0
        } else {
            match self.algorithm {
                Algorithm::Optimal => (MAX_SWEEPS - self.round) * self.n - self.row,
                Algorithm::Heuristic => HEUR_ROUNDS - self.round,
            }
        }
    }

    /// A live job always has work left.
    pub proof fn lemma_work_left_pos(self)
        requires
            self.wf(),
        ensures
            self.work_left() >= 0,
            self.state is Running ==> self.work_left() > 0,
    {
        if self.state is Running && self.algorithm is Optimal {
            assert((MAX_SWEEPS - self.round) * self.n >= 1 * self.n) by {
                vstd::arithmetic::mul::lemma_mul_inequality(
                    1,
                    MAX_SWEEPS - self.round,
                    self.n as int,
                );
            }
        }
    }

    /// Whether no terminal message went out yet.
    pub fn is_running(&self) -> (b: bool)
        ensures
            b == (self.state is Running),
    {
        match self.state {
            JobState::Running => true,
            _ => false,
        }
    }

    /// Builds a job over two grids of equal layout: the candidate starts at
    /// the identity assignment.
    pub fn new(source: &ParticleGrid, target: &ParticleGrid, lambda: i64, algorithm: Algorithm)
        -> (r: Result<SolverJob, SolveError>)
        requires
            source.wf(),
            target.wf(),
            0 <= lambda <= LAMBDA_MAX,
        ensures
            r is Ok <==> source.sidelen == target.sidelen,
            r matches Ok(job) ==> {
                &&& job.wf()
                &&& job.state is Running
                &&& job.src@ == source.particles@
                &&& job.tgt@ == target.particles@
                &&& job.lambda == lambda
                &&& job.algorithm == algorithm
                &&& job.width == source.sidelen
                &&& job.last_progress == 0
            },
            r matches Err(e) ==> e == SolveError::SizeMismatch,
    {
        if source.sidelen != target.sidelen {
            return Err(SolveError::SizeMismatch);
        }
        let n: usize = source.len();
        proof {
            assert(1 <= (source.sidelen as int) * (source.sidelen as int) <= 65536)
                by (nonlinear_arith)
                requires 1 <= source.sidelen <= 256;
            crate::perm::lemma_identity_is_permutation(n as nat);
        }
        let assign = identity_assignment(n);
        let cost = total_cost_exec(&source.particles, &target.particles, &assign, lambda);
        Ok(
            SolverJob {
                src: copy_particles(&source.particles),
                tgt: copy_particles(&target.particles),
                lambda,
                algorithm,
                n,
                width: source.sidelen,
                assign,
                cost,
                identity_cost: cost,
                round: 0,
                row: 0,
                improved: false,
                rng: 0x9e3779b97f4a7c15,
                last_progress: 0,
                state: JobState::Running,
            },
        )
    }
    /// Performs one bounded work unit.
    ///
    /// `cancelled` is the poll of the cancellation flag for this unit: a
    /// live job handed `true` emits exactly one `Cancelled` message, at
    /// once, and goes terminal; no `Done` can follow.  A live job handed
    /// `false` works, emits non-terminal messages whose progress values
    /// continue from where they stood, and on its last unit emits exactly
    /// `Progress(PROGRESS_FULL)` followed by the one `Done` message.  A
    /// terminal job does nothing and emits nothing.
    pub fn step(&mut self, cancelled: bool) -> (msgs: Vec<ProgressMsg>)
        requires
            old(self).wf(),
        ensures
            final(self).wf(),
            old(self).same_task(*final(self)),
            old(self).last_progress <= final(self).last_progress,
            !(old(self).state is Running) ==> {
                &&& final(self).state == old(self).state
                &&& final(self).assign@ == old(self).assign@
                &&& final(self).last_progress == old(self).last_progress
                &&& msgs@.len() == 0
            },
            old(self).state is Running && cancelled ==> {
                &&& final(self).state is Cancelled
                &&& msgs@ =~= seq![ProgressMsg::Cancelled]
            },
            old(self).state is Running && !cancelled ==> {
                &&& final(self).work_left() < old(self).work_left()
                &&& !(final(self).state is Cancelled)
                &&& forall|k: int|
                    0 <= k < msgs@.len() ==> ((#[trigger] msgs@[k]) matches
                        ProgressMsg::UpdateAssignments(a) ==> is_permutation(
                        a@,
                        old(self).n as nat,
                    ))
                &&& nondecreasing(progress_values(msgs@))
                &&& progress_in_range(
                    msgs@,
                    old(self).last_progress as int,
                    final(self).last_progress as int,
                )
                &&& (final(self).state is Running ==> forall|k: int|
                    0 <= k < msgs@.len() ==> !is_terminal(#[trigger] msgs@[k]))
                &&& (final(self).state is Completed ==> {
                    &&& msgs@.len() == 2
                    &&& msgs@[0] == ProgressMsg::Progress(PROGRESS_FULL)
                    &&& msgs@[1] is Done
                    &&& msgs@[1]->Done_0@ == final(self).assign@
                    &&& final(self).last_progress == PROGRESS_FULL
                })
            },
    {
        let mut msgs: Vec<ProgressMsg> = Vec::new();
        match self.state {
            JobState::Running => {},
            _ => {
                return msgs;
            },
        }
        if cancelled {
            self.state = JobState::Cancelled;
            msgs.push(ProgressMsg::Cancelled);
            proof {
                assert(msgs@ =~= seq![ProgressMsg::Cancelled]);
            }
            return msgs;
        }
        let finished: bool;
        match self.algorithm {
            Algorithm::Optimal => {
                let i = self.row;
                let row_improved = sweep_row(
                    &self.src,
                    &self.tgt,
                    self.lambda,
                    &mut self.assign,
                    &mut self.cost,
                    i,
                );
                if row_improved {
                    self.improved = true;
                }
                if self.row + 1 < self.n {
                    self.row = self.row + 1;
                    finished = false;
                } else if !self.improved || self.round + 1 == MAX_SWEEPS {
                    finished = true;
                } else {
                    self.round = self.round + 1;
                    self.row = 0;
                    self.improved = false;
                    finished = false;
                }
            },
            Algorithm::Heuristic => {
                let round_improved = heuristic_round(
                    &self.src,
                    &self.tgt,
                    self.lambda,
                    &mut self.assign,
                    &mut self.cost,
                    &mut self.rng,
                );
                if round_improved {
                    self.improved = true;
                }
                if self.round + 1 == HEUR_ROUNDS {
                    finished = true;
                } else {
                    self.round = self.round + 1;
                    finished = false;
                }
            },
        }
        if finished {
            self.last_progress = PROGRESS_FULL;
            self.state = JobState::Completed;
            msgs.push(ProgressMsg::Progress(PROGRESS_FULL));
            msgs.push(ProgressMsg::Done(copy_assignment(&self.assign)));
            proof {
                let done = msgs@[1];
                assert(msgs@ =~= Seq::empty().push(ProgressMsg::Progress(PROGRESS_FULL)).push(
                    done));
                lemma_progress_values_push_progress(Seq::empty(), PROGRESS_FULL);
                lemma_progress_values_push_other(
                    Seq::empty().push(ProgressMsg::Progress(PROGRESS_FULL)), done);
            }
        } else {
            let done_units: usize;
            let total_units: usize;
            match self.algorithm {
                Algorithm::Optimal => {
                    proof {
                        assert(
                            (self.round as int) * (self.n as int) + self.row
                                <= (MAX_SWEEPS as int) * (self.n as int)
                        ) by (nonlinear_arith)
                            requires
                                self.round < MAX_SWEEPS,
                                self.row <= self.n,
                                self.n <= MAX_PARTICLES,
                                MAX_SWEEPS == 16usize && MAX_PARTICLES == 65536usize;
                        assert((MAX_SWEEPS as int) * (self.n as int) <= 0x1_0000_0000)
                            by (nonlinear_arith)
                            requires
                                self.n <= MAX_PARTICLES,
                                MAX_SWEEPS == 16usize && MAX_PARTICLES == 65536usize;
                    }
                    done_units = self.round * self.n + self.row;
                    total_units = MAX_SWEEPS * self.n;
                },
                Algorithm::Heuristic => {
                    done_units = self.round;
                    total_units = HEUR_ROUNDS;
                },
            }
            let raw = progress_estimate(done_units, total_units);
            let p = clamp_progress(self.last_progress, raw);
            self.last_progress = p;
            msgs.push(ProgressMsg::Progress(p));
            msgs.push(ProgressMsg::UpdateAssignments(copy_assignment(&self.assign)));
            msgs.push(
                ProgressMsg::UpdatePreview {
                    width: self.width,
                    height: self.width,
                    data: render_preview(&self.tgt, &self.assign),
                },
            );
            proof {
                let m0 = msgs@[0];
                let m1 = msgs@[1];
                let m2 = msgs@[2];
                assert(msgs@ =~= Seq::empty().push(m0).push(m1).push(m2));
                lemma_progress_values_push_progress(Seq::empty(), p);
                lemma_progress_values_push_other(Seq::empty().push(m0), m1);
                lemma_progress_values_push_other(Seq::empty().push(m0).push(m1), m2);
            }
        }
        proof {
            (*old(self)).lemma_work_left_pos();
            if self.state is Running && self.round == old(self).round + 1
                && self.algorithm is Optimal {
                let r_new = self.round as int;
                let r_old = old(self).round as int;
                let n = self.n as int;
                assert((16 - r_new) * n == (16 - r_old) * n - n) by (nonlinear_arith)
                    requires
                        r_new == r_old + 1,
                        r_new <= 16;
            }
        }
        msgs
    }
}

/// Copies a particle list, so that the job owns its task.
fn copy_particles(v: &Vec<Particle>) -> (r: Vec<Particle>)
    ensures
        r@ == v@,
{
    let mut r: Vec<Particle> = Vec::new();
    let mut i: usize = 0;
    while i < v.len()
        invariant
            i <= v@.len(),
            r@.len() == i,
            forall|k: int| 0 <= k < i ==> r@[k] == v@[k],
        decreases v@.len() - i,
    {
        r.push(v[i]);
        i = i + 1;
    }
    proof {
        assert(r@ =~= v@);
    }
    r
}

/// One byte of the preview image that a partial assignment induces: pixel
/// `k / 3` shows the color of the target particle assigned to it.
pub open spec fn preview_byte(tgt: Seq<Particle>, a: Seq<usize>, k: int) -> u8 {
    let c = tgt[a[k / 3] as int];
    if k % 3 == 0 {
        c.red
    } else if k % 3 == 1 {
        c.green
    } else {
        c.blue
    }
}

/// Renders the current best assignment as row-major RGB bytes.
fn render_preview(tgt: &Vec<Particle>, assign: &Vec<usize>) -> (data: Vec<u8>)
    requires
        forall|i: int| 0 <= i < assign@.len() ==> (#[trigger] assign@[i]) < tgt@.len(),
        assign@.len() <= MAX_PARTICLES,
    ensures
        data@.len() == 3 * assign@.len(),
        forall|k: int| 0 <= k < data@.len() ==> (#[trigger] data@[k]) == preview_byte(
            tgt@, assign@, k),
{
    let n = assign.len();
    let mut data: Vec<u8> = Vec::new();
    let mut i: usize = 0;
    while i < n
        invariant
            i <= n,
            n == assign@.len() <= MAX_PARTICLES,
            forall|m: int| 0 <= m < assign@.len() ==> (#[trigger] assign@[m]) < tgt@.len(),
            data@.len() == 3 * i,
            forall|k: int| 0 <= k < data@.len() ==> (#[trigger] data@[k]) == preview_byte(
                tgt@, assign@, k),
        decreases n - i,
    {
        let t = assign[i];
        let p = tgt[t];
        data.push(p.red);
        data.push(p.green);
        data.push(p.blue);
        proof {
            vstd::arithmetic::div_mod::lemma_fundamental_div_mod_converse(
                3 * (i as int), 3, i as int, 0);
            vstd::arithmetic::div_mod::lemma_fundamental_div_mod_converse(
                3 * (i as int) + 1, 3, i as int, 1);
            vstd::arithmetic::div_mod::lemma_fundamental_div_mod_converse(
                3 * (i as int) + 2, 3, i as int, 2);
        }
        i = i + 1;
    }
    data
}

/// Clamps a raw permille estimate into `[last, PROGRESS_FULL]`, so that
/// emitted progress never decreases.
fn clamp_progress(last: u32, raw: u64) -> (p: u32)
    requires
        last <= PROGRESS_FULL,
    ensures
        last <= p <= PROGRESS_FULL,
{
    let capped: u32 = if raw > PROGRESS_FULL as u64 {
        PROGRESS_FULL
    } else {
        raw as u32
    };
    if capped < last {
        last
    } else {
        capped
    }
}

/// Raw permille estimate after `done` of `total` work units.
fn progress_estimate(done: usize, total: usize) -> (raw: u64)
    requires
        done <= total,
        total <= 0x1_0000_0000,
        total >= 1,
    ensures
        raw <= PROGRESS_FULL,
{
    let raw = ((done as u64) * 1000) / (total as u64);
    proof {
        vstd::arithmetic::div_mod::lemma_div_is_ordered(
            (done as u64) * 1000, (total as u64) * 1000, total as int);
        assert((done as u64) * 1000 <= (total as u64) * 1000) by (nonlinear_arith)
            requires done <= total;
        assert((total as int) * 1000 / (total as int) == 1000) by {
            vstd::arithmetic::div_mod::lemma_div_multiples_vanish(1000, total as int);
            assert((total as int) * 1000 == 1000 * (total as int)) by (nonlinear_arith);
        }
    }
    raw
}

/// The next state of the pseudo-random pair sequence.
fn lcg(s: u64) -> u64 {
    s.wrapping_mul(6364136223846793005).wrapping_add(1442695040888963407)
}

/// Draws an index below `n` from one pseudo-random word.
fn pick_index(r: u64, n: usize) -> (i: usize)
    requires
        n >= 1,
    ensures
        i < n,
{
    ((r >> 16u64) % (n as u64)) as usize
}

/// Exchanges the targets of sources `i` and `j` when that lowers the total
/// cost; keeps the tracked cost exact either way.
fn improve_pair(
    src: &Vec<Particle>,
    tgt: &Vec<Particle>,
    lambda: i64,
    assign: &mut Vec<usize>,
    cost: &mut i64,
    i: usize,
    j: usize,
) -> (improved: bool)
    requires
        cost_ctx(src@, tgt@, old(assign)@, lambda as int),
        src@.len() <= MAX_PARTICLES,
        is_permutation(old(assign)@, src@.len() as nat),
        *old(cost) == total_cost(src@, tgt@, old(assign)@, lambda as int),
        0 <= *old(cost) <= src@.len() * PAIR_COST_BOUND,
        i < j < src@.len(),
    ensures
        cost_ctx(src@, tgt@, final(assign)@, lambda as int),
        is_permutation(final(assign)@, src@.len() as nat),
        *final(cost) == total_cost(src@, tgt@, final(assign)@, lambda as int),
        0 <= *final(cost) <= *old(cost),
        !improved ==> final(assign)@ == old(assign)@ && *final(cost) == *old(cost),
{
    let n = src.len();
    let ai: usize = assign[i];
    let aj: usize = assign[j];
    let cii = pair_cost(&src[i], &tgt[ai], lambda);
    let cjj = pair_cost(&src[j], &tgt[aj], lambda);
    let cij = pair_cost(&src[i], &tgt[aj], lambda);
    let cji = pair_cost(&src[j], &tgt[ai], lambda);
    if cij + cji < cii + cjj {
        proof {
            lemma_two_terms_bound(src@, tgt@, assign@, lambda as int, i as int, j as int);
            lemma_total_cost_swap(src@, tgt@, assign@, lambda as int, i as int, j as int);
            lemma_swap_preserves_permutation(assign@, n as nat, i as int, j as int);
        }
        assign.set(i, aj);
        assign.set(j, ai);
        proof {
            assert(assign@ =~= old(assign)@.update(i as int, aj).update(j as int, ai));
            lemma_cost_prefix_bounds(src@, tgt@, assign@, lambda as int, assign@.len() as int);
        }
        *cost = *cost - cii - cjj + cij + cji;
        true
    } else {
        false
    }
}

/// Tries every exchange that involves source `i` and a later source; one
/// work unit of the `Optimal` strategy.
fn sweep_row(
    src: &Vec<Particle>,
    tgt: &Vec<Particle>,
    lambda: i64,
    assign: &mut Vec<usize>,
    cost: &mut i64,
    i: usize,
) -> (improved: bool)
    requires
        cost_ctx(src@, tgt@, old(assign)@, lambda as int),
        src@.len() <= MAX_PARTICLES,
        is_permutation(old(assign)@, src@.len() as nat),
        *old(cost) == total_cost(src@, tgt@, old(assign)@, lambda as int),
        0 <= *old(cost) <= src@.len() * PAIR_COST_BOUND,
        i < src@.len(),
    ensures
        cost_ctx(src@, tgt@, final(assign)@, lambda as int),
        is_permutation(final(assign)@, src@.len() as nat),
        *final(cost) == total_cost(src@, tgt@, final(assign)@, lambda as int),
        0 <= *final(cost) <= *old(cost),
{
    let n = src.len();
    let mut improved = false;
    let mut j: usize = i + 1;
    while j < n
        invariant
            i < j <= n,
            n == src@.len() <= MAX_PARTICLES,
            cost_ctx(src@, tgt@, assign@, lambda as int),
            is_permutation(assign@, src@.len() as nat),
            *cost == total_cost(src@, tgt@, assign@, lambda as int),
            0 <= *cost <= *old(cost),
            *old(cost) <= src@.len() * PAIR_COST_BOUND,
        decreases n - j,
    {
        let step_improved = improve_pair(src, tgt, lambda, assign, cost, i, j);
        if step_improved {
            improved = true;
        }
        j = j + 1;
    }
    improved
}

/// Tries `n` pseudo-randomly drawn exchanges; one work unit of the
/// `Heuristic` strategy.
fn heuristic_round(
    src: &Vec<Particle>,
    tgt: &Vec<Particle>,
    lambda: i64,
    assign: &mut Vec<usize>,
    cost: &mut i64,
    rng: &mut u64,
) -> (improved: bool)
    requires
        cost_ctx(src@, tgt@, old(assign)@, lambda as int),
        1 <= src@.len() <= MAX_PARTICLES,
        is_permutation(old(assign)@, src@.len() as nat),
        *old(cost) == total_cost(src@, tgt@, old(assign)@, lambda as int),
        0 <= *old(cost) <= src@.len() * PAIR_COST_BOUND,
    ensures
        cost_ctx(src@, tgt@, final(assign)@, lambda as int),
        is_permutation(final(assign)@, src@.len() as nat),
        *final(cost) == total_cost(src@, tgt@, final(assign)@, lambda as int),
        0 <= *final(cost) <= *old(cost),
{
    let n = src.len();
    let mut improved = false;
    let mut t: usize = 0;
    while t < n
        invariant
            t <= n,
            1 <= n == src@.len() <= MAX_PARTICLES,
            cost_ctx(src@, tgt@, assign@, lambda as int),
            is_permutation(assign@, src@.len() as nat),
            *cost == total_cost(src@, tgt@, assign@, lambda as int),
            0 <= *cost <= *old(cost),
            *old(cost) <= src@.len() * PAIR_COST_BOUND,
        decreases n - t,
    {
        let r1 = lcg(*rng);
        let r2 = lcg(r1);
        *rng = r2;
        let a = pick_index(r1, n);
        let b = pick_index(r2, n);
        let step_improved = if a < b {
            improve_pair(src, tgt, lambda, assign, cost, a, b)
        } else if b < a {
            improve_pair(src, tgt, lambda, assign, cost, b, a)
        } else {
            false
        };
        if step_improved {
            improved = true;
        }
        t = t + 1;
    }
    improved
}

/// What every run that was allowed to start guarantees, whatever the
/// cancellation flag did:
///
/// - messages are ordered, with the one terminal message last;
/// - every streamed assignment snapshot is already a permutation of
///   `[0, n)`;
/// - progress values never decrease and stay in `[0, PROGRESS_FULL]`;
/// - a completed run delivers a permutation of `[0, n)` costing at most the
///   identity assignment, announced by `Progress(PROGRESS_FULL)` directly
///   before the one `Done`, and no `Cancelled` appears;
/// - a cancelled run ends with exactly one `Cancelled` and delivers no
///   `Done` at all.
pub open spec fn solve_run_ok(src: Seq<Particle>, tgt: Seq<Particle>, lambda: int, run: SolveRun) -> bool {
    let log = run.log@;
    &&& log.len() > 0
    &&& terminal_only_last(log)
    &&& forall|i: int|
        0 <= i < log.len() ==> ((#[trigger] log[i]) matches ProgressMsg::UpdateAssignments(a)
            ==> is_permutation(a@, src.len()))
    &&& nondecreasing(progress_values(log))
    &&& progress_in_range(log, 0, PROGRESS_FULL as int)
    &&& match run.outcome {
        SolveOutcome::Completed(a) => {
            &&& is_permutation(a@, src.len())
            &&& total_cost(src, tgt, a@, lambda) <= total_cost(
                src, tgt, identity_seq(src.len()), lambda)
            &&& log.last() is Done
            &&& log.last()->Done_0@ == a@
            &&& log.len() >= 2
            &&& log[log.len() - 2] == ProgressMsg::Progress(PROGRESS_FULL)
            &&& forall|i: int| 0 <= i < log.len() ==> !((#[trigger] log[i]) is Cancelled)
        },
        SolveOutcome::Cancelled => {
            &&& log.last() is Cancelled
            &&& cancelled_count(log) == 1
            &&& forall|i: int| 0 <= i < log.len() ==> !((#[trigger] log[i]) is Done)
        },
    }
}

/// Runs one job to its terminal message, polling the cancellation flag
/// before every work unit.
///
/// Input errors are rejected synchronously, before any solver work: settings
/// out of their recognized ranges, then grids that do not match the
/// configured side length.  Every run that starts satisfies
/// [`solve_run_ok`].
pub fn solve(
    source: &ParticleGrid,
    target: &ParticleGrid,
    settings: &GenerationSettings,
    cancel: &CancelFlag,
) -> (r: Result<SolveRun, SolveError>)
    requires
        source.wf(),
        target.wf(),
    ensures
        r is Ok <==> (settings.valid() && source.sidelen == settings.sidelen && target.sidelen
            == settings.sidelen),
        r matches Err(e) ==> (e == SolveError::SettingsOutOfRange <==> !settings.valid()),
        r matches Ok(run) ==> solve_run_ok(
            source.particles@,
            target.particles@,
            settings.lambda_spec(),
            run,
        ),
{
    match settings.validate() {
        Err(e) => {
            return Err(e);
        },
        Ok(()) => {},
    }
    if source.sidelen != settings.sidelen || target.sidelen != settings.sidelen {
        return Err(SolveError::SizeMismatch);
    }
    let lambda = settings.lambda();
    let mut job = match SolverJob::new(source, target, lambda, settings.algorithm) {
        Ok(j) => j,
        Err(e) => {
            return Err(e);
        },
    };
    let mut log: Vec<ProgressMsg> = Vec::new();
    while job.is_running()
        invariant
            job.wf(),
            job.src@ == source.particles@,
            job.tgt@ == target.particles@,
            (job.lambda as int) == settings.lambda_spec(),
            job.n == source.particles@.len(),
            terminal_only_last(log@),
            forall|i: int|
                0 <= i < log@.len() ==> ((#[trigger] log@[i]) matches
                    ProgressMsg::UpdateAssignments(a) ==> is_permutation(a@, job.n as nat)),
            nondecreasing(progress_values(log@)),
            progress_in_range(log@, 0, job.last_progress as int),
            job.state is Running ==> forall|i: int|
                0 <= i < log@.len() ==> !is_terminal(#[trigger] log@[i]),
            !(job.state is Cancelled) ==> forall|i: int|
                0 <= i < log@.len() ==> !((#[trigger] log@[i]) is Cancelled),
            job.state is Completed ==> {
                &&& log@.len() >= 2
                &&& log@.last() is Done
                &&& log@.last()->Done_0@ == job.assign@
                &&& log@[log@.len() - 2] == ProgressMsg::Progress(PROGRESS_FULL)
            },
            job.state is Cancelled ==> {
                &&& log@.len() >= 1
                &&& log@.last() is Cancelled
                &&& forall|i: int| 0 <= i < log@.len() ==> !((#[trigger] log@[i]) is Done)
            },
        decreases job.work_left(),
    {
        let ghost pre = job;
        let ghost old_log = log@;
        let cancelled = cancel.is_set();
        let mut msgs = job.step(cancelled);
        let ghost ms = msgs@;
        log.append(&mut msgs);
        proof {
            assert(log@ == old_log + ms);
            lemma_progress_values_add(old_log, ms);
            lemma_progress_values_in_range(old_log, 0, pre.last_progress as int);
            if cancelled {
                assert(progress_values(Seq::<ProgressMsg>::empty()) =~= Seq::<int>::empty());
                assert(ms =~= seq![ProgressMsg::Cancelled]);
                assert(ms.drop_last() =~= Seq::<ProgressMsg>::empty());
                assert(progress_values(ms) =~= Seq::<int>::empty());
                assert(progress_values(log@) =~= progress_values(old_log));
            } else {
                lemma_progress_values_in_range(ms, pre.last_progress as int,
                    job.last_progress as int);
                lemma_nondecreasing_join(
                    progress_values(old_log),
                    progress_values(ms),
                    pre.last_progress as int,
                );
            }
            assert forall|i: int| 0 <= i < log@.len() implies (
            (#[trigger] log@[i]) matches ProgressMsg::Progress(p) ==> 0 <= p
                <= job.last_progress) by {
                if i < old_log.len() {
                    assert(log@[i] == old_log[i]);
                } else {
                    assert(log@[i] == ms[i - old_log.len()]);
                }
            }
            assert forall|i: int| 0 <= i < log@.len() implies ((#[trigger] log@[i]) matches
                ProgressMsg::UpdateAssignments(a) ==> is_permutation(a@, job.n as nat)) by {
                if i < old_log.len() {
                    assert(log@[i] == old_log[i]);
                } else {
                    assert(log@[i] == ms[i - old_log.len()]);
                }
            }
            assert forall|i: int| 0 <= i < log@.len() && is_terminal(#[trigger] log@[i]) implies i
                == log@.len() - 1 by {
                if i < old_log.len() {
                    assert(log@[i] == old_log[i]);
                } else {
                    assert(log@[i] == ms[i - old_log.len()]);
                }
            }
            if !(job.state is Cancelled) {
                assert forall|i: int| 0 <= i < log@.len() implies !((#[trigger] log@[i])
                    is Cancelled) by {
                    if i < old_log.len() {
                        assert(log@[i] == old_log[i]);
                    } else {
                        assert(log@[i] == ms[i - old_log.len()]);
                    }
                }
            }
            if job.state is Cancelled {
                assert forall|i: int| 0 <= i < log@.len() implies !((#[trigger] log@[i]) is Done)
                    by {
                    if i < old_log.len() {
                        assert(log@[i] == old_log[i]);
                    } else {
                        assert(log@[i] == ms[i - old_log.len()]);
                    }
                }
            }
            if job.state is Running {
                assert forall|i: int| 0 <= i < log@.len() implies !is_terminal(
                    #[trigger] log@[i]) by {
                    if i < old_log.len() {
                        assert(log@[i] == old_log[i]);
                    } else {
                        assert(log@[i] == ms[i - old_log.len()]);
                    }
                }
            }
            pre.lemma_work_left_pos();
            job.lemma_work_left_pos();
        }
    }
    proof {
        assert(progress_in_range(log@, 0, PROGRESS_FULL as int)) by {
            assert forall|i: int| 0 <= i < log@.len() implies ((#[trigger] log@[i]) matches
                ProgressMsg::Progress(p) ==> 0 <= p <= PROGRESS_FULL) by {}
        }
    }
    let outcome = match job.state {
        JobState::Completed => SolveOutcome::Completed(copy_assignment(&job.assign)),
        _ => {
            proof {
                lemma_cancelled_exactly_once(log@);
            }
            SolveOutcome::Cancelled
        },
    };
    Ok(SolveRun { outcome, log })
}

} // verus!
