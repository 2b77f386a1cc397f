//! The decisions of the training loop.
//!
//! Everything the loop needs is a pure function of the step index (the batch,
//! the learning rate, the schedule), so a crashed run resumes into exactly the
//! stream it left.

use vstd::arithmetic::overflow::{CheckedU128, CheckedU64, CheckedUsize};
use vstd::prelude::*;

use crate::number::{Double, Single};
use crate::period::{a_period_ends_on_its_last_index, closes};
use crate::train::schedule::{Phases, Rate, Wsd};

verus! {

/// Everything about a run that is not the model itself.
///
/// The defaults are the `tiny` recipe.
#[derive(Debug, Clone, Copy, PartialEq, Eq, Structural)]
pub struct Run {
    /// Optimizer steps.
    pub steps: usize,
    /// Sequences per forward pass. This is the memory knob: raise it until the
    /// card refuses, and compensate with `accum`.
    pub micro_batch: usize,
    /// Forward/backward passes per optimizer step. `micro_batch * accum *
    /// seq_len` is the token batch.
    pub accum: usize,
    pub lr: Double,
    /// Final rate as a fraction of `lr`.
    pub lr_floor: Double,
    pub warmup: usize,
    /// Steps of the final fall; a run too short for them falls as soon as it is
    /// warm.
    pub decay: usize,
    pub weight_decay: Single,
    pub clip: Single,
    pub seed: u64,
    pub log_every: usize,
    pub eval_every: usize,
    pub eval_batches: usize,
    pub save_every: usize,
    /// Muon on the hidden matrices; `false` puts everything on AdamW.
    pub muon: bool,
    /// Recompute activations in the backward.
    pub checkpointing: bool,
}

impl Run {
    /// The default recipe.
    pub open spec fn defaults() -> Run {
        Run {
            steps: 12_500,
            micro_batch: 8,
            accum: 16,
            lr: Double { bits: 0x3f68_9374_bc6a_7efa },
            lr_floor: Double { bits: 0x3fb9_9999_9999_999a },
            warmup: 2_000,
            decay: 12_000,
            weight_decay: Single { bits: 0x3dcc_cccd },
            clip: Single { bits: 0x3f80_0000 },
            seed: 1337,
            log_every: 20,
            eval_every: 1_000,
            eval_batches: 20,
            save_every: 2_000,
            muon: true,
            checkpointing: true,
        }
    }

    /// The steps that decay: `decay` of them, or what the warmup leaves of a run
    /// too short for that.
    pub open spec fn falling(self) -> nat {
        if self.warmup + self.decay <= self.steps {
            self.decay as nat
        } else if self.warmup <= self.steps {
            (self.steps - self.warmup) as nat
        } else {
            0
        }
    }

    /// The steps that decay.
    pub fn decay_steps(&self) -> (steps: usize)
        ensures
            steps == self.falling(),
            self.warmup + self.decay <= self.steps ==> steps == self.decay,
            self.warmup <= self.steps < self.warmup + self.decay ==> steps == self.steps
                - self.warmup,
            self.steps < self.warmup ==> steps == 0,
    {
        let rest: usize = self.steps.saturating_sub(self.warmup);
        if self.decay < rest {
            self.decay
        } else {
            rest
        }
    }

    /// Whether the schedule of the run can be laid out: the warmup fits into the
    /// run, and the floor is a fraction of the peak.
    pub open spec fn schedulable(self) -> bool {
        &&& self.warmup <= self.steps
        &&& self.lr_floor.fraction()
    }

    /// Whether the schedule of the run can be laid out.
    pub fn is_schedulable(&self) -> (yes: bool)
        ensures
            yes == self.schedulable(),
            yes <==> self.warmup <= self.steps && 0 < self.lr_floor.bits <= 0x3ff0_0000_0000_0000,
    {
        self.warmup <= self.steps && self.lr_floor.is_fraction()
    }

    /// The default recipe. It can be started at the sequence length of `tiny`.
    pub fn new() -> (run: Self)
        ensures
            run == Run::defaults(),
            run == (Run {
                    steps: 12_500,
                    micro_batch: 8,
                    accum: 16,
                    lr: Double { bits: 0x3f68_9374_bc6a_7efa },
                    lr_floor: Double { bits: 0x3fb9_9999_9999_999a },
                    warmup: 2_000,
                    decay: 12_000,
                    weight_decay: Single { bits: 0x3dcc_cccd },
                    clip: Single { bits: 0x3f80_0000 },
                    seed: 1337,
                    log_every: 20,
                    eval_every: 1_000,
                    eval_batches: 20,
                    save_every: 2_000,
                    muon: true,
                    checkpointing: true,
                }),
            run.schedulable(),
            run.falling() == 10_500,
            token_batch(run, 2048) == 262_144,
            run_fits(run, 2048, origin(None)),
    {
        Self {
            steps: 12_500,
            micro_batch: 8,
            accum: 16,
            lr: Double { bits: 0x3f68_9374_bc6a_7efa },
            lr_floor: Double { bits: 0x3fb9_9999_9999_999a },
            warmup: 2_000,
            decay: 12_000,
            weight_decay: Single { bits: 0x3dcc_cccd },
            clip: Single { bits: 0x3f80_0000 },
            seed: 1337,
            log_every: 20,
            eval_every: 1_000,
            eval_batches: 20,
            save_every: 2_000,
            muon: true,
            checkpointing: true,
        }
    }

    pub fn with_steps(self, steps: usize) -> (run: Self)
        ensures
            run == (Run { steps, ..self }),
    {
        Self { steps, ..self }
    }

    pub fn with_micro_batch(self, micro_batch: usize) -> (run: Self)
        ensures
            run == (Run { micro_batch, ..self }),
    {
        Self { micro_batch, ..self }
    }

    pub fn with_accum(self, accum: usize) -> (run: Self)
        ensures
            run == (Run { accum, ..self }),
    {
        Self { accum, ..self }
    }

    pub fn with_lr(self, lr: Double) -> (run: Self)
        ensures
            run == (Run { lr, ..self }),
    {
        Self { lr, ..self }
    }

    pub fn with_lr_floor(self, lr_floor: Double) -> (run: Self)
        ensures
            run == (Run { lr_floor, ..self }),
    {
        Self { lr_floor, ..self }
    }

    pub fn with_warmup(self, warmup: usize) -> (run: Self)
        ensures
            run == (Run { warmup, ..self }),
    {
        Self { warmup, ..self }
    }

    pub fn with_decay(self, decay: usize) -> (run: Self)
        ensures
            run == (Run { decay, ..self }),
    {
        Self { decay, ..self }
    }

    pub fn with_weight_decay(self, weight_decay: Single) -> (run: Self)
        ensures
            run == (Run { weight_decay, ..self }),
    {
        Self { weight_decay, ..self }
    }

    pub fn with_clip(self, clip: Single) -> (run: Self)
        ensures
            run == (Run { clip, ..self }),
    {
        Self { clip, ..self }
    }

    pub fn with_seed(self, seed: u64) -> (run: Self)
        ensures
            run == (Run { seed, ..self }),
    {
        Self { seed, ..self }
    }

    pub fn with_log_every(self, log_every: usize) -> (run: Self)
        ensures
            run == (Run { log_every, ..self }),
    {
        Self { log_every, ..self }
    }

    pub fn with_eval_every(self, eval_every: usize) -> (run: Self)
        ensures
            run == (Run { eval_every, ..self }),
    {
        Self { eval_every, ..self }
    }

    pub fn with_eval_batches(self, eval_batches: usize) -> (run: Self)
        ensures
            run == (Run { eval_batches, ..self }),
    {
        Self { eval_batches, ..self }
    }

    pub fn with_save_every(self, save_every: usize) -> (run: Self)
        ensures
            run == (Run { save_every, ..self }),
    {
        Self { save_every, ..self }
    }

    pub fn with_muon(self, muon: bool) -> (run: Self)
        ensures
            run == (Run { muon, ..self }),
    {
        Self { muon, ..self }
    }

    pub fn with_checkpointing(self, checkpointing: bool) -> (run: Self)
        ensures
            run == (Run { checkpointing, ..self }),
    {
        Self { checkpointing, ..self }
    }

    /// The tokens the whole run sees; `None` where they do not fit the counter.
    pub fn tokens(&self, seq_len: usize) -> (tokens: Option<u64>)
        ensures
            tokens is Some <==> token_batch(*self, seq_len as int) * self.steps <= u64::MAX,
            tokens is Some <==> self.micro_batch * self.accum * seq_len * self.steps <= u64::MAX,
            tokens matches Some(tokens) ==> tokens == self.micro_batch * self.accum * seq_len
                * self.steps,
            tokens matches Some(tokens) ==> tokens == token_batch(*self, seq_len as int)
                * self.steps,
    {
        CheckedU64::new(self.micro_batch as u64).mul_value(self.accum as u64).mul_value(
            seq_len as u64,
        ).mul_value(self.steps as u64).to_option()
    }
}

/// Why a run stopped; each variant holds the text of its cause.
#[derive(Debug, PartialEq, Eq)]
pub enum Error {
    Io(String),
    Checkpoint(String),
}

impl Error {
    /// The text of the cause.
    pub open spec fn cause(self) -> Seq<char> {
        match self {
            Error::Io(text) => text@,
            Error::Checkpoint(text) => text@,
        }
    }

    /// What went wrong, in the words of the cause.
    pub fn message(&self) -> (text: &str)
        ensures
            text@ == self.cause(),
            match *self {
                Error::Io(cause) => text@ == cause@,
                Error::Checkpoint(cause) => text@ == cause@,
            },
    {
        match self {
            Error::Io(text) => text.as_str(),
            Error::Checkpoint(text) => text.as_str(),
        }
    }
}

/// How far a run has come: what a checkpoint keeps beside the weights.
#[derive(Debug, Clone, Copy, PartialEq, Eq, Structural)]
pub struct State {
    /// Optimizer steps taken.
    pub step: usize,
    /// Tokens seen.
    pub tokens: u64,
}

/// Whether `step` is the last of an `every`-sized period; `every == 0` disables.
pub open spec fn is_due(step: int, every: int) -> bool {
    closes(step, every)
}

/// Whether `step` is the last of an `every`-sized period; `every == 0` disables.
pub fn due(step: usize, every: usize) -> (yes: bool)
    requires
        every > 0 ==> step < usize::MAX,
    ensures
        yes == is_due(step as int, every as int),
        every == 0 ==> !yes,
        every > 0 ==> (yes <==> (step + 1) % every as int == 0),
{
    every > 0 && (step + 1).is_multiple_of(every)
}

/// The tokens of one optimizer step.
pub open spec fn token_batch(run: Run, seq_len: int) -> int {
    run.micro_batch * run.accum * seq_len
}

/// The batch that micro-batch `micro` of `step` draws.
pub open spec fn batch_index(step: int, accum: int, micro: int) -> int {
    step * accum + micro
}

/// Where a run begins: at the state of its newest checkpoint, or at nothing.
pub open spec fn origin(resumed: Option<State>) -> State {
    match resumed {
        Some(state) => state,
        None => State { step: 0, tokens: 0 },
    }
}

/// Whether every count of the run fits its integer when it goes on from `from`:
/// the token batch, and, where there are steps left, the last batch index and
/// the last token count.
pub open spec fn run_fits(run: Run, seq_len: int, from: State) -> bool {
    &&& token_batch(run, seq_len) <= usize::MAX
    &&& from.step < run.steps ==> {
        &&& run.steps * run.accum - 1 <= usize::MAX
        &&& from.tokens + (run.steps - from.step) * token_batch(run, seq_len) <= u64::MAX
    }
}

/// A run under way.
pub struct Progress {
    pub run: Run,
    pub phases: Phases,
    pub per_step: int,
    pub state: State,
}

/// A run that goes on from `state`.
pub open spec fn begun(run: Run, seq_len: int, state: State) -> Progress {
    Progress {
        run,
        phases: Phases {
            peak: run.lr,
            floor: run.lr_floor,
            warmup: run.warmup as nat,
            decay: run.falling(),
            steps: run.steps as nat,
        },
        per_step: token_batch(run, seq_len),
        state,
    }
}

impl Progress {
    /// Whether no step is left.
    pub open spec fn over(self) -> bool {
        self.state.step >= self.run.steps
    }

    /// The next optimizer step.
    pub open spec fn upcoming(self) -> Step {
        Step {
            step: self.state.step,
            rate: self.phases.rate(self.state.step as int),
            logging: is_due(self.state.step as int, self.run.log_every as int),
        }
    }

    /// The batch that micro-batch `micro` of the next step draws.
    pub open spec fn draws(self, micro: int) -> int {
        batch_index(self.state.step as int, self.run.accum as int, micro)
    }

    /// What follows the next step.
    pub open spec fn aftermath(self) -> After {
        let step = self.state.step as int;
        After {
            log: is_due(step, self.run.log_every as int),
            eval: is_due(step, self.run.eval_every as int),
            save: if is_due(step, self.run.save_every as int) {
                Some((step + 1) as usize)
            } else {
                None
            },
        }
    }

    /// The run `n` steps on.
    pub open spec fn advanced(self, n: int) -> Progress {
        Progress {
            state: State {
                step: (self.state.step + n) as usize,
                tokens: (self.state.tokens + n * self.per_step) as u64,
            },
            ..self
        }
    }
}

/// What one optimizer step does.
#[derive(Debug, Clone, Copy, PartialEq, Eq, Structural)]
pub struct Step {
    pub step: usize,
    pub rate: Rate,
    /// Reading a loss blocks until the device catches up, so it is read on
    /// logging steps only.
    pub logging: bool,
}

/// What follows one optimizer step.
#[derive(Debug, Clone, Copy, PartialEq, Eq, Structural)]
pub struct After {
    pub log: bool,
    pub eval: bool,
    /// The step to file a checkpoint under.
    pub save: Option<usize>,
}

/// Decides what the training loop does next.
#[derive(Debug, Clone, Copy)]
pub struct Training {
    run: Run,
    schedule: Wsd,
    per_step: u64,
    state: State,
}

impl View for Training {
    type V = Progress;

    closed spec fn view(&self) -> Progress {
        Progress {
            run: self.run,
            phases: self.schedule@,
            per_step: self.per_step as int,
            state: self.state,
        }
    }
}

impl Training {
    #[verifier::type_invariant]
    spec fn bounded(self) -> bool {
        &&& self.schedule@.steps == self.run.steps
        &&& self.state.step < self.run.steps ==> {
            &&& self.run.steps * self.run.accum - 1 <= usize::MAX
            &&& self.state.tokens + (self.run.steps - self.state.step) * self.per_step <= u64::MAX
        }
    }

    /// Whether every count of the run fits its integer.
    pub fn can_start(run: &Run, seq_len: usize, resumed: Option<State>) -> (fits: bool)
        ensures
            fits == run_fits(*run, seq_len as int, origin(resumed)),
            fits <==> {
                let batch = run.micro_batch * run.accum * seq_len;
                let (step, tokens) = match resumed {
                    Some(state) => (state.step as int, state.tokens as int),
                    None => (0, 0),
                };
                &&& batch <= usize::MAX
                &&& step < run.steps ==> run.steps * run.accum <= usize::MAX + 1 && tokens + (
                run.steps - step) * batch <= u64::MAX
            },
    {
        let from = match resumed {
            Some(state) => state,
            None => State { step: 0, tokens: 0 },
        };
        let per_step = CheckedUsize::new(run.micro_batch).mul_value(run.accum).mul_value(seq_len);
        if per_step.is_overflowed() {
            return false;
        }
        if from.step >= run.steps {
            return true;
        }
        let draws = CheckedU128::new(run.steps as u128).mul_value(run.accum as u128);
        proof {
            let (a, b, max) = (run.steps as int, run.accum as int, usize::MAX as int);
            assert(a * b <= max * max) by (nonlinear_arith)
                requires
                    0 <= a <= max,
                    0 <= b <= max,
            ;
            assert(max * max <= u128::MAX) by (nonlinear_arith)
                requires
                    0 <= max <= u64::MAX,
            ;
        }
        if draws.unwrap() > usize::MAX as u128 + 1 {
            return false;
        }
        let left: usize = run.steps - from.step;
        let total = CheckedU64::new(left as u64).mul_value(per_step.unwrap() as u64).add_value(
            from.tokens,
        );
        !total.is_overflowed()
    }

    /// Begin a run, or go on from the state of its newest checkpoint.
    pub fn start(run: Run, seq_len: usize, resumed: Option<State>) -> (training: Self)
        requires
            run.schedulable(),
            run_fits(run, seq_len as int, origin(resumed)),
        ensures
            training@ == begun(run, seq_len as int, origin(resumed)),
            training@.run == run,
            training@.per_step == run.micro_batch * run.accum * seq_len,
            resumed matches Some(state) ==> training@.state == state,
            resumed is None ==> training@.state == (State { step: 0, tokens: 0 }),
            training@.phases.peak == run.lr,
            training@.phases.floor == run.lr_floor,
            training@.phases.warmup == run.warmup,
            training@.phases.steps == run.steps,
            run.warmup + run.decay <= run.steps ==> training@.phases.decay == run.decay,
            run.warmup + run.decay > run.steps ==> training@.phases.decay == run.steps
                - run.warmup,
    {
        let state = match resumed {
            Some(state) => state,
            None => State { step: 0, tokens: 0 },
        };
        let schedule = Wsd::new(run.lr, run.lr_floor, run.warmup, run.decay_steps(), run.steps);
        let per_step = CheckedUsize::new(run.micro_batch).mul_value(run.accum).mul_value(
            seq_len,
        ).unwrap() as u64;
        Self { run, schedule, per_step, state }
    }

    /// How far the run has come.
    pub fn state(&self) -> (state: State)
        ensures
            state == self@.state,
    {
        self.state
    }

    /// The tokens of one optimizer step.
    pub fn per_step(&self) -> (tokens: u64)
        ensures
            tokens == self@.per_step,
    {
        self.per_step
    }

    /// The next optimizer step; `None` when the run is over.
    pub fn next(&self) -> (step: Option<Step>)
        ensures
            step == if self@.over() {
                None
            } else {
                Some(self@.upcoming())
            },
            step is None <==> self@.run.steps <= self@.state.step,
            step matches Some(now) ==> {
                let (at, phases) = (self@.state.step as int, self@.phases);
                &&& now.step == at
                &&& at < phases.warmup ==> now.rate == (Rate::Warmup {
                    step: (at + 1) as usize,
                    of: phases.warmup as usize,
                })
                &&& phases.warmup <= at < phases.steps - phases.decay ==> now.rate == Rate::Peak
                &&& phases.warmup <= at && phases.steps - phases.decay <= at ==> now.rate == (
                Rate::Decay {
                    step: (at - (phases.steps - phases.decay) + 1) as usize,
                    of: phases.decay as usize,
                })
                &&& now.logging <==> self@.run.log_every > 0 && (at + 1)
                    % self@.run.log_every as int == 0
            },
    {
        proof {
            use_type_invariant(self);
        }
        let step = self.state.step;
        if step >= self.run.steps {
            return None;
        }
        Some(
            Step {
                step,
                rate: self.schedule.lr(step),
                logging: due(step, self.run.log_every),
            },
        )
    }

    /// The batch that micro-batch `micro` of the next step draws.
    pub fn batch(&self, micro: usize) -> (index: u64)
        requires
            !self@.over(),
            micro < self@.run.accum,
        ensures
            index == self@.draws(micro as int),
            index == self@.state.step * self@.run.accum + micro,
    {
        proof {
            use_type_invariant(self);
            lemma_batch_below(
                self.state.step as int,
                self.run.accum as int,
                micro as int,
                self.run.steps as int,
            );
        }
        (self.state.step * self.run.accum + micro) as u64
    }

    /// The optimizer step has been taken: count it, and say what follows.
    pub fn advance(&mut self) -> (after: After)
        requires
            !old(self)@.over(),
        ensures
            after == old(self)@.aftermath(),
            final(self)@ == old(self)@.advanced(1),
            ({
                let (before, run) = (old(self)@, old(self)@.run);
                let next = before.state.step + 1;
                &&& after.log <==> run.log_every > 0 && next % run.log_every as int == 0
                &&& after.eval <==> run.eval_every > 0 && next % run.eval_every as int == 0
                &&& after.save is Some <==> run.save_every > 0 && next % run.save_every as int == 0
                &&& after.save matches Some(under) ==> under == next
                &&& final(self)@.run == run
                &&& final(self)@.phases == before.phases
                &&& final(self)@.per_step == before.per_step
            }),
            final(self)@.state.step == old(self)@.state.step + 1,
            final(self)@.state.tokens == old(self)@.state.tokens + old(self)@.per_step,
    {
        proof {
            use_type_invariant(&*self);
            let left = self.run.steps - self.state.step;
            let per_step = self.per_step as int;
            assert(left * per_step == (left - 1) * per_step + per_step && (left - 1) * per_step
                >= 0) by (nonlinear_arith)
                requires
                    left >= 1,
                    per_step >= 0,
            ;
        }
        let step = self.state.step;
        let state = State { step: step + 1, tokens: self.state.tokens + self.per_step };
        self.state = state;
        After {
            log: due(step, self.run.log_every),
            eval: due(step, self.run.eval_every),
            save: if due(step, self.run.save_every) {
                Some(state.step)
            } else {
                None
            },
        }
    }

    /// The run is over: the state to file as its last checkpoint, under
    /// `last.step`. It is filed whether or not a period ends there.
    pub fn close(&self) -> (last: State)
        requires
            self@.over(),
        ensures
            last == self@.state,
            seq![last] == self@.checkpoints(),
    {
        proof {
            vstd::arithmetic::mul::lemma_mul_by_zero_is_zero(self@.per_step);
        }
        self.state
    }

    /// The run is asked to stop: the state to file as a checkpoint, under
    /// `last.step`, from which a later run goes on.
    pub fn stop(self) -> (last: State)
        ensures
            last == self@.state,
            seq![last] == self@.stopped(0),
    {
        proof {
            vstd::arithmetic::mul::lemma_mul_by_zero_is_zero(self@.per_step);
        }
        self.state
    }
}

proof fn lemma_batch_below(step: int, accum: int, micro: int, steps: int)
    requires
        0 <= step < steps,
        0 <= micro < accum,
    ensures
        0 <= step * accum <= batch_index(step, accum, micro) < steps * accum,
{
    assert(0 <= step * accum && step * accum + accum <= steps * accum) by (nonlinear_arith)
        requires
            0 <= step,
            step + 1 <= steps,
            0 <= accum,
    ;
}

// ── what resuming promises ───────────────────────────────────────────────────

/// The batches are drawn one after another: the last of a step is followed by
/// the first of the next, and no two draws of a run share a batch.
pub proof fn batches_follow_one_another(accum: int, step: int, micro: int)
    requires
        step >= 0,
        0 <= micro < accum,
    ensures
        batch_index(step, accum, accum - 1) + 1 == batch_index(step + 1, accum, 0),
        batch_index(step, accum, micro) / accum == step,
        batch_index(step, accum, micro) % accum == micro,
{
    vstd::arithmetic::mul::lemma_mul_is_distributive_add_other_way(accum, step, 1);
    vstd::arithmetic::div_mod::lemma_fundamental_div_mod_converse(
        batch_index(step, accum, micro),
        accum,
        step,
        micro,
    );
}

/// A run interrupted after `a` steps is resumed, from the state it left, into
/// exactly the run it was, and every further step, draw and checkpoint is that of
/// the run never interrupted.
pub proof fn resuming_continues_the_run(run: Run, seq_len: nat, from: State, a: nat, b: nat)
    requires
        run_fits(run, seq_len as int, from),
        from.step + a + b <= run.steps,
    ensures
        ({
            let whole = begun(run, seq_len as int, from);
            let left = whole.advanced(a as int).state;
            let resumed = begun(run, seq_len as int, left);
            &&& run_fits(run, seq_len as int, left)
            &&& left.step == from.step + a
            &&& resumed.advanced(b as int) == whole.advanced((a + b) as int)
        }),
{
    let per_step = token_batch(run, seq_len as int);
    let left = run.steps - from.step;
    lemma_token_batch(run, seq_len);
    vstd::arithmetic::mul::lemma_mul_is_distributive_add_other_way(per_step, a as int, b as int);
    vstd::arithmetic::mul::lemma_mul_is_distributive_add_other_way(per_step, a as int, left - a);
    vstd::arithmetic::mul::lemma_mul_nonnegative(a as int, per_step);
    vstd::arithmetic::mul::lemma_mul_nonnegative(left - a, per_step);
    if a + b < left {
        vstd::arithmetic::mul::lemma_mul_inequality((a + b) as int, left, per_step);
    }
    if a == 0 {
        vstd::arithmetic::mul::lemma_mul_by_zero_is_zero(per_step);
    }
}

/// A run begun at nothing ends on its last step, and not before; it has then
/// seen one token batch for every step.
pub proof fn a_run_sees_its_token_budget(run: Run, seq_len: nat, n: nat)
    requires
        run_fits(run, seq_len as int, origin(None)),
        n <= run.steps,
    ensures
        ({
            let now = begun(run, seq_len as int, origin(None)).advanced(n as int);
            &&& now.over() <==> n == run.steps
            &&& now.state.step == n
            &&& now.state.tokens == n * token_batch(run, seq_len as int)
        }),
{
    let per_step = token_batch(run, seq_len as int);
    lemma_token_batch(run, seq_len);
    vstd::arithmetic::mul::lemma_mul_inequality(n as int, run.steps as int, per_step);
    vstd::arithmetic::mul::lemma_mul_nonnegative(n as int, per_step);
    if run.steps == 0 {
        vstd::arithmetic::mul::lemma_mul_by_zero_is_zero(per_step);
    }
}

proof fn lemma_token_batch(run: Run, seq_len: nat)
    ensures
        token_batch(run, seq_len as int) >= 0,
{
    vstd::arithmetic::mul::lemma_mul_nonnegative(run.micro_batch as int, run.accum as int);
    vstd::arithmetic::mul::lemma_mul_nonnegative(
        run.micro_batch * run.accum,
        seq_len as int,
    );
}

/// Two draws of a run share a batch only where they are the same micro-batch of
/// the same step.
pub proof fn no_two_draws_share_a_batch(one: Progress, other: Progress, a: int, b: int)
    requires
        one.run == other.run,
        0 <= a < one.run.accum,
        0 <= b < one.run.accum,
        one.draws(a) == other.draws(b),
    ensures
        one.state.step == other.state.step,
        a == b,
{
    batches_follow_one_another(one.run.accum as int, one.state.step as int, a);
    batches_follow_one_another(one.run.accum as int, other.state.step as int, b);
}

/// A period comes due on its last step and on no other; a disabled one never
/// does.
pub proof fn a_period_comes_due_on_its_last_step(step: nat, every: nat)
    ensures
        every == 0 ==> !is_due(step as int, every as int),
        every > 0 ==> (is_due(step as int, every as int) <==> step % every == every - 1),
{
    if every > 0 {
        a_period_ends_on_its_last_index(step, every);
    }
}

/// The phases of a run fit into it, and its decay is as long as it is set wherever
/// that leaves the warmup its steps.
pub proof fn the_phases_of_a_run_fit(run: Run, seq_len: nat, from: State)
    requires
        run.schedulable(),
    ensures
        ({
            let phases = begun(run, seq_len as int, from).phases;
            &&& phases.fit()
            &&& phases.warmup == run.warmup
            &&& phases.steps == run.steps
            &&& phases.decay <= run.decay
            &&& run.warmup + run.decay <= run.steps ==> phases.decay == run.decay
            &&& run.warmup + run.decay > run.steps ==> phases.stable_end() == run.warmup
        }),
{
}

// ── what a run leaves behind ─────────────────────────────────────────────────

impl Progress {
    /// The steps left.
    pub open spec fn left(self) -> nat {
        if self.over() {
            0
        } else {
            (self.run.steps - self.state.step) as nat
        }
    }

    /// The checkpoints that the periods of the next `n` steps file, in order.
    pub open spec fn filed(self, n: nat) -> Seq<State>
        decreases n,
    {
        if n == 0 {
            Seq::empty()
        } else {
            let before = self.filed((n - 1) as nat);
            if self.advanced(n - 1).aftermath().save is Some {
                before.push(self.advanced(n as int).state)
            } else {
                before
            }
        }
    }

    /// The checkpoints that a run stopped after `n` more steps files, in order:
    /// those of its periods, and the state it stops at.
    pub open spec fn stopped(self, n: nat) -> Seq<State> {
        self.filed(n).push(self.advanced(n as int).state)
    }

    /// The checkpoints that a run to the end files, in order: those of its
    /// periods, and its last state.
    pub open spec fn checkpoints(self) -> Seq<State> {
        self.stopped(self.left())
    }
}

/// The state that a run from `from` is in `n` steps on, in plain numbers.
proof fn lemma_advanced(run: Run, seq_len: nat, from: State, n: nat)
    requires
        run_fits(run, seq_len as int, from),
        n <= begun(run, seq_len as int, from).left(),
    ensures
        ({
            let state = begun(run, seq_len as int, from).advanced(n as int).state;
            &&& state.step == from.step + n
            &&& state.tokens == from.tokens + n * token_batch(run, seq_len as int)
        }),
{
    let per_step = token_batch(run, seq_len as int);
    lemma_token_batch(run, seq_len);
    if from.step < run.steps {
        vstd::arithmetic::mul::lemma_mul_inequality(
            n as int,
            run.steps - from.step,
            per_step,
        );
        vstd::arithmetic::mul::lemma_mul_nonnegative(n as int, per_step);
    } else {
        vstd::arithmetic::mul::lemma_mul_by_zero_is_zero(per_step);
    }
}

/// The checkpoints of a run hold the state of the step they are filed under, and
/// each is filed no later than the next.
proof fn lemma_filed(run: Run, seq_len: nat, from: State, n: nat, i: int)
    requires
        run_fits(run, seq_len as int, from),
        n <= begun(run, seq_len as int, from).left(),
        0 <= i < begun(run, seq_len as int, from).filed(n).len(),
    ensures
        ({
            let whole = begun(run, seq_len as int, from);
            let state = whole.filed(n)[i];
            &&& from.step < state.step <= from.step + n
            &&& is_due(state.step - 1, run.save_every as int)
            &&& state == whole.advanced(state.step - from.step).state
        }),
    decreases n,
{
    let whole = begun(run, seq_len as int, from);
    let before = whole.filed((n - 1) as nat);
    lemma_advanced(run, seq_len, from, n);
    lemma_advanced(run, seq_len, from, (n - 1) as nat);
    if i < before.len() {
        lemma_filed(run, seq_len, from, (n - 1) as nat, i);
    }
}

/// Every step that closes a saving period is filed.
proof fn lemma_files(run: Run, seq_len: nat, from: State, n: nat, step: int)
    requires
        run_fits(run, seq_len as int, from),
        n <= begun(run, seq_len as int, from).left(),
        from.step < step <= from.step + n,
        is_due(step - 1, run.save_every as int),
    ensures
        exists|i: int|
            0 <= i < begun(run, seq_len as int, from).filed(n).len() && (#[trigger] begun(
                run,
                seq_len as int,
                from,
            ).filed(n)[i]).step == step,
    decreases n,
{
    let whole = begun(run, seq_len as int, from);
    let before = whole.filed((n - 1) as nat);
    lemma_advanced(run, seq_len, from, n);
    lemma_advanced(run, seq_len, from, (n - 1) as nat);
    if step == from.step + n {
        assert(whole.filed(n)[before.len() as int].step == step);
    } else {
        lemma_files(run, seq_len, from, (n - 1) as nat, step);
        let i = choose|i: int| 0 <= i < before.len() && (#[trigger] before[i]).step == step;
        assert(whole.filed(n)[i] == before[i]);
    }
}

/// A run stopped after `n` steps leaves, as its newest checkpoint, the state it
/// stopped at. It can be resumed from there, and then ends where the run never
/// stopped ends.
pub proof fn a_stopped_run_leaves_a_resumable_checkpoint(
    run: Run,
    seq_len: nat,
    from: State,
    n: nat,
)
    requires
        run_fits(run, seq_len as int, from),
        n <= begun(run, seq_len as int, from).left(),
    ensures
        ({
            let whole = begun(run, seq_len as int, from);
            let filed = whole.stopped(n);
            let newest = filed.last();
            let resumed = begun(run, seq_len as int, newest);
            &&& forall|i: int| 0 <= i < filed.len() ==> (#[trigger] filed[i]).step <= newest.step
            &&& newest.step == from.step + n
            &&& newest.tokens == from.tokens + n * token_batch(run, seq_len as int)
            &&& run_fits(run, seq_len as int, newest)
            &&& resumed == whole.advanced(n as int)
            &&& resumed.checkpoints().last() == whole.checkpoints().last()
        }),
{
    let whole = begun(run, seq_len as int, from);
    let filed = whole.stopped(n);
    lemma_advanced(run, seq_len, from, n);
    assert forall|i: int| 0 <= i < filed.len() implies (#[trigger] filed[i]).step
        <= filed.last().step by {
        if i < whole.filed(n).len() {
            lemma_filed(run, seq_len, from, n, i);
        }
    }
    if from.step < run.steps {
        let rest = (whole.left() - n) as nat;
        resuming_continues_the_run(run, seq_len, from, n, rest);
        assert(begun(run, seq_len as int, filed.last()).left() == rest);
    } else {
        assert(filed.last() == from);
    }
}

/// A run to the end leaves, as its newest checkpoint, its last state: the last
/// step, or the step it was resumed at where none was left, and one token batch
/// more for every step taken.
pub proof fn a_run_leaves_its_last_state(run: Run, seq_len: nat, from: State)
    requires
        run_fits(run, seq_len as int, from),
    ensures
        ({
            let whole = begun(run, seq_len as int, from);
            let filed = whole.checkpoints();
            let newest = filed.last();
            &&& forall|i: int| 0 <= i < filed.len() ==> (#[trigger] filed[i]).step <= newest.step
            &&& begun(run, seq_len as int, newest).over()
            &&& newest.step == if from.step < run.steps { run.steps } else { from.step }
            &&& newest.tokens == from.tokens + whole.left() * token_batch(run, seq_len as int)
            &&& from.step >= run.steps ==> filed == seq![from]
        }),
{
    let whole = begun(run, seq_len as int, from);
    a_stopped_run_leaves_a_resumable_checkpoint(run, seq_len, from, whole.left());
    if from.step >= run.steps {
        assert(whole.checkpoints() =~= seq![whole.checkpoints().last()]);
    }
}

/// A run to the end files a checkpoint under the last step of each saving period
/// it passes and under the step it ends at, and under no other; each holds the
/// state of its step.
pub proof fn the_checkpoints_are_the_periods_and_the_end(
    run: Run,
    seq_len: nat,
    from: State,
    step: nat,
)
    requires
        run_fits(run, seq_len as int, from),
    ensures
        ({
            let whole = begun(run, seq_len as int, from);
            let filed = whole.checkpoints();
            let end = if from.step < run.steps { run.steps } else { from.step };
            &&& (exists|i: int| 0 <= i < filed.len() && (#[trigger] filed[i]).step == step) <==> {
                ||| step == end
                ||| from.step < step <= run.steps && run.save_every > 0 && step as int
                    % run.save_every as int == 0
            }
            &&& forall|i: int|
                0 <= i < filed.len() ==> #[trigger] filed[i] == whole.advanced(
                    filed[i].step - from.step,
                ).state
        }),
{
    let whole = begun(run, seq_len as int, from);
    let n = whole.left();
    let filed = whole.checkpoints();
    lemma_advanced(run, seq_len, from, n);
    assert(filed.last() == filed[filed.len() - 1]);
    assert forall|i: int| 0 <= i < filed.len() implies #[trigger] filed[i] == whole.advanced(
        filed[i].step - from.step,
    ).state by {
        if i < whole.filed(n).len() {
            lemma_filed(run, seq_len, from, n, i);
        }
    }
    if exists|i: int| 0 <= i < filed.len() && (#[trigger] filed[i]).step == step {
        let i = choose|i: int| 0 <= i < filed.len() && (#[trigger] filed[i]).step == step;
        if i < whole.filed(n).len() {
            lemma_filed(run, seq_len, from, n, i);
        }
    }
    if from.step < step <= run.steps && is_due(step - 1, run.save_every as int) {
        lemma_files(run, seq_len, from, n, step as int);
        let i = choose|i: int|
            0 <= i < whole.filed(n).len() && (#[trigger] whole.filed(n)[i]).step == step;
        assert(filed[i] == whole.filed(n)[i]);
    }
}

} // verus!
