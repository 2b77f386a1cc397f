//! What the command line chooses: a preset, and the run knobs it overrides.

use vstd::prelude::*;

use crate::config::Model;
use crate::number::Double;
use crate::train::run::Run;

verus! {

/// A model that ships with the crate.
#[derive(Debug, Clone, Copy, PartialEq, Eq, Structural)]
pub enum Preset {
    Tiny,
    Base,
    Toy,
}

impl Preset {
    /// The model of the preset.
    pub fn config(self) -> (model: Model)
        ensures
            model == match self {
                Preset::Tiny => Model::tiny_settings(),
                Preset::Base => Model::base_settings(),
                Preset::Toy => Model::toy_settings(),
            },
            model.valid(),
            model.inner() == match self {
                Preset::Tiny => 1280int,
                Preset::Base => 3072int,
                Preset::Toy => 64int,
            },
    {
        match self {
            Preset::Tiny => Model::tiny(),
            Preset::Base => Model::base(),
            Preset::Toy => Model::toy(),
        }
    }
}

/// The run knobs worth changing from the command line; what is absent keeps its
/// value.
#[derive(Debug, Clone, Copy, PartialEq, Eq)]
pub struct Overrides {
    pub steps: Option<usize>,
    pub micro_batch: Option<usize>,
    pub accum: Option<usize>,
    pub lr: Option<Double>,
    pub warmup: Option<usize>,
    pub decay: Option<usize>,
    pub seed: Option<u64>,
    pub save_every: Option<usize>,
    pub eval_every: Option<usize>,
    pub muon: Option<bool>,
    pub checkpointing: Option<bool>,
}

/// `value` where it is given, `fallback` where it is not.
pub open spec fn or<T>(value: Option<T>, fallback: T) -> T {
    match value {
        Some(value) => value,
        None => fallback,
    }
}

impl Overrides {
    /// The run with every given knob in place of its own.
    pub open spec fn applied(self, run: Run) -> Run {
        Run {
            steps: or(self.steps, run.steps),
            micro_batch: or(self.micro_batch, run.micro_batch),
            accum: or(self.accum, run.accum),
            lr: or(self.lr, run.lr),
            warmup: or(self.warmup, run.warmup),
            decay: or(self.decay, run.decay),
            seed: or(self.seed, run.seed),
            save_every: or(self.save_every, run.save_every),
            eval_every: or(self.eval_every, run.eval_every),
            muon: or(self.muon, run.muon),
            checkpointing: or(self.checkpointing, run.checkpointing),
            ..run
        }
    }

    /// The run with every given knob in place of its own.
    pub fn apply(&self, run: Run) -> (changed: Run)
        ensures
            changed == self.applied(run),
            changed.steps == match self.steps {
                Some(given) => given,
                None => run.steps,
            },
            changed.micro_batch == match self.micro_batch {
                Some(given) => given,
                None => run.micro_batch,
            },
            changed.accum == match self.accum {
                Some(given) => given,
                None => run.accum,
            },
            changed.lr == match self.lr {
                Some(given) => given,
                None => run.lr,
            },
            changed.warmup == match self.warmup {
                Some(given) => given,
                None => run.warmup,
            },
            changed.decay == match self.decay {
                Some(given) => given,
                None => run.decay,
            },
            changed.seed == match self.seed {
                Some(given) => given,
                None => run.seed,
            },
            changed.save_every == match self.save_every {
                Some(given) => given,
                None => run.save_every,
            },
            changed.eval_every == match self.eval_every {
                Some(given) => given,
                None => run.eval_every,
            },
            changed.muon == match self.muon {
                Some(given) => given,
                None => run.muon,
            },
            changed.checkpointing == match self.checkpointing {
                Some(given) => given,
                None => run.checkpointing,
            },
            changed.lr_floor == run.lr_floor,
            changed.weight_decay == run.weight_decay,
            changed.clip == run.clip,
            changed.log_every == run.log_every,
            changed.eval_batches == run.eval_batches,
    {
        Run {
            steps: self.steps.unwrap_or(run.steps),
            micro_batch: self.micro_batch.unwrap_or(run.micro_batch),
            accum: self.accum.unwrap_or(run.accum),
            lr: self.lr.unwrap_or(run.lr),
            warmup: self.warmup.unwrap_or(run.warmup),
            decay: self.decay.unwrap_or(run.decay),
            seed: self.seed.unwrap_or(run.seed),
            save_every: self.save_every.unwrap_or(run.save_every),
            eval_every: self.eval_every.unwrap_or(run.eval_every),
            muon: self.muon.unwrap_or(run.muon),
            checkpointing: self.checkpointing.unwrap_or(run.checkpointing),
            ..run
        }
    }
}

/// The settings of a run: what the command line gives, over what the run was
/// stored with. A new run is stored with nothing and takes the defaults.
pub fn settings(stored: Option<Run>, given: &Overrides) -> (run: Run)
    ensures
        run == given.applied(or(stored, Run::defaults())),
        ({
            let base = match stored {
                Some(run) => run,
                None => Run::defaults(),
            };
            &&& run.steps == match given.steps {
                Some(given) => given,
                None => base.steps,
            }
            &&& run.micro_batch == match given.micro_batch {
                Some(given) => given,
                None => base.micro_batch,
            }
            &&& run.accum == match given.accum {
                Some(given) => given,
                None => base.accum,
            }
            &&& run.lr == match given.lr {
                Some(given) => given,
                None => base.lr,
            }
            &&& run.warmup == match given.warmup {
                Some(given) => given,
                None => base.warmup,
            }
            &&& run.decay == match given.decay {
                Some(given) => given,
                None => base.decay,
            }
            &&& run.seed == match given.seed {
                Some(given) => given,
                None => base.seed,
            }
            &&& run.save_every == match given.save_every {
                Some(given) => given,
                None => base.save_every,
            }
            &&& run.eval_every == match given.eval_every {
                Some(given) => given,
                None => base.eval_every,
            }
            &&& run.muon == match given.muon {
                Some(given) => given,
                None => base.muon,
            }
            &&& run.checkpointing == match given.checkpointing {
                Some(given) => given,
                None => base.checkpointing,
            }
            &&& run.lr_floor == base.lr_floor
            &&& run.weight_decay == base.weight_decay
            &&& run.clip == base.clip
            &&& run.log_every == base.log_every
            &&& run.eval_batches == base.eval_batches
        }),
{
    let base = match stored {
        Some(run) => run,
        None => Run::new(),
    };
    given.apply(base)
}

/// A resumed run goes on under the settings it was stored with: a knob that is
/// not given is read back, one that is given takes its place, and what the command
/// line cannot give is read back always.
pub proof fn knobs_not_given_are_read_back(stored: Run, given: Overrides)
    ensures
        ({
            let run = given.applied(or(Some(stored), Run::defaults()));
            &&& run == given.applied(stored)
            &&& given.steps is None ==> run.steps == stored.steps
            &&& given.micro_batch is None ==> run.micro_batch == stored.micro_batch
            &&& given.accum is None ==> run.accum == stored.accum
            &&& given.lr is None ==> run.lr == stored.lr
            &&& given.warmup is None ==> run.warmup == stored.warmup
            &&& given.decay is None ==> run.decay == stored.decay
            &&& given.seed is None ==> run.seed == stored.seed
            &&& given.save_every is None ==> run.save_every == stored.save_every
            &&& given.eval_every is None ==> run.eval_every == stored.eval_every
            &&& given.muon is None ==> run.muon == stored.muon
            &&& given.checkpointing is None ==> run.checkpointing == stored.checkpointing
            &&& given.steps matches Some(value) ==> run.steps == value
            &&& given.micro_batch matches Some(value) ==> run.micro_batch == value
            &&& given.accum matches Some(value) ==> run.accum == value
            &&& given.lr matches Some(value) ==> run.lr == value
            &&& given.warmup matches Some(value) ==> run.warmup == value
            &&& given.decay matches Some(value) ==> run.decay == value
            &&& given.seed matches Some(value) ==> run.seed == value
            &&& given.save_every matches Some(value) ==> run.save_every == value
            &&& given.eval_every matches Some(value) ==> run.eval_every == value
            &&& given.muon matches Some(value) ==> run.muon == value
            &&& given.checkpointing matches Some(value) ==> run.checkpointing == value
            &&& run.lr_floor == stored.lr_floor
            &&& run.weight_decay == stored.weight_decay
            &&& run.clip == stored.clip
            &&& run.log_every == stored.log_every
            &&& run.eval_batches == stored.eval_batches
        }),
{
}

/// Giving the same knobs again changes nothing.
pub proof fn giving_the_same_knobs_changes_nothing(stored: Option<Run>, given: Overrides)
    ensures
        ({
            let run = given.applied(or(stored, Run::defaults()));
            given.applied(or(Some(run), Run::defaults())) == run
        }),
{
}

} // verus!
