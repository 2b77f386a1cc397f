//! The learning-rate schedule: warmup, stable, decay.
//!
//! The stable phase is flat, so any checkpoint taken during it is a valid
//! starting point for a decay of any length. The decay is `1 - sqrt(progress)`.

use vstd::prelude::*;

use crate::number::Double;

verus! {

/// Warmup-stable-decay, a pure function of the step index.
#[derive(Debug, Clone, Copy)]
pub struct Wsd {
    peak: Double,
    /// Final rate as a fraction of `peak`; never zero, because the last steps
    /// still have to move.
    floor: Double,
    warmup: usize,
    decay: usize,
    steps: usize,
}

/// The rate of one step, as a share of the way.
#[derive(Debug, Clone, Copy, PartialEq, Eq, Structural)]
pub enum Rate {
    /// `step` of the `of` equal rises to the peak.
    Warmup { step: usize, of: usize },
    /// The peak itself.
    Peak,
    /// `1 - sqrt(step / of)` of the way from the floor to the peak.
    Decay { step: usize, of: usize },
}

/// The three phases, in steps, and the two rates.
pub struct Phases {
    pub peak: Double,
    pub floor: Double,
    pub warmup: nat,
    pub decay: nat,
    pub steps: nat,
}

impl Phases {
    /// The step at which the decay begins.
    pub open spec fn stable_end(self) -> int {
        self.steps - self.decay
    }

    /// The phases fit into the run.
    pub open spec fn fit(self) -> bool {
        self.warmup + self.decay <= self.steps <= usize::MAX
    }

    /// The rate for `step`, counted from zero. The warmup rises from one whole
    /// step, not from zero: a first step at rate zero is a wasted forward pass.
    pub open spec fn rate(self, step: int) -> Rate {
        if step < self.warmup {
            Rate::Warmup { step: (step + 1) as usize, of: self.warmup as usize }
        } else if step < self.stable_end() {
            Rate::Peak
        } else {
            Rate::Decay {
                step: (step - self.stable_end() + 1) as usize,
                of: self.decay as usize,
            }
        }
    }
}

impl View for Wsd {
    type V = Phases;

    closed spec fn view(&self) -> Phases {
        Phases {
            peak: self.peak,
            floor: self.floor,
            warmup: self.warmup as nat,
            decay: self.decay as nat,
            steps: self.steps as nat,
        }
    }
}

impl Wsd {
    #[verifier::type_invariant]
    spec fn phases_fit(self) -> bool {
        self.warmup + self.decay <= self.steps
    }

    /// A schedule of `steps` steps, of which the first `warmup` rise and the last
    /// `decay` fall, to `floor` times the peak.
    pub fn new(peak: Double, floor: Double, warmup: usize, decay: usize, steps: usize) -> (wsd:
        Self)
        requires
            warmup + decay <= steps,
            floor.fraction(),
        ensures
            wsd@ == (Phases {
                peak,
                floor,
                warmup: warmup as nat,
                decay: decay as nat,
                steps: steps as nat,
            }),
            wsd@.fit(),
    {
        Self { peak, floor, warmup, decay, steps }
    }

    /// The peak rate.
    pub fn peak(&self) -> (peak: Double)
        ensures
            peak == self@.peak,
    {
        self.peak
    }

    /// The final rate as a fraction of the peak.
    pub fn floor(&self) -> (floor: Double)
        ensures
            floor == self@.floor,
    {
        self.floor
    }

    /// The rate for `step`, counted from zero.
    pub fn lr(&self, step: usize) -> (rate: Rate)
        requires
            self@.stable_end() == 0 ==> step < usize::MAX,
        ensures
            rate == self@.rate(step as int),
            step < self@.warmup ==> rate == (Rate::Warmup {
                step: (step + 1) as usize,
                of: self@.warmup as usize,
            }),
            self@.warmup <= step < self@.steps - self@.decay ==> rate == Rate::Peak,
            self@.warmup <= step && self@.steps - self@.decay <= step ==> rate == (Rate::Decay {
                step: (step - (self@.steps - self@.decay) + 1) as usize,
                of: self@.decay as usize,
            }),
    {
        proof {
            use_type_invariant(self);
        }
        let stable: usize = self.steps - self.decay;
        if step < self.warmup {
            return Rate::Warmup { step: step + 1, of: self.warmup };
        }
        if step < stable {
            return Rate::Peak;
        }
        Rate::Decay { step: step - stable + 1, of: self.decay }
    }
}

// ── the ideal rate ───────────────────────────────────────────────────────────

/// Whether `root` is the square root of `step / of`.
pub open spec fn is_root(root: real, step: real, of: real) -> bool {
    root >= 0real && (root * root) * of == step
}

/// Whether `lr` is the rate that `rate` stands for, in exact arithmetic, between
/// the floor `peak * floor` and `peak`.
pub open spec fn stands_for(rate: Rate, peak: real, floor: real, lr: real) -> bool {
    match rate {
        Rate::Warmup { step, of } => lr * (of as real) == peak * (step as real),
        Rate::Peak => lr == peak,
        Rate::Decay { step, of } => exists|root: real|
            {
                &&& #[trigger] is_root(root, step as real, of as real)
                &&& lr == peak * floor + (peak - peak * floor) * (1real - root)
            },
    }
}

/// The warmup ends on the peak.
pub proof fn warmup_ends_on_the_peak(phases: Phases, peak: real, floor: real, lr: real)
    requires
        phases.fit(),
        phases.warmup > 0,
        stands_for(phases.rate(phases.warmup - 1), peak, floor, lr),
    ensures
        lr == peak,
{
    let w = phases.warmup as real;
    assert(w > 0real);
    assert(lr == peak) by (nonlinear_arith)
        requires
            w > 0real,
            lr * w == peak * w,
    ;
}

/// The warmup rises by equal parts: the rate of step `step` is `step + 1` parts of
/// the peak, of which there are `warmup`.
pub proof fn the_warmup_rises_by_equal_parts(
    phases: Phases,
    peak: real,
    floor: real,
    step: nat,
    lr: real,
)
    requires
        phases.fit(),
        step < phases.warmup,
        stands_for(phases.rate(step as int), peak, floor, lr),
    ensures
        lr * (phases.warmup as real) == peak * ((step + 1) as real),
{
}

/// Between the phases that move, the rate is the peak.
pub proof fn the_stable_rate_is_the_peak(
    phases: Phases,
    peak: real,
    floor: real,
    step: nat,
    lr: real,
)
    requires
        phases.fit(),
        phases.warmup <= step,
        step + phases.decay < phases.steps,
        stands_for(phases.rate(step as int), peak, floor, lr),
    ensures
        lr == peak,
{
}

/// Inside the decay the rate follows the progress: with `n` of the decay's steps
/// begun, it has fallen by the root of `n / decay` of the way to the floor.
pub proof fn the_decay_follows_its_progress(
    phases: Phases,
    peak: real,
    floor: real,
    step: nat,
    lr: real,
) -> (root: real)
    requires
        phases.fit(),
        phases.steps - phases.decay <= step < phases.steps,
        stands_for(phases.rate(step as int), peak, floor, lr),
    ensures
        phases.warmup <= step,
        root >= 0real,
        (root * root) * (phases.decay as real) == (step - (phases.steps - phases.decay) + 1) as real,
        lr == peak * floor + (peak - peak * floor) * (1real - root),
{
    choose|root: real|
        {
            &&& #[trigger] is_root(
                root,
                (step - (phases.steps - phases.decay) + 1) as real,
                phases.decay as real,
            )
            &&& lr == peak * floor + (peak - peak * floor) * (1real - root)
        }
}

/// The decay falls strictly from each step to every later one.
pub proof fn every_decay_step_falls(
    phases: Phases,
    peak: real,
    floor: real,
    a: nat,
    b: nat,
    earlier: real,
    later: real,
)
    requires
        phases.fit(),
        peak > 0real,
        floor < 1real,
        phases.steps - phases.decay <= a < b < phases.steps,
        stands_for(phases.rate(a as int), peak, floor, earlier),
        stands_for(phases.rate(b as int), peak, floor, later),
    ensures
        later < earlier,
{
    let high = the_decay_follows_its_progress(phases, peak, floor, a, earlier);
    let low = the_decay_follows_its_progress(phases, peak, floor, b, later);
    let d = phases.decay as real;
    assert((high * high) * d < (low * low) * d);
    assert(high < low) by (nonlinear_arith)
        requires
            d > 0real,
            high >= 0real,
            low >= 0real,
            (high * high) * d < (low * low) * d,
    ;
    let gap = peak - peak * floor;
    assert(gap > 0real) by (nonlinear_arith)
        requires
            gap == peak - peak * floor,
            peak > 0real,
            floor < 1real,
    ;
    assert(gap * (1real - low) < gap * (1real - high)) by (nonlinear_arith)
        requires
            gap > 0real,
            high < low,
    ;
}

/// No step of the warmup is wasted: its rate is above zero where the peak is.
pub proof fn no_warmup_step_is_wasted(phases: Phases, peak: real, floor: real, step: nat, lr: real)
    requires
        phases.fit(),
        step < phases.warmup,
        peak > 0real,
        stands_for(phases.rate(step as int), peak, floor, lr),
    ensures
        0real < lr <= peak,
{
    let w = phases.warmup as real;
    let s = (step + 1) as real;
    assert(0real < s <= w);
    assert(0real < lr <= peak) by (nonlinear_arith)
        requires
            0real < s <= w,
            peak > 0real,
            lr * w == peak * s,
    ;
}

/// The stable phase does not move.
pub proof fn the_stable_phase_is_flat(phases: Phases, step: nat)
    requires
        phases.fit(),
        phases.warmup <= step < phases.stable_end(),
    ensures
        phases.rate(step as int) == Rate::Peak,
{
}

/// A run can be extended, cut short or forked: two schedules with the same peak
/// and warmup agree on every step that neither has begun to decay at, whatever
/// their lengths and decays.
pub proof fn a_run_may_be_extended_or_cut_short(one: Phases, other: Phases, step: nat)
    requires
        one.fit(),
        other.fit(),
        one.peak == other.peak,
        one.warmup == other.warmup,
        step < one.stable_end(),
        step < other.stable_end(),
    ensures
        one.rate(step as int) == other.rate(step as int),
{
}

/// The last step reaches the floor.
pub proof fn the_last_step_is_the_floor(phases: Phases, peak: real, floor: real, lr: real)
    requires
        phases.fit(),
        phases.decay > 0,
        stands_for(phases.rate(phases.steps - 1), peak, floor, lr),
    ensures
        lr == peak * floor,
{
    let d = phases.decay as real;
    let root = choose|root: real|
        {
            &&& #[trigger] is_root(root, d, d)
            &&& lr == peak * floor + (peak - peak * floor) * (1real - root)
        };
    assert(root == 1real) by (nonlinear_arith)
        requires
            d > 0real,
            root >= 0real,
            (root * root) * d == d,
    ;
    assert((peak - peak * floor) * (1real - root) == 0real) by (nonlinear_arith)
        requires
            root == 1real,
    ;
}

/// Every step moves: where the peak is above zero, so is the rate of every step
/// down to the last, because the floor is never zero.
pub proof fn every_step_moves(phases: Phases, peak: real, floor: real, step: nat, lr: real)
    requires
        phases.fit(),
        peak > 0real,
        0real < floor <= 1real,
        step < phases.steps,
        stands_for(phases.rate(step as int), peak, floor, lr),
    ensures
        lr > 0real,
{
    if step < phases.warmup {
        no_warmup_step_is_wasted(phases, peak, floor, step, lr);
    } else if step >= phases.stable_end() {
        let (s, d) = ((step - phases.stable_end() + 1) as real, phases.decay as real);
        let root = choose|root: real|
            {
                &&& #[trigger] is_root(root, s, d)
                &&& lr == peak * floor + (peak - peak * floor) * (1real - root)
            };
        assert(0real < s <= d);
        assert(root <= 1real) by (nonlinear_arith)
            requires
                0real < s <= d,
                root >= 0real,
                (root * root) * d == s,
        ;
        assert(peak * floor > 0real && (peak - peak * floor) * (1real - root) >= 0real)
            by (nonlinear_arith)
            requires
                peak > 0real,
                0real < floor <= 1real,
                root <= 1real,
        ;
    }
}

/// From the end of the warmup on, the rate never rises.
pub proof fn the_rate_never_rises_after_warmup(
    phases: Phases,
    peak: real,
    floor: real,
    a: nat,
    b: nat,
    earlier: real,
    later: real,
)
    requires
        phases.fit(),
        peak >= 0real,
        floor <= 1real,
        phases.warmup <= a + 1,
        a <= b < phases.steps,
        stands_for(phases.rate(a as int), peak, floor, earlier),
        stands_for(phases.rate(b as int), peak, floor, later),
    ensures
        later <= earlier,
{
    let d = phases.decay as real;
    let gap = peak - peak * floor;
    assert(gap >= 0real) by (nonlinear_arith)
        requires
            gap == peak - peak * floor,
            peak >= 0real,
            floor <= 1real,
    ;
    if b < phases.stable_end() {
        if a < phases.warmup {
            warmup_ends_on_the_peak(phases, peak, floor, earlier);
        }
        if b < phases.warmup {
            warmup_ends_on_the_peak(phases, peak, floor, later);
        }
    } else {
        let low = choose|root: real|
            {
                &&& #[trigger] is_root(root, (b - phases.stable_end() + 1) as real, d)
                &&& later == peak * floor + gap * (1real - root)
            };
        if a < phases.stable_end() {
            if a < phases.warmup {
                warmup_ends_on_the_peak(phases, peak, floor, earlier);
            }
            assert(gap * (1real - low) <= gap) by (nonlinear_arith)
                requires
                    gap >= 0real,
                    low >= 0real,
            ;
        } else {
            let high = choose|root: real|
                {
                    &&& #[trigger] is_root(root, (a - phases.stable_end() + 1) as real, d)
                    &&& earlier == peak * floor + gap * (1real - root)
                };
            assert((high * high) * d <= (low * low) * d);
            assert(high <= low) by (nonlinear_arith)
                requires
                    d > 0real,
                    high >= 0real,
                    low >= 0real,
                    (high * high) * d <= (low * low) * d,
            ;
            assert(gap * (1real - low) <= gap * (1real - high)) by (nonlinear_arith)
                requires
                    gap >= 0real,
                    high <= low,
            ;
        }
    }
}

} // verus!
