//! The schedule, the optimizer split and the decisions of the training loop.

use std::collections::BTreeMap;

use memmap2::MmapMut;
use quasar::config::Model;
use quasar::data::Shards;
use quasar::data::shard::Writer;
use quasar::number::{Double, Single};
use quasar::train::optim::{Optim, Optimizer, Param, Shares, hidden, vocab};
use quasar::train::run::{After, Error, Run, State, Step, Training, due};
use quasar::train::schedule::{Rate, Wsd};

fn double(value: f64) -> Double {
    Double { bits: value.to_bits() }
}

// ── schedule ─────────────────────────────────────────────────────────────────

fn schedule() -> Wsd {
    Wsd::new(double(1e-3), double(0.1), 10, 20, 100)
}

/// The rate of a step, in floating point.
fn lr(wsd: &Wsd, step: usize) -> f64 {
    let (peak, floor) = (f64::from_bits(wsd.peak().bits), f64::from_bits(wsd.floor().bits));
    match wsd.lr(step) {
        Rate::Warmup { step, of } => peak * step as f64 / of as f64,
        Rate::Peak => peak,
        Rate::Decay { step, of } => {
            let floor = peak * floor;
            floor + (peak - floor) * (1.0 - (step as f64 / of as f64).sqrt())
        }
    }
}

#[test]
fn warmup_ends_on_the_peak() {
    assert!((lr(&schedule(), 9) - 1e-3).abs() < 1e-12);
}

#[test]
fn the_stable_phase_does_not_move() {
    assert_eq!(lr(&schedule(), 10), lr(&schedule(), 79));
}

#[test]
fn the_last_step_reaches_the_floor() {
    assert!((lr(&schedule(), 99) - 1e-4).abs() < 1e-12);
}

#[test]
fn the_rate_never_rises_after_warmup() {
    let wsd = schedule();

    let rates: Vec<f64> = (9..100).map(|step| lr(&wsd, step)).collect();

    assert!(rates.windows(2).all(|w| w[0] >= w[1]), "{rates:?}");
}

#[test]
fn each_phase_counts_its_own_steps() {
    let wsd = schedule();

    assert_eq!(wsd.lr(0), Rate::Warmup { step: 1, of: 10 });
    assert_eq!(wsd.lr(9), Rate::Warmup { step: 10, of: 10 });
    assert_eq!(wsd.lr(10), Rate::Peak);
    assert_eq!(wsd.lr(79), Rate::Peak);
    assert_eq!(wsd.lr(80), Rate::Decay { step: 1, of: 20 });
    assert_eq!(wsd.lr(99), Rate::Decay { step: 20, of: 20 });
    assert!(lr(&wsd, 0) > 0.0);
}

#[test]
fn a_longer_run_shares_the_steps_before_the_decay() {
    let longer = Wsd::new(double(1e-3), double(0.5), 10, 40, 200);

    assert!((0..80).all(|step| longer.lr(step) == schedule().lr(step)));
    assert_ne!(longer.lr(80), schedule().lr(80));
}

#[test]
fn a_schedule_may_leave_phases_out() {
    let flat = Wsd::new(double(1.0), double(0.5), 0, 0, 3);
    assert_eq!([flat.lr(0), flat.lr(2)], [Rate::Peak, Rate::Peak]);

    let full = Wsd::new(double(1.0), double(0.5), 1, 1, 2);
    assert_eq!(full.lr(0), Rate::Warmup { step: 1, of: 1 });
    assert_eq!(full.lr(1), Rate::Decay { step: 1, of: 1 });
}

// ── optimizers ───────────────────────────────────────────────────────────────

fn param(path: &str, dims: usize, id: Option<u64>) -> Param {
    Param { path: path.to_string(), dims, id }
}

fn params() -> Vec<Param> {
    vec![
        param("embed.weight", 2, Some(1)),
        param("blocks.0.norm_mix.gamma", 1, Some(2)),
        param("blocks.0.ffn.down.weight", 2, Some(3)),
        param("blocks.0.mix.bias", 3, Some(4)),
        param("blocks.1.mix.q.weight", 2, Some(5)),
        param("lm_head.weight", 2, Some(6)),
        param("blocks.1.mix.k.weight", 2, None),
    ]
}

#[test]
fn muon_takes_the_matrices_and_leaves_the_vocabulary() {
    let params = params();
    let hidden = hidden(&params);

    for param in &params {
        if let Some(id) = param.id {
            assert_eq!(hidden.contains(&id), param.dims == 2 && !vocab(&param.path));
        }
    }
    assert!(!hidden.is_empty(), "the module has projections to orthogonalise");
    assert_eq!(hidden, [3, 5]);
}

#[test]
fn every_gradient_reaches_exactly_one_optimizer() {
    let optim = Optim::new(true, &params());

    let shares = optim.accumulate(&vec![1, 2, 3, 4, 5, 6]);

    assert_eq!(shares, Shares { muon: Some(vec![3, 5]), adamw: vec![1, 2, 4, 6] });
    assert_eq!(optim.step(), [Optimizer::Muon, Optimizer::AdamW]);
}

#[test]
fn without_muon_adamw_takes_everything() {
    let optim = Optim::new(false, &params());

    assert_eq!(optim.accumulate(&vec![3, 5]), Shares { muon: None, adamw: vec![3, 5] });
    assert_eq!(optim.step(), [Optimizer::AdamW]);
}

#[test]
fn a_checkpoint_keeps_both_optimizers() {
    for muon in [true, false] {
        let files: Vec<&str> =
            Optim::new(muon, &params()).kept().iter().map(|one| one.file()).collect();
        assert_eq!(files, ["optim.bpk", "muon.bpk"]);
    }
}

#[test]
fn a_vocabulary_path_names_the_embedding_or_the_head() {
    assert!(vocab("embed.weight"));
    assert!(vocab("lm_head.weight"));
    assert!(!vocab("blocks.0.ffn.down.weight"));
}

// ── the loop ─────────────────────────────────────────────────────────────────

fn tiny_run() -> Run {
    Run::new()
        .with_steps(2)
        .with_micro_batch(2)
        .with_accum(2)
        .with_warmup(1)
        .with_decay(1)
        .with_log_every(0)
        .with_eval_every(0)
        .with_save_every(0)
        .with_eval_batches(1)
}

/// A split that holds one document.
fn shards() -> Shards {
    let doc: Vec<u16> = (0..1024).map(|i| i % 64).collect();
    let mut writer = Writer::create(64, 0);
    let bytes = writer.push(&doc, doc.len() * 4).bytes;
    let mut map = MmapMut::map_anon(bytes.len()).unwrap();
    map.copy_from_slice(&bytes);
    Shards::open(vec![map.make_read_only().unwrap()], writer.finish().meta).unwrap()
}

/// The checkpoints of a run directory, by the step they are filed under.
type Out = BTreeMap<usize, State>;

fn latest(out: &Out) -> Option<State> {
    out.values().next_back().copied()
}

/// Train into `out`, resuming from the newest checkpoint there, until the run is
/// over or `stop` asks it to stop; the steps each checkpoint was filed under come
/// back, in order.
fn train(run: Run, out: &mut Out, stop: impl Fn(usize) -> bool) -> Vec<usize> {
    let (train, valid) = (shards(), shards());
    assert_eq!((train.len(), valid.len()), (1024, 1024));
    let cfg = Model::toy().fitted(train.meta());

    let resumed = latest(out);
    assert!(run.is_schedulable() && Training::can_start(&run, cfg.seq_len, resumed));
    let mut training = Training::start(run, cfg.seq_len, resumed);
    let mut filed = Vec::new();
    let mut file = |state: State| {
        filed.push(state.step);
        out.insert(state.step, state);
    };
    while let Some(step) = training.next() {
        let after = training.advance();
        if let Some(under) = after.save {
            assert_eq!(under, training.state().step);
            file(training.state());
        }
        if stop(step.step) {
            file(training.stop());
            return filed;
        }
    }
    file(training.close());
    filed
}

#[test]
fn a_short_run_leaves_a_resumable_checkpoint() {
    let mut out = Out::new();

    train(tiny_run(), &mut out, |_| false);

    assert_eq!(latest(&out).unwrap().step, 2);
    assert_eq!(latest(&out), Some(State { step: 2, tokens: 128 }));
    assert_eq!(out.len(), 1);
    assert_eq!(train(tiny_run().with_steps(3), &mut out, |_| false), [3]);
}

#[test]
fn a_stopped_run_is_resumed_where_it_stopped() {
    let run = tiny_run().with_steps(6);
    let mut out = Out::new();

    assert_eq!(train(run, &mut out, |step| step == 2), [3]);
    assert_eq!(latest(&out), Some(State { step: 3, tokens: 192 }));

    assert_eq!(train(run, &mut out, |_| false), [6]);
    let mut whole = Out::new();
    train(run, &mut whole, |_| false);
    assert_eq!(latest(&out), latest(&whole));
}

#[test]
fn a_run_files_its_periods_and_its_end() {
    let run = tiny_run().with_steps(7).with_save_every(3);

    assert_eq!(train(run, &mut Out::new(), |_| false), [3, 6, 7]);
    assert_eq!(train(run.with_steps(6), &mut Out::new(), |_| false), [3, 6, 6]);

    let mut late = Out::from([(4, State { step: 4, tokens: 256 })]);
    assert_eq!(train(run, &mut late, |_| false), [6, 7]);
}

#[test]
fn a_run_with_nothing_left_files_what_it_loaded() {
    let past = State { step: 9, tokens: 5 };
    let mut out = Out::from([(9, past)]);

    assert_eq!(train(tiny_run(), &mut out, |_| false), [9]);
    assert_eq!(latest(&out), Some(past));
}

#[test]
fn a_disabled_period_never_comes_due() {
    assert!(!due(41, 0));
}

#[test]
fn a_period_comes_due_on_its_last_step() {
    let steps: Vec<usize> = (0..12).filter(|step| due(*step, 5)).collect();

    assert_eq!(steps, [4, 9]);
    assert!((0..3).all(|step| due(step, 1)));
}

#[test]
fn the_default_recipe_is_the_tiny_one() {
    let run = Run::new();

    assert_eq!((run.steps, run.micro_batch, run.accum), (12_500, 8, 16));
    assert_eq!(run.tokens(Model::tiny().seq_len), Some(3_276_800_000));
    assert_eq!((run.warmup, run.decay), (2_000, 12_000));
    assert_eq!((run.lr, run.lr_floor), (double(3e-3), double(0.1)));
    assert_eq!((run.log_every, run.eval_every, run.eval_batches), (20, 1_000, 20));
    assert_eq!(run.save_every, 2_000);
    assert_eq!(run.weight_decay, Single { bits: 0.1f32.to_bits() });
    assert_eq!(run.clip, Single { bits: 1.0f32.to_bits() });
    assert!(run.muon && run.checkpointing);
    assert_eq!(run.seed, 1337);
}

#[test]
fn the_default_run_starts() {
    let (run, cfg) = (Run::new(), Model::tiny());

    assert!(run.is_schedulable());
    assert!(Training::can_start(&run, cfg.seq_len, None));
    let training = Training::start(run, cfg.seq_len, None);

    assert_eq!(
        training.next(),
        Some(Step { step: 0, rate: Rate::Warmup { step: 1, of: 2_000 }, logging: false })
    );
    assert_eq!(training.per_step(), 8 * 16 * 2048);
    let last = State { step: 12_499, tokens: 0 };
    assert_eq!(
        Training::start(run, cfg.seq_len, Some(last)).next().unwrap().rate,
        Rate::Decay { step: 10_500, of: 10_500 }
    );
}

#[test]
fn a_run_too_short_for_its_decay_falls_as_soon_as_it_is_warm() {
    let rates = |run: Run| -> Vec<Rate> {
        let mut training = Training::start(run, 16, None);
        let mut rates = Vec::new();
        while let Some(step) = training.next() {
            rates.push(step.rate);
            training.advance();
        }
        rates
    };
    let run = tiny_run().with_steps(3);

    assert_eq!(
        rates(run.with_decay(1)),
        [Rate::Warmup { step: 1, of: 1 }, Rate::Peak, Rate::Decay { step: 1, of: 1 }]
    );
    let short = [
        Rate::Warmup { step: 1, of: 1 },
        Rate::Decay { step: 1, of: 2 },
        Rate::Decay { step: 2, of: 2 },
    ];
    assert_eq!(rates(run.with_decay(2)), short);
    assert_eq!(rates(run.with_decay(3)), short);
    assert_eq!(run.with_decay(usize::MAX).decay_steps(), 2);
    assert_eq!(run.with_warmup(4).decay_steps(), 0);
}

#[test]
fn a_schedule_that_cannot_be_laid_out_is_refused() {
    let run = Run::new();

    assert!(!run.with_warmup(12_501).is_schedulable());
    assert!(run.with_warmup(12_500).is_schedulable());
    for floor in [0.0, -0.0, -0.1, 1.5, f64::INFINITY, f64::NAN] {
        assert!(!run.with_lr_floor(double(floor)).is_schedulable());
    }
    for floor in [f64::MIN_POSITIVE, 0.1, 1.0] {
        assert!(run.with_lr_floor(double(floor)).is_schedulable());
    }
}

#[test]
fn every_step_of_a_run_moves() {
    assert!((0..100).all(|step| lr(&schedule(), step) > 0.0));
}

#[test]
fn a_budget_of_tokens_that_does_not_fit_is_none() {
    let run = Run::new().with_steps(usize::MAX);

    assert_eq!(run.tokens(2), None);
    assert_eq!(run.tokens(0), Some(0));
}

#[test]
fn a_short_run_ends_on_its_last_step() {
    let mut training = Training::start(tiny_run(), 16, None);

    let mut drawn = Vec::new();
    while let Some(step) = training.next() {
        assert!(!step.logging);
        drawn.extend((0..2).map(|micro| training.batch(micro)));
        let after = training.advance();
        assert_eq!(after, After { log: false, eval: false, save: None });
    }

    assert_eq!(drawn, [0, 1, 2, 3]);
    assert_eq!(training.per_step(), 64);
    assert_eq!(training.state(), State { step: 2, tokens: 128 });
}

#[test]
fn a_resumed_run_goes_on_with_the_same_stream() {
    let run = tiny_run().with_steps(6).with_log_every(2).with_save_every(3);
    let mut whole = Training::start(run, 16, None);
    for _ in 0..3 {
        whole.advance();
    }

    let mut resumed = Training::start(run, 16, Some(whole.state()));

    while let Some(step) = whole.next() {
        assert_eq!(resumed.next(), Some(step));
        assert_eq!(resumed.batch(1), whole.batch(1));
        assert_eq!(resumed.advance(), whole.advance());
        assert_eq!(resumed.state(), whole.state());
    }
    assert_eq!(resumed.next(), None);
}

#[test]
fn each_step_says_what_follows_it() {
    let run = tiny_run().with_steps(4).with_log_every(2).with_eval_every(4).with_save_every(3);
    let mut training = Training::start(run, 16, None);

    assert_eq!(
        training.next(),
        Some(Step { step: 0, rate: Rate::Warmup { step: 1, of: 1 }, logging: false })
    );
    assert_eq!(training.advance(), After { log: false, eval: false, save: None });
    assert_eq!(
        training.next(),
        Some(Step { step: 1, rate: Rate::Peak, logging: true })
    );
    assert_eq!(training.advance(), After { log: true, eval: false, save: None });
    assert_eq!(training.advance(), After { log: false, eval: false, save: Some(3) });
    assert_eq!(training.advance(), After { log: true, eval: true, save: None });
    assert_eq!(training.next(), None);
}

#[test]
fn a_checkpoint_past_the_end_leaves_nothing_to_do() {
    let past = State { step: 9, tokens: u64::MAX };

    let training = Training::start(tiny_run(), 16, Some(past));

    assert_eq!(training.next(), None);
    assert_eq!(training.state(), past);
}

#[test]
fn counts_that_cannot_hold_the_run_are_refused() {
    assert!(Training::can_start(&tiny_run(), 16, None));
    assert!(!Training::can_start(&tiny_run(), usize::MAX, None));
    assert!(!Training::can_start(&tiny_run().with_steps(usize::MAX), 16, None));
    let full = State { step: 1, tokens: u64::MAX };
    assert!(!Training::can_start(&tiny_run(), 16, Some(full)));
    assert!(Training::can_start(&tiny_run(), 16, Some(State { step: 2, ..full })));
}

#[test]
fn a_run_error_speaks_in_the_words_of_its_cause() {
    assert_eq!(Error::Io("disk".to_string()).message(), "disk");
    assert_eq!(Error::Checkpoint("torn".to_string()).message(), "torn");
}
