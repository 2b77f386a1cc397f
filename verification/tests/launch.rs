//! The kernel launch plan, and what the command line chooses.

use quasar::command::{Overrides, Preset, settings};
use quasar::config::Model;
use quasar::kernel::{Launch, rms_norm, rms_norm_kernel};
use quasar::number::Double;
use quasar::train::Run;

#[test]
fn a_launch_covers_its_rows() {
    assert_eq!(
        rms_norm(&vec![4, 10], 4),
        Launch { n_rows: 4, dim: 10, bytes: 160, cubes: 1 }
    );
    let cubes: Vec<u32> = [0, 1, 64, 65, 128, 129]
        .into_iter()
        .map(|rows| rms_norm(&vec![rows, 1], 2).cubes)
        .collect();
    assert_eq!(cubes, [0, 1, 1, 2, 2, 3]);
}

#[test]
fn a_launch_keeps_rows_that_single_precision_loses() {
    let rows = (1 << 30) + 1;

    assert_eq!(rms_norm(&vec![rows, 1], 1).cubes, (1 << 24) + 1);
}

/// Normalise `rows` rows as the threads of the kernel do, one row each.
#[test]
fn the_threads_normalise_every_row() {
    let (rows, dim, eps) = (4usize, 10usize, 1e-5f32);
    let x: Vec<f32> = (0..rows * dim).map(|k| (k % 7) as f32 - 3.0).collect();
    let gamma: Vec<f32> = (0..dim).map(|i| 0.5 + 0.1 * i as f32).collect();

    let launch = rms_norm(&vec![rows, dim], 4);
    let mut got = vec![f32::NAN; launch.bytes / 4];
    for position in 0..launch.cubes * 64 {
        let Some(base) = rms_norm_kernel(&launch, position) else { continue };
        let row = &x[base..base + launch.dim];
        let mean = row.iter().map(|v| v * v).sum::<f32>() / launch.dim as f32;
        let inv = 1.0 / (mean + eps).sqrt();
        for i in 0..launch.dim {
            got[base + i] = x[base + i] * inv * gamma[i];
        }
    }

    for r in 0..rows {
        let row = &x[r * dim..(r + 1) * dim];
        let rms = (row.iter().map(|v| v * v).sum::<f32>() / dim as f32 + eps).sqrt();
        for i in 0..dim {
            let want = row[i] / rms * gamma[i];
            assert!((got[r * dim + i] - want).abs() < 1e-5);
        }
    }
}

#[test]
fn a_thread_behind_the_last_row_stops() {
    let launch = rms_norm(&vec![4, 10], 4);

    assert_eq!(rms_norm_kernel(&launch, 3), Some(30));
    assert_eq!(rms_norm_kernel(&launch, 4), None);
}

#[test]
fn a_preset_names_its_model() {
    assert_eq!(Preset::Tiny.config(), Model::tiny());
    assert_eq!(Preset::Base.config(), Model::base());
    assert_eq!(Preset::Toy.config(), Model::toy());
}

fn nothing() -> Overrides {
    Overrides {
        steps: None,
        micro_batch: None,
        accum: None,
        lr: None,
        warmup: None,
        decay: None,
        seed: None,
        save_every: None,
        eval_every: None,
        muon: None,
        checkpointing: None,
    }
}

#[test]
fn without_overrides_a_run_keeps_its_knobs() {
    assert_eq!(nothing().apply(Run::new()), Run::new());
}

#[test]
fn knobs_not_given_are_read_back() {
    let stored = Run::new().with_steps(50).with_warmup(5).with_decay(10).with_muon(false);
    let given = Overrides { steps: Some(60), ..nothing() };

    assert_eq!(settings(Some(stored), &nothing()), stored);
    assert_eq!(settings(Some(stored), &given), stored.with_steps(60));
    assert_eq!(settings(Some(stored.with_steps(60)), &given), stored.with_steps(60));
    assert_eq!(settings(None, &nothing()), Run::new());
    assert_eq!(settings(None, &given), Run::new().with_steps(60));
}

#[test]
fn every_override_takes_the_place_of_its_knob() {
    let lr = Double { bits: 1e-3f64.to_bits() };
    let all = Overrides {
        steps: Some(1),
        micro_batch: Some(2),
        accum: Some(3),
        lr: Some(lr),
        warmup: Some(4),
        decay: Some(5),
        seed: Some(6),
        save_every: Some(7),
        eval_every: Some(8),
        muon: Some(false),
        checkpointing: Some(false),
    };

    assert_eq!(
        all.apply(Run::new()),
        Run::new()
            .with_steps(1)
            .with_micro_batch(2)
            .with_accum(3)
            .with_lr(lr)
            .with_warmup(4)
            .with_decay(5)
            .with_seed(6)
            .with_save_every(7)
            .with_eval_every(8)
            .with_muon(false)
            .with_checkpointing(false)
    );
    assert_eq!(
        Overrides { accum: Some(3), ..nothing() }.apply(Run::new()),
        Run::new().with_accum(3)
    );
}
