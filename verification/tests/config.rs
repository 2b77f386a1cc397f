//! The model family: presets, validation, budgets and costs.

use quasar::config::{Budget, Invalid, MAX_EXACT_WIDTH, Mamba, Mixer, Model};
use quasar::data::Meta;
use quasar::number::Double;

/// What an SSM block of each preset projects its input to.
const TINY_IN: usize = 3_676;
const BASE_IN: usize = 10_416;

fn double(value: f64) -> Double {
    Double { bits: value.to_bits() }
}

#[test]
fn attention_lands_on_the_last_layer_of_each_period() {
    let cfg = Model::tiny().with_attn_period(Some(6));

    let mixers: Vec<_> = (0..12).map(|i| cfg.mixer(i)).collect();

    assert_eq!(mixers[0], Mixer::Ssm, "the layer reading embeddings stays an SSM");
    assert_eq!(mixers[5], Mixer::Attention);
    assert_eq!(mixers[11], Mixer::Attention);
}

#[test]
fn tying_the_head_removes_a_vocab_matrix() {
    let cfg = Model::tiny();

    let saved = cfg.clone().with_tied_embeddings(false).budget(TINY_IN).total
        - cfg.clone().with_tied_embeddings(true).budget(TINY_IN).total;

    assert_eq!(saved, cfg.vocab_size * cfg.d_model);
}

#[test]
fn presets_stay_inside_their_size_class() {
    let (tiny, base) =
        (Model::tiny().budget(TINY_IN).total, Model::base().budget(BASE_IN).total);

    assert!((100e6..200e6).contains(&(tiny as f64)), "tiny is {tiny}");
    assert!((1.0e9..1.5e9).contains(&(base as f64)), "base is {base}");
}

#[test]
fn presets_validate() {
    Model::tiny().validate().unwrap();
    Model::base().validate().unwrap();
    Model::toy().validate().unwrap();
}

#[test]
fn an_odd_state_rank_is_rejected() {
    let cfg = Model::tiny().with_state_rank(63);

    assert_eq!(cfg.validate(), Err(Invalid::OddStateRank(63)));
}

#[test]
fn a_budget_is_exact_in_every_part() {
    assert_eq!(
        Model::tiny().budget(TINY_IN),
        Budget {
            embedding: 20_971_520,
            head: 0,
            ssm: 63_802_400,
            attention: 3_932_672,
            ffn: 73_728_000,
            norms: 31_360,
            total: 162_465_952,
        }
    );
    assert_eq!(
        Model::base().budget(BASE_IN),
        Budget {
            embedding: 50_331_648,
            head: 50_331_648,
            ssm: 499_296_000,
            attention: 22_020_608,
            ffn: 495_452_160,
            norms: 87_552,
            total: 1_117_519_616,
        }
    );
}

#[test]
fn the_cost_of_a_token_is_exact() {
    assert_eq!(Model::tiny().flops_per_token(TINY_IN), 360_837_120);
    assert_eq!(Model::base().flops_per_token(BASE_IN), 2_306_211_840);
}

#[test]
fn a_single_channel_has_no_mimo_matrices() {
    let one = Model::tiny().with_mimo_rank(1);
    let two = Model::tiny().with_mimo_rank(2);

    // 20 SSM layers of 20 heads: the MIMO matrices, and the biases of one more
    // channel.
    let matrices = 3 * 20 * 2 * 64;
    let biases = 2 * 20 * 128;
    assert_eq!(
        two.budget(TINY_IN).ssm - one.budget(TINY_IN).ssm,
        20 * (matrices + biases),
    );
}

#[test]
fn a_budget_that_does_not_fit_is_none() {
    let cfg = Model::tiny();

    assert_eq!(cfg.checked_budget(TINY_IN), Some(cfg.budget(TINY_IN)));
    assert_eq!(cfg.checked_budget(usize::MAX), None);
    assert_eq!(cfg.with_head_dim(0).checked_budget(TINY_IN), None);
    assert_eq!(cfg.checked_flops_per_token(TINY_IN), Some(cfg.flops_per_token(TINY_IN)));
}

#[test]
fn work_stops_growing_where_the_window_ends() {
    let cfg = Model::tiny();

    assert_eq!(
        cfg.with_seq_len(1024).flops_per_token(TINY_IN),
        cfg.with_seq_len(4096).flops_per_token(TINY_IN),
    );
    assert!(
        cfg.with_seq_len(512).flops_per_token(TINY_IN)
            < cfg.with_seq_len(1024).flops_per_token(TINY_IN)
    );
}

#[test]
fn a_full_window_costs_the_whole_sequence() {
    let cfg = Model::tiny().with_attn_window(None);

    // Four attention layers score 1024 more keys of width 640.
    let more = 4 * 4 * 1024 * 640;
    assert_eq!(cfg.flops_per_token(TINY_IN), Model::tiny().flops_per_token(TINY_IN) + more);
}

#[test]
fn every_reason_to_reject_a_model_is_told() {
    let cfg = Model::tiny();

    let told = |model: Model| {
        let reason = model.validate().unwrap_err();
        (reason, reason.message())
    };

    assert_eq!(
        told(cfg.with_state_rank(63)),
        (
            Invalid::OddStateRank(63),
            "state_rank 63 is odd, RoPE pairs dimensions".to_string(),
        )
    );
    assert_eq!(
        told(cfg.with_head_dim(100)),
        (
            Invalid::HeadDim { head_dim: 100, d_inner: 1280 },
            "head_dim 100 does not divide d_inner 1280".to_string(),
        )
    );
    assert_eq!(
        told(cfg.with_n_groups(3)),
        (
            Invalid::Groups { groups: 3, heads: 20 },
            "n_groups 3 does not divide 20 SSM heads".to_string(),
        )
    );
    assert_eq!(
        told(cfg.with_mimo_rank(0)),
        (Invalid::MimoRank, "mimo_rank must be at least 1".to_string())
    );
    assert_eq!(
        told(cfg.with_attn_heads(7)),
        (
            Invalid::AttnHeads { heads: 7, d_model: 640 },
            "attn_heads 7 does not divide d_model 640".to_string(),
        )
    );
    assert_eq!(
        told(cfg.with_attn_kv_heads(3)),
        (
            Invalid::KvHeads { kv: 3, heads: 10 },
            "attn_kv_heads 3 does not divide attn_heads 10".to_string(),
        )
    );
}

#[test]
fn zero_divides_nothing_but_zero() {
    let cfg = Model::tiny();

    assert_eq!(
        cfg.with_head_dim(0).validate(),
        Err(Invalid::HeadDim { head_dim: 0, d_inner: 1280 })
    );
    assert_eq!(
        cfg.with_n_groups(0).validate(),
        Err(Invalid::Groups { groups: 0, heads: 20 })
    );
    assert_eq!(
        cfg.with_attn_kv_heads(0).validate(),
        Err(Invalid::KvHeads { kv: 0, heads: 10 })
    );
}

#[test]
fn attention_is_not_checked_where_there_is_none() {
    let cfg = Model::tiny().with_attn_heads(7).with_attn_period(None);

    assert_eq!(cfg.validate(), Ok(()));
}

#[test]
fn a_stack_without_a_period_is_all_ssm() {
    for period in [None, Some(0)] {
        let cfg = Model::tiny().with_attn_period(period);
        assert!((0..24).all(|i| cfg.mixer(i) == Mixer::Ssm));
    }
    assert_eq!(Model::tiny().with_attn_period(Some(1)).mixer(0), Mixer::Attention);
}

#[test]
fn every_layer_has_one_mixer() {
    let cfg = Model::tiny();

    let attention = (0..24).filter(|i| cfg.mixer(*i) == Mixer::Attention).count();

    assert_eq!(attention, 4);
}

#[test]
fn the_feed_forward_width_is_a_whole_number_of_tiles() {
    assert_eq!(Model::tiny().d_ff(), 1600);
    assert_eq!(Model::base().d_ff(), 3840);
    assert_eq!(Model::toy().d_ff(), 64);

    let odd = Model::new(64, 33, 1);
    assert_eq!(odd.ffn_width as f64, (33.0 * 2.5f64).ceil());
    assert_eq!(odd.d_ff(), 128);
    assert_eq!(odd.with_ffn_mult(double(0.0), 0).d_ff(), 0);
    assert_eq!(Model::new(64, 257, 1).with_ffn_mult(double(0.25), 65).d_ff(), 128);
}

#[test]
fn the_widest_exact_model_is_exact() {
    let widest = MAX_EXACT_WIDTH as usize;

    let cfg = Model::new(1, widest, 1);

    assert_eq!(cfg.ffn_width as f64, (widest as f64 * 2.5).ceil());
    assert_eq!(cfg.ffn_width, 4_503_599_627_370_495);
}

#[test]
fn the_settings_keep_their_bits() {
    let cfg = Model::new(64, 32, 4);

    assert_eq!(cfg.rope_fraction, double(0.5));
    assert_eq!(cfg.ffn_mult, double(2.5));
    assert_eq!(cfg.z_loss, double(1e-4));
    assert_eq!(Model::toy().ffn_mult, double(2.0));
}

#[test]
fn an_ssm_block_takes_its_settings_from_the_model() {
    assert_eq!(
        Model::tiny().mamba(),
        Mamba {
            d_model: 640,
            state_rank: 128,
            expand: 2,
            per_head_dim: 64,
            ngroups: 2,
            mimo_rank: 2,
            rope_fraction: double(0.5),
            has_outproj_norm: true,
        }
    );
    assert_eq!((Model::tiny().d_inner(), Model::tiny().n_heads()), (1280, 20));
}

#[test]
fn the_tokenizer_decides_the_vocabulary() {
    let meta = Meta { tokens: 10, docs: 1, bytes: 40, vocab_size: 300, eos: 0 };

    let cfg = Model::tiny().fitted(&meta);

    assert_eq!(cfg, Model { vocab_size: 300, ..Model::tiny() });
}
