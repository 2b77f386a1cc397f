//! The windowed attention layer, and the layers of a stack.

use quasar::config::Model;
use quasar::model::attention::{Attention, Path, Span};
use quasar::model::block::{Block, Mix};
use quasar::model::ffn::Ffn;

fn attention(window: usize, seq: usize) -> Attention {
    Attention::new(&Model::toy().with_seq_len(seq).with_attn_window(Some(window)))
}

/// A fixed pseudo-random matrix of `rows` rows of width `dim`.
fn draw(rows: usize, dim: usize, seed: u64) -> Vec<Vec<f64>> {
    let mut state = seed;
    let mut next = || {
        state = state.wrapping_mul(6_364_136_223_846_793_005).wrapping_add(1_442_695_040_888_963_407);
        (state >> 33) as f64 / (1u64 << 31) as f64 * 4.0 - 2.0
    };
    (0..rows).map(|_| (0..dim).map(|_| next()).collect()).collect()
}

fn softmax(scores: &[f64]) -> Vec<f64> {
    let max = scores.iter().copied().fold(f64::MIN, f64::max);
    let exp: Vec<f64> = scores.iter().map(|s| (s - max).exp()).collect();
    let sum: f64 = exp.iter().sum();
    exp.iter().map(|e| e / sum).collect()
}

/// Attend from the queries of `span` to its keys, under the mask of the layer.
fn attend(
    layer: &Attention,
    span: Span,
    q: &[Vec<f64>],
    k: &[Vec<f64>],
    v: &[Vec<f64>],
) -> Vec<Vec<f64>> {
    let (queries, keys) = (span.end - span.start, span.end - span.first);
    let masked = layer.bias(span.start, span.first, queries, keys);
    (0..queries)
        .map(|i| {
            let scores: Vec<f64> = (0..keys)
                .map(|j| {
                    let (q, k) = (&q[span.start + i], &k[span.first + j]);
                    let dot: f64 = q.iter().zip(k).map(|(a, b)| a * b).sum();
                    let bias = if masked[i * keys + j] { -1e9 } else { 0.0 };
                    dot / (layer.head_dim as f64).sqrt() + bias
                })
                .collect();
            let weights = softmax(&scores);
            (0..layer.head_dim)
                .map(|d| (0..keys).map(|j| weights[j] * v[span.first + j][d]).sum())
                .collect()
        })
        .collect()
}

fn blocked_matches_dense(window: usize, seq: usize) {
    let layer = attention(window, seq);
    let dim = layer.head_dim;
    let (q, k, v) = (draw(seq, dim, 1), draw(seq, dim, 2), draw(seq, dim, 3));

    let blocked: Vec<Vec<f64>> = layer
        .windowed(seq, window)
        .into_iter()
        .flat_map(|span| attend(&layer, span, &q, &k, &v))
        .collect();
    let dense = attend(&layer, Span { start: 0, end: seq, first: 0 }, &q, &k, &v);

    assert_eq!(blocked.len(), dense.len());
    for (a, b) in blocked.iter().flatten().zip(dense.iter().flatten()) {
        assert!((a - b).abs() < 1e-9, "{a} {b}");
    }
}

#[test]
fn blocking_the_window_does_not_change_the_output() {
    blocked_matches_dense(4, 16);
}

/// The last block is short whenever the window does not divide the sequence,
/// and its key range starts mid-sequence.
#[test]
fn a_window_that_does_not_divide_the_sequence_still_matches() {
    blocked_matches_dense(5, 16);
}

#[test]
fn a_block_bias_is_the_dense_bias_shifted() {
    let (window, seq) = (4, 16);
    let attn = attention(window, seq);

    let block = attn.bias(8, 5, 4, 7);
    let dense = attn.bias(0, 0, seq, seq);

    let slice: Vec<bool> =
        (8..12).flat_map(|i| (5..12).map(move |j| i * seq + j)).map(|cell| dense[cell]).collect();
    assert_eq!(block, slice);
}

/// The window is the memory knob: `t * 2w` scores instead of `t * t`.
#[test]
fn a_narrower_window_scores_fewer_pairs() {
    let seq = 2048;
    let pairs = |w: usize| {
        attention(w, seq)
            .windowed(seq, w)
            .iter()
            .map(|span| (span.end - span.start) * (span.end - span.first))
            .sum::<usize>()
    };

    assert_eq!(pairs(2048), seq * seq, "a window as wide as the sequence is dense");
    assert!(pairs(1024) < seq * seq, "the default window already scores fewer pairs");
    assert!(pairs(256) * 4 < seq * seq, "a 256-token window drops four fifths");
    assert_eq!((pairs(1024), pairs(256)), (3_144_704, 981_248));
}

#[test]
fn a_sequence_is_cut_into_spans() {
    assert_eq!(
        attention(5, 16).windowed(16, 5),
        [
            Span { start: 0, end: 5, first: 0 },
            Span { start: 5, end: 10, first: 1 },
            Span { start: 10, end: 15, first: 6 },
            Span { start: 15, end: 16, first: 11 },
        ]
    );
    assert_eq!(attention(5, 16).windowed(0, 5), []);
    assert_eq!(
        attention(5, 16).windowed(3, usize::MAX),
        [Span { start: 0, end: 3, first: 0 }]
    );
}

#[test]
fn a_query_sees_itself_and_the_window_behind_it() {
    let masked = attention(2, 4).bias(0, 0, 4, 4);

    let (see, not) = (false, true);
    assert_eq!(
        masked,
        [
            see, not, not, not, //
            see, see, not, not, //
            not, see, see, not, //
            not, not, see, see,
        ]
    );
}

#[test]
fn without_a_window_everything_behind_is_seen() {
    let layer = Attention::new(&Model::toy().with_attn_window(None));

    assert_eq!(
        layer.bias(0, 0, 3, 3),
        [false, true, true, false, false, true, false, false, false]
    );
}

#[test]
fn a_window_wider_than_the_sequence_is_dense() {
    assert_eq!(attention(8, 16).path(16), Path::Windowed(8));
    assert_eq!(attention(16, 16).path(16), Path::Dense);
    assert_eq!(Attention::new(&Model::toy().with_attn_window(None)).path(16), Path::Dense);
    assert_eq!(attention(16, 16).bias(0, 0, 16, 16), attention(99, 16).bias(0, 0, 16, 16));
}

#[test]
fn a_kv_head_serves_a_run_of_query_heads() {
    let layer = Attention::new(&Model::tiny());

    let shared: Vec<usize> = (0..10).map(|head| layer.repeat_kv(head)).collect();

    assert_eq!(shared, [0, 0, 0, 0, 0, 1, 1, 1, 1, 1]);
    assert_eq!((layer.head_dim, layer.kv_width()), (64, 128));
}

#[test]
fn a_stack_follows_the_hybrid_schedule() {
    let cfg = Model::toy();

    let blocks: Vec<Block> = (0..4).map(|layer| Block::new(&cfg, layer)).collect();

    assert_eq!(blocks[0].mix, Mix::Ssm(cfg.mamba()));
    assert_eq!(blocks[1].mix, Mix::Attn(Attention::new(&cfg)));
    assert_eq!(blocks[2], blocks[0]);
    assert_eq!(blocks[3], blocks[1]);
    assert!(blocks.iter().all(|block| block.width == 32 && block.ffn == Ffn::new(&cfg)));
    assert_eq!(Ffn::new(&cfg), Ffn { d_model: 32, d_ff: 64 });
}

#[test]
fn the_budget_counts_the_layers_of_the_stack() {
    let cfg = Model::tiny();
    let d_in_proj = 3_676;

    let ssm = 63_802_400 / 20;
    let layers: usize = (0..24)
        .map(|layer| {
            let block = Block::new(&cfg, layer);
            let mix = match block.mix {
                Mix::Ssm(_) => ssm,
                Mix::Attn(attn) => {
                    2 * attn.d_model * (attn.d_model + attn.kv_width()) + 2 * attn.head_dim
                }
            };
            2 * block.width + mix + 3 * block.ffn.d_model * block.ffn.d_ff
        })
        .sum();

    let budget = cfg.budget(d_in_proj);
    assert_eq!(budget.total, budget.embedding + budget.head + layers + cfg.d_model);
}
