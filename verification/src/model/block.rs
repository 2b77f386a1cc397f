//! One residual layer: a token mixer, then a feed-forward.

use vstd::prelude::*;

use crate::config::{Mamba, Mixer, Model};
use crate::model::attention::Attention;
use crate::model::ffn::Ffn;

verus! {

/// Whatever mixes tokens in this layer.
#[derive(Debug, Clone, Copy, PartialEq, Eq)]
pub enum Mix {
    Ssm(Mamba),
    Attn(Attention),
}

/// Pre-norm mixer sublayer plus pre-norm feed-forward sublayer, both residual.
///
/// Same shape for SSM and attention layers, so the stack is uniform and the
/// hybrid schedule is data, not control flow.
#[derive(Debug, Clone, Copy, PartialEq, Eq)]
pub struct Block {
    /// The width of both norms.
    pub width: usize,
    pub mix: Mix,
    pub ffn: Ffn,
}

impl Mix {
    /// The parameters of the mixer, where an SSM has `ssm` of them.
    pub open spec fn params(self, ssm: int) -> int {
        match self {
            Mix::Ssm(_) => ssm,
            Mix::Attn(attention) => attention.params(),
        }
    }
}

impl Block {
    /// Whether this is layer `layer` of `cfg`.
    pub open spec fn is_layer(self, cfg: Model, layer: int) -> bool {
        &&& self.width == cfg.d_model
        &&& self.ffn == (Ffn { d_model: cfg.d_model, d_ff: cfg.ff() as usize })
        &&& if cfg.attends(layer) {
            self.mix == Mix::Attn(
                Attention {
                    d_model: cfg.d_model,
                    heads: cfg.attn_heads,
                    kv_heads: cfg.attn_kv_heads,
                    head_dim: cfg.attn_head() as usize,
                    window: cfg.attn_window,
                },
            )
        } else {
            self.mix == Mix::Ssm(
                Mamba {
                    d_model: cfg.d_model,
                    state_rank: cfg.state_rank,
                    expand: cfg.expand,
                    per_head_dim: cfg.head_dim,
                    ngroups: cfg.n_groups,
                    mimo_rank: cfg.mimo_rank,
                    rope_fraction: cfg.rope_fraction,
                    has_outproj_norm: true,
                },
            )
        }
    }

    /// The parameters of the layer, where an SSM has `ssm` of them.
    pub open spec fn params(self, ssm: int) -> int {
        self.width + self.mix.params(ssm) + self.width + self.ffn.params()
    }

    /// Layer `layer` of a model.
    pub fn new(cfg: &Model, layer: usize) -> (block: Self)
        requires
            layer < usize::MAX,
            cfg.ff() <= usize::MAX,
            cfg.attends(layer as int) ==> cfg.attn_heads != 0,
        ensures
            block.is_layer(*cfg, layer as int),
            block.width == cfg.d_model,
            block.ffn.d_model == cfg.d_model,
            block.ffn.d_ff == (cfg.ffn_width + 63) / 64 * 64,
            block.mix is Attn <==> (cfg.attn_period matches Some(period) && period > 0 && (layer
                + 1) % period as int == 0),
            block.mix matches Mix::Attn(attn) ==> {
                &&& attn.d_model == cfg.d_model
                &&& attn.heads == cfg.attn_heads
                &&& attn.kv_heads == cfg.attn_kv_heads
                &&& attn.head_dim == cfg.d_model as int / cfg.attn_heads as int
                &&& attn.window == cfg.attn_window
            },
            block.mix matches Mix::Ssm(mamba) ==> {
                &&& mamba.d_model == cfg.d_model
                &&& mamba.state_rank == cfg.state_rank
                &&& mamba.expand == cfg.expand
                &&& mamba.per_head_dim == cfg.head_dim
                &&& mamba.ngroups == cfg.n_groups
                &&& mamba.mimo_rank == cfg.mimo_rank
                &&& mamba.rope_fraction == cfg.rope_fraction
                &&& mamba.has_outproj_norm
            },
    {
        let mix = match cfg.mixer(layer) {
            Mixer::Ssm => Mix::Ssm(cfg.mamba()),
            Mixer::Attention => Mix::Attn(Attention::new(cfg)),
        };
        Self { width: cfg.d_model, mix, ffn: Ffn::new(cfg) }
    }
}

/// The parameters of the first `n` blocks.
pub open spec fn stack_params(blocks: Seq<Block>, ssm: int) -> int
    decreases blocks.len(),
{
    if blocks.len() == 0 {
        0
    } else {
        stack_params(blocks.drop_last(), ssm) + blocks.last().params(ssm)
    }
}

/// One layer's worth of the budget.
proof fn lemma_block_params(cfg: Model, block: Block, layer: int, d_in_proj: int)
    requires
        block.is_layer(cfg, layer),
        cfg.ff() <= usize::MAX,
        cfg.attends(layer) ==> cfg.attn_heads != 0,
    ensures
        block.params(cfg.ssm_count(d_in_proj)) == 2 * cfg.d_model + 3 * cfg.d_model * cfg.ff()
            + if cfg.attends(layer) {
            cfg.attn_count()
        } else {
            cfg.ssm_count(d_in_proj)
        },
{
    let d = cfg.d_model as int;
    let ff = cfg.ff();
    assert(d * ff + d * ff + ff * d == 3 * d * ff) by (nonlinear_arith);
    if cfg.attends(layer) {
        let head = cfg.attn_head();
        vstd::arithmetic::div_mod::lemma_div_pos_is_pos(d, cfg.attn_heads as int);
        vstd::arithmetic::div_mod::lemma_div_is_ordered_by_denominator(
            d,
            1,
            cfg.attn_heads as int,
        );
        let kv = cfg.attn_kv_heads * head;
        assert(d * d + d * kv + d * kv + d * d == 2 * d * d + 2 * d * kv) by (nonlinear_arith);
    }
}

/// The blocks of the first `n` layers hold what the budget gives to mixers,
/// feed-forwards and norms.
proof fn lemma_stack_params(cfg: Model, blocks: Seq<Block>, d_in_proj: int)
    requires
        cfg.ff() <= usize::MAX,
        forall|layer: int|
            0 <= layer < blocks.len() ==> (#[trigger] blocks[layer]).is_layer(cfg, layer),
        forall|layer: int|
            0 <= layer < blocks.len() && #[trigger] cfg.attends(layer) ==> cfg.attn_heads != 0,
    ensures
        ({
            let n = blocks.len();
            stack_params(blocks, cfg.ssm_count(d_in_proj)) == n * (2 * cfg.d_model) + n * (3
                * cfg.d_model * cfg.ff()) + cfg.ssm_layers(n) * cfg.ssm_count(d_in_proj)
                + cfg.attention_layers(n) * cfg.attn_count()
        }),
    decreases blocks.len(),
{
    let n = blocks.len() as int;
    let ssm = cfg.ssm_count(d_in_proj);
    let (norms, ffn, attn) = (2 * cfg.d_model, 3 * cfg.d_model * cfg.ff(), cfg.attn_count());
    if n == 0 {
        vstd::arithmetic::mul::lemma_mul_by_zero_is_zero(norms);
        vstd::arithmetic::mul::lemma_mul_by_zero_is_zero(ffn);
        vstd::arithmetic::mul::lemma_mul_by_zero_is_zero(ssm);
        vstd::arithmetic::mul::lemma_mul_by_zero_is_zero(attn);
    } else {
        let front = blocks.drop_last();
        assert forall|layer: int| 0 <= layer < front.len() implies (
        #[trigger] front[layer]).is_layer(cfg, layer) by {
            assert(front[layer] == blocks[layer]);
        }
        lemma_stack_params(cfg, front, d_in_proj);
        assert(blocks[n - 1].is_layer(cfg, n - 1));
        lemma_block_params(cfg, blocks.last(), n - 1, d_in_proj);
        let (k, j) = (
            cfg.ssm_layers((n - 1) as nat) as int,
            cfg.attention_layers((n - 1) as nat) as int,
        );
        vstd::arithmetic::mul::lemma_mul_is_distributive_add_other_way(norms, n - 1, 1);
        vstd::arithmetic::mul::lemma_mul_is_distributive_add_other_way(ffn, n - 1, 1);
        vstd::arithmetic::mul::lemma_mul_is_distributive_add_other_way(ssm, k, 1);
        vstd::arithmetic::mul::lemma_mul_is_distributive_add_other_way(attn, j, 1);
    }
}

/// The budget counts what the layers hold: the embedding, the head where it is
/// not tied, every block of the stack, and the final norm, and nothing else.
pub proof fn the_budget_counts_the_stack(cfg: Model, blocks: Seq<Block>, d_in_proj: int)
    requires
        cfg.ff() <= usize::MAX,
        cfg.divisible(),
        blocks.len() == cfg.n_layers,
        forall|layer: int|
            0 <= layer < blocks.len() ==> (#[trigger] blocks[layer]).is_layer(cfg, layer),
    ensures
        cfg.param_count(d_in_proj) == cfg.embedding_count() + cfg.head_count() + stack_params(
            blocks,
            cfg.ssm_count(d_in_proj),
        ) + cfg.d_model,
{
    assert forall|layer: int| 0 <= layer < blocks.len() && #[trigger] cfg.attends(layer) implies
        cfg.attn_heads != 0 by {
        lemma_attends_counts(cfg, layer as nat, cfg.n_layers as nat);
    }
    lemma_stack_params(cfg, blocks, d_in_proj);
    let (n, d, ff) = (cfg.n_layers as int, cfg.d_model as int, cfg.ff());
    assert(n * (2 * d) + d == (2 * n + 1) * d) by (nonlinear_arith);
    assert(n * (3 * d * ff) == n * 3 * d * ff) by (nonlinear_arith);
}

/// A stack with an attending layer counts at least one.
proof fn lemma_attends_counts(cfg: Model, layer: nat, n: nat)
    requires
        layer < n,
        cfg.attends(layer as int),
    ensures
        cfg.attention_layers(n) > 0,
    decreases n,
{
    if layer + 1 < n {
        lemma_attends_counts(cfg, layer, (n - 1) as nat);
    }
}

} // verus!
