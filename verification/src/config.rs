//! The model family and its parameter arithmetic.
//!
//! The shipped presets are [`Model::tiny`] and [`Model::base`]; [`Model::toy`]
//! is small enough for a test. Every count is exact.

use vstd::arithmetic::overflow::{CheckedU128, CheckedUsize};
use vstd::prelude::*;
use vstd::string::*;

use crate::data::shard::Meta;
use crate::number::Double;
use crate::period::{a_period_ends_on_its_last_index, closes};
use crate::text::{decimal, decimal_text};

verus! {

/// What mixes tokens in a layer.
///
/// A pure-SSM stack recalls an arbitrary earlier token poorly, since its memory
/// is a fixed-size summary; a few attention layers fix it. Which layers those
/// are is [`Model::attn_period`].
#[derive(Debug, Clone, Copy, PartialEq, Eq, Structural)]
pub enum Mixer {
    /// State-space mixing: trapezoidal discretisation, data-dependent RoPE, MIMO.
    Ssm,
    /// Grouped-query attention over a sliding window.
    Attention,
}

/// One quasar model.
#[derive(Debug, Clone, Copy, PartialEq, Eq)]
pub struct Model {
    pub vocab_size: usize,
    pub d_model: usize,
    pub n_layers: usize,
    /// Sequence length the model trains at. Both mixers are position-relative,
    /// so this is a training-cost choice, not a hard limit at inference.
    pub seq_len: usize,
    /// SSM state width. The recurrent memory is `n_heads * head_dim *
    /// state_rank` scalars per layer.
    pub state_rank: usize,
    pub expand: usize,
    pub head_dim: usize,
    /// B/C sharing groups across SSM heads.
    pub n_groups: usize,
    /// Parallel read/write channels into one state.
    pub mimo_rank: usize,
    /// Fraction of state dimensions carrying data-dependent RoPE.
    pub rope_fraction: Double,
    /// Every `attn_period`-th layer is attention instead of SSM; `None` gives a
    /// pure-SSM stack.
    pub attn_period: Option<usize>,
    pub attn_heads: usize,
    pub attn_kv_heads: usize,
    /// Sliding-window radius in tokens; `None` is full causal attention.
    pub attn_window: Option<usize>,
    /// SwiGLU hidden width as a multiple of `d_model`.
    pub ffn_mult: Double,
    /// `d_model` times `ffn_mult`, rounded up to an integer.
    pub ffn_width: usize,
    /// Share the embedding matrix with the output projection.
    pub tied_embeddings: bool,
    /// Coefficient of the auxiliary term that holds the softmax normaliser near
    /// one; zero disables it.
    pub z_loss: Double,
}

/// The settings of one state-space block.
#[derive(Debug, Clone, Copy, PartialEq, Eq, Structural)]
pub struct Mamba {
    pub d_model: usize,
    pub state_rank: usize,
    pub expand: usize,
    pub per_head_dim: usize,
    pub ngroups: usize,
    pub mimo_rank: usize,
    pub rope_fraction: Double,
    /// Whether a per-head gated RMSNorm stands before the output projection.
    pub has_outproj_norm: bool,
}

/// Why a [`Model`] cannot be built.
#[derive(Debug, Clone, Copy, PartialEq, Eq, Structural)]
pub enum Invalid {
    OddStateRank(usize),
    HeadDim { head_dim: usize, d_inner: usize },
    Groups { groups: usize, heads: usize },
    MimoRank,
    AttnHeads { heads: usize, d_model: usize },
    KvHeads { kv: usize, heads: usize },
}

/// A parameter budget, in parameters.
#[derive(Debug, Clone, Copy, PartialEq, Eq, Structural)]
pub struct Budget {
    pub embedding: usize,
    pub head: usize,
    pub ssm: usize,
    pub attention: usize,
    pub ffn: usize,
    pub norms: usize,
    pub total: usize,
}

/// Whether `d` divides `n`; zero divides only zero.
pub open spec fn divides(d: int, n: int) -> bool {
    if d == 0 {
        n == 0
    } else {
        n % d == 0
    }
}

/// The largest width whose default feed-forward product is exact in double
/// precision: five times it, halved, and five times it is the last below 2^53.
pub const MAX_EXACT_WIDTH: u64 = 0x6_6666_6666_6666;

impl Model {
    // ── what a model means ───────────────────────────────────────────────────

    /// Whether layer `index` is attention.
    pub open spec fn attends(self, index: int) -> bool {
        self.attn_period matches Some(period) && closes(index, period as int)
    }

    /// The attention layers among the first `n`.
    pub open spec fn attention_layers(self, n: nat) -> nat
        decreases n,
    {
        if n == 0 {
            0
        } else {
            self.attention_layers((n - 1) as nat) + if self.attends(n - 1) {
                1nat
            } else {
                0nat
            }
        }
    }

    /// The SSM layers among the first `n`.
    pub open spec fn ssm_layers(self, n: nat) -> nat
        decreases n,
    {
        if n == 0 {
            0
        } else {
            self.ssm_layers((n - 1) as nat) + if self.attends(n - 1) {
                0nat
            } else {
                1nat
            }
        }
    }

    /// The inner width of an SSM layer.
    pub open spec fn inner(self) -> int {
        self.expand * self.d_model
    }

    /// The heads of an SSM layer.
    pub open spec fn heads(self) -> int {
        self.inner() / self.head_dim as int
    }

    /// The feed-forward width: `ffn_width` rounded up to a multiple of 64.
    pub open spec fn ff(self) -> int {
        (self.ffn_width + 63) / 64 * 64
    }

    /// The width of one attention head.
    pub open spec fn attn_head(self) -> int {
        self.d_model as int / self.attn_heads as int
    }

    /// RoPE pairs state dimensions.
    pub open spec fn state_pairs(self) -> bool {
        self.state_rank % 2 == 0
    }

    /// The SSM heads tile the inner width.
    pub open spec fn heads_tile(self) -> bool {
        divides(self.head_dim as int, self.inner())
    }

    /// The groups share the SSM heads evenly.
    pub open spec fn groups_share(self) -> bool {
        divides(self.n_groups as int, self.heads())
    }

    /// The attention heads tile the model width, where there is attention.
    pub open spec fn attn_heads_tile(self) -> bool {
        self.attn_period is Some ==> divides(self.attn_heads as int, self.d_model as int)
    }

    /// The key/value heads share the attention heads evenly, where there is
    /// attention.
    pub open spec fn kv_heads_share(self) -> bool {
        self.attn_period is Some ==> divides(self.attn_kv_heads as int, self.attn_heads as int)
    }

    /// Whether the model can be built.
    pub open spec fn valid(self) -> bool {
        &&& self.state_pairs()
        &&& self.heads_tile()
        &&& self.groups_share()
        &&& self.mimo_rank != 0
        &&& self.attn_heads_tile()
        &&& self.kv_heads_share()
    }

    // ── building ─────────────────────────────────────────────────────────────

    /// A model of the given shape, everything else at its default.
    pub fn new(vocab_size: usize, d_model: usize, n_layers: usize) -> (model: Self)
        requires
            d_model <= MAX_EXACT_WIDTH,
            2 * d_model + (d_model + 1) / 2 <= usize::MAX,
        ensures
            model == (Model {
                vocab_size,
                d_model,
                n_layers,
                seq_len: 2048,
                state_rank: 128,
                expand: 2,
                head_dim: 64,
                n_groups: 1,
                mimo_rank: 1,
                rope_fraction: Double { bits: 0x3fe0_0000_0000_0000 },
                attn_period: None,
                attn_heads: 12,
                attn_kv_heads: 2,
                attn_window: Some(1024),
                ffn_mult: Double { bits: 0x4004_0000_0000_0000 },
                ffn_width: (2 * d_model + (d_model + 1) / 2) as usize,
                tied_embeddings: true,
                z_loss: Double { bits: 0x3f1a_36e2_eb1c_432d },
            }),
    {
        Self {
            vocab_size,
            d_model,
            n_layers,
            seq_len: 2048,
            state_rank: 128,
            expand: 2,
            head_dim: 64,
            n_groups: 1,
            mimo_rank: 1,
            rope_fraction: Double { bits: 0x3fe0_0000_0000_0000 },
            attn_period: None,
            attn_heads: 12,
            attn_kv_heads: 2,
            attn_window: Some(1024),
            ffn_mult: Double { bits: 0x4004_0000_0000_0000 },
            // Two and a half times the width; the half of an odd width rounds up.
            ffn_width: 2 * d_model + (d_model / 2 + d_model % 2),
            tied_embeddings: true,
            z_loss: Double { bits: 0x3f1a_36e2_eb1c_432d },
        }
    }

    pub fn with_seq_len(self, seq_len: usize) -> (model: Self)
        ensures
            model == (Model { seq_len, ..self }),
    {
        Self { seq_len, ..self }
    }

    pub fn with_state_rank(self, state_rank: usize) -> (model: Self)
        ensures
            model == (Model { state_rank, ..self }),
    {
        Self { state_rank, ..self }
    }

    pub fn with_expand(self, expand: usize) -> (model: Self)
        ensures
            model == (Model { expand, ..self }),
    {
        Self { expand, ..self }
    }

    pub fn with_head_dim(self, head_dim: usize) -> (model: Self)
        ensures
            model == (Model { head_dim, ..self }),
    {
        Self { head_dim, ..self }
    }

    pub fn with_n_groups(self, n_groups: usize) -> (model: Self)
        ensures
            model == (Model { n_groups, ..self }),
    {
        Self { n_groups, ..self }
    }

    pub fn with_mimo_rank(self, mimo_rank: usize) -> (model: Self)
        ensures
            model == (Model { mimo_rank, ..self }),
    {
        Self { mimo_rank, ..self }
    }

    pub fn with_rope_fraction(self, rope_fraction: Double) -> (model: Self)
        ensures
            model == (Model { rope_fraction, ..self }),
    {
        Self { rope_fraction, ..self }
    }

    pub fn with_attn_period(self, attn_period: Option<usize>) -> (model: Self)
        ensures
            model == (Model { attn_period, ..self }),
    {
        Self { attn_period, ..self }
    }

    pub fn with_attn_heads(self, attn_heads: usize) -> (model: Self)
        ensures
            model == (Model { attn_heads, ..self }),
    {
        Self { attn_heads, ..self }
    }

    pub fn with_attn_kv_heads(self, attn_kv_heads: usize) -> (model: Self)
        ensures
            model == (Model { attn_kv_heads, ..self }),
    {
        Self { attn_kv_heads, ..self }
    }

    pub fn with_attn_window(self, attn_window: Option<usize>) -> (model: Self)
        ensures
            model == (Model { attn_window, ..self }),
    {
        Self { attn_window, ..self }
    }

    /// Set the feed-forward multiple, and with it the width it gives: `d_model`
    /// times `ffn_mult`, rounded up to an integer.
    pub fn with_ffn_mult(self, ffn_mult: Double, ffn_width: usize) -> (model: Self)
        ensures
            model == (Model { ffn_mult, ffn_width, ..self }),
    {
        Self { ffn_mult, ffn_width, ..self }
    }

    pub fn with_tied_embeddings(self, tied_embeddings: bool) -> (model: Self)
        ensures
            model == (Model { tied_embeddings, ..self }),
    {
        Self { tied_embeddings, ..self }
    }

    pub fn with_z_loss(self, z_loss: Double) -> (model: Self)
        ensures
            model == (Model { z_loss, ..self }),
    {
        Self { z_loss, ..self }
    }

    /// The model for a prepared corpus. The tokenizer decides the vocabulary,
    /// not the preset: a wider embedding would be dead parameters.
    pub fn fitted(self, meta: &Meta) -> (model: Self)
        ensures
            model == (Model { vocab_size: meta.vocab_size, ..self }),
    {
        Self { vocab_size: meta.vocab_size, ..self }
    }

    // ── presets ──────────────────────────────────────────────────────────────

    /// The settings of `tiny`.
    pub open spec fn tiny_settings() -> Model {
        Model {
            vocab_size: 32_768,
            d_model: 640,
            n_layers: 24,
            seq_len: 2048,
            state_rank: 128,
            expand: 2,
            head_dim: 64,
            n_groups: 2,
            mimo_rank: 2,
            rope_fraction: Double { bits: 0x3fe0_0000_0000_0000 },
            attn_period: Some(6),
            attn_heads: 10,
            attn_kv_heads: 2,
            attn_window: Some(1024),
            ffn_mult: Double { bits: 0x4004_0000_0000_0000 },
            ffn_width: 1600,
            tied_embeddings: true,
            z_loss: Double { bits: 0x3f1a_36e2_eb1c_432d },
        }
    }

    /// The settings of `base`.
    pub open spec fn base_settings() -> Model {
        Model {
            vocab_size: 32_768,
            d_model: 1536,
            n_layers: 28,
            seq_len: 2048,
            state_rank: 128,
            expand: 2,
            head_dim: 64,
            n_groups: 4,
            mimo_rank: 4,
            rope_fraction: Double { bits: 0x3fe0_0000_0000_0000 },
            attn_period: Some(7),
            attn_heads: 24,
            attn_kv_heads: 4,
            attn_window: Some(1024),
            ffn_mult: Double { bits: 0x4004_0000_0000_0000 },
            ffn_width: 3840,
            tied_embeddings: false,
            z_loss: Double { bits: 0x3f1a_36e2_eb1c_432d },
        }
    }

    /// The settings of `toy`.
    pub open spec fn toy_settings() -> Model {
        Model {
            vocab_size: 64,
            d_model: 32,
            n_layers: 4,
            seq_len: 16,
            state_rank: 8,
            expand: 2,
            head_dim: 8,
            n_groups: 1,
            mimo_rank: 2,
            rope_fraction: Double { bits: 0x3fe0_0000_0000_0000 },
            attn_period: Some(2),
            attn_heads: 4,
            attn_kv_heads: 2,
            attn_window: Some(8),
            ffn_mult: Double { bits: 0x4000_0000_0000_0000 },
            ffn_width: 64,
            tied_embeddings: true,
            z_loss: Double { bits: 0x3f1a_36e2_eb1c_432d },
        }
    }

    /// `quasar-tiny`, the model intended for the first full run: deep and thin,
    /// because depth beats width at this size.
    pub fn tiny() -> (model: Self)
        ensures
            model == Model::tiny_settings(),
            model == (Model {
                    vocab_size: 32_768,
                    d_model: 640,
                    n_layers: 24,
                    seq_len: 2048,
                    state_rank: 128,
                    expand: 2,
                    head_dim: 64,
                    n_groups: 2,
                    mimo_rank: 2,
                    rope_fraction: Double { bits: 0x3fe0_0000_0000_0000 },
                    attn_period: Some(6),
                    attn_heads: 10,
                    attn_kv_heads: 2,
                    attn_window: Some(1024),
                    ffn_mult: Double { bits: 0x4004_0000_0000_0000 },
                    ffn_width: 1600,
                    tied_embeddings: true,
                    z_loss: Double { bits: 0x3f1a_36e2_eb1c_432d },
                }),
            model.valid(),
            model.inner() == 1280,
            model.heads() == 20,
            model.ff() == 1600,
    {
        Self::new(32_768, 640, 24)
            .with_seq_len(2048)
            .with_state_rank(128)
            .with_head_dim(64)
            .with_n_groups(2)
            .with_mimo_rank(2)
            .with_attn_period(Some(6))
            .with_attn_heads(10)
            .with_attn_kv_heads(2)
            .with_attn_window(Some(1024))
            .with_ffn_mult(Double { bits: 0x4004_0000_0000_0000 }, 1600)
            .with_tied_embeddings(true)
    }

    /// `quasar-base`, the largest model of the family. Its head is untied: the
    /// embedding is a small part of this budget, and a tied matrix is shaped by
    /// output prediction at the input's expense.
    pub fn base() -> (model: Self)
        ensures
            model == Model::base_settings(),
            model == (Model {
                    vocab_size: 32_768,
                    d_model: 1536,
                    n_layers: 28,
                    seq_len: 2048,
                    state_rank: 128,
                    expand: 2,
                    head_dim: 64,
                    n_groups: 4,
                    mimo_rank: 4,
                    rope_fraction: Double { bits: 0x3fe0_0000_0000_0000 },
                    attn_period: Some(7),
                    attn_heads: 24,
                    attn_kv_heads: 4,
                    attn_window: Some(1024),
                    ffn_mult: Double { bits: 0x4004_0000_0000_0000 },
                    ffn_width: 3840,
                    tied_embeddings: false,
                    z_loss: Double { bits: 0x3f1a_36e2_eb1c_432d },
                }),
            model.valid(),
            model.inner() == 3072,
            model.heads() == 48,
            model.ff() == 3840,
    {
        Self::new(32_768, 1536, 28)
            .with_seq_len(2048)
            .with_state_rank(128)
            .with_head_dim(64)
            .with_n_groups(4)
            .with_mimo_rank(4)
            .with_attn_period(Some(7))
            .with_attn_heads(24)
            .with_attn_kv_heads(4)
            .with_attn_window(Some(1024))
            .with_ffn_mult(Double { bits: 0x4004_0000_0000_0000 }, 3840)
            .with_tied_embeddings(false)
    }

    /// A model small enough to train a few steps inside a test.
    pub fn toy() -> (model: Self)
        ensures
            model == Model::toy_settings(),
            model == (Model {
                    vocab_size: 64,
                    d_model: 32,
                    n_layers: 4,
                    seq_len: 16,
                    state_rank: 8,
                    expand: 2,
                    head_dim: 8,
                    n_groups: 1,
                    mimo_rank: 2,
                    rope_fraction: Double { bits: 0x3fe0_0000_0000_0000 },
                    attn_period: Some(2),
                    attn_heads: 4,
                    attn_kv_heads: 2,
                    attn_window: Some(8),
                    ffn_mult: Double { bits: 0x4000_0000_0000_0000 },
                    ffn_width: 64,
                    tied_embeddings: true,
                    z_loss: Double { bits: 0x3f1a_36e2_eb1c_432d },
                }),
            model.valid(),
            model.inner() == 64,
            model.heads() == 8,
            model.ff() == 64,
    {
        Self::new(64, 32, 4)
            .with_seq_len(16)
            .with_state_rank(8)
            .with_head_dim(8)
            .with_mimo_rank(2)
            .with_attn_period(Some(2))
            .with_attn_heads(4)
            .with_attn_kv_heads(2)
            .with_attn_window(Some(8))
            .with_ffn_mult(Double { bits: 0x4000_0000_0000_0000 }, 64)
    }

    // ── derived sizes ────────────────────────────────────────────────────────

    /// The mixer of layer `index`. Attention lands on the last layer of each
    /// period.
    pub fn mixer(&self, index: usize) -> (mixer: Mixer)
        requires
            self.attn_period matches Some(period) && period > 0 ==> index < usize::MAX,
        ensures
            mixer == if self.attends(index as int) {
                Mixer::Attention
            } else {
                Mixer::Ssm
            },
            mixer == Mixer::Attention <==> (self.attn_period matches Some(period) && period > 0
                && (index + 1) % period as int == 0),
    {
        match self.attn_period {
            Some(period) => {
                if period > 0 && (index + 1).is_multiple_of(period) {
                    Mixer::Attention
                } else {
                    Mixer::Ssm
                }
            },
            None => Mixer::Ssm,
        }
    }

    /// SwiGLU hidden width, rounded up to a multiple of 64 so that matrix tiles
    /// are whole.
    pub fn d_ff(&self) -> (width: usize)
        requires
            self.ff() <= usize::MAX,
        ensures
            width == self.ff(),
            width % 64 == 0,
            self.ffn_width <= width < self.ffn_width + 64,
    {
        let whole: usize = self.ffn_width / 64;
        if self.ffn_width % 64 == 0 {
            whole * 64
        } else {
            (whole + 1) * 64
        }
    }

    pub fn d_inner(&self) -> (width: usize)
        requires
            self.inner() <= usize::MAX,
        ensures
            width == self.inner(),
            width == self.expand * self.d_model,
    {
        self.expand * self.d_model
    }

    pub fn n_heads(&self) -> (heads: usize)
        requires
            self.inner() <= usize::MAX,
            self.head_dim != 0,
        ensures
            heads == self.heads(),
            heads == (self.expand * self.d_model) / self.head_dim as int,
    {
        self.d_inner() / self.head_dim
    }

    /// The block settings of one SSM layer. The gated norm before the output
    /// projection keeps the output scale stable once MIMO sums several read
    /// channels into it.
    pub fn mamba(&self) -> (mamba: Mamba)
        ensures
            mamba == (Mamba {
                d_model: self.d_model,
                state_rank: self.state_rank,
                expand: self.expand,
                per_head_dim: self.head_dim,
                ngroups: self.n_groups,
                mimo_rank: self.mimo_rank,
                rope_fraction: self.rope_fraction,
                has_outproj_norm: true,
            }),
    {
        Mamba {
            d_model: self.d_model,
            state_rank: self.state_rank,
            expand: self.expand,
            per_head_dim: self.head_dim,
            ngroups: self.n_groups,
            mimo_rank: self.mimo_rank,
            rope_fraction: self.rope_fraction,
            has_outproj_norm: true,
        }
    }

    /// Whether the model can be built, or the first rule that it breaks.
    pub fn validate(&self) -> (verdict: Result<(), Invalid>)
        requires
            self.state_pairs() ==> self.inner() <= usize::MAX,
            self.state_pairs() && self.head_dim == 0 ==> self.inner() != 0,
        ensures
            verdict is Ok <==> self.valid(),
            verdict is Ok <==> {
                let (inner, head) = (self.expand * self.d_model, self.head_dim as int);
                let (groups, heads) = (self.n_groups as int, self.attn_heads as int);
                let kv = self.attn_kv_heads as int;
                &&& self.state_rank % 2 == 0
                &&& head != 0 && inner % head == 0
                &&& if groups == 0 { inner / head == 0 } else { inner / head % groups == 0 }
                &&& self.mimo_rank >= 1
                &&& self.attn_period is Some ==> {
                    &&& if heads == 0 { self.d_model == 0 } else { self.d_model as int % heads == 0 }
                    &&& if kv == 0 { heads == 0 } else { heads % kv == 0 }
                }
            },
            verdict == Err::<(), Invalid>(Invalid::OddStateRank(self.state_rank))
                <==> self.state_rank % 2 == 1,
            verdict matches Err(Invalid::HeadDim { .. }) ==> self.head_dim == 0 || (self.expand
                * self.d_model) % self.head_dim as int != 0,
            verdict matches Err(Invalid::Groups { groups, heads }) ==> heads == (self.expand
                * self.d_model) / self.head_dim as int && (groups == 0 || heads % groups != 0),
            verdict is Err && verdict->Err_0 is MimoRank ==> self.mimo_rank == 0,
            verdict matches Err(reason) ==> {
                let (inner, head) = (self.expand * self.d_model, self.head_dim as int);
                let (groups, heads) = (self.n_groups as int, self.attn_heads as int);
                &&& reason !is OddStateRank ==> self.state_rank % 2 == 0
                &&& reason !is OddStateRank && reason !is HeadDim ==> head != 0 && inner % head == 0
                &&& reason is MimoRank || reason is AttnHeads || reason is KvHeads ==> if groups
                    == 0 {
                    inner / head == 0
                } else {
                    inner / head % groups == 0
                }
                &&& reason is AttnHeads || reason is KvHeads ==> self.mimo_rank >= 1
                &&& reason is KvHeads ==> if heads == 0 {
                    self.d_model == 0
                } else {
                    self.d_model as int % heads == 0
                }
            },
            verdict matches Err(Invalid::AttnHeads { heads, d_model }) ==> self.attn_period is Some
                && (heads == 0 || d_model % heads != 0),
            verdict matches Err(Invalid::KvHeads { kv, heads }) ==> self.attn_period is Some && (kv
                == 0 || heads % kv != 0),
            verdict is Err && verdict->Err_0 is OddStateRank <==> !self.state_pairs(),
            verdict is Err && verdict->Err_0 is HeadDim <==> self.state_pairs()
                && !self.heads_tile(),
            verdict is Err && verdict->Err_0 is Groups <==> self.state_pairs() && self.heads_tile()
                && !self.groups_share(),
            verdict is Err && verdict->Err_0 is MimoRank <==> self.state_pairs()
                && self.heads_tile() && self.groups_share() && self.mimo_rank == 0,
            verdict is Err && verdict->Err_0 is AttnHeads <==> self.state_pairs()
                && self.heads_tile() && self.groups_share() && self.mimo_rank != 0
                && !self.attn_heads_tile(),
            verdict is Err && verdict->Err_0 is KvHeads <==> self.state_pairs()
                && self.heads_tile() && self.groups_share() && self.mimo_rank != 0
                && self.attn_heads_tile() && !self.kv_heads_share(),
            verdict matches Err(Invalid::OddStateRank(rank)) ==> rank == self.state_rank,
            verdict matches Err(Invalid::HeadDim { head_dim, d_inner }) ==> head_dim
                == self.head_dim && d_inner == self.inner(),
            verdict matches Err(Invalid::Groups { groups, heads }) ==> groups == self.n_groups
                && heads == self.heads(),
            verdict matches Err(Invalid::AttnHeads { heads, d_model }) ==> heads
                == self.attn_heads && d_model == self.d_model,
            verdict matches Err(Invalid::KvHeads { kv, heads }) ==> kv == self.attn_kv_heads
                && heads == self.attn_heads,
    {
        if !self.state_rank.is_multiple_of(2) {
            return Err(Invalid::OddStateRank(self.state_rank));
        }
        if !self.d_inner().is_multiple_of(self.head_dim) {
            return Err(Invalid::HeadDim { head_dim: self.head_dim, d_inner: self.d_inner() });
        }
        if !self.n_heads().is_multiple_of(self.n_groups) {
            return Err(Invalid::Groups { groups: self.n_groups, heads: self.n_heads() });
        }
        if self.mimo_rank == 0 {
            return Err(Invalid::MimoRank);
        }
        if self.attn_period.is_some() {
            if !self.d_model.is_multiple_of(self.attn_heads) {
                return Err(Invalid::AttnHeads { heads: self.attn_heads, d_model: self.d_model });
            }
            if !self.attn_heads.is_multiple_of(self.attn_kv_heads) {
                return Err(Invalid::KvHeads { kv: self.attn_kv_heads, heads: self.attn_heads });
            }
        }
        Ok(())
    }
}

// ── parameters ───────────────────────────────────────────────────────────────

impl Model {
    /// Parameters of one SSM layer whose input projection is `d_in_proj` wide:
    /// the two projections, the MIMO channels where there is more than one, the
    /// step biases and skips, the two B/C norms, their per-head biases, and the
    /// gated norm.
    pub open spec fn ssm_count(self, d_in_proj: int) -> int {
        let mimo = if self.mimo_rank > 1 {
            3 * self.heads() * self.mimo_rank * self.head_dim
        } else {
            0
        };
        self.d_model * d_in_proj + self.inner() * self.d_model + mimo + 2 * self.heads() + 2
            * self.state_rank + 2 * self.heads() * self.mimo_rank * self.state_rank
            + self.head_dim
    }

    /// Parameters of one attention layer: `q` and `o`, `k` and `v`, and the two
    /// norms of queries and keys.
    pub open spec fn attn_count(self) -> int {
        2 * self.d_model * self.d_model + 2 * self.d_model * (self.attn_kv_heads
            * self.attn_head()) + 2 * self.attn_head()
    }

    pub open spec fn embedding_count(self) -> int {
        self.vocab_size * self.d_model
    }

    pub open spec fn head_count(self) -> int {
        if self.tied_embeddings {
            0
        } else {
            self.vocab_size * self.d_model
        }
    }

    /// Three matrices per layer.
    pub open spec fn ffn_count(self) -> int {
        self.n_layers * 3 * self.d_model * self.ff()
    }

    /// Two norms per layer, and the one before the head.
    pub open spec fn norm_count(self) -> int {
        (2 * self.n_layers + 1) * self.d_model
    }

    pub open spec fn ssm_total(self, d_in_proj: int) -> int {
        self.ssm_layers(self.n_layers as nat) * self.ssm_count(d_in_proj)
    }

    pub open spec fn attn_total(self) -> int {
        self.attention_layers(self.n_layers as nat) * self.attn_count()
    }

    /// Every parameter of the model.
    pub open spec fn param_count(self, d_in_proj: int) -> int {
        self.embedding_count() + self.head_count() + self.ssm_total(d_in_proj) + self.attn_total()
            + self.ffn_count() + self.norm_count()
    }

    /// Whether the head widths that the layers of the stack divide by are not
    /// zero.
    pub open spec fn divisible(self) -> bool {
        &&& self.ssm_layers(self.n_layers as nat) > 0 ==> self.head_dim != 0
        &&& self.attention_layers(self.n_layers as nat) > 0 ==> self.attn_heads != 0
    }

    /// Whether the parameters can be counted in machine integers.
    pub open spec fn countable(self, d_in_proj: int) -> bool {
        self.divisible() && self.ff() <= usize::MAX && self.param_count(d_in_proj) <= usize::MAX
    }
}

impl Budget {
    /// Whether this is the budget of `model`.
    pub open spec fn is_of(self, model: Model, d_in_proj: int) -> bool {
        &&& self.embedding == model.embedding_count()
        &&& self.head == model.head_count()
        &&& self.ssm == model.ssm_total(d_in_proj)
        &&& self.attention == model.attn_total()
        &&& self.ffn == model.ffn_count()
        &&& self.norms == model.norm_count()
        &&& self.total == model.param_count(d_in_proj)
    }
}

proof fn lemma_product_at_least(a: int, b: int)
    requires
        a >= 0,
        b >= 1,
    ensures
        a * b >= a,
{
    assert(a * b >= a) by (nonlinear_arith)
        requires
            a >= 0,
            b >= 1,
    ;
}

impl Model {
    /// The layer counts never fall, and none of the counts is negative.
    proof fn lemma_layers_grow(self, n: nat, m: nat)
        requires
            n <= m,
        ensures
            self.ssm_layers(n) <= self.ssm_layers(m),
            self.attention_layers(n) <= self.attention_layers(m),
        decreases m,
    {
        if n < m {
            self.lemma_layers_grow(n, (m - 1) as nat);
        }
    }

    proof fn lemma_counts_are_natural(self, d_in_proj: int)
        requires
            d_in_proj >= 0,
        ensures
            self.inner() >= 0,
            self.head_dim != 0 ==> self.heads() >= 0,
            self.head_dim != 0 ==> self.ssm_count(d_in_proj) >= self.inner() * self.d_model >= 0,
            self.attn_heads != 0 ==> self.attn_head() >= 0,
            self.attn_heads != 0 ==> self.attn_count() >= 0,
            self.embedding_count() >= 0,
            self.head_count() >= 0,
            self.ffn_count() >= 0,
            self.norm_count() >= 0,
    {
        broadcast use vstd::arithmetic::mul::lemma_mul_nonnegative;

        assert(self.expand * self.d_model >= 0);
        if self.head_dim != 0 {
            vstd::arithmetic::div_mod::lemma_div_pos_is_pos(self.inner(), self.head_dim as int);
            let h = self.heads();
            assert(self.d_model * d_in_proj >= 0);
            assert(self.inner() * self.d_model >= 0);
            assert(3 * h * self.mimo_rank >= 0);
            assert(3 * h * self.mimo_rank * self.head_dim >= 0);
            assert(2 * h * self.mimo_rank >= 0);
            assert(2 * h * self.mimo_rank * self.state_rank >= 0);
        }
        if self.attn_heads != 0 {
            vstd::arithmetic::div_mod::lemma_div_pos_is_pos(
                self.d_model as int,
                self.attn_heads as int,
            );
            let head = self.attn_head();
            assert(2 * self.d_model * self.d_model >= 0);
            assert(self.attn_kv_heads * head >= 0);
            assert(2 * self.d_model * (self.attn_kv_heads * head) >= 0);
        }
        assert(self.vocab_size * self.d_model >= 0);
        assert(self.n_layers * 3 * self.d_model >= 0);
        assert(self.n_layers * 3 * self.d_model * self.ff() >= 0);
        assert((2 * self.n_layers + 1) * self.d_model >= 0);
    }

    /// Parameters of one SSM layer, counted past the machine limit if need be.
    fn ssm_params(&self, d_in_proj: usize) -> (count: CheckedUsize)
        requires
            self.head_dim != 0,
        ensures
            count@ == self.ssm_count(d_in_proj as int) || (count@ > usize::MAX && self.ssm_count(
                d_in_proj as int,
            ) > usize::MAX),
    {
        proof {
            self.lemma_counts_are_natural(d_in_proj as int);
        }
        let inner = match self.expand.checked_mul(self.d_model) {
            Some(inner) => inner,
            None => {
                proof {
                    if self.d_model == 0 {
                        vstd::arithmetic::mul::lemma_mul_by_zero_is_zero(self.expand as int);
                    }
                    lemma_product_at_least(self.inner(), self.d_model as int);
                }
                return CheckedUsize::new(usize::MAX).add_value(1);
            },
        };
        let heads: usize = inner / self.head_dim;
        let projections = CheckedUsize::new(self.d_model).mul_value(d_in_proj).add_checked(
            &CheckedUsize::new(inner).mul_value(self.d_model),
        );
        let mimo = if self.mimo_rank > 1 {
            CheckedUsize::new(3).mul_value(heads).mul_value(self.mimo_rank).mul_value(
                self.head_dim,
            )
        } else {
            CheckedUsize::new(0)
        };
        let twice = CheckedUsize::new(2).mul_value(heads);
        let small = twice.add_checked(&CheckedUsize::new(2).mul_value(self.state_rank)).add_checked(
            &twice.mul_value(self.mimo_rank).mul_value(self.state_rank),
        ).add_value(self.head_dim);
        projections.add_checked(&mimo).add_checked(&small)
    }

    /// Parameters of one attention layer, counted past the machine limit if need
    /// be.
    fn attn_params(&self) -> (count: CheckedUsize)
        requires
            self.attn_heads != 0,
        ensures
            count@ == self.attn_count(),
    {
        let d: usize = self.d_model;
        let head: usize = d / self.attn_heads;
        let twice = CheckedUsize::new(2).mul_value(d);
        twice.mul_value(d).add_checked(
            &twice.mul_checked(&CheckedUsize::new(self.attn_kv_heads).mul_value(head)),
        ).add_checked(&CheckedUsize::new(2).mul_value(head))
    }

    /// The parameter budget, broken down by what it is spent on, for SSM layers
    /// whose input projection is `d_in_proj` wide; `None` where a layer would
    /// divide by a zero head count or width, or a count does not fit.
    pub fn checked_budget(&self, d_in_proj: usize) -> (budget: Option<Budget>)
        ensures
            budget is Some <==> self.countable(d_in_proj as int),
            budget matches Some(budget) ==> budget.is_of(*self, d_in_proj as int),
            ({
                let (n, d, v) = (self.n_layers as int, self.d_model as int, self.vocab_size as int);
                let attending = match self.attn_period {
                    Some(period) => if period > 0 { n / period as int } else { 0 },
                    None => 0,
                };
                let ff = (self.ffn_width + 63) / 64 * 64;
                let head = d / self.attn_heads as int;
                let attention = 2 * d * d + 2 * d * (self.attn_kv_heads * head) + 2 * head;
                let inner = self.expand * self.d_model;
                let (heads, rank) = (inner / self.head_dim as int, self.mimo_rank as int);
                let channels = if rank > 1 { 3 * heads * rank * self.head_dim } else { 0 };
                let ssm = d * d_in_proj + inner * d + channels + 2 * heads + 2 * self.state_rank + 2
                    * heads * rank * self.state_rank + self.head_dim;
                let lm_head = if self.tied_embeddings { 0 } else { v * d };
                let total = v * d + lm_head + (n - attending) * ssm + attending * attention + n * 3
                    * d * ff + (2 * n + 1) * d;
                &&& budget is Some <==> {
                    &&& attending < n ==> self.head_dim != 0
                    &&& attending > 0 ==> self.attn_heads != 0
                    &&& ff <= usize::MAX
                    &&& total <= usize::MAX
                }
                &&& budget matches Some(budget) ==> {
                    &&& budget.embedding == v * d
                    &&& budget.head == lm_head
                    &&& budget.ssm == (n - attending) * ssm
                    &&& budget.attention == attending * attention
                    &&& budget.ffn == n * 3 * d * ff
                    &&& budget.norms == (2 * n + 1) * d
                    &&& budget.total == total
                }
            }),
    {
        proof {
            layers_are_shared_out(*self, self.n_layers as nat);
        }
        let d: usize = self.d_model;
        let ghost proj = d_in_proj as int;
        let ghost limit = usize::MAX as int;
        proof {
            self.lemma_counts_are_natural(proj);
            vstd::arithmetic::mul::lemma_mul_by_zero_is_zero(self.ssm_count(proj));
            vstd::arithmetic::mul::lemma_mul_by_zero_is_zero(self.attn_count());
        }
        let mut ssm = CheckedUsize::new(0);
        let mut attention = CheckedUsize::new(0);
        let mut layer: usize = 0;
        while layer < self.n_layers
            invariant
                proj == d_in_proj,
                limit == usize::MAX,
                layer <= self.n_layers,
                self.ssm_layers(layer as nat) > 0 ==> self.head_dim != 0,
                self.attention_layers(layer as nat) > 0 ==> self.attn_heads != 0,
                self.head_dim != 0 ==> self.ssm_count(proj) >= 0,
                self.attn_heads != 0 ==> self.attn_count() >= 0,
                self.ssm_layers(layer as nat) * self.ssm_count(proj) >= 0,
                attention@ == self.attention_layers(layer as nat) * self.attn_count(),
                ssm@ == self.ssm_layers(layer as nat) * self.ssm_count(proj) || (ssm@ > limit
                    && self.ssm_layers(layer as nat) * self.ssm_count(proj) > limit),
            decreases self.n_layers - layer,
        {
            let ghost k = self.ssm_layers(layer as nat);
            let ghost j = self.attention_layers(layer as nat);
            proof {
                self.lemma_layers_grow((layer + 1) as nat, self.n_layers as nat);
                layers_are_shared_out(*self, self.n_layers as nat);
                vstd::arithmetic::mul::lemma_mul_is_distributive_add_other_way(
                    self.ssm_count(proj),
                    k as int,
                    1,
                );
                vstd::arithmetic::mul::lemma_mul_is_distributive_add_other_way(
                    self.attn_count(),
                    j as int,
                    1,
                );
            }
            match self.mixer(layer) {
                Mixer::Ssm => {
                    if self.head_dim == 0 {
                        return None;
                    }
                    ssm = ssm.add_checked(&self.ssm_params(d_in_proj));
                },
                Mixer::Attention => {
                    if self.attn_heads == 0 {
                        return None;
                    }
                    attention = attention.add_checked(&self.attn_params());
                },
            }
            layer = layer + 1;
        }
        if self.ffn_width > usize::MAX / 64 * 64 {
            return None;
        }
        let embedding = CheckedUsize::new(self.vocab_size).mul_value(d);
        let head = if self.tied_embeddings {
            CheckedUsize::new(0)
        } else {
            CheckedUsize::new(self.vocab_size).mul_value(d)
        };
        let ffn = CheckedUsize::new(self.n_layers).mul_value(3).mul_value(d).mul_value(self.d_ff());
        let norms = CheckedUsize::new(2).mul_value(self.n_layers).add_value(1).mul_value(d);
        let total = embedding.add_checked(&head).add_checked(&ssm).add_checked(
            &attention,
        ).add_checked(&ffn).add_checked(&norms);
        if total.is_overflowed() {
            return None;
        }
        Some(
            Budget {
                embedding: embedding.unwrap(),
                head: head.unwrap(),
                ssm: ssm.unwrap(),
                attention: attention.unwrap(),
                ffn: ffn.unwrap(),
                norms: norms.unwrap(),
                total: total.unwrap(),
            },
        )
    }

    /// The parameter budget, broken down by what it is spent on.
    pub fn budget(&self, d_in_proj: usize) -> (budget: Budget)
        requires
            self.countable(d_in_proj as int),
        ensures
            budget.is_of(*self, d_in_proj as int),
            budget.total == budget.embedding + budget.head + budget.ssm + budget.attention
                + budget.ffn + budget.norms,
            ({
                let (n, d, v) = (self.n_layers as int, self.d_model as int, self.vocab_size as int);
                let attending = match self.attn_period {
                    Some(period) => if period > 0 { n / period as int } else { 0 },
                    None => 0,
                };
                let ff = (self.ffn_width + 63) / 64 * 64;
                let head = d / self.attn_heads as int;
                let attention = 2 * d * d + 2 * d * (self.attn_kv_heads * head) + 2 * head;
                let inner = self.expand * self.d_model;
                let (heads, rank) = (inner / self.head_dim as int, self.mimo_rank as int);
                let channels = if rank > 1 { 3 * heads * rank * self.head_dim } else { 0 };
                let ssm = d * d_in_proj + inner * d + channels + 2 * heads + 2 * self.state_rank + 2
                    * heads * rank * self.state_rank + self.head_dim;
                let lm_head = if self.tied_embeddings { 0 } else { v * d };
                let total = v * d + lm_head + (n - attending) * ssm + attending * attention + n * 3
                    * d * ff + (2 * n + 1) * d;
                &&& budget.embedding == v * d
                &&& budget.head == lm_head
                &&& budget.ssm == (n - attending) * ssm
                &&& budget.attention == attending * attention
                &&& budget.ffn == n * 3 * d * ff
                &&& budget.norms == (2 * n + 1) * d
                &&& budget.total == total
            }),
    {
        self.checked_budget(d_in_proj).unwrap()
    }
}

// ── work per token ───────────────────────────────────────────────────────────

impl Model {
    /// The tokens that attention looks back over.
    pub open spec fn span(self) -> int {
        match self.attn_window {
            Some(window) => if window < self.seq_len { window as int } else { self.seq_len as int },
            None => self.seq_len as int,
        }
    }

    /// Forward work of one SSM layer per token: both projections, and the whole
    /// state read and written once per MIMO channel.
    pub open spec fn ssm_flops(self, d_in_proj: int) -> int {
        2 * self.d_model * (d_in_proj + self.inner()) + 4 * (self.heads() * self.head_dim
            * self.state_rank) * self.mimo_rank
    }

    /// Forward work of one attention layer per token: the four projections, and
    /// the scores inside the window.
    pub open spec fn attn_flops(self) -> int {
        2 * self.d_model * (2 * self.d_model + 2 * (self.attn_kv_heads * self.attn_head())) + 4
            * self.span() * self.d_model
    }

    /// Forward work of one feed-forward per token.
    pub open spec fn ffn_flops(self) -> int {
        6 * self.d_model * self.ff()
    }

    /// Forward work of the first `n` layers per token.
    pub open spec fn stack_flops(self, d_in_proj: int, n: nat) -> int
        decreases n,
    {
        if n == 0 {
            0
        } else {
            self.stack_flops(d_in_proj, (n - 1) as nat) + if self.attends(n - 1) {
                self.attn_flops()
            } else {
                self.ssm_flops(d_in_proj)
            } + self.ffn_flops()
        }
    }

    /// Forward work per token, a multiply-add counted as two: the stack, and the
    /// unembedding, which is a full vocabulary product at every position.
    pub open spec fn flop_count(self, d_in_proj: int) -> int {
        self.stack_flops(d_in_proj, self.n_layers as nat) + 2 * self.d_model * self.vocab_size
    }

    /// Whether the work per token can be counted.
    pub open spec fn measurable(self, d_in_proj: int) -> bool {
        self.divisible() && self.ff() <= usize::MAX && self.flop_count(d_in_proj) <= u128::MAX
    }

    proof fn lemma_flops_are_natural(self, d_in_proj: int)
        requires
            d_in_proj >= 0,
        ensures
            self.inner() >= 0,
            self.head_dim != 0 ==> self.heads() >= 0,
            self.head_dim != 0 ==> self.ssm_flops(d_in_proj) >= 0,
            self.attn_heads != 0 ==> self.attn_flops() >= 0,
            self.ffn_flops() >= 0,
            2 * self.d_model * self.vocab_size >= 0,
    {
        broadcast use vstd::arithmetic::mul::lemma_mul_nonnegative;

        self.lemma_counts_are_natural(d_in_proj);
        if self.head_dim != 0 {
            let state = self.heads() * self.head_dim * self.state_rank;
            assert(self.heads() * self.head_dim >= 0);
            assert(state >= 0);
            assert(4 * state * self.mimo_rank >= 0);
            assert(2 * self.d_model * (d_in_proj + self.inner()) >= 0);
        }
        if self.attn_heads != 0 {
            assert(self.attn_kv_heads * self.attn_head() >= 0);
            assert(2 * self.d_model * (2 * self.d_model + 2 * (self.attn_kv_heads
                * self.attn_head())) >= 0);
            assert(4 * self.span() * self.d_model >= 0);
        }
        assert(6 * self.d_model * self.ff() >= 0);
    }

    /// The work of one SSM layer, counted past the limit if need be.
    fn ssm_work(&self, d_in_proj: usize) -> (work: CheckedU128)
        requires
            self.head_dim != 0,
        ensures
            work@ == self.ssm_flops(d_in_proj as int),
    {
        proof {
            self.lemma_flops_are_natural(d_in_proj as int);
            let limit = usize::MAX as int;
            assert(self.expand * self.d_model <= limit * limit) by (nonlinear_arith)
                requires
                    0 <= self.expand <= limit,
                    0 <= self.d_model <= limit,
            ;
            assert(limit * limit <= u128::MAX) by (nonlinear_arith)
                requires
                    0 <= limit <= 0xffff_ffff_ffff_ffff,
            ;
        }
        let inner: u128 = self.expand as u128 * self.d_model as u128;
        let heads: u128 = inner / self.head_dim as u128;
        let projections = CheckedU128::new(2).mul_value(self.d_model as u128).mul_checked(
            &CheckedU128::new(d_in_proj as u128).add_value(inner),
        );
        let state = CheckedU128::new(heads).mul_value(self.head_dim as u128).mul_value(
            self.state_rank as u128,
        );
        projections.add_checked(
            &CheckedU128::new(4).mul_checked(&state).mul_value(self.mimo_rank as u128),
        )
    }

    /// The work of one attention layer, counted past the limit if need be.
    fn attn_work(&self) -> (work: CheckedU128)
        requires
            self.attn_heads != 0,
        ensures
            work@ == self.attn_flops(),
    {
        let d: u128 = self.d_model as u128;
        let head: usize = self.d_model / self.attn_heads;
        let kv = CheckedU128::new(self.attn_kv_heads as u128).mul_value(head as u128);
        let span: usize = match self.attn_window {
            Some(window) => if window < self.seq_len {
                window
            } else {
                self.seq_len
            },
            None => self.seq_len,
        };
        let both = CheckedU128::new(2).mul_value(d).add_checked(
            &CheckedU128::new(2).mul_checked(&kv),
        );
        CheckedU128::new(2).mul_value(d).mul_checked(&both).add_checked(
            &CheckedU128::new(4).mul_value(span as u128).mul_value(d),
        )
    }

    /// Forward work per token, for SSM layers whose input projection is
    /// `d_in_proj` wide; `None` where a layer would divide by a zero head count
    /// or width, or the count does not fit.
    pub fn checked_flops_per_token(&self, d_in_proj: usize) -> (flops: Option<u128>)
        ensures
            flops is Some <==> self.measurable(d_in_proj as int),
            flops matches Some(flops) ==> flops == self.flop_count(d_in_proj as int),
            ({
                let (n, d, v) = (self.n_layers as int, self.d_model as int, self.vocab_size as int);
                let attending = match self.attn_period {
                    Some(period) => if period > 0 { n / period as int } else { 0 },
                    None => 0,
                };
                let ff = (self.ffn_width + 63) / 64 * 64;
                let kv = self.attn_kv_heads * (d / self.attn_heads as int);
                let span = match self.attn_window {
                    Some(window) => if window < self.seq_len { window } else { self.seq_len },
                    None => self.seq_len,
                };
                let attention = 2 * d * (2 * d + 2 * kv) + 4 * span * d;
                let inner = self.expand * self.d_model;
                let state = inner / self.head_dim as int * self.head_dim * self.state_rank;
                let ssm = 2 * d * (d_in_proj + inner) + 4 * state * self.mimo_rank;
                let total = (n - attending) * ssm + attending * attention + n * (6 * d * ff) + 2 * d
                    * v;
                &&& flops is Some <==> {
                    &&& attending < n ==> self.head_dim != 0
                    &&& attending > 0 ==> self.attn_heads != 0
                    &&& ff <= usize::MAX
                    &&& total <= u128::MAX
                }
                &&& flops matches Some(flops) ==> flops == total
            }),
    {
        proof {
            layers_are_shared_out(*self, self.n_layers as nat);
            lemma_stack_work(*self, d_in_proj as int, self.n_layers as nat);
        }
        let ghost proj = d_in_proj as int;
        proof {
            self.lemma_flops_are_natural(proj);
        }
        if self.ffn_width > usize::MAX / 64 * 64 {
            return None;
        }
        let ffn = CheckedU128::new(6).mul_value(self.d_model as u128).mul_value(
            self.d_ff() as u128,
        );
        let mut flops = CheckedU128::new(0);
        let mut layer: usize = 0;
        while layer < self.n_layers
            invariant
                proj == d_in_proj,
                layer <= self.n_layers,
                self.ssm_layers(layer as nat) > 0 ==> self.head_dim != 0,
                self.attention_layers(layer as nat) > 0 ==> self.attn_heads != 0,
                ffn@ == self.ffn_flops(),
                flops@ == self.stack_flops(proj, layer as nat),
            decreases self.n_layers - layer,
        {
            proof {
                self.lemma_layers_grow((layer + 1) as nat, self.n_layers as nat);
                layers_are_shared_out(*self, self.n_layers as nat);
            }
            let work = match self.mixer(layer) {
                Mixer::Ssm => {
                    if self.head_dim == 0 {
                        return None;
                    }
                    self.ssm_work(d_in_proj)
                },
                Mixer::Attention => {
                    if self.attn_heads == 0 {
                        return None;
                    }
                    self.attn_work()
                },
            };
            flops = flops.add_checked(&work).add_checked(&ffn);
            layer = layer + 1;
        }
        flops.add_checked(
            &CheckedU128::new(2).mul_value(self.d_model as u128).mul_value(
                self.vocab_size as u128,
            ),
        ).to_option()
    }

    /// Forward work per token, counting a multiply-add as two. The backward is
    /// taken as twice the forward, so a training step costs three times this.
    pub fn flops_per_token(&self, d_in_proj: usize) -> (flops: u128)
        requires
            self.measurable(d_in_proj as int),
        ensures
            flops == self.flop_count(d_in_proj as int),
            ({
                let (n, d, v) = (self.n_layers as int, self.d_model as int, self.vocab_size as int);
                let attending = match self.attn_period {
                    Some(period) => if period > 0 { n / period as int } else { 0 },
                    None => 0,
                };
                let ff = (self.ffn_width + 63) / 64 * 64;
                let kv = self.attn_kv_heads * (d / self.attn_heads as int);
                let span = match self.attn_window {
                    Some(window) => if window < self.seq_len { window } else { self.seq_len },
                    None => self.seq_len,
                };
                let attention = 2 * d * (2 * d + 2 * kv) + 4 * span * d;
                let inner = self.expand * self.d_model;
                let state = inner / self.head_dim as int * self.head_dim * self.state_rank;
                let ssm = 2 * d * (d_in_proj + inner) + 4 * state * self.mimo_rank;
                let total = (n - attending) * ssm + attending * attention + n * (6 * d * ff) + 2 * d
                    * v;
                flops == total
            }),
    {
        self.checked_flops_per_token(d_in_proj).unwrap()
    }
}

// ── what an invalid model is told ────────────────────────────────────────────

impl Invalid {
    /// The sentence for each reason.
    pub open spec fn sentence(self) -> Seq<char> {
        match self {
            Invalid::OddStateRank(rank) => "state_rank "@ + decimal_text(rank as nat)
                + " is odd, RoPE pairs dimensions"@,
            Invalid::HeadDim { head_dim, d_inner } => "head_dim "@ + decimal_text(head_dim as nat)
                + " does not divide d_inner "@ + decimal_text(d_inner as nat),
            Invalid::Groups { groups, heads } => "n_groups "@ + decimal_text(groups as nat)
                + " does not divide "@ + decimal_text(heads as nat) + " SSM heads"@,
            Invalid::MimoRank => "mimo_rank must be at least 1"@,
            Invalid::AttnHeads { heads, d_model } => "attn_heads "@ + decimal_text(heads as nat)
                + " does not divide d_model "@ + decimal_text(d_model as nat),
            Invalid::KvHeads { kv, heads } => "attn_kv_heads "@ + decimal_text(kv as nat)
                + " does not divide attn_heads "@ + decimal_text(heads as nat),
        }
    }

    /// The reason as a sentence.
    pub fn message(&self) -> (text: String)
        ensures
            text@ == self.sentence(),
            text@ == match *self {
                Invalid::OddStateRank(n) => "state_rank "@ + decimal_text(n as nat)
                    + " is odd, RoPE pairs dimensions"@,
                Invalid::HeadDim { head_dim, d_inner } => "head_dim "@ + decimal_text(
                    head_dim as nat,
                ) + " does not divide d_inner "@ + decimal_text(d_inner as nat),
                Invalid::Groups { groups, heads } => "n_groups "@ + decimal_text(groups as nat)
                    + " does not divide "@ + decimal_text(heads as nat) + " SSM heads"@,
                Invalid::MimoRank => "mimo_rank must be at least 1"@,
                Invalid::AttnHeads { heads, d_model } => "attn_heads "@ + decimal_text(
                    heads as nat,
                ) + " does not divide d_model "@ + decimal_text(d_model as nat),
                Invalid::KvHeads { kv, heads } => "attn_kv_heads "@ + decimal_text(kv as nat)
                    + " does not divide attn_heads "@ + decimal_text(heads as nat),
            },
    {
        let mut text = String::new();
        match *self {
            Invalid::OddStateRank(rank) => {
                text.append("state_rank ");
                text.append(decimal(rank).as_str());
                text.append(" is odd, RoPE pairs dimensions");
            },
            Invalid::HeadDim { head_dim, d_inner } => {
                text.append("head_dim ");
                text.append(decimal(head_dim).as_str());
                text.append(" does not divide d_inner ");
                text.append(decimal(d_inner).as_str());
            },
            Invalid::Groups { groups, heads } => {
                text.append("n_groups ");
                text.append(decimal(groups).as_str());
                text.append(" does not divide ");
                text.append(decimal(heads).as_str());
                text.append(" SSM heads");
            },
            Invalid::MimoRank => {
                text.append("mimo_rank must be at least 1");
            },
            Invalid::AttnHeads { heads, d_model } => {
                text.append("attn_heads ");
                text.append(decimal(heads).as_str());
                text.append(" does not divide d_model ");
                text.append(decimal(d_model).as_str());
            },
            Invalid::KvHeads { kv, heads } => {
                text.append("attn_kv_heads ");
                text.append(decimal(kv).as_str());
                text.append(" does not divide attn_heads ");
                text.append(decimal(heads).as_str());
            },
        }
        assert(text@ =~= self.sentence());
        text
    }
}

// ── what holds of every model ────────────────────────────────────────────────

/// The layer that reads raw embeddings is an SSM, unless every layer attends.
pub proof fn the_first_layer_is_an_ssm(model: Model)
    requires
        model.attn_period != Some(1usize),
    ensures
        !model.attends(0),
{
    if let Some(period) = model.attn_period {
        if period > 1 {
            vstd::arithmetic::div_mod::lemma_small_mod(1, period as nat);
        }
    }
}

/// Attention lands on the last layer of each period, and on no other.
pub proof fn attention_closes_its_period(model: Model, period: usize, index: nat)
    requires
        model.attn_period == Some(period),
        period > 0,
    ensures
        model.attends(index as int) <==> index % period as nat == period - 1,
{
    a_period_ends_on_its_last_index(index, period as nat);
}

/// A model without a period, or with one of zero, attends nowhere.
pub proof fn without_a_period_no_layer_attends(model: Model, index: int)
    requires
        model.attn_period is None || model.attn_period == Some(0usize),
    ensures
        !model.attends(index),
{
}

/// A model can be built exactly when its parts go into one another without a rest:
/// state dimensions into pairs, SSM heads into the inner width, groups into SSM
/// heads and, where there is attention, attention heads into the model width and
/// key/value heads into attention heads; and when it has a MIMO channel at all.
pub proof fn a_model_is_valid_when_its_parts_tile(model: Model)
    requires
        model.head_dim != 0,
        model.n_groups != 0,
        model.attn_heads != 0,
        model.attn_kv_heads != 0,
    ensures
        ({
            let (inner, d) = (model.expand * model.d_model, model.d_model as int);
            let (dim, groups) = (model.head_dim as int, model.n_groups as int);
            let (heads, kv) = (model.attn_heads as int, model.attn_kv_heads as int);
            model.valid() <==> {
                &&& model.state_rank as int / 2 * 2 == model.state_rank
                &&& inner / dim * dim == inner
                &&& inner / dim / groups * groups == inner / dim
                &&& model.mimo_rank > 0
                &&& model.attn_period is Some ==> d / heads * heads == d && heads / kv * kv == heads
            }
        }),
{
    let (inner, d) = (model.expand * model.d_model, model.d_model as int);
    let (dim, groups) = (model.head_dim as int, model.n_groups as int);
    let (heads, kv) = (model.attn_heads as int, model.attn_kv_heads as int);
    lemma_divides(inner, dim);
    lemma_divides(inner / dim, groups);
    lemma_divides(d, heads);
    lemma_divides(heads, kv);
}

proof fn lemma_divides(n: int, d: int)
    requires
        d != 0,
    ensures
        n % d == 0 <==> n / d * d == n,
{
    vstd::arithmetic::div_mod::lemma_fundamental_div_mod(n, d);
    vstd::arithmetic::mul::lemma_mul_is_commutative(n / d, d);
}

/// Every layer has one mixer, and one layer in each whole period is attention.
pub proof fn layers_are_shared_out(model: Model, n: nat)
    ensures
        model.ssm_layers(n) + model.attention_layers(n) == n,
        model.attn_period matches Some(period) ==> period > 0 ==> model.attention_layers(n) == n
            / period as nat,
        model.attn_period is None ==> model.attention_layers(n) == 0,
        model.attn_period == Some(0usize) ==> model.attention_layers(n) == 0,
    decreases n,
{
    if n > 0 {
        layers_are_shared_out(model, (n - 1) as nat);
    }
    if let Some(period) = model.attn_period {
        if period > 0 {
            if n == 0 {
                vstd::arithmetic::div_mod::lemma_basic_div(0, period as int);
            } else {
                a_period_ends_on_its_last_index((n - 1) as nat, period as nat);
            }
        }
    }
}

/// Tying the head removes one vocabulary matrix and changes nothing else.
pub proof fn tying_saves_a_vocabulary_matrix(model: Model, d_in_proj: int)
    ensures
        ({
            let tied = Model { tied_embeddings: true, ..model };
            let untied = Model { tied_embeddings: false, ..model };
            untied.param_count(d_in_proj) - tied.param_count(d_in_proj) == model.vocab_size
                * model.d_model
        }),
{
    let tied = Model { tied_embeddings: true, ..model };
    let untied = Model { tied_embeddings: false, ..model };
    lemma_same_layers(tied, untied, model.n_layers as nat);
}

/// The embedding is a row of the model's width per vocabulary entry, and so is a
/// head of its own; a tied head has no parameters.
pub proof fn the_vocabulary_is_paid_by_the_row(model: Model, d_in_proj: int, budget: Budget)
    requires
        budget.is_of(model, d_in_proj),
    ensures
        budget.embedding == model.vocab_size * model.d_model,
        model.tied_embeddings ==> budget.head == 0,
        !model.tied_embeddings ==> budget.head == budget.embedding,
{
}

/// One more vocabulary entry adds one row to the embedding and, where the head is
/// not tied, one to the head, and changes nothing else.
pub proof fn one_more_entry_adds_its_rows(
    model: Model,
    d_in_proj: int,
    before: Budget,
    after: Budget,
)
    requires
        model.vocab_size < usize::MAX,
        before.is_of(model, d_in_proj),
        after.is_of(
            Model { vocab_size: (model.vocab_size + 1) as usize, ..model },
            d_in_proj,
        ),
    ensures
        after.embedding == before.embedding + model.d_model,
        after.head == before.head + if model.tied_embeddings {
            0
        } else {
            model.d_model as int
        },
        after.ssm == before.ssm,
        after.attention == before.attention,
        after.ffn == before.ffn,
        after.norms == before.norms,
        after.total == before.total + if model.tied_embeddings {
            model.d_model as int
        } else {
            2 * model.d_model
        },
{
    let grown = Model { vocab_size: (model.vocab_size + 1) as usize, ..model };
    lemma_same_layers(model, grown, model.n_layers as nat);
    vstd::arithmetic::mul::lemma_mul_is_distributive_add_other_way(
        model.d_model as int,
        model.vocab_size as int,
        1,
    );
}

/// One more layer adds two norms, three feed-forward matrices of whole tiles, and
/// one mixer: attention where the layer closes a period, an SSM where it does
/// not.
pub proof fn one_more_layer_adds_its_block(
    model: Model,
    d_in_proj: int,
    before: Budget,
    after: Budget,
)
    requires
        model.n_layers < usize::MAX,
        before.is_of(model, d_in_proj),
        after.is_of(Model { n_layers: (model.n_layers + 1) as usize, ..model }, d_in_proj),
    ensures
        ({
            let (d, ff) = (model.d_model as int, (model.ffn_width + 63) / 64 * 64);
            let attends = model.attn_period matches Some(period) && period > 0 && (model.n_layers
                + 1) % period as int == 0;
            let head = d / model.attn_heads as int;
            let inner = model.expand * model.d_model;
            let (heads, rank) = (inner / model.head_dim as int, model.mimo_rank as int);
            let attention = 2 * d * d + 2 * d * (model.attn_kv_heads * head) + 2 * head;
            let ssm = d * d_in_proj + inner * d + if rank > 1 {
                3 * heads * rank * model.head_dim
            } else {
                0
            } + 2 * heads + 2 * model.state_rank + 2 * heads * rank * model.state_rank
                + model.head_dim;
            &&& after.embedding == before.embedding
            &&& after.head == before.head
            &&& after.norms == before.norms + 2 * d
            &&& after.ffn == before.ffn + 3 * d * ff
            &&& after.attention == before.attention + if attends { attention } else { 0 }
            &&& after.ssm == before.ssm + if attends { 0 } else { ssm }
            &&& after.total == before.total + 2 * d + 3 * d * ff + if attends {
                attention
            } else {
                ssm
            }
        }),
{
    let taller = Model { n_layers: (model.n_layers + 1) as usize, ..model };
    let n = model.n_layers as int;
    lemma_same_layers(model, taller, model.n_layers as nat);
    lemma_same_layers(model, taller, taller.n_layers as nat);
    let (d, ff) = (model.d_model as int, model.ff());
    assert((n + 1) * 3 * d * ff == n * 3 * d * ff + 3 * d * ff) by (nonlinear_arith);
    assert((2 * (n + 1) + 1) * d == (2 * n + 1) * d + 2 * d) by (nonlinear_arith);
    vstd::arithmetic::mul::lemma_mul_is_distributive_add_other_way(
        model.ssm_count(d_in_proj),
        model.ssm_layers(model.n_layers as nat) as int,
        1,
    );
    vstd::arithmetic::mul::lemma_mul_is_distributive_add_other_way(
        model.attn_count(),
        model.attention_layers(model.n_layers as nat) as int,
        1,
    );
}

/// One more vocabulary entry costs one more output row per token: a multiply and
/// an add for each of its weights.
pub proof fn one_more_entry_costs_one_row(model: Model, d_in_proj: int)
    requires
        model.vocab_size < usize::MAX,
    ensures
        (Model { vocab_size: (model.vocab_size + 1) as usize, ..model }).flop_count(d_in_proj)
            == model.flop_count(d_in_proj) + 2 * model.d_model,
{
    let grown = Model { vocab_size: (model.vocab_size + 1) as usize, ..model };
    lemma_stack_work(model, d_in_proj, model.n_layers as nat);
    lemma_stack_work(grown, d_in_proj, model.n_layers as nat);
    lemma_same_layers(model, grown, model.n_layers as nat);
    vstd::arithmetic::mul::lemma_mul_is_distributive_add(
        2 * model.d_model,
        model.vocab_size as int,
        1,
    );
}

/// One more layer costs its feed-forward and its mixer.
pub proof fn one_more_layer_costs_its_block(model: Model, d_in_proj: int)
    requires
        model.n_layers < usize::MAX,
    ensures
        ({
            let (d, ff) = (model.d_model as int, (model.ffn_width + 63) / 64 * 64);
            let attends = model.attn_period matches Some(period) && period > 0 && (model.n_layers
                + 1) % period as int == 0;
            let kv = model.attn_kv_heads * (d / model.attn_heads as int);
            let span = match model.attn_window {
                Some(window) => if window < model.seq_len { window } else { model.seq_len },
                None => model.seq_len,
            };
            let inner = model.expand * model.d_model;
            let state = inner / model.head_dim as int * model.head_dim * model.state_rank;
            (Model { n_layers: (model.n_layers + 1) as usize, ..model }).flop_count(d_in_proj)
                == model.flop_count(d_in_proj) + 6 * d * ff + if attends {
                2 * d * (2 * d + 2 * kv) + 4 * span * d
            } else {
                2 * d * (d_in_proj + inner) + 4 * state * model.mimo_rank
            }
        }),
{
    let taller = Model { n_layers: (model.n_layers + 1) as usize, ..model };
    lemma_stack_work(model, d_in_proj, model.n_layers as nat);
    lemma_stack_work(taller, d_in_proj, model.n_layers as nat);
    lemma_same_layers(model, taller, model.n_layers as nat);
}

/// The layers depend on the attention period alone.
proof fn lemma_same_layers(a: Model, b: Model, n: nat)
    requires
        a.attn_period == b.attn_period,
    ensures
        a.ssm_layers(n) == b.ssm_layers(n),
        a.attention_layers(n) == b.attention_layers(n),
    decreases n,
{
    if n > 0 {
        lemma_same_layers(a, b, (n - 1) as nat);
    }
}

/// The work of a stack is the work of its SSM layers, of its attention layers, and
/// of one feed-forward per layer.
proof fn lemma_stack_work(model: Model, d_in_proj: int, n: nat)
    ensures
        model.stack_flops(d_in_proj, n) == model.ssm_layers(n) * model.ssm_flops(d_in_proj)
            + model.attention_layers(n) * model.attn_flops() + n * model.ffn_flops(),
    decreases n,
{
    let (ssm, attn, ffn) = (model.ssm_flops(d_in_proj), model.attn_flops(), model.ffn_flops());
    if n == 0 {
        vstd::arithmetic::mul::lemma_mul_by_zero_is_zero(ssm);
        vstd::arithmetic::mul::lemma_mul_by_zero_is_zero(attn);
        vstd::arithmetic::mul::lemma_mul_by_zero_is_zero(ffn);
    } else {
        let m = (n - 1) as nat;
        lemma_stack_work(model, d_in_proj, m);
        let (k, j) = (model.ssm_layers(m) as int, model.attention_layers(m) as int);
        vstd::arithmetic::mul::lemma_mul_is_distributive_add_other_way(ssm, k, 1);
        vstd::arithmetic::mul::lemma_mul_is_distributive_add_other_way(attn, j, 1);
        vstd::arithmetic::mul::lemma_mul_is_distributive_add_other_way(ffn, m as int, 1);
    }
}

/// Attention is quadratic inside its window only: the work per token of a
/// windowed model does not grow with the sequence once the window is shorter.
pub proof fn work_stops_growing_at_the_window(model: Model, longer: usize, d_in_proj: int)
    requires
        model.attn_window matches Some(window) && window <= model.seq_len <= longer,
    ensures
        (Model { seq_len: longer, ..model }).flop_count(d_in_proj) == model.flop_count(d_in_proj),
{
    lemma_same_work(model, Model { seq_len: longer, ..model }, d_in_proj, model.n_layers as nat);
}

proof fn lemma_same_work(a: Model, b: Model, d_in_proj: int, n: nat)
    requires
        b == (Model { seq_len: b.seq_len, ..a }),
        a.span() == b.span(),
    ensures
        a.stack_flops(d_in_proj, n) == b.stack_flops(d_in_proj, n),
    decreases n,
{
    if n > 0 {
        lemma_same_work(a, b, d_in_proj, (n - 1) as nat);
    }
}

} // verus!
