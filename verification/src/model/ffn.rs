//! The SwiGLU feed-forward sublayer.

use vstd::prelude::*;

use crate::config::Model;

verus! {

/// `down(silu(gate(x)) * up(x))`: three bias-free matrices, no dropout.
#[derive(Debug, Clone, Copy, PartialEq, Eq, Structural)]
pub struct Ffn {
    pub d_model: usize,
    pub d_ff: usize,
}

impl Ffn {
    /// The feed-forward of a model.
    pub fn new(cfg: &Model) -> (ffn: Self)
        requires
            cfg.ff() <= usize::MAX,
        ensures
            ffn == (Ffn { d_model: cfg.d_model, d_ff: cfg.ff() as usize }),
            ffn.d_ff == (cfg.ffn_width + 63) / 64 * 64,
    {
        Self { d_model: cfg.d_model, d_ff: cfg.d_ff() }
    }

    /// The parameters of the three matrices: two that widen, one that narrows.
    pub open spec fn params(self) -> int {
        self.d_model * self.d_ff + self.d_model * self.d_ff + self.d_ff * self.d_model
    }
}

} // verus!
