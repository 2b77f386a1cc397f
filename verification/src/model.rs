//! The shape of the model: what its layers hold, and what attention looks at.

pub mod attention;
pub mod block;
pub mod ffn;

pub use attention::Attention;
pub use block::{Block, Mix};
pub use ffn::Ffn;
