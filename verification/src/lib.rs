//! quasar: a hybrid language-model family, its parameter arithmetic, its token
//! shards and the decisions of its training loop.

pub mod command;
pub mod config;
pub mod data;
pub mod kernel;
pub mod model;
pub mod number;
pub mod period;
pub mod text;
pub mod train;
