//! Running a model: the loop, the schedule and the optimizers.

pub mod optim;
pub mod run;
pub mod schedule;

pub use optim::Optim;
pub use run::{Error, Run, State, Training};
pub use schedule::Wsd;
