pub mod text;
pub mod release;
pub mod sources;
pub mod third_party;
pub mod model;
pub mod stream;
pub mod protocol;
pub mod session;
pub mod properties;
pub mod ui;
pub mod agent;
pub mod screens;

pub use model::{AppContext, Command, DeferPeriod, Event, LogLevel, ReleaseCheckResult, StepState};
pub use session::{check_new_major_release, emit_bootstrap, run_command, Session};
