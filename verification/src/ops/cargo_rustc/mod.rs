//! Building packages with the compiler.

pub mod args;
pub mod compile;
pub mod completeness;
pub mod custom;
pub mod deps;
pub mod job;
pub mod linked;
pub mod package_plan;
pub mod plan;
pub mod queue;
pub mod reading;
pub mod script;
pub mod targets;
pub mod told;
pub mod units;
pub mod work;

pub use self::args::process;
pub use self::targets::{compile_targets, uniq_target_dest};
