//! What can be done with packages.

pub mod cargo_example;
pub mod cargo_rustc;
pub mod options;

pub use self::cargo_example::{example, ExampleOptions};
pub use self::cargo_rustc::compile_targets;
pub use self::options::CompileOptions;
