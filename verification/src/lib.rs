//! Planning and driving of package builds.

pub mod cli;
pub mod components;
pub mod context;
pub mod error;
pub mod ops;
pub mod order;
pub mod package;
pub mod path;
pub mod process_builder;
pub mod reach;
pub mod relative;
pub mod split;
pub mod text;
