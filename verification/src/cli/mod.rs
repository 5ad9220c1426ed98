//! The commands that a user gives.

pub mod exit;
pub mod run;
pub mod test;
