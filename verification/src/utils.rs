//! What the library needs around a run of the version-control tool: the
//! command to run, what a run gave back, and the errors.

pub mod future;
pub mod git;
