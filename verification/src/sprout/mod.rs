//! Runs an accelerated `git worktree add`: git creates and finishes the worktree, and in
//! between whatever the source checkout can supply is cloned.
//!
//! Each phase is a machine: a value that says what to do next, with one method per thing
//! that can come back. Whoever drives it runs git, touches the filesystem, and hands back
//! what happened.

pub mod add;
pub mod checkout;
pub mod differences;
pub mod finish;
pub mod materialise;
pub mod populate;
pub mod text;

