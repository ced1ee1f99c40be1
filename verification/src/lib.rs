//! Verified core of a cross-toolchain bootstrap pipeline.
//!
//! The crate computes the directory layout for a toolchain bootstrap, the
//! fixed build order of the toolchain packages, and the ordered plans of
//! filesystem actions that prepare, back up and finalize a toolchain tree.
//! A small model filesystem gives each plan its meaning, so that the
//! pruning and stripping policies of the release step can be proved.
//! Carrying the plans out against the real filesystem is left to an
//! unverified driver.

pub mod context;
pub mod stage;
pub mod fs_model;
pub mod path;
pub mod plan;
