//! Reversible swaps of system utilities for drop-in replacements.
//!
//! An experiment installs a replacement package and redirects the host's
//! existing command paths to it; disabling it restores those paths and
//! removes the package. All host access goes through the [`worker::Worker`]
//! capability; a [`worker::Host`] wraps a worker and records the requests
//! made through it in a ghost journal, so that the contracts can state
//! exactly which requests an operation makes.
mod worker;
mod paths;
mod uutils;
mod experiment;
mod mock;
mod laws;

pub use worker::{answer_of, listing_of, Distribution, ErrorKind, Host, HostError, HostOp, Worker};
pub use paths::{base_name, existing_path, file_name, lookup_path, resolved_path};
pub use uutils::{done_ok, installed_recorded, UutilsExperiment};
pub use mock::MockSystem;
pub use laws::{
    apply, apply_all, lemma_disable_restores_linked_paths, lemma_enable_disable_round_trip,
    linked_paths, matching_runs, resolved_paths, restored_paths, walk_answers, HostState,
};
pub use experiment::{all_experiments, configured, Experiment};
