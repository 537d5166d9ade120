//! Two-location file synchronizer: change detection against a persisted
//! manifest, conflict policy, and the plan that carries one side to the other.

pub mod cli;
pub mod clock;
pub mod config;
pub mod diff;
pub mod edit;
pub mod error;
pub mod executor;
pub mod hash;
pub mod laws;
pub mod manifest;
pub mod plan;
pub mod prompt;
pub mod pull;
pub mod push;
pub mod seqs;
pub mod status;
pub mod syncset;
pub mod table;
pub mod text;
pub mod vcs;
