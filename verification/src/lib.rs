//! A library for an issue-assignment request bot: the eligibility decision
//! over candidate issues, the single-outstanding-request state machine with
//! timeout-based release, and the persistence codec that lets the process
//! restart without violating its invariants.

pub mod codec;
pub mod config;
pub mod filter;
pub mod github;
pub mod persistence;
pub mod poller;
pub mod state;

pub use config::{Config, Repository};
pub use github::{Issue, Label};
pub use persistence::FilePersistence;
pub use state::{ActiveIssue, BotState, ProcessedSet};
