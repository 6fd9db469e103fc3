//! Verified coordination logic for decentralised training runs: committee and
//! witness selection, data assignment, the coordinator's epoch/round state machine,
//! witness bloom filters, and the training client's bookkeeping and step
//! transitions (also for a client that overlaps consecutive rounds).

pub mod hashing;
pub mod text;
pub mod shuffle;
pub mod bloom;
pub mod committee_selection;
pub mod coordinator;
pub mod model;
pub mod data_selection;
pub mod witnessing;
pub mod consensus;
pub mod client_round;
pub mod client_steps;
pub mod client_training;
pub mod client_loop;
pub mod simple_coordinator;
pub mod e2e;
pub mod client_config;
pub mod local_data;
pub mod download_progress;
pub mod overlapped_client;
pub mod overlapped_phases;
