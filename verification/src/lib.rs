//! Core of a Byzantine-fault-tolerant location-certification service: signed
//! location proofs and reports, an authenticated request envelope with
//! proof-of-work, a replicated storage engine with equivocation detection,
//! and the double-echo reliable-broadcast state machine that replicas run to
//! agree on one report per user and epoch.

pub mod codec;
pub mod collections;
pub mod crypto;
pub mod double_echo;
pub mod double_echo_report;
pub mod grid;
pub mod key_management;
pub mod management;
pub mod pow;
pub mod proofing_system;
pub mod proofs;
pub mod report;
pub mod reports;
pub mod status;
pub mod storage;
pub mod validating;
pub mod verifying;
