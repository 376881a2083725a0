//! Single-decree Paxos: a quorum of acceptors agrees on one value despite
//! competing proposers and unresponsive participants.
//!
//! The pieces, leaves first: [`proposal::Proposal`] is the `(number, value)`
//! pair competing for consensus; [`acceptor::Acceptor`] is the per-participant
//! safety state machine; [`agent::Agent`] is the capability a proposer needs
//! from a participant, with [`agent::LocalAgent`] as the in-process
//! implementation; [`proposer::Proposer`] drives the two-phase protocol with
//! majority-gated fan-in; [`messages::ConsensusError`] reports a failed
//! attempt. [`safety`] proves the protocol laws — promise monotonicity,
//! adoption, and agreement across whole histories of attempts — over the
//! model the contracts use, and [`interleaving`] proves that no two proposers
//! can both assemble a promise quorum for one number, however their requests
//! interleave at the shared acceptors.

pub mod acceptor;
pub mod agent;
pub mod interleaving;
pub mod messages;
pub mod proposal;
pub mod proposer;
pub mod safety;
