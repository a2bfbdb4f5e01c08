//! A build critical-path engine: consumes execution signals of a running
//! build, incrementally reconstructs the dependency graph among executed
//! units of work, and computes the longest duration-weighted chain through
//! that graph.
//!
//! The engine is fed through [`signals::BuildSignal`] values, dispatched by
//! [`dispatch::BuildSignalReceiver`]. Two backends consume them: a greedy
//! streaming one ([`streaming::DefaultBackend`]) over a predecessor store
//! ([`extract`]), and an exact one ([`longest::LongestPathGraphBackend`])
//! over an explicit graph ([`graph`]) with proven-optimal longest paths.
//! Build events accumulate into per-target results in [`collect`], and
//! [`error`] classifies the errors that travel with them. Channel plumbing
//! and task management live outside this crate; the crate holds the state,
//! the algorithms and their proofs.

pub mod backend;
pub mod collect;
pub mod dispatch;
pub mod error;
pub mod extract;
pub mod graph;
pub mod longest;
pub mod signals;
pub mod streaming;
