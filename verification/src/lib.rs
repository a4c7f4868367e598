//! Collaborative argument-graph backend core.
//!
//! One or more clients build a directed acyclic graph of statements (a proof
//! tree) over a persistent connection; an external language-model service is
//! asked to judge whether individual statements are factual or whether a set
//! of premises implies a conclusion. This crate holds the session state
//! machine: the statement graph with its proof-state invariants, the token
//! bucket that rate-limits calls to the judging service, the interpretation
//! of the service's free-text answers, and the message protocol that keeps
//! every connected client's view of the graph consistent. Transport, static
//! asset serving and process configuration live outside the core.

pub mod config;
pub mod game;
pub mod judge;
pub mod limiter;
pub mod model;
pub mod ws;
