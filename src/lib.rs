//! Scoring, protocol and match-control logic for pitting graph-drawing
//! optimizers against each other.

pub mod geometry;
pub mod graph;
pub mod validation;
pub mod text;
pub mod protocol;
pub mod matching;
pub mod corpus;
pub mod leaderboard;
pub mod permutation;
