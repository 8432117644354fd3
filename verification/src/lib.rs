//! An in-memory leaderboard.
//!
//! A [`board::ScoreBoard`] keeps one record per user and answers "who are the
//! `n` best?" in rank order. Every operation is specified against the
//! mathematical [`model::BoardState`], whose invariant ties the record store,
//! the user index and the rank index together.

pub mod board;
pub mod key;
pub mod model;
pub mod rank;
pub mod ranking;
