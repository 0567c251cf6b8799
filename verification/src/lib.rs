//! A verified core for a matchmaking simulation: a pool of player records,
//! a queue of waiting players, team-formation algorithms (arrival order,
//! random peek, greedy skill balancing with optional prefill), an outcome
//! decider, and an Elo-style rating update.
//!
//! Skill values are fixed-point integers throughout: one rating point is
//! `skill::SCALE` (one thousand) units, so `1500` points are stored as
//! `1_500_000`. This keeps every computation exact and verifiable.

pub mod algorithm;
pub mod elo;
pub mod errors;
pub mod game;
pub mod randgen;
pub mod rng;
pub mod seqtools;
pub mod skill;
pub mod user;
