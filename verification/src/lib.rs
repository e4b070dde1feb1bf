//! Coordinator-mediated aggregation of signed scalar reports.
//!
//! A fleet of clients each computes a fixed-point scalar measurement, signs
//! its canonical textual encoding, and submits it to an aggregator.  The
//! aggregator verifies each submission against an identity registry, collects
//! the verified values for the current round, and, once a configured quorum
//! of reports has arrived, releases the arithmetic mean exactly once before
//! resetting for the next round.
//!
//! Values are carried as 64-bit integers counting ten-thousandths, so that
//! the four-decimal wire encoding is exact.

pub mod auth;
pub mod average;
pub mod crypto;
pub mod decimal;
pub mod registry;
pub mod round;
pub mod session;
pub mod wire;
