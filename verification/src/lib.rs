//! A verified core for a concurrent TCP connect-scan engine.
//!
//! The library covers the pure logic of the scanner: dividing the port
//! space among workers by stride partitioning, validating command-line
//! arguments, and sorting and rendering the aggregated results. The
//! surrounding program performs the actual connection attempts and all
//! console output, feeding this library plain values and printing what
//! it returns.

pub mod args;
pub mod decimal;
pub mod output;
pub mod partition;
