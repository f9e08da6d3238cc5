//! A bounded-grid two-state cellular automaton (Conway's Game of Life rules)
//! with cycle detection.
//!
//! The playable `width x height` interior is surrounded by a one-cell border
//! ring that is always dead, so neighbor lookups never need bounds checks.
//! After each generation the board's fingerprint (an FNV-1 digest of the
//! interior liveness) is recorded in a fixed-capacity ring buffer; the
//! simulation is considered done once the current fingerprint is already in
//! that bounded history. A cycle longer than the history capacity is never
//! recognized: the lookback window is a deliberate memory/detection trade-off.

pub mod board;
pub mod cell;
pub mod fingerprint;
pub mod history;
