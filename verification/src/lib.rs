//! A verified core for a line-delimited JSON chat bridge: a wire codec that
//! parses and serializes one-line JSON frames, a classifier that turns them
//! into a closed set of typed messages, builders for the three outbound
//! request shapes, per-line step functions for the two transport loops, and
//! a bounded scrollback buffer for display.
pub mod json;
pub mod keybase;
pub mod textbuffer;
