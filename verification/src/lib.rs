//! Real-time audio engine core: an ordered chain of effect plugins that a
//! control thread mutates through a command protocol, and the bookkeeping
//! the audio-cycle callback performs around it.
//!
//! The engine is generic over the plugin-instance type `P`: instances are
//! opaque values that the engine owns, orders and hands over, but never
//! inspects. Signal samples, parameter values and the master volume travel
//! as raw single-precision bit patterns (`u32`); the host glue converts at
//! the boundary and performs the per-sample arithmetic itself, since the
//! verified core holds no floating-point code.

pub mod chain;
pub mod command;
pub mod ident;
pub mod laws;
pub mod mirror;
pub mod processor;
