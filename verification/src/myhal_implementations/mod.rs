//! Implementations of the hardware abstractions for concrete devices.

pub mod dsmrx;
