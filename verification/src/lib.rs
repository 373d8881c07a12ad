//! Flight-controller logic for an RC plane: decoding of the Spektrum DSM
//! satellite-receiver serial stream, the receiver and servo abstractions,
//! the millisecond up-timer, and composable processing pipelines.

pub mod myhal;
pub mod timer;
pub mod myhal_implementations;
pub mod pipeline;
pub mod dsmrx;
