//! Hardware abstractions: receivers and servos.

pub mod reciever;
pub mod servos;
