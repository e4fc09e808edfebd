//! Core of an interview-scheduling service: capacity-bounded slot booking,
//! concurrent candidate-screening voting with an atomic claim, and event-sourced
//! broadcast fan-out with a convergent summary projection.
//!
//! The durable store is modelled as in-memory tables; every operation on them
//! is verified against its contract. What only the outside world can do —
//! the wall clock and fresh identifiers — comes in through narrow trusted
//! wrappers; everything downstream of those values is verified.
pub mod counting;
pub mod slots;
pub mod ranking;
pub mod votes;
pub mod broadcast;
pub mod ids;
pub mod clock;
pub mod reports;
pub mod users;
pub mod api;
