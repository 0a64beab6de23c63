//! A verified model of a liquidity-pool factory guarded by an emergency
//! pause switch.
//!
//! * [`pause`]: the bitmask of paused operations.
//! * [`address`]: addresses held as their canonical byte encoding, and the
//!   order in which token pairs are normalised.
//! * [`guard`]: the emergency guard (admins and the pause bitmask).
//! * [`registry`]: the pools registered so far, keyed by token pair.
//! * [`host`]: the call into the contract host that the library makes (the
//!   salt of a pair's pool).
//! * [`factory`]: the factory state (admin, guard, registered pairs) and its
//!   operations.

pub mod pause;
pub mod address;
pub mod guard;
pub mod registry;
pub mod host;
pub mod factory;
