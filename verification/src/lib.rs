//! Broadcast operation manager for encoded transactions.
//!
//! A client submits a hex-encoded transaction and receives an opaque
//! operation identifier at once; a per-operation driver then carries the
//! transaction toward a terminal pool status in the background, resubmitting
//! it across block-import boundaries, until either a terminal status is
//! observed or the client stops the operation.
//!
//! The crate holds the decision logic: the transaction decoder, the driver
//! state machine, the registry of live operations, and the manager that ties
//! them together. Every transition is a plain function from state and event
//! to next state and pool request; the surrounding process performs the pool
//! interactions and feeds the resulting events back in.

pub mod decoder;
pub mod driver;
pub mod hashing;
pub mod manager;
pub mod op_id;
pub mod registry;
pub mod status;
