//! A growable pool of fixed-shape pixel buffers carved out of one shared-memory
//! segment, with the bookkeeping that tells which buffers a compositor still
//! holds and which may be handed out again.
//!
//! The crate makes every decision of the pool and performs none of its effects:
//! a caller resizes the segment, talks to the compositor and maps memory as the
//! values returned here direct, and reports release events back.
//!
//! - [`geometry`]: buffer sizes and the protocol's limits.
//! - [`model`]: the pool as a state machine over mathematical values.
//! - [`history`]: sequences of operations on that state machine.
//! - [`laws`]: what holds of every pool, proved over the model.
//! - [`buffer_pool`]: the executable pool, each operation stated over the model.
//! - [`queue`]: the choice of the GPU queue family for a window that presents
//!   through a swapchain instead.

pub mod buffer_pool;
pub mod geometry;
pub mod history;
pub mod laws;
pub mod model;
pub mod queue;
