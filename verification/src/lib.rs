//! Interrupt-to-scheduler bridge for an embedded multi-core kernel.
//!
//! The bridge owns one FIFO wait queue per registered interrupt source and
//! the decision logic of the two paths that touch those queues: a running
//! task suspending itself on a source, and the trap path dispatching a fired
//! interrupt. Hardware actions (controller enable/claim/clear, device
//! acknowledgement, the context switch) are returned to the host kernel as
//! explicit plans; this crate verifies everything that decides.

pub mod laws;
pub mod manager;
pub mod protocol;
