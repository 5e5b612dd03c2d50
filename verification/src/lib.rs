//! Crash-consistency test harness for a persistent-memory allocator.
//!
//! The library holds the verified core of the harness: the wire codec for
//! command batches, the deterministic seeded workload generator, the
//! coordinator's crash-injection and teardown policies, and the worker-side
//! dispatch state. The processes, sockets and allocator calls the harness
//! drives live outside the library and follow the scripts and actions it
//! computes.

pub mod coordinator;
pub mod rpc;
pub mod worker;
pub mod workload;
