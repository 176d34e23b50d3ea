//! A verified core for running dense multidimensional array arithmetic on a
//! GPU compute device.
//!
//! The library models the pieces that make a GPU buffer behave like an
//! addressable block of host memory: a virtual-address arena that maps
//! synthetic pointer values to buffer regions, the stride-aware index
//! arithmetic that a compute kernel uses to read its operands, a textual
//! kernel-template engine, the dispatch protocol that runs one elementwise
//! operation, and the readback protocol that copies a device buffer into
//! typed host values.

pub mod arena;
pub mod array;
pub mod bytes;
pub mod device;
pub mod dispatch;
pub mod indexing;
pub mod kernel;
pub mod laws;
