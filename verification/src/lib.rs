//! Coordination core of a ring-exchange gravitational N-body simulation.
//!
//! A fixed number of cooperating processes each own one contiguous block of
//! particles. Within one iteration the blocks travel once around the ring of
//! processes, so that every process meets every particle exactly once.
//!
//! This crate holds the parts of that scheme that are decided by integers and
//! by the shape of the data: how the particles are dealt to the processes
//! (`partition`), which neighbour a process sends to and hears from and what
//! a round does to its state (`proc`), in which order the driver of a process
//! goes about a run (`schedule`), which particles act on which (`star`), and
//! how the records of the input and of the output are laid out (`record`).
//! What holds of the ring as a whole is proved in `ring`.
//! Numbers are carried as their IEEE 754 single-precision encodings. They
//! are compared here but never computed with: the driver supplies every
//! computed number.

pub mod err;
pub mod partition;
pub mod proc;
pub mod record;
pub mod ring;
pub mod schedule;
pub mod star;
