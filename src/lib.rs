//! Reconstruction of memory-region lifetimes from a trace of allocator and
//! container events.
pub mod event_log;
pub mod text;
pub mod mem_boxes;
pub mod profile;
pub mod laws;
