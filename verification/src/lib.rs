//! Offline replay of captured GPU command traces.
//!
//! A trace is a chronological log of memory writes, translation-table
//! updates, and command-queue submissions recorded while a graphics
//! device was driven. This crate reconstructs, purely from those
//! events, the memory state the device would have seen, and resolves
//! the buffer objects that command-queue submissions refer to, so that
//! an external instruction decoder can print them.
//!
//! The crate owns the order-sensitive parts: the paged address-space
//! model with last-write-wins semantics, the translation through GGTT
//! entries, the dispatcher state machine that consumes events in file
//! order, and the session configuration (decode flags, line budget).
//! Reading the trace file's chunk framing, looking up device
//! capabilities, decoding opcodes, and paging output to a terminal are
//! external collaborators: they hand this crate plain values and take
//! plain values back.

pub mod addr_space;
pub mod device;
pub mod dispatch;
pub mod errors;
pub mod gtt;
pub mod options;
pub mod session;
pub mod width;
pub mod pagestore;
