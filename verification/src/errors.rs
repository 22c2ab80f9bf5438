//! Error taxonomy of the replay engine.
//!
//! Fatal errors end the replay: a `SetupError` before it begins, a
//! `MalformedTraceError` when the event stream itself breaks its
//! contract. A failed buffer-object resolution is *not* here: it is
//! local and recoverable, see `addr_space::UnresolvedAddress`.

use vstd::prelude::*;

verus! {

/// The command line could not be turned into a runnable configuration;
/// the caller should show the usage text and exit nonzero.
#[derive(Debug, Clone, PartialEq, Eq)]
pub enum ConfigError {
    /// Help was requested, or a flag carried a value outside its
    /// accepted set; both are treated as a request for the usage text.
    Usage,
    /// `--gen` named a platform the name table does not know.
    UnknownPlatform { name: String },
}

/// Replay could not start: a needed resource or lookup failed before
/// any event was processed past the point of no return.
#[derive(Debug, Clone, PartialEq, Eq)]
pub enum SetupError {
    /// The named trace file could not be opened.
    TraceFileOpen { path: String },
    /// The device-info event carried a PCI id the device table does
    /// not know, so no decode session can be built.
    DeviceLookup { pci_id: i32 },
}

/// The event stream violated the trace contract; the whole replay is
/// abandoned.
#[derive(Debug, Clone, PartialEq, Eq)]
pub enum MalformedTraceError {
    /// A command-queue event (ring or execlist write) arrived before
    /// the device-info event that a decode session needs.
    DecodeEventBeforeDeviceInfo { engine: u16 },
    /// An event arrived after the stream was closed.
    EventAfterClose,
    /// The external trace reader reported corrupt chunk framing.
    CorruptFraming,
}

/// Either fatal error a single event can raise while being dispatched.
#[derive(Debug, Clone, PartialEq, Eq)]
pub enum ReplayError {
    Setup(SetupError),
    Malformed(MalformedTraceError),
}

} // verus!
