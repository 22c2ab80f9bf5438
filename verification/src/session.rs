//! The decode session: device identity plus interpreted decode flags.
//!
//! A session is created once, when the trace's device-info event has
//! identified the device, and is immutable for the remainder of the
//! replay. The flags it carries are handed unchanged to the external
//! instruction decoder on every batch dispatch.

use vstd::prelude::*;

use crate::device::DeviceDescriptor;
use crate::options::CmdLine;

verus! {

/// The decode flags the external decoder is driven with.
#[derive(Debug, Clone, Copy, PartialEq, Eq, Structural)]
pub struct DecodeFlags {
    /// Colourise decoder output. Set unless `--color never` was given:
    /// `auto` and `always` both allow colour.
    pub in_color: bool,
    /// Decode instruction bodies, not just command headers. Set
    /// unless `--headers` was given.
    pub full: bool,
    /// Print instruction offsets. Set unless `--no-offsets` was given.
    pub offsets: bool,
}

/// The immutable per-replay decode session.
#[derive(Debug, Clone, Copy, PartialEq, Eq, Structural)]
pub struct DecodeSession {
    /// The traced device, as the device table resolved it.
    pub device: DeviceDescriptor,
    /// Decode flags derived from the command line.
    pub flags: DecodeFlags,
}

/// The decode flags a configuration denotes.
pub open spec fn flags_spec(c: CmdLine) -> DecodeFlags {
    DecodeFlags {
        in_color: c.color != Some(false),
        full: !c.headers,
        offsets: !c.no_offsets,
    }
}

/// Compute the decode flags of a configuration; every field is pinned
/// by `flags_spec`.
pub fn decode_flags(c: &CmdLine) -> (r: DecodeFlags)
    ensures
        r == flags_spec(*c),
{
    let in_color = match c.color {
        Some(false) => false,
        _ => true,
    };
    DecodeFlags { in_color, full: !c.headers, offsets: !c.no_offsets }
}

} // verus!
