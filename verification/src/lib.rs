//! Logic of the DAW mode of a Launchpad firmware: the Novation SysEx
//! protocol, the session view, faders, and USB MIDI framing.

pub mod daw;
pub mod device;
pub mod midi;
pub mod modes;
