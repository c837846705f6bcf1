//! Mode selection over USB MIDI: the port shares the DAW's mode-selection
//! messages, but not its configuration or light traffic.

use vstd::prelude::*;
use crate::daw::protocol::{self, Command, CommandView, decode_spec};
use crate::device::Model;

verus! {

/// Whether a message selects a mode: the Performance, Layout and Live commands.
pub open spec fn selects_mode(model: Model, data: Seq<u8>) -> bool {
    match decode_spec(model, data) {
        Some(CommandView::Performance) | Some(CommandView::Layout(..)) | Some(
            CommandView::Live(..),
        ) => true,
        _ => false,
    }
}

/// Whether a SysEx message received on the USB MIDI port selects a mode.
pub fn is_selection(model: Model, data: &[u8]) -> (r: bool)
    ensures
        r == selects_mode(model, data@),
{
    match protocol::decode(model, data) {
        Some(Command::Performance) | Some(Command::Layout(..)) | Some(Command::Live(_)) => true,
        _ => false,
    }
}

} // verus!
