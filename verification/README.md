# lib

The DAW mode of a Launchpad firmware, verified with Verus: the Novation DAW
SysEx protocol, the session view, faders on the grid, and USB MIDI framing.

- `src/device.rs`: models, pad indices, and the indices sent on the wire.
- `src/midi.rs`: MIDI ports and events; USB MIDI packets, SysEx assembly.
- `src/modes.rs`: which messages select a mode on the USB MIDI port.
- `src/daw/profile.rs`, `src/daw/protocol.rs`: per-model facts; decoding.
- `src/daw/fader.rs`: faders and their glides.
- `src/daw/state.rs`: the DAW mode's state as values and what each input does.
- `src/daw.rs`: `DawApp`, whose operations append the MIDI messages and LED
  changes to carry out to an output list.
- `app/`: carries out those outputs on the hardware.
