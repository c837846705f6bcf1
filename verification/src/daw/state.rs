//! The state of the DAW mode as mathematical values, what it shows and sends,
//! and how each input changes it.

use vstd::prelude::*;
use crate::device::{Model, is_grid};
use crate::midi::{MidiEvent, MidiPort};
use crate::daw::fader::{Bank, BankView, Fader, idle_bank};
use crate::daw::profile::{self, Page, page_button};
use crate::daw::protocol::{
    CommandView, all_at_most, decode_legacy, decode_modern, decode_spec, faders_valid_spec,
    legacy_bulk_max, light_entry_count, payload, lemma_payload_is_data,
};

verus! {

/// A colour as red, green and blue.
pub type Rgb = (u8, u8, u8);

/// A pad of the session view as the DAW last set it: a base colour, and
/// optionally a colour to flash to or a pulse of the base colour.
#[derive(Clone, Copy, Debug)]
pub struct Light {
    pub base: Rgb,
    pub flash: Rgb,
    pub flashing: bool,
    pub pulsing: bool,
}

/// An unlit pad.
pub open spec fn dark() -> Light {
    Light { base: (0, 0, 0), flash: (0, 0, 0), flashing: false, pulsing: false }
}

impl Light {
    /// The light after a palette colour arrives on MIDI channel `channel`:
    /// channel 0 sets a static colour, 1 flashes to a colour, 2 pulses a
    /// colour; other channels change nothing.
    pub open spec fn painted(self, channel: u8, rgb: Rgb) -> Light {
        if channel == 0 {
            Light { base: rgb, ..dark() }
        } else if channel == 1 {
            Light { flash: rgb, flashing: true, ..self }
        } else if channel == 2 {
            Light { base: rgb, pulsing: true, flashing: false, ..self }
        } else {
            self
        }
    }

    pub fn off() -> (l: Light)
        ensures
            l == dark(),
    {
        Light { base: (0, 0, 0), flash: (0, 0, 0), flashing: false, pulsing: false }
    }

    /// Applies a palette colour received on `channel` (see `painted`).
    pub fn palette(&mut self, channel: u8, rgb: Rgb)
        ensures
            *final(self) == old(self).painted(channel, rgb),
    {
        if channel == 0 {
            *self = Light { base: rgb, flash: (0, 0, 0), flashing: false, pulsing: false };
        } else if channel == 1 {
            self.flash = rgb;
            self.flashing = true;
        } else if channel == 2 {
            self.base = rgb;
            self.pulsing = true;
            self.flashing = false;
        }
    }
}

/// The app that should take over the surface after a message.
#[derive(Clone, Copy, Debug, PartialEq, Eq, Structural)]
pub enum AppId {
    Daw,
    Performance,
    Programmer,
}

/// What the DAW mode asks of the hardware, in order.
#[derive(Debug, PartialEq, Eq)]
pub enum Output {
    /// A MIDI message to send to the DAW port.
    Midi(Vec<u8>),
    /// Turn every LED off.
    ClearLeds,
    /// Set an LED to a 0xRRGGBB colour.
    SetLed(u8, u32),
    /// Set an LED to a colour of the Novation palette.
    SetLedPalette(u8, u8),
    /// Set a session LED: base colour, optional flash colour, pulsing.
    SetDawLed(u8, Rgb, Option<Rgb>, bool),
}

pub enum OutputView {
    Midi(Seq<u8>),
    ClearLeds,
    SetLed(u8, u32),
    SetLedPalette(u8, u8),
    SetDawLed(u8, Rgb, Option<Rgb>, bool),
}

impl View for Output {
    type V = OutputView;

    open spec fn view(&self) -> OutputView {
        match self {
            Output::Midi(m) => OutputView::Midi(m@),
            Output::ClearLeds => OutputView::ClearLeds,
            Output::SetLed(i, c) => OutputView::SetLed(*i, *c),
            Output::SetLedPalette(i, c) => OutputView::SetLedPalette(*i, *c),
            Output::SetDawLed(i, b, f, p) => OutputView::SetDawLed(*i, *b, *f, *p),
        }
    }
}

/// The outputs of a list, as values.
pub open spec fn views(s: Seq<Output>) -> Seq<OutputView> {
    s.map_values(|o: Output| o@)
}

pub proof fn lemma_views_push(s: Seq<Output>, o: Output)
    ensures
        views(s.push(o)) == views(s).push(o@),
{
    assert(views(s.push(o)) =~= views(s).push(o@));
}

/// The complete state of the DAW mode.
pub struct DawView {
    /// A DAW has enabled its control of the device.
    pub enabled: bool,
    /// The DAW mode is the app on the surface.
    pub visible: bool,
    pub model: Model,
    pub page: Page,
    pub layout: u8,
    pub subpage: u8,
    /// The fader bank shown on the session page, if any.
    pub bank: Option<u8>,
    pub banks: Seq<BankView>,
    /// The session view's lights, by pad index.
    pub lights: Seq<Light>,
    /// The last value the DAW sent for each controller.
    pub cc_values: Seq<u8>,
    /// The pads whose press has been sent and not yet released.
    pub held: Seq<bool>,
    /// The palette colours of the Session button (active, inactive).
    pub session_colours: Seq<u8>,
    /// The RGB value of each palette colour.
    pub colours: Seq<Rgb>,
}

/// A fader that the DAW mode can hold: its controller and colour are 7-bit.
pub open spec fn fader_ok(f: Fader) -> bool {
    f.cc < 128 && f.colour < 128
}

pub open spec fn bank_ok(b: BankView) -> bool {
    b.faders.len() == 8 && forall|i: int| 0 <= i < 8 ==> #[trigger] fader_ok(b.faders[i])
}

/// A note-on or controller message for a pad, as the DAW port sends it.
pub open spec fn pad_message(model: Model, index: u8, value: u8) -> OutputView {
    OutputView::Midi(
        seq![
            if model.is_cc(index) {
                0xb0u8
            } else {
                0x90u8
            },
            model.wire_index(index),
            value,
        ],
    )
}

/// A DAW SysEx reply for the model: `F0 00 20 29 02 <product> <command>
/// <payload> F7`; models without a product byte send nothing.
pub open spec fn reply_message(model: Model, command: u8, payload: Seq<u8>) -> Seq<OutputView> {
    match model.product() {
        Some(product) => seq![
            OutputView::Midi(
                seq![0xf0u8, 0u8, 0x20u8, 0x29u8, 2u8, product, command] + payload + seq![0xf7u8],
            ),
        ],
        None => seq![],
    }
}

/// The controller status byte of fader messages: channel 5 on current
/// models, channel 1 on the earlier ones.
pub open spec fn fader_status(model: Model) -> u8 {
    if profile::modern(model) {
        0xb4
    } else {
        0xb0
    }
}

/// Whether a held pad is released when the view changes: page buttons, and
/// the X's button 98, stay held.
pub open spec fn released_on_view_change(model: Model, index: int) -> bool {
    page_button(model, index as u8) is None && !(model == Model::X && index == 98)
}

/// The LED of step `step` of fader `i` of a bank.
pub open spec fn fader_led(horizontal: bool, i: int, step: int) -> u8 {
    if horizontal {
        ((8 - i) * 10 + step + 1) as u8
    } else {
        ((step + 1) * 10 + i + 1) as u8
    }
}

/// A colour component dimmed to `brightness`/255.
pub open spec fn dim(c: u8, brightness: u8) -> u8 {
    (c as int * brightness as int / 255) as u8
}

/// The LEDs that draw fader `i` of a bank.
pub open spec fn fader_outputs(colours: Seq<Rgb>, horizontal: bool, i: int, f: Fader) -> Seq<OutputView> {
    let c = colours[f.colour as int];
    Seq::new(
        8,
        |step: int|
            {
                let b = f.step_brightness(step);
                OutputView::SetDawLed(
                    fader_led(horizontal, i, step),
                    (dim(c.0, b), dim(c.1, b), dim(c.2, b)),
                    None,
                    false,
                )
            },
    )
}

impl DawView {
    pub open spec fn wf(self) -> bool {
        &&& self.lights.len() == 128
        &&& self.cc_values.len() == 128
        &&& self.held.len() == 128
        &&& self.session_colours.len() == 2
        &&& self.colours.len() == 128
        &&& self.banks.len() == profile::banks(self.model)
        &&& forall|i: int| 0 <= i < self.banks.len() ==> #[trigger] bank_ok(self.banks[i])
        &&& (self.bank matches Some(b) ==> b < self.banks.len())
    }

    /// The LED output for one pad, if it is drawn: page buttons show which
    /// page is current; session pads show their lights, except under a fader
    /// bank.
    pub open spec fn render_index(self, index: u8) -> Seq<OutputView> {
        if !self.visible || !self.model.valid_index(index) {
            seq![]
        } else if let Some(page) = page_button(self.model, index) {
            if page == Page::Session && !self.enabled {
                seq![OutputView::SetLed(index, 0)]
            } else if page == Page::Session && self.session_colours[0] != 0 {
                seq![
                    OutputView::SetLedPalette(
                        index,
                        self.session_colours[if self.page == page {
                            0
                        } else {
                            1
                        }],
                    ),
                ]
            } else {
                seq![
                    OutputView::SetLed(
                        index,
                        if self.page == page {
                            0x80ff80
                        } else {
                            0x303030
                        },
                    ),
                ]
            }
        } else if (self.page == Page::Session && !(self.bank is Some && is_grid(index))) || (
        self.model == Model::X && index == 98) {
            let l = self.lights[index as int];
            seq![
                OutputView::SetDawLed(
                    self.model.led_index(index),
                    l.base,
                    if l.flashing {
                        Some(l.flash)
                    } else {
                        None
                    },
                    l.pulsing,
                ),
            ]
        } else {
            seq![]
        }
    }

    /// The outputs for pads 0..n.
    pub open spec fn render_pads(self, n: int) -> Seq<OutputView>
        decreases n,
    {
        if n <= 0 {
            seq![]
        } else {
            self.render_pads(n - 1) + self.render_index((n - 1) as u8)
        }
    }

    /// The outputs for faders 0..n of bank `b`.
    pub open spec fn render_bank(self, b: BankView, n: int) -> Seq<OutputView>
        decreases n,
    {
        if n <= 0 {
            seq![]
        } else {
            self.render_bank(b, n - 1) + fader_outputs(self.colours, b.horizontal, n - 1, b.faders[n - 1])
        }
    }

    /// The faders of the shown bank, when the DAW is enabled and visible.
    pub open spec fn render_faders(self) -> Seq<OutputView> {
        if !self.visible || !self.enabled {
            seq![]
        } else {
            match self.bank {
                Some(b) => self.render_bank(self.banks[b as int], 8),
                None => seq![],
            }
        }
    }

    /// Redraws the surface: clear, every pad, then the faders.
    pub open spec fn render(self) -> Seq<OutputView> {
        if !self.visible {
            seq![]
        } else {
            seq![OutputView::ClearLeds] + self.render_pads(128) + self.render_faders()
        }
    }

    /// The note-offs sent for held pads among 0..n that `all` or a view
    /// change releases.
    pub open spec fn release_outputs(self, n: int, all: bool) -> Seq<OutputView>
        decreases n,
    {
        if n <= 0 {
            seq![]
        } else {
            self.release_outputs(n - 1, all) + if self.held[n - 1] && (all
                || released_on_view_change(self.model, n - 1)) {
                seq![pad_message(self.model, (n - 1) as u8, 0)]
            } else {
                seq![]
            }
        }
    }

    /// The state after releasing held pads (all of them, or those that a
    /// view change releases).
    pub open spec fn released(self, all: bool) -> DawView {
        DawView {
            held: Seq::new(
                128,
                |i: int| self.held[i] && !(all || released_on_view_change(self.model, i)),
            ),
            ..self
        }
    }

    /// The state with every fader's glide stopped.
    pub open spec fn stopped(self) -> DawView {
        DawView { banks: Seq::new(self.banks.len(), |i: int| self.banks[i].stopped()), ..self }
    }
}

/// The state of a newly started DAW mode: disabled, hidden, on the
/// model's standalone page, with dark lights and idle faders.
pub open spec fn initial(model: Model, colours: Seq<Rgb>) -> DawView {
    DawView {
        enabled: false,
        visible: false,
        model,
        page: profile::standalone_page(model),
        layout: profile::standalone_layout(model),
        subpage: 0,
        bank: None,
        banks: Seq::new(profile::banks(model) as nat, |i: int| idle_bank()),
        lights: Seq::new(128, |i: int| dark()),
        cc_values: Seq::new(128, |i: int| 0u8),
        held: Seq::new(128, |i: int| false),
        session_colours: seq![0u8, 0u8],
        colours,
    }
}

/// The layout that selecting a page sets, by model.
pub open spec fn page_layout(model: Model, page: Page) -> u8 {
    if page == Page::Session {
        0
    } else if model == Model::ProMk3 && page == Page::Note {
        4
    } else if model == Model::ProMk3 && page == Page::Chord {
        2
    } else if model == Model::ProMk3 && page == Page::Custom {
        3
    } else if model == Model::ProMk3 && page == Page::Sequencer {
        7
    } else if model == Model::ProMk3 && page == Page::Projects {
        0x0d
    } else if page == Page::Note {
        1
    } else if page == Page::Custom || page == Page::Drums {
        4
    } else if page == Page::Keys {
        5
    } else if page == Page::User {
        6
    } else {
        0
    }
}

/// The payload of the reply to a fader query: bank 0's orientation, then
/// `index, bipolar, cc, colour` for each of its eight faders.
pub open spec fn fader_report(b: BankView) -> Seq<u8> {
    Seq::new(
        34,
        |k: int|
            if k == 0 {
                0u8
            } else if k == 1 {
                if b.horizontal {
                    1u8
                } else {
                    0u8
                }
            } else {
                let f = b.faders[(k - 2) / 4];
                let j = (k - 2) % 4;
                if j == 0 {
                    ((k - 2) / 4) as u8
                } else if j == 1 {
                    if f.bipolar {
                        1u8
                    } else {
                        0u8
                    }
                } else if j == 2 {
                    f.cc
                } else {
                    f.colour
                }
            },
    )
}

impl DawView {
    /// Releases every held pad.
    pub open spec fn release_all(self) -> (DawView, Seq<OutputView>) {
        (self.released(true), self.release_outputs(128, true))
    }

    /// Shows another page, layout, sub-page or fader bank: releases held
    /// pads other than page buttons, stops the faders, confirms the layout to
    /// a Pro Mk3's DAW, and redraws.  Showing the current view does nothing.
    pub open spec fn change_view(self, page: Page, layout: u8, subpage: u8, bank: Option<u8>) -> (
        DawView,
        Seq<OutputView>,
    ) {
        if self.page == page && self.layout == layout && self.subpage == subpage && self.bank
            == bank {
            (self, seq![])
        } else {
            let next = DawView { page, layout, subpage, bank, ..self.released(false).stopped() };
            let confirm = if self.model == Model::ProMk3 {
                reply_message(self.model, 0, seq![layout, subpage, 0u8])
            } else {
                seq![]
            };
            (next, self.release_outputs(128, false) + confirm + next.render())
        }
    }

    /// Shows a page in its default layout.
    pub open spec fn select_page(self, page: Page) -> (DawView, Seq<OutputView>) {
        self.change_view(page, page_layout(self.model, page), 0, None)
    }

    /// The state after the DAW disables its control: back to the initial
    /// state, except that the mode stays as visible as it was.
    pub open spec fn reset(self) -> DawView {
        DawView { visible: self.visible, ..initial(self.model, self.colours) }
    }

    /// The reply to a DAW query.
    pub open spec fn query(self, command: u8) -> Seq<OutputView> {
        if command == 0 && self.model == Model::ProMk3 {
            reply_message(self.model, 0, seq![self.layout, self.subpage, 0u8])
        } else if command == 0 {
            reply_message(self.model, 0, seq![self.layout])
        } else if command == 0x10 {
            reply_message(
                self.model,
                command,
                seq![
                    if self.enabled {
                        1u8
                    } else {
                        0u8
                    },
                ],
            )
        } else if command == 0x0e {
            reply_message(self.model, command, seq![0u8])
        } else if command == 0x14 {
            reply_message(self.model, command, self.session_colours)
        } else if command == 1 && profile::banks(self.model) > 0 {
            reply_message(self.model, 1, fader_report(self.banks[0]))
        } else {
            seq![]
        }
    }
}

/// `step` applied to `init` for entries 0, 1, ..., n - 1 in turn.
pub open spec fn fold<T>(init: T, n: int, step: spec_fn(T, int) -> T) -> T
    decreases n,
{
    if n <= 0 {
        init
    } else {
        step(fold(init, n - 1, step), n - 1)
    }
}

/// The pad a legacy light message addresses: the Mk2 numbers its top row
/// 104..=111.
pub open spec fn legacy_index(model: Model, index: u8) -> Option<u8> {
    let i = if model == Model::Mk2 && 104 <= index <= 111 {
        (index - 13) as u8
    } else {
        index
    };
    if model.valid_index(i) {
        Some(i)
    } else {
        None
    }
}

/// The palette channel of a legacy palette light command: 0x23 flashes,
/// 0x28 pulses, others set.
pub open spec fn legacy_channel(cmd: u8) -> u8 {
    if cmd == 0x23 {
        1
    } else if cmd == 0x28 {
        2
    } else {
        0
    }
}

/// A light with a static RGB colour.
pub open spec fn rgb_light(rgb: Rgb) -> Light {
    Light { base: rgb, ..dark() }
}

/// The pad that RGB triple `n` of a legacy bulk light message addresses:
/// rows of 8 over the grid, or rows of 9 (Mk2) or 10 (Pro) over the
/// whole surface, the Mk2's ninth row being its top row.
pub open spec fn bulk_index(model: Model, grid: u8, n: int) -> Option<u8> {
    let width: int = if grid == 1 {
        8
    } else if model == Model::Mk2 {
        9
    } else {
        10
    };
    let row = n / width;
    let col = n % width;
    if grid == 1 {
        Some(((row + 1) * 10 + col + 1) as u8)
    } else if model == Model::Mk2 {
        if row < 8 {
            Some(((row + 1) * 10 + col + 1) as u8)
        } else if col < 8 {
            Some((91 + col) as u8)
        } else {
            None
        }
    } else {
        Some((row * 10 + col) as u8)
    }
}

/// The pad at a row and column of a legacy row or column message.
pub open spec fn line_index(model: Model, row: int, col: int) -> Option<u8> {
    if model == Model::Mk2 {
        if row < 8 && col <= 8 {
            Some(((row + 1) * 10 + col + 1) as u8)
        } else if row == 8 && col < 8 {
            Some((91 + col) as u8)
        } else {
            None
        }
    } else {
        Some((row * 10 + col) as u8)
    }
}

/// A current-generation light entry (`kind, index, colour...`) applied to
/// the lights, if the index is a pad of the model.
pub open spec fn light_entry(model: Model, colours: Seq<Rgb>, lights: Seq<Light>, e: Seq<u8>) -> Seq<Light> {
    let index = e[1];
    if model.valid_index(index) {
        let l = lights[index as int];
        let next = if e[0] == 0 {
            l.painted(0, colours[e[2] as int])
        } else if e[0] == 1 {
            l.painted(0, colours[e[3] as int]).painted(1, colours[e[2] as int])
        } else if e[0] == 2 {
            l.painted(2, colours[e[2] as int])
        } else {
            rgb_light(((e[2] / 2) as u8, (e[3] / 2) as u8, (e[4] / 2) as u8))
        };
        lights.update(index as int, next)
    } else {
        lights
    }
}

/// The entries of a current-generation light message applied in order.
pub open spec fn lights_apply(model: Model, colours: Seq<Rgb>, lights: Seq<Light>, p: Seq<u8>) -> Seq<Light>
    decreases p.len(),
{
    if p.len() == 0 {
        lights
    } else {
        let len: int = if p[0] == 0 || p[0] == 2 {
            3
        } else if p[0] == 1 {
            4
        } else {
            5
        };
        if p.len() < len {
            lights
        } else {
            lights_apply(
                model,
                colours,
                light_entry(model, colours, lights, p.subrange(0, len)),
                p.subrange(len, p.len() as int),
            )
        }
    }
}

/// A fader as the DAW configures it, its glide stopped.
pub open spec fn configured(f: Fader, bipolar: bool, cc: u8, colour: u8, value: u8) -> Fader {
    Fader { bipolar, cc, colour, value, ..f.stopped() }
}

/// The bytes per entry of a legacy light command: 4 for RGB, 2 otherwise.
pub open spec fn legacy_entry_width(cmd: u8) -> int {
    if cmd == 0x0b {
        4
    } else {
        2
    }
}

/// Entry `k` of a legacy palette (`index, colour`) or RGB (`index, r, g,
/// b`) light command, applied to the lights.
pub open spec fn legacy_entry_step(model: Model, colours: Seq<Rgb>, cmd: u8, p: Seq<u8>) -> spec_fn(Seq<Light>, int) -> Seq<Light> {
    |lights: Seq<Light>, k: int|
        {
            let w = legacy_entry_width(cmd);
            match legacy_index(model, p[w * k]) {
                Some(i) => lights.update(
                    i as int,
                    if cmd != 0x0b {
                        lights[i as int].painted(legacy_channel(cmd), colours[p[w * k + 1] as int])
                    } else {
                        rgb_light((p[w * k + 1], p[w * k + 2], p[w * k + 3]))
                    },
                ),
                None => lights,
            }
        }
}

/// RGB triple `n` of a legacy bulk light command (grid flag `p[0]`),
/// applied to the lights; the logo (99) is left alone.
pub open spec fn bulk_step(model: Model, p: Seq<u8>) -> spec_fn(Seq<Light>, int) -> Seq<Light> {
    |lights: Seq<Light>, n: int|
        match bulk_index(model, p[0], n) {
            Some(i) => if i != 99 && model.valid_index(i) {
                lights.update(i as int, rgb_light((p[1 + 3 * n], p[2 + 3 * n], p[3 + 3 * n])))
            } else {
                lights
            },
            None => lights,
        }
}

/// Colour `n` of a legacy column (0x0c, `p[0]` the column) or row (0x0d,
/// `p[0]` the row) light command, applied to the lights.
pub open spec fn line_step(model: Model, colours: Seq<Rgb>, cmd: u8, p: Seq<u8>) -> spec_fn(Seq<Light>, int) -> Seq<Light> {
    |lights: Seq<Light>, n: int|
        {
            let (row, col) = if cmd == 0x0c {
                (n, p[0] as int)
            } else {
                (p[0] as int, n)
            };
            match line_index(model, row, col) {
                Some(i) => if model.valid_index(i) {
                    lights.update(i as int, lights[i as int].painted(0, colours[p[1 + n] as int]))
                } else {
                    lights
                },
                None => lights,
            }
        }
}

/// Entry `k` (`index, bipolar, cc, colour`) of a Faders command applied to
/// the bank's faders.
pub open spec fn fader_entry_step(e: Seq<u8>, cc_values: Seq<u8>) -> spec_fn(Seq<Fader>, int) -> Seq<Fader> {
    |faders: Seq<Fader>, k: int|
        faders.update(
            e[4 * k] as int,
            configured(
                faders[e[4 * k] as int],
                e[4 * k + 1] != 0,
                e[4 * k + 2],
                e[4 * k + 3],
                cc_values[e[4 * k + 2] as int],
            ),
        )
}

/// Entry `k` (`index, bipolar, colour, value`) of a legacy Faders command
/// applied to the bank's faders.
pub open spec fn legacy_fader_entry_step(e: Seq<u8>) -> spec_fn(Seq<Fader>, int) -> Seq<Fader> {
    |faders: Seq<Fader>, k: int|
        faders.update(
            e[4 * k] as int,
            configured(
                faders[e[4 * k] as int],
                e[4 * k + 1] != 0,
                (21 + e[4 * k]) as u8,
                e[4 * k + 2],
                e[4 * k + 3],
            ),
        )
}

impl DawView {
    /// The lights after a legacy light command (`cmd`, payload `p`).
    pub open spec fn legacy_lights(self, cmd: u8, p: Seq<u8>) -> Seq<Light> {
        if cmd == 0x0a || cmd == 0x0b || cmd == 0x23 || cmd == 0x28 {
            fold(
                self.lights,
                p.len() as int / legacy_entry_width(cmd),
                legacy_entry_step(self.model, self.colours, cmd, p),
            )
        } else if cmd == 0x0e {
            Seq::new(
                128,
                |i: int|
                    if i < 99 {
                        rgb_light(self.colours[p[0] as int])
                    } else {
                        self.lights[i]
                    },
            )
        } else if cmd == 0x0f {
            fold(self.lights, (p.len() - 1) / 3, bulk_step(self.model, p))
        } else if cmd == 0x0c || cmd == 0x0d {
            fold(self.lights, p.len() - 1, line_step(self.model, self.colours, cmd, p))
        } else {
            self.lights
        }
    }

    /// The bank after a Faders command: a change of orientation stops the
    /// bank, then each entry `index, bipolar, cc, colour` configures a fader,
    /// which takes the last value the DAW sent on its controller.
    pub open spec fn faders_command(self, bank: u8, horizontal: bool, e: Seq<u8>) -> BankView {
        let b0 = self.banks[bank as int];
        let b1 = if b0.horizontal != horizontal {
            b0.stopped()
        } else {
            b0
        };
        BankView {
            horizontal,
            faders: fold(b1.faders, e.len() as int / 4, fader_entry_step(e, self.cc_values)),
        }
    }

    /// The faders of bank 0 after a legacy Faders command: each entry
    /// `index, bipolar, colour, value` configures a fader on controller
    /// 21 + index.
    pub open spec fn legacy_faders_command(self, e: Seq<u8>) -> Seq<Fader> {
        fold(self.banks[0].faders, e.len() as int / 4, legacy_fader_entry_step(e))
    }

    /// Whether a legacy Faders command is ignored: no bank is shown, or on the
    /// Mk2 a fader's polarity does not match the layout (bipolar in layout 5).
    pub open spec fn legacy_faders_ignored(self, e: Seq<u8>) -> bool {
        ||| self.bank is None
        ||| (self.model == Model::Mk2 && exists|k: int|
            0 <= k < e.len() / 4 && (#[trigger] e[4 * k + 1] != 0) != (self.layout == 5))
        ||| self.banks.len() == 0
    }

    /// The lights after a Clear command for notes and/or controllers.
    pub open spec fn cleared(self, notes: bool, cc: bool) -> Seq<Light> {
        Seq::new(
            128,
            |i: int|
                if (if self.model.is_cc(i as u8) {
                    cc
                } else {
                    notes
                }) {
                    dark()
                } else {
                    self.lights[i]
                },
        )
    }
}

/// The page and fader bank that a DAW layout shows.
pub open spec fn layout_view(model: Model, layout: u8, subpage: u8) -> (Page, Option<u8>) {
    if model == Model::ProMk3 && layout == 1 {
        (Page::Session, Some(subpage))
    } else if (model == Model::X || model == Model::MiniMk3) && layout == 0x0d {
        (Page::Session, Some(0u8))
    } else if (model == Model::Mk2 && (layout == 4 || layout == 5)) || (model == Model::Pro
        && layout == 2) {
        (Page::Session, Some(0u8))
    } else if layout == 0 {
        (Page::Session, None)
    } else if model == Model::ProMk3 && layout == 2 {
        (Page::Chord, None)
    } else if model == Model::ProMk3 && layout == 3 {
        (Page::Custom, None)
    } else if (model == Model::ProMk3 && layout == 4) || (model == Model::X && layout == 1) {
        (Page::Note, None)
    } else if model == Model::ProMk3 && layout == 7 {
        (Page::Sequencer, None)
    } else if model == Model::ProMk3 && layout == 0x0d {
        (Page::Projects, None)
    } else if model == Model::MiniMk3 && layout == 4 {
        (Page::Drums, None)
    } else if model == Model::MiniMk3 && layout == 5 {
        (Page::Keys, None)
    } else if model == Model::MiniMk3 && layout == 6 {
        (Page::User, None)
    } else {
        (Page::Custom, None)
    }
}

/// The layouts that hand the surface to the Programmer mode.
pub open spec fn programmer_layout(model: Model, layout: u8) -> bool {
    (model == Model::ProMk3 && layout == 0x11) || (profile::modern(model) && layout == 0x7f) || (
    model == Model::Pro && layout == 3)
}

impl DawView {
    /// Whether a Layout command is ignored: a current-generation model with
    /// no DAW enabled ignores the session and fader layouts.
    pub open spec fn layout_ignored(self, layout: u8) -> bool {
        profile::modern(self.model) && !self.enabled && (layout == 0 || (self.model
            == Model::ProMk3 && layout == 1) || (self.model != Model::ProMk3 && layout == 0x0d))
    }

    /// The state before a Layout command changes the view: an earlier model
    /// counts as enabled, and the Pro's fader layout darkens its faders.
    pub open spec fn layout_prepared(self, layout: u8) -> DawView {
        let v1 = if !profile::modern(self.model) {
            DawView { enabled: true, ..self }
        } else {
            self
        };
        if self.model == Model::Pro && layout == 2 && v1.banks.len() > 0 {
            let b = v1.banks[0];
            DawView {
                banks: v1.banks.update(
                    0,
                    BankView {
                        faders: Seq::new(b.faders.len(), |i: int| Fader { colour: 0, ..b.faders[i] }),
                        ..b
                    },
                ),
                ..v1
            }
        } else {
            v1
        }
    }

    /// A command's effect: the state, the outputs, the app to switch to, and
    /// whether the surface is redrawn afterwards.
    pub open spec fn command_effect(self, c: CommandView) -> (DawView, Seq<OutputView>, Option<AppId>, bool) {
        match c {
            CommandView::Enable(true) => (DawView { enabled: true, ..self }, seq![], Some(AppId::Daw), true),
            CommandView::Enable(false) => (
                self.reset(),
                self.release_outputs(128, true),
                Some(AppId::Daw),
                true,
            ),
            CommandView::Query(cmd) => (self, self.query(cmd), None, false),
            CommandView::Performance => (
                self.released(true).stopped(),
                self.release_outputs(128, true),
                Some(AppId::Performance),
                true,
            ),
            CommandView::Live(false) => (
                self.released(true).stopped(),
                self.release_outputs(128, true),
                Some(AppId::Programmer),
                true,
            ),
            CommandView::Live(true) => {
                let (v, o) = self.select_page(
                    if self.enabled {
                        Page::Session
                    } else {
                        profile::standalone_page(self.model)
                    },
                );
                (v, o, Some(AppId::Daw), true)
            },
            CommandView::Layout(layout, subpage) => if programmer_layout(self.model, layout) {
                (
                    self.released(true).stopped(),
                    self.release_outputs(128, true),
                    Some(AppId::Programmer),
                    true,
                )
            } else if self.layout_ignored(layout) {
                (self, seq![], None, false)
            } else {
                let (page, bank) = layout_view(self.model, layout, subpage);
                let (v, o) = self.layout_prepared(layout).change_view(page, layout, subpage, bank);
                (v, o, Some(AppId::Daw), true)
            },
            CommandView::Faders(bank, horizontal, e) => (
                DawView {
                    banks: self.banks.update(bank as int, self.faders_command(bank, horizontal, e)),
                    ..self
                },
                seq![],
                None,
                true,
            ),
            CommandView::LegacyFaders(e) => if self.legacy_faders_ignored(e) {
                (self, seq![], None, false)
            } else {
                (
                    DawView {
                        banks: self.banks.update(
                            0,
                            BankView { faders: self.legacy_faders_command(e), ..self.banks[0] },
                        ),
                        ..self
                    },
                    seq![],
                    None,
                    true,
                )
            },
            CommandView::Stop(bank) => (
                DawView {
                    banks: self.banks.update(bank as int, self.banks[bank as int].stopped()),
                    ..self
                },
                seq![],
                None,
                true,
            ),
            CommandView::SessionColours(a, b) => (
                DawView { session_colours: seq![a, b], ..self },
                seq![],
                None,
                true,
            ),
            CommandView::Clear(notes, cc) => (
                DawView { lights: self.cleared(notes, cc), ..self },
                seq![],
                None,
                true,
            ),
            CommandView::Lights(p) => (
                DawView { lights: lights_apply(self.model, self.colours, self.lights, p), ..self },
                seq![],
                None,
                true,
            ),
            CommandView::LegacyLights(cmd, p) => (
                DawView { lights: self.legacy_lights(cmd, p), ..self },
                seq![],
                None,
                true,
            ),
        }
    }

    /// A SysEx message from the DAW: whether it was a DAW command, the app
    /// to switch to, the new state, and the outputs (the command's own, then
    /// a redraw unless the command was a query or was ignored).
    pub open spec fn receive_sysex(self, data: Seq<u8>) -> (DawView, Seq<OutputView>, bool, Option<AppId>) {
        match decode_spec(self.model, data) {
            None => (self, seq![], false, None),
            Some(c) => {
                let (v, out, switch, render) = self.command_effect(c);
                (
                    v,
                    if render {
                        out + v.render()
                    } else {
                        out
                    },
                    true,
                    switch,
                )
            },
        }
    }

    /// A SysEx message while `current` has the surface: under the
    /// Programmer mode, the DAW's mode queries are answered for it (live
    /// mode off, programmer layout); everything else is a DAW message.
    pub open spec fn receive_sysex_for_app(self, data: Seq<u8>, current: AppId) -> (DawView, Seq<OutputView>, bool, Option<AppId>) {
        if current == AppId::Programmer && (decode_spec(self.model, data) matches Some(
            CommandView::Query(q),
        ) && q == 0x0e) {
            (self, reply_message(self.model, 0x0e, seq![1u8]), true, None)
        } else if current == AppId::Programmer && (decode_spec(self.model, data) matches Some(
            CommandView::Query(q),
        ) && q == 0) {
            (
                self,
                reply_message(
                    self.model,
                    0,
                    if self.model == Model::ProMk3 {
                        seq![0x11u8, 0u8, 0u8]
                    } else {
                        seq![0x7fu8]
                    },
                ),
                true,
                None,
            )
        } else {
            self.receive_sysex(data)
        }
    }
}

/// What a legacy light command's payload has been checked to hold by
/// decoding: 7-bit bytes where palette colours are looked up, and the sizes
/// each command allows.
pub open spec fn legacy_lights_payload(model: Model, cmd: u8, p: Seq<u8>) -> bool {
    &&& (cmd == 0x0a || cmd == 0x23 || cmd == 0x28 || cmd == 0x0e || cmd == 0x0c || cmd == 0x0d)
        ==> all_at_most(p, 127)
    &&& cmd == 0x0e ==> p.len() >= 1
    &&& cmd == 0x0f ==> p.len() >= 1 && p[0] <= 1 && p.len() - 1 <= legacy_bulk_max(model, p[0])
    &&& (cmd == 0x0c || cmd == 0x0d) ==> p.len() >= 2 && p[0] <= 9 && p.len() - 1 <= 10
}

/// What the DAW mode relies on of a command: the checks that decoding made.
pub open spec fn command_ok(model: Model, c: CommandView) -> bool {
    match c {
        CommandView::Faders(bank, _, e) => bank < profile::banks(model) && faders_valid_spec(e)
            && all_at_most(e, 127),
        CommandView::LegacyFaders(e) => faders_valid_spec(e) && all_at_most(e, 127),
        CommandView::Stop(bank) => bank < profile::banks(model),
        CommandView::Lights(p) => light_entry_count(p) is Some && all_at_most(p, 127),
        CommandView::LegacyLights(cmd, p) => legacy_lights_payload(model, cmd, p),
        CommandView::Layout(layout, subpage) => layout_view(model, layout, subpage).1 matches Some(
            b,
        ) ==> b < profile::banks(model),
        _ => true,
    }
}

proof fn lemma_modern_command_ok(model: Model, cmd: u8, p: Seq<u8>)
    requires
        profile::modern(model),
        decode_modern(model, cmd, p) is Some,
        all_at_most(payload(decode_modern(model, cmd, p).unwrap()), 127),
    ensures
        command_ok(model, decode_modern(model, cmd, p).unwrap()),
{
}

proof fn lemma_legacy_command_ok(model: Model, cmd: u8, p: Seq<u8>)
    requires
        !profile::modern(model),
        decode_legacy(model, cmd, p) is Some,
        all_at_most(payload(decode_legacy(model, cmd, p).unwrap()), 127),
    ensures
        command_ok(model, decode_legacy(model, cmd, p).unwrap()),
{
}

/// Every command that decoding yields passes the checks the DAW mode relies on.
pub proof fn lemma_decoded_command_ok(model: Model, data: Seq<u8>)
    requires
        decode_spec(model, data) is Some,
    ensures
        command_ok(model, decode_spec(model, data).unwrap()),
{
    lemma_payload_is_data(model, data);
    let cmd = data[6];
    let p = data.subrange(7, data.len() - 1);
    if profile::modern(model) {
        lemma_modern_command_ok(model, cmd, p);
    } else {
        lemma_legacy_command_ok(model, cmd, p);
    }
}

/// A pad pressed or released on the surface, with its velocity.
#[derive(Clone, Copy, Debug, PartialEq, Eq, Structural)]
pub struct SurfaceEvent {
    pub index: u8,
    pub pressed: bool,
    pub value: u8,
}

/// Pressure on a held pad.
#[derive(Clone, Copy, Debug, PartialEq, Eq, Structural)]
pub struct AftertouchEvent {
    pub index: u8,
    pub value: u8,
}

/// A fader after the DAW sends its controller on `channel`: channel 5 sets
/// its colour (none stops it), other channels set its value and stop it,
/// except that on the Pro a gliding fader keeps gliding.
pub open spec fn fader_on_cc(model: Model, f: Fader, channel: u8, value: u8) -> Fader {
    if channel == 5 {
        if value == 0 {
            Fader { colour: value, ..f }.stopped()
        } else {
            Fader { colour: value, ..f }
        }
    } else if model != Model::Pro || !f.moving() {
        Fader { value, ..f.stopped() }
    } else {
        f
    }
}

/// The velocity sent for a pressed note pad: full when velocity
/// sensitivity is off (`curved` is None), else the curved velocity clamped
/// to 1..=127.
pub open spec fn note_velocity(curved: Option<u8>) -> u8 {
    match curved {
        None => 127,
        Some(v) => if v < 1 {
            1
        } else if v > 127 {
            127
        } else {
            v
        },
    }
}

/// A fader message: the fader's controller and value.
pub open spec fn fader_message(model: Model, f: Fader) -> OutputView {
    OutputView::Midi(seq![fader_status(model), f.cc, f.value])
}

/// The fader and step that a grid pad addresses in a bank.
pub open spec fn fader_step(horizontal: bool, index: u8) -> (int, int) {
    if horizontal {
        (8 - index / 10, index % 10 - 1)
    } else {
        (index % 10 - 1, index / 10 - 1)
    }
}

impl DawView {
    /// Whether a MIDI event from the DAW is a fader controller: channels 5
    /// and 6 on current models, controllers 21..=28 on channel 1 on earlier
    /// ones while a bank is shown.
    pub open spec fn is_fader_cc(self, event: MidiEvent) -> bool {
        let channel = event.status % 16;
        let kind = event.status / 16 * 16;
        kind == 0xb0 && ((profile::modern(self.model) && (channel == 4 || channel == 5)) || (
        !profile::modern(self.model) && self.bank is Some && channel == 0 && 21 <= event.data1
            <= 28))
    }

    /// The banks after the DAW sends `value` on fader controller `cc` on
    /// `channel`: every fader on that controller takes it.
    pub open spec fn banks_on_cc(self, channel: u8, cc: u8, value: u8) -> Seq<BankView> {
        let banks = self.banks;
        Seq::new(
            banks.len(),
            |b: int|
                BankView {
                    faders: Seq::new(
                        banks[b].faders.len(),
                        |i: int|
                            if banks[b].faders[i].cc == cc {
                                fader_on_cc(self.model, banks[b].faders[i], channel, value)
                            } else {
                                banks[b].faders[i]
                            },
                    ),
                    ..banks[b]
                },
        )
    }

    /// A short MIDI message from the DAW: fader controllers update the
    /// faders on that controller and redraw the shown bank; note-on, note-off
    /// and controller messages on channels 1 to 3 light a pad and redraw it.
    pub open spec fn receive_midi(self, event: MidiEvent) -> (DawView, Seq<OutputView>) {
        let channel = (event.status % 16) as u8;
        let kind = event.status / 16 * 16;
        if event.port != MidiPort::Daw || event.data1 > 127 || event.data2 > 127 {
            (self, seq![])
        } else if self.is_fader_cc(event) {
            let v = DawView {
                cc_values: if channel != 5 {
                    self.cc_values.update(event.data1 as int, event.data2)
                } else {
                    self.cc_values
                },
                banks: self.banks_on_cc(channel, event.data1, event.data2),
                ..self
            };
            (v, v.render_faders())
        } else if channel > 2 || !(kind == 0x80 || kind == 0x90 || kind == 0xb0) {
            (self, seq![])
        } else {
            match self.model.physical_index(event.data1, kind == 0xb0) {
                None => (self, seq![]),
                Some(i) => {
                    let colour = if kind == 0x80 {
                        0
                    } else {
                        event.data2
                    };
                    let v = DawView {
                        lights: self.lights.update(
                            i as int,
                            self.lights[i as int].painted(channel, self.colours[colour as int]),
                        ),
                        ..self
                    };
                    (v, v.render_index(i))
                },
            }
        }
    }

    /// The mode takes the surface: an earlier model counts as enabled; the
    /// surface is redrawn.
    pub open spec fn enter(self) -> (DawView, Seq<OutputView>) {
        let v = DawView {
            enabled: if !profile::modern(self.model) {
                true
            } else {
                self.enabled
            },
            visible: true,
            ..self
        };
        (v, v.render())
    }

    /// The mode leaves the surface: held pads are released and faders stop.
    pub open spec fn exit(self) -> (DawView, Seq<OutputView>) {
        (DawView { visible: false, ..self.released(true).stopped() }, self.release_outputs(128, true))
    }

    /// A press or release on the surface.  `curved` is the velocity curve's
    /// output for the press when velocity sensitivity is on.
    pub open spec fn surface(self, event: SurfaceEvent, curved: Option<u8>) -> (DawView, Seq<OutputView>) {
        let index = event.index;
        if !self.model.valid_index(index) {
            (self, seq![])
        } else if !event.pressed {
            if self.held[index as int] {
                (
                    DawView { held: self.held.update(index as int, false), ..self },
                    seq![pad_message(self.model, index, 0)],
                )
            } else {
                (self, seq![])
            }
        } else if self.held[index as int] {
            (self, seq![])
        } else if let Some(page) = page_button(self.model, index) {
            if page == Page::Session && !self.enabled {
                (self, seq![])
            } else {
                let v = DawView { held: self.held.update(index as int, true), ..self };
                let o = seq![pad_message(self.model, index, 127)];
                if self.page != page {
                    let (w, o2) = v.select_page(page);
                    (w, o + o2)
                } else {
                    (v, o)
                }
            }
        } else if !self.enabled {
            (self, seq![])
        } else if self.page != Page::Session && !(self.model == Model::X && index == 98) {
            (self, seq![])
        } else if self.bank is Some && is_grid(index) {
            let b = self.bank.unwrap() as int;
            let bank = self.banks[b];
            let (i, step) = fader_step(bank.horizontal, index);
            let (f, sent) = bank.faders[i].pressed(step, event.value);
            (
                DawView {
                    banks: self.banks.update(b, BankView { faders: bank.faders.update(i, f), ..bank }),
                    ..self
                },
                if sent {
                    seq![fader_message(self.model, f)]
                } else {
                    seq![]
                },
            )
        } else {
            let value = if self.model.is_cc(index) {
                127
            } else {
                note_velocity(curved)
            };
            (
                DawView { held: self.held.update(index as int, true), ..self },
                seq![pad_message(self.model, index, value)],
            )
        }
    }

    /// Pressure on a held grid pad of the session page without faders:
    /// polyphonic (`mode` 1) or channel (`mode` 2) aftertouch.
    pub open spec fn aftertouch(self, event: AftertouchEvent, mode: u8) -> Seq<OutputView> {
        let value: u8 = if event.value > 127 {
            127
        } else {
            event.value
        };
        if self.page != Page::Session || self.bank is Some || !is_grid(event.index)
            || !self.held[event.index as int] {
            seq![]
        } else if mode == 1 {
            seq![OutputView::Midi(seq![0xa0u8, event.index, value])]
        } else if mode == 2 {
            seq![OutputView::Midi(seq![0xd0u8, value])]
        } else {
            seq![]
        }
    }

    /// Faders 0..n of bank `b` after one tick each: a changed value is sent
    /// and remembered as the controller's value; a gliding fader is redrawn
    /// on its animation frames.
    pub open spec fn tick_faders(self, b: int, n: int) -> (DawView, Seq<OutputView>)
        decreases n,
    {
        if n <= 0 {
            (self, seq![])
        } else {
            let (w, o) = self.tick_faders(b, n - 1);
            let bank = w.banks[b];
            let f = bank.faders[n - 1];
            let (g, changed) = f.ticked();
            let next = DawView {
                banks: w.banks.update(b, BankView { faders: bank.faders.update(n - 1, g), ..bank }),
                cc_values: if changed {
                    w.cc_values.update(g.cc as int, g.value)
                } else {
                    w.cc_values
                },
                ..w
            };
            let sent = if changed {
                seq![fader_message(self.model, g)]
            } else {
                seq![]
            };
            let drawn = if f.moving() && g.animation_frame() {
                fader_outputs(self.colours, bank.horizontal, n - 1, g)
            } else {
                seq![]
            };
            (next, o + sent + drawn)
        }
    }

    /// A tick of the animation clock: the faders of the shown bank glide.
    pub open spec fn tick(self) -> (DawView, Seq<OutputView>) {
        if !self.visible {
            (self, seq![])
        } else {
            match self.bank {
                None => (self, seq![]),
                Some(b) => self.tick_faders(b as int, 8),
            }
        }
    }
}

/// A hidden DAW mode draws nothing: no redraw, no pad, no fader, no
/// animation frame.
pub proof fn lemma_hidden_draws_nothing(v: DawView)
    requires
        !v.visible,
    ensures
        v.render() == Seq::<OutputView>::empty(),
        v.render_faders() == Seq::<OutputView>::empty(),
        forall|i: u8| #[trigger] v.render_index(i) == Seq::<OutputView>::empty(),
        v.tick().1 == Seq::<OutputView>::empty(),
{
}

/// Showing the view that is already shown changes nothing and sends nothing.
pub proof fn lemma_current_view_unchanged(v: DawView)
    ensures
        v.change_view(v.page, v.layout, v.subpage, v.bank) == (v, Seq::<OutputView>::empty()),
{
}

proof fn lemma_release_outputs(v: DawView, n: int, all: bool)
    requires
        v.wf(),
        0 <= n <= 128,
    ensures
        forall|k: int|
            0 <= k < v.release_outputs(n, all).len() ==> exists|i: int|
                0 <= i < n && v.held[i] && (all || released_on_view_change(v.model, i))
                    && #[trigger] v.release_outputs(n, all)[k] == pad_message(v.model, i as u8, 0),
        forall|i: int|
            0 <= i < n && v.held[i] && (all || released_on_view_change(v.model, i)) ==> v.release_outputs(
                n,
                all,
            ).contains(#[trigger] pad_message(v.model, i as u8, 0)),
    decreases n,
{
    if n > 0 {
        lemma_release_outputs(v, n - 1, all);
        let prev = v.release_outputs(n - 1, all);
        let cur = v.release_outputs(n, all);
        assert forall|k: int| 0 <= k < cur.len() implies exists|i: int|
            0 <= i < n && v.held[i] && (all || released_on_view_change(v.model, i))
                && #[trigger] cur[k] == pad_message(v.model, i as u8, 0) by {
            if k < prev.len() {
                assert(cur[k] == prev[k]);
            } else {
                assert(cur[k] == pad_message(v.model, (n - 1) as u8, 0));
            }
        }
        assert forall|i: int|
            0 <= i < n && v.held[i] && (all || released_on_view_change(v.model, i)) implies cur.contains(
            #[trigger] pad_message(v.model, i as u8, 0),
        ) by {
            if i < n - 1 {
                let k = choose|k: int| 0 <= k < prev.len() && prev[k] == pad_message(v.model, i as u8, 0);
                assert(cur[k] == prev[k]);
            } else {
                assert(cur[prev.len() as int] == pad_message(v.model, i as u8, 0));
            }
        }
    }
}

/// Leaving the surface releases exactly the held pads: every output is a
/// note-off (or controller 0) for a pad that was held, every held pad gets
/// one, and no pad stays held.
pub proof fn lemma_exit_releases_held(v: DawView)
    requires
        v.wf(),
    ensures
        forall|i: int| 0 <= i < 128 ==> !(#[trigger] v.exit().0.held[i]),
        !v.exit().0.visible,
        forall|k: int|
            0 <= k < v.exit().1.len() ==> exists|i: int|
                0 <= i < 128 && v.held[i] && #[trigger] v.exit().1[k] == pad_message(
                    v.model,
                    i as u8,
                    0,
                ),
        forall|i: int|
            0 <= i < 128 && v.held[i] ==> v.exit().1.contains(
                #[trigger] pad_message(v.model, i as u8, 0),
            ),
{
    lemma_release_outputs(v, 128, true);
}

/// A DAW that disables its control returns the mode to its initial state
/// (keeping only whether it is on the surface), after releasing held pads.
pub proof fn lemma_disable_restores_initial(v: DawView, data: Seq<u8>)
    requires
        decode_spec(v.model, data) matches Some(CommandView::Enable(enable)) && !enable,
    ensures
        v.receive_sysex(data).0 == (DawView { visible: v.visible, ..initial(v.model, v.colours) }),
        v.receive_sysex(data).3 == Some(AppId::Daw),
{
}

/// The legacy light messages address a pad by the number it is sent with.
pub proof fn lemma_legacy_index_inverts_wire_index(model: Model, index: u8)
    requires
        model.valid_index(index),
    ensures
        legacy_index(model, model.wire_index(index)) == Some(index),
{
}

/// Releasing a pad undoes pressing it: a press of a session pad that is not
/// held sends its note (or controller) and holds it; the release that
/// follows sends its note-off and leaves the state as it was.
pub proof fn lemma_release_undoes_press(
    v: DawView,
    index: u8,
    velocity: u8,
    curved: Option<u8>,
    after: u8,
)
    requires
        v.wf(),
        v.model.valid_index(index),
        !v.held[index as int],
        page_button(v.model, index) is None,
        v.enabled,
        v.page == Page::Session || (v.model == Model::X && index == 98),
        !(v.bank is Some && is_grid(index)),
    ensures
        ({
            let (w, pressed) = v.surface(SurfaceEvent { index, pressed: true, value: velocity }, curved);
            let (u, released) = w.surface(SurfaceEvent { index, pressed: false, value: after }, curved);
            &&& w.held[index as int]
            &&& pressed == seq![
                pad_message(
                    v.model,
                    index,
                    if v.model.is_cc(index) {
                        127
                    } else {
                        note_velocity(curved)
                    },
                ),
            ]
            &&& released == seq![pad_message(v.model, index, 0)]
            &&& u == v
        }),
{
    let (w, _) = v.surface(SurfaceEvent { index, pressed: true, value: velocity }, curved);
    let (u, _) = w.surface(SurfaceEvent { index, pressed: false, value: after }, curved);
    assert(u.held =~= v.held);
}

/// A message that is no DAW command for the model changes nothing and sends
/// nothing; any DAW command is handled; a query is answered with its reply
/// alone, without a redraw and without changing anything.
pub proof fn lemma_receive_sysex_foreign_and_queries(v: DawView, data: Seq<u8>)
    ensures
        decode_spec(v.model, data) is None ==> v.receive_sysex(data) == (
            v,
            Seq::<OutputView>::empty(),
            false,
            None::<AppId>,
        ),
        decode_spec(v.model, data) is Some ==> v.receive_sysex(data).2,
        decode_spec(v.model, data) matches Some(CommandView::Query(q)) ==> v.receive_sysex(data)
            == (v, v.query(q), true, None::<AppId>),
{
}

/// A press on a grid pad of a shown fader bank goes to the fader drawn on
/// that pad, at the step drawn there; the other faders of the bank keep
/// their state.
pub proof fn lemma_press_goes_to_drawn_fader(
    v: DawView,
    event: SurfaceEvent,
    curved: Option<u8>,
    i: int,
    step: int,
)
    requires
        v.wf(),
        v.enabled,
        v.page == Page::Session,
        v.bank is Some,
        event.pressed,
        is_grid(event.index),
        !v.held[event.index as int],
        0 <= i < 8,
        0 <= step < 8,
        fader_led(v.banks[v.bank.unwrap() as int].horizontal, i, step) == event.index,
    ensures
        ({
            let b = v.bank.unwrap() as int;
            let w = v.surface(event, curved).0;
            &&& w.banks[b].faders[i] == v.banks[b].faders[i].pressed(step, event.value).0
            &&& forall|j: int| 0 <= j < 8 && j != i ==> w.banks[b].faders[j] == v.banks[b].faders[j]
        }),
{
    let b = v.bank.unwrap() as int;
    let h = v.banks[b].horizontal;
    let index = event.index;
    assert(bank_ok(v.banks[b]));
    if h {
        assert(index as int == (8 - i) * 10 + step + 1);
    } else {
        assert(index as int == (step + 1) * 10 + i + 1);
    }
    assert(fader_step(h, index) == (i, step));
}

/// On a current-generation model, a controller on MIDI channel 6 from the
/// DAW sets the colour of every fader on that controller (a dark one stops),
/// and one on channel 5 sets the value of every fader on it and remembers
/// the value; faders on other controllers keep their state.
pub proof fn lemma_fader_controllers(v: DawView, channel: u8, data1: u8, data2: u8)
    requires
        v.wf(),
        profile::modern(v.model),
        channel == 4 || channel == 5,
        data1 <= 127,
        data2 <= 127,
    ensures
        ({
            let w = v.receive_midi(
                MidiEvent { port: MidiPort::Daw, status: (0xb0 + channel) as u8, data1, data2 },
            ).0;
            &&& w.banks.len() == v.banks.len()
            &&& forall|b: int, i: int|
                0 <= b < v.banks.len() && 0 <= i < 8 && v.banks[b].faders[i].cc == data1 ==> {
                    let f = v.banks[b].faders[i];
                    let g = #[trigger] w.banks[b].faders[i];
                    if channel == 5 {
                        &&& g.colour == data2
                        &&& g.value == f.value
                        &&& (data2 == 0 ==> !g.moving())
                    } else {
                        &&& g.value == data2
                        &&& g.colour == f.colour
                        &&& !g.moving()
                    }
                }
            &&& forall|b: int, i: int|
                0 <= b < v.banks.len() && 0 <= i < 8 && v.banks[b].faders[i].cc != data1
                    ==> #[trigger] w.banks[b].faders[i] == v.banks[b].faders[i]
            &&& w.cc_values == if channel == 4 {
                v.cc_values.update(data1 as int, data2)
            } else {
                v.cc_values
            }
            &&& w.lights == v.lights
        }),
{
    let status = (0xb0 + channel) as u8;
    assert(status % 16 == channel && status / 16 * 16 == 0xb0);
    let w = v.receive_midi(MidiEvent { port: MidiPort::Daw, status, data1, data2 }).0;
    assert forall|b: int, i: int| 0 <= b < v.banks.len() && 0 <= i < 8 implies #[trigger] w.banks[b].faders[i]
        == (if v.banks[b].faders[i].cc == data1 {
        fader_on_cc(v.model, v.banks[b].faders[i], channel, data2)
    } else {
        v.banks[b].faders[i]
    }) by {
        assert(bank_ok(v.banks[b]));
    }
}

/// With Session colours set (the active one not 0) and a DAW enabled, the
/// Session button shows the active colour on the Session page and the
/// inactive one on any other page.
pub proof fn lemma_session_button_colours(v: DawView, index: u8)
    requires
        v.wf(),
        v.visible,
        v.enabled,
        v.session_colours[0] != 0,
        page_button(v.model, index) == Some(Page::Session),
    ensures
        v.render_index(index) == seq![
            OutputView::SetLedPalette(
                index,
                if v.page == Page::Session {
                    v.session_colours[0]
                } else {
                    v.session_colours[1]
                },
            ),
        ],
{
    profile::lemma_page_buttons_are_top_row_pads(v.model, index);
}

/// The button of the page shown is lit green and the other page buttons dim
/// white (the Session button aside, when it has colours of its own or no
/// DAW is enabled).
pub proof fn lemma_page_buttons_show_the_page(v: DawView, index: u8, p: Page)
    requires
        v.wf(),
        v.visible,
        page_button(v.model, index) == Some(p),
        p != Page::Session || (v.enabled && v.session_colours[0] == 0),
    ensures
        v.render_index(index) == seq![
            OutputView::SetLed(
                index,
                if v.page == p {
                    0x80ff80u32
                } else {
                    0x303030u32
                },
            ),
        ],
{
    profile::lemma_page_buttons_are_top_row_pads(v.model, index);
}

/// The layout that a page button selects shows that page, without faders.
pub proof fn lemma_layout_shows_page(model: Model, p: Page, index: u8)
    requires
        page_button(model, index) == Some(p),
    ensures
        layout_view(model, page_layout(model, p), 0) == (p, None::<u8>),
{
}

/// Faders are drawn on the grid: a vertical bank's fader `i` is column
/// `i + 1` from the bottom row up, a horizontal bank's fader `i` is row
/// `8 - i` (fader 0 on top) from the left; each step is its own pad.
pub proof fn lemma_fader_leds_on_grid(horizontal: bool, i: int, step: int)
    requires
        0 <= i < 8,
        0 <= step < 8,
    ensures
        is_grid(fader_led(horizontal, i, step)),
        horizontal ==> fader_led(horizontal, i, step) / 10 == 8 - i && fader_led(horizontal, i, step)
            % 10 == step + 1,
        !horizontal ==> fader_led(horizontal, i, step) / 10 == step + 1 && fader_led(
            horizontal,
            i,
            step,
        ) % 10 == i + 1,
{
}

/// A note-on, note-off or controller from the DAW on MIDI channels 1 to 3
/// sets the light of the pad it addresses: channel 1 a static colour, 2 a
/// flash, 3 a pulse, in the palette colour of its velocity (of 0 for a
/// note-off), and redraws that pad; no other light changes.
pub proof fn lemma_pad_light_messages(v: DawView, kind: u8, channel: u8, data1: u8, data2: u8)
    requires
        v.wf(),
        kind == 0x80 || kind == 0x90 || kind == 0xb0,
        channel <= 2,
        data1 <= 127,
        data2 <= 127,
        !(kind == 0xb0 && profile::modern(v.model) && (channel == 4 || channel == 5)),
        !(kind == 0xb0 && !profile::modern(v.model) && v.bank is Some && channel == 0 && 21
            <= data1 <= 28),
        v.model.physical_index(data1, kind == 0xb0) is Some,
    ensures
        ({
            let index = v.model.physical_index(data1, kind == 0xb0).unwrap();
            let (w, out) = v.receive_midi(
                MidiEvent { port: MidiPort::Daw, status: (kind + channel) as u8, data1, data2 },
            );
            let colour = v.colours[if kind == 0x80 {
                0
            } else {
                data2 as int
            }];
            &&& w.lights == v.lights.update(index as int, v.lights[index as int].painted(channel, colour))
            &&& w.banks == v.banks
            &&& w.held == v.held
            &&& out == w.render_index(index)
        }),
{
    let status = (kind + channel) as u8;
    assert(status % 16 == channel && status / 16 * 16 == kind);
}

} // verus!
