//! The DAW mode: the Launchpad as a control surface for a DAW.
//!
//! Its operations take an output list and append to it, in order, the MIDI
//! messages and LED changes that the hardware is to carry out.

pub mod fader;
pub mod profile;
pub mod protocol;
pub mod state;

use vstd::prelude::*;
use crate::device::{Model, is_grid};
use crate::midi::{MidiEvent, MidiPort};
use crate::daw::fader::{Bank, BankView, Fader, idle_bank};
use crate::daw::profile::Page;
use crate::daw::protocol::{
    Command, CommandView, all_at_most, faders_valid_spec, legacy_bulk_max, light_entry_count,
};
use crate::daw::state::{
    AftertouchEvent, AppId, DawView, Light, Output, OutputView, Rgb, SurfaceEvent, bank_ok,
    bulk_index, bulk_step, command_ok, fader_entry_step, fader_ok, fader_outputs, fader_report,
    fader_status, fold, initial, layout_view, legacy_entry_step, legacy_entry_width,
    legacy_fader_entry_step, legacy_index, legacy_lights_payload, lemma_decoded_command_ok,
    lemma_views_push, light_entry, lights_apply, line_index, line_step, pad_message,
    reply_message, rgb_light, views,
};
use vstd::slice::slice_subrange;

verus! {

/// The DAW mode.
pub struct DawApp {
    enabled: bool,
    visible: bool,
    model: Model,
    page: Page,
    layout: u8,
    subpage: u8,
    bank: Option<u8>,
    banks: Vec<Bank>,
    session_framebuffer: [Light; 128],
    cc_values: [u8; 128],
    held: [bool; 128],
    session_colours: [u8; 2],
    colours: [Rgb; 128],
}

impl View for DawApp {
    type V = DawView;

    closed spec fn view(&self) -> DawView {
        DawView {
            enabled: self.enabled,
            visible: self.visible,
            model: self.model,
            page: self.page,
            layout: self.layout,
            subpage: self.subpage,
            bank: self.bank,
            banks: self.banks@.map_values(|b: Bank| b@),
            lights: self.session_framebuffer@,
            cc_values: self.cc_values@,
            held: self.held@,
            session_colours: self.session_colours@,
            colours: self.colours@,
        }
    }
}

proof fn lemma_dim_fits(c: u8, brightness: u16)
    requires
        brightness <= 255,
    ensures
        c as int * brightness as int <= 255 * 255,
        (c as int * brightness as int) / 255 <= 255,
{
    assert(c as int * brightness as int <= 255 * 255) by (nonlinear_arith)
        requires
            c <= 255,
            brightness <= 255,
    ;
}

/// A new bank for each bank of the model.
fn idle_banks(model: Model) -> (banks: Vec<Bank>)
    ensures
        banks@.map_values(|b: Bank| b@) == Seq::new(profile::banks(model) as nat, |i: int| idle_bank()),
{
    let n = profile::banks(model);
    let mut banks: Vec<Bank> = Vec::new();
    let mut i: usize = 0;
    while i < n
        invariant
            i <= n,
            banks@.len() == i,
            forall|k: int| 0 <= k < i ==> (#[trigger] banks@[k])@ == idle_bank(),
        decreases n - i,
    {
        banks.push(Bank::new());
        i = i + 1;
    }
    assert(banks@.map_values(|b: Bank| b@) =~= Seq::new(profile::banks(model) as nat, |i: int| idle_bank()));
    banks
}

/// The pad of RGB triple `n` of a legacy bulk light message (see `bulk_index`).
fn bulk_pad(model: Model, grid: u8, n: usize) -> (r: Option<u8>)
    requires
        grid <= 1,
        3 * n < legacy_bulk_max(model, grid),
    ensures
        r == bulk_index(model, grid, n as int),
{
    if grid == 1 {
        let row = n / 8;
        let col = n % 8;
        Some(((row + 1) * 10 + col + 1) as u8)
    } else if model == Model::Mk2 {
        let row = n / 9;
        let col = n % 9;
        if row < 8 {
            Some(((row + 1) * 10 + col + 1) as u8)
        } else if col < 8 {
            Some((91 + col) as u8)
        } else {
            None
        }
    } else {
        let row = n / 10;
        let col = n % 10;
        Some((row * 10 + col) as u8)
    }
}

fn emit(out: &mut Vec<Output>, o: Output)
    ensures
        views(final(out)@) == views(old(out)@).push(o@),
{
    let ghost g = o;
    out.push(o);
    proof {
        lemma_views_push(old(out)@, g);
    }
}

impl DawApp {
    /// A DAW mode for `model`, whose palette colours have the RGB values
    /// `colours`.
    pub fn new(model: Model, colours: [Rgb; 128]) -> (app: Self)
        ensures
            app@ == initial(model, colours@),
            app@.wf(),
    {
        let banks = idle_banks(model);
        let off = Light::off();
        let app = Self {
            enabled: false,
            visible: false,
            model,
            page: profile::standalone_page(model),
            layout: profile::standalone_layout(model),
            subpage: 0,
            bank: None,
            banks,
            session_framebuffer: [off; 128],
            cc_values: [0; 128],
            held: [false; 128],
            session_colours: [0; 2],
            colours,
        };
        proof {
            let v = app@;
            let w = initial(model, colours@);
            assert(v.banks =~= w.banks);
            assert(v.lights =~= w.lights);
            assert(v.cc_values =~= w.cc_values);
            assert(v.held =~= w.held);
            assert(v.session_colours =~= w.session_colours);
            assert forall|k: int| 0 <= k < v.banks.len() implies #[trigger] bank_ok(v.banks[k]) by {
                assert(v.banks[k].faders.len() == 8);
            }
        }
        app
    }

    pub fn model(&self) -> (m: Model)
        ensures
            m == self@.model,
    {
        self.model
    }

    fn send(&self, index: u8, value: u8, out: &mut Vec<Output>)
        ensures
            views(final(out)@) == views(old(out)@).push(pad_message(self@.model, index, value)),
    {
        let status: u8 = if self.model.is_cc(index) {
            0xb0
        } else {
            0x90
        };
        let msg = vec![status, self.model.wire_index(index), value];
        assert(msg@ =~= seq![status, self.model.wire_index(index), value]);
        emit(out, Output::Midi(msg));
    }

    /// Draws one pad (see `DawView::render_index`).
    fn render_index(&self, index: u8, out: &mut Vec<Output>)
        requires
            self@.wf(),
        ensures
            views(final(out)@) == views(old(out)@) + self@.render_index(index),
    {
        if !self.visible || !self.model.valid_index(index) {
            assert(views(old(out)@) + seq![] =~= views(old(out)@));
            return;
        }
        match profile::page_button(self.model, index) {
            Some(page) => {
                if page == Page::Session && !self.enabled {
                    emit(out, Output::SetLed(index, 0));
                } else if page == Page::Session && self.session_colours[0] != 0 {
                    let which: usize = if self.page == page {
                        0
                    } else {
                        1
                    };
                    emit(out, Output::SetLedPalette(index, self.session_colours[which]));
                } else {
                    emit(
                        out,
                        Output::SetLed(
                            index,
                            if self.page == page {
                                0x80ff80
                            } else {
                                0x303030
                            },
                        ),
                    );
                }
            },
            None => {
                if (self.page == Page::Session && !(self.bank.is_some() && is_grid(index))) || (
                self.model == Model::X && index == 98) {
                    let l = self.session_framebuffer[index as usize];
                    let flash = if l.flashing {
                        Some(l.flash)
                    } else {
                        None
                    };
                    emit(
                        out,
                        Output::SetDawLed(self.model.led_index(index), l.base, flash, l.pulsing),
                    );
                } else {
                    assert(views(old(out)@) + seq![] =~= views(old(out)@));
                    return;
                }
            },
        }
        assert(views(final(out)@) =~= views(old(out)@) + self@.render_index(index));
    }

    /// Draws fader `i` of a bank as eight LEDs dimmed by its brightness.
    fn render_fader(&self, horizontal: bool, i: usize, f: &Fader, out: &mut Vec<Output>)
        requires
            self@.wf(),
            i < 8,
            f.colour < 128,
        ensures
            views(final(out)@) == views(old(out)@) + fader_outputs(self@.colours, horizontal, i as int, *f),
    {
        let colour = self.colours[f.colour as usize];
        let mut step: usize = 0;
        while step < 8
            invariant
                step <= 8,
                i < 8,
                self@.wf(),
                f.colour < 128,
                colour == self@.colours[f.colour as int],
                views(out@) == views(old(out)@) + fader_outputs(self@.colours, horizontal, i as int, *f).subrange(0, step as int),
            decreases 8 - step,
        {
            let index: u8 = if horizontal {
                (8 - i as u8) * 10 + step as u8 + 1
            } else {
                (step as u8 + 1) * 10 + i as u8 + 1
            };
            let brightness = f.brightness(step) as u16;
            proof {
                lemma_dim_fits(colour.0, brightness);
                lemma_dim_fits(colour.1, brightness);
                lemma_dim_fits(colour.2, brightness);
            }
            let r = (colour.0 as u16 * brightness / 255) as u8;
            let g = (colour.1 as u16 * brightness / 255) as u8;
            let b = (colour.2 as u16 * brightness / 255) as u8;
            emit(out, Output::SetDawLed(index, (r, g, b), None, false));
            step = step + 1;
            proof {
                let all = fader_outputs(self@.colours, horizontal, i as int, *f);
                assert(all.subrange(0, step as int) =~= all.subrange(0, step - 1).push(all[step - 1]));
            }
        }
        proof {
            let all = fader_outputs(self@.colours, horizontal, i as int, *f);
            assert(all.subrange(0, 8) =~= all);
        }
    }

    /// Draws the faders of the shown bank.
    fn render_faders(&self, out: &mut Vec<Output>)
        requires
            self@.wf(),
        ensures
            views(final(out)@) == views(old(out)@) + self@.render_faders(),
    {
        if !self.visible || !self.enabled {
            assert(views(old(out)@) + seq![] =~= views(old(out)@));
            return;
        }
        let bank = match self.bank {
            Some(bank) => bank,
            None => {
                assert(views(old(out)@) + seq![] =~= views(old(out)@));
                return;
            },
        };
        let b = self.banks[bank as usize];
        assert(b@ == self@.banks[bank as int]);
        let mut i: usize = 0;
        while i < 8
            invariant
                i <= 8,
                self@.wf(),
                b@ == self@.banks[bank as int],
                bank < self@.banks.len(),
                views(out@) == views(old(out)@) + self@.render_bank(b@, i as int),
            decreases 8 - i,
        {
            proof {
                assert(bank_ok(self@.banks[bank as int]));
                assert(fader_ok(b@.faders[i as int]));
            }
            let f = b.faders[i];
            self.render_fader(b.horizontal, i, &f, out);
            i = i + 1;
            proof {
                assert(views(out@) =~= views(old(out)@) + self@.render_bank(b@, i as int));
            }
        }
    }

    /// Redraws the whole surface (see `DawView::render`).
    fn render(&self, out: &mut Vec<Output>)
        requires
            self@.wf(),
        ensures
            views(final(out)@) == views(old(out)@) + self@.render(),
    {
        if !self.visible {
            assert(views(old(out)@) + seq![] =~= views(old(out)@));
            return;
        }
        emit(out, Output::ClearLeds);
        let mut i: usize = 0;
        while i < 128
            invariant
                i <= 128,
                self@.wf(),
                self@.visible,
                views(out@) == views(old(out)@) + seq![OutputView::ClearLeds] + self@.render_pads(i as int),
            decreases 128 - i,
        {
            self.render_index(i as u8, out);
            i = i + 1;
            proof {
                assert(views(out@) =~= views(old(out)@) + seq![OutputView::ClearLeds] + self@.render_pads(i as int));
            }
        }
        self.render_faders(out);
        assert(views(out@) =~= views(old(out)@) + self@.render());
    }

    /// Stops every fader's glide.
    fn stop(&mut self)
        requires
            old(self)@.wf(),
        ensures
            final(self)@ == old(self)@.stopped(),
            final(self)@.wf(),
    {
        let n = self.banks.len();
        let mut i: usize = 0;
        while i < n
            invariant
                i <= n,
                n == self.banks@.len(),
                old(self)@.wf(),
                self@ == (DawView { banks: self@.banks, ..old(self)@ }),
                self@.banks.len() == old(self)@.banks.len(),
                forall|k: int| 0 <= k < i ==> self@.banks[k] == old(self)@.banks[k].stopped(),
                forall|k: int| i <= k < n ==> self@.banks[k] == old(self)@.banks[k],
            decreases n - i,
        {
            let ghost prev = self@.banks;
            let mut b = self.banks[i];
            b.stop();
            self.banks.set(i, b);
            proof {
                assert(self@.banks =~= prev.update(i as int, b@));
            }
            i = i + 1;
        }
        proof {
            assert(self@.banks =~= old(self)@.stopped().banks);
            assert forall|k: int| 0 <= k < self@.banks.len() implies #[trigger] bank_ok(self@.banks[k]) by {
                assert(bank_ok(old(self)@.banks[k]));
                assert(self@.banks[k].faders.len() == 8);
                assert forall|j: int| 0 <= j < 8 implies #[trigger] fader_ok(self@.banks[k].faders[j]) by {
                    assert(fader_ok(old(self)@.banks[k].faders[j]));
                }
            }
        }
    }

    /// Sends a note-off for every held pad and forgets it.
    fn release_all(&mut self, out: &mut Vec<Output>)
        requires
            old(self)@.wf(),
        ensures
            (final(self)@, views(final(out)@)) == (old(self)@.release_all().0, views(old(out)@) + old(self)@.release_all().1),
            final(self)@.wf(),
    {
        let mut index: usize = 0;
        while index < 128
            invariant
                index <= 128,
                old(self)@.wf(),
                self@ == (DawView { held: self@.held, ..old(self)@ }),
                self@.held.len() == 128,
                forall|k: int| 0 <= k < index ==> !self@.held[k],
                forall|k: int| index <= k < 128 ==> self@.held[k] == old(self)@.held[k],
                views(out@) == views(old(out)@) + old(self)@.release_outputs(index as int, true),
            decreases 128 - index,
        {
            if self.held[index] {
                self.send(index as u8, 0, out);
                self.held[index] = false;
            }
            index = index + 1;
            proof {
                assert(views(out@) =~= views(old(out)@) + old(self)@.release_outputs(index as int, true));
            }
        }
        proof {
            assert(self@.held =~= old(self)@.released(true).held);
        }
    }

    /// Sends a SysEx reply with the model's header (see `reply_message`).
    fn reply(&self, command: u8, payload: &[u8], out: &mut Vec<Output>)
        requires
            payload@.len() <= 40,
        ensures
            views(final(out)@) == views(old(out)@) + reply_message(self@.model, command, payload@),
    {
        let product = match self.model.product() {
            Some(p) => p,
            None => {
                assert(views(old(out)@) + seq![] =~= views(old(out)@));
                return;
            },
        };
        let mut response: Vec<u8> = vec![0xf0, 0, 0x20, 0x29, 2, product, command];
        let mut i: usize = 0;
        while i < payload.len()
            invariant
                i <= payload@.len(),
                response@ == seq![0xf0u8, 0u8, 0x20u8, 0x29u8, 2u8, product, command] + payload@.subrange(0, i as int),
            decreases payload@.len() - i,
        {
            response.push(payload[i]);
            i = i + 1;
            proof {
                assert(response@ =~= seq![0xf0u8, 0u8, 0x20u8, 0x29u8, 2u8, product, command] + payload@.subrange(0, i as int));
            }
        }
        response.push(0xf7);
        assert(response@ =~= seq![0xf0u8, 0u8, 0x20u8, 0x29u8, 2u8, product, command] + payload@ + seq![0xf7u8]);
        emit(out, Output::Midi(response));
        assert(views(final(out)@) =~= views(old(out)@) + reply_message(self@.model, command, payload@));
    }

    /// Answers a DAW query (see `DawView::query`).
    fn query(&self, command: u8, out: &mut Vec<Output>)
        requires
            self@.wf(),
        ensures
            views(final(out)@) == views(old(out)@) + self@.query(command),
    {
        if command == 0 && self.model == Model::ProMk3 {
            let p = [self.layout, self.subpage, 0];
            assert(p@ =~= seq![self.layout, self.subpage, 0u8]);
            self.reply(0, &p, out);
        } else if command == 0 {
            let p = [self.layout];
            assert(p@ =~= seq![self.layout]);
            self.reply(0, &p, out);
        } else if command == 0x10 {
            let p = [if self.enabled { 1u8 } else { 0u8 }];
            assert(p@ =~= seq![if self.enabled { 1u8 } else { 0u8 }]);
            self.reply(command, &p, out);
        } else if command == 0x0e {
            let p = [0u8];
            assert(p@ =~= seq![0u8]);
            self.reply(command, &p, out);
        } else if command == 0x14 {
            let p = self.session_colours;
            self.reply(command, &p, out);
        } else if command == 1 && profile::banks(self.model) > 0 {
            let b = self.banks[0];
            let mut p = [0u8; 34];
            p[1] = if b.horizontal { 1 } else { 0 };
            let mut i: usize = 0;
            while i < 8
                invariant
                    i <= 8,
                    self@.wf(),
                    self@.banks.len() > 0,
                    b@ == self@.banks[0],
                    forall|k: int| 0 <= k < 2 + 4 * i ==> p@[k] == fader_report(b@)[k],
                decreases 8 - i,
            {
                let f = b.faders[i];
                p[2 + i * 4] = i as u8;
                p[3 + i * 4] = if f.bipolar { 1 } else { 0 };
                p[4 + i * 4] = f.cc;
                p[5 + i * 4] = f.colour;
                i = i + 1;
            }
            assert(p@ =~= fader_report(self@.banks[0]));
            self.reply(1, &p, out);
        } else {
            assert(views(old(out)@) + seq![] =~= views(old(out)@));
        }
    }

    /// Shows another view (see `DawView::change_view`).
    fn change_view(&mut self, page: Page, layout: u8, subpage: u8, bank: Option<u8>, out: &mut Vec<Output>)
        requires
            old(self)@.wf(),
            bank matches Some(b) ==> b < old(self)@.banks.len(),
        ensures
            final(self)@ == old(self)@.change_view(page, layout, subpage, bank).0,
            views(final(out)@) == views(old(out)@) + old(self)@.change_view(page, layout, subpage, bank).1,
            final(self)@.wf(),
    {
        let same_bank = match (self.bank, bank) {
            (Some(a), Some(b)) => a == b,
            (None, None) => true,
            _ => false,
        };
        if self.page == page && self.layout == layout && self.subpage == subpage && same_bank {
            assert(views(old(out)@) + seq![] =~= views(old(out)@));
            return;
        }
        let ghost v0 = self@;
        let mut index: usize = 0;
        while index < 128
            invariant
                index <= 128,
                v0 == old(self)@,
                v0.wf(),
                self@ == (DawView { held: self@.held, ..v0 }),
                self@.held.len() == 128,
                forall|k: int| 0 <= k < index ==> self@.held[k] == v0.released(false).held[k],
                forall|k: int| index <= k < 128 ==> self@.held[k] == v0.held[k],
                views(out@) == views(old(out)@) + v0.release_outputs(index as int, false),
            decreases 128 - index,
        {
            if self.held[index] && profile::page_button(self.model, index as u8).is_none() && !(
            self.model == Model::X && index == 98) {
                self.send(index as u8, 0, out);
                self.held[index] = false;
            }
            index = index + 1;
            proof {
                assert(views(out@) =~= views(old(out)@) + v0.release_outputs(index as int, false));
            }
        }
        proof {
            assert(self@.held =~= v0.released(false).held);
        }
        let ghost released_out = views(out@);
        self.stop();
        self.page = page;
        self.layout = layout;
        self.subpage = subpage;
        self.bank = bank;
        let ghost next = v0.change_view(page, layout, subpage, bank).0;
        assert(self@ == next);
        if self.model == Model::ProMk3 {
            let p = [layout, subpage, 0];
            assert(p@ =~= seq![layout, subpage, 0u8]);
            self.reply(0, &p, out);
        } else {
            assert(views(out@) =~= released_out + seq![]);
        }
        let ghost before_render = views(out@);
        self.render(out);
        assert(views(out@) =~= views(old(out)@) + v0.change_view(page, layout, subpage, bank).1);
    }

    /// Shows a page in its default layout.
    fn select_page(&mut self, page: Page, out: &mut Vec<Output>)
        requires
            old(self)@.wf(),
        ensures
            final(self)@ == old(self)@.select_page(page).0,
            views(final(out)@) == views(old(out)@) + old(self)@.select_page(page).1,
            final(self)@.wf(),
    {
        let layout: u8 = if page == Page::Session {
            0
        } else if self.model == Model::ProMk3 && page == Page::Note {
            4
        } else if self.model == Model::ProMk3 && page == Page::Chord {
            2
        } else if self.model == Model::ProMk3 && page == Page::Custom {
            3
        } else if self.model == Model::ProMk3 && page == Page::Sequencer {
            7
        } else if self.model == Model::ProMk3 && page == Page::Projects {
            0x0d
        } else if page == Page::Note {
            1
        } else if page == Page::Custom || page == Page::Drums {
            4
        } else if page == Page::Keys {
            5
        } else if page == Page::User {
            6
        } else {
            0
        };
        self.change_view(page, layout, 0, None, out);
    }

    /// Forgets everything the DAW set up (see `DawView::reset`), releasing
    /// held pads first.
    fn reset(&mut self, out: &mut Vec<Output>)
        requires
            old(self)@.wf(),
        ensures
            final(self)@ == old(self)@.reset(),
            views(final(out)@) == views(old(out)@) + old(self)@.release_outputs(128, true),
            final(self)@.wf(),
    {
        self.release_all(out);
        self.stop();
        self.enabled = false;
        self.page = profile::standalone_page(self.model);
        self.layout = profile::standalone_layout(self.model);
        self.subpage = 0;
        self.bank = None;
        let off = Light::off();
        self.session_framebuffer = [off; 128];
        self.banks = idle_banks(self.model);
        self.cc_values = [0; 128];
        self.session_colours = [0; 2];
        proof {
            let v = self@;
            let w = old(self)@.reset();
            assert(v.lights =~= w.lights);
            assert(v.cc_values =~= w.cc_values);
            assert(v.held =~= w.held);
            assert(v.session_colours =~= w.session_colours);
            assert(v.banks =~= w.banks);
            assert forall|k: int| 0 <= k < v.banks.len() implies #[trigger] bank_ok(v.banks[k]) by {
                assert(v.banks[k].faders.len() == 8);
            }
        }
    }

    /// The pad a legacy light message addresses (see `legacy_index`).
    fn legacy_index(&self, index: u8) -> (r: Option<u8>)
        ensures
            r == legacy_index(self@.model, index),
    {
        let index = if self.model == Model::Mk2 && 104 <= index && index <= 111 {
            index - 13
        } else {
            index
        };
        if self.model.valid_index(index) {
            Some(index)
        } else {
            None
        }
    }

    /// Applies a legacy light command (see `DawView::legacy_lights`).
    fn legacy_lights(&mut self, cmd: u8, p: &[u8])
        requires
            old(self)@.wf(),
            legacy_lights_payload(old(self)@.model, cmd, p@),
        ensures
            final(self)@ == (DawView { lights: old(self)@.legacy_lights(cmd, p@), ..old(self)@ }),
            final(self)@.wf(),
    {
        let ghost v0 = self@;
        if cmd == 0x0a || cmd == 0x0b || cmd == 0x23 || cmd == 0x28 {
            let w: usize = if cmd == 0x0b {
                4
            } else {
                2
            };
            let count = p.len() / w;
            let plen = p.len();
            let ghost step = legacy_entry_step(v0.model, v0.colours, cmd, p@);
            let mut k: usize = 0;
            while k < count
                invariant
                    v0 == old(self)@,
                    v0.wf(),
                    legacy_lights_payload(v0.model, cmd, p@),
                    cmd == 0x0a || cmd == 0x0b || cmd == 0x23 || cmd == 0x28,
                    w as int == legacy_entry_width(cmd),
                    count == p@.len() / (w as nat),
                    plen == p@.len(),
                    k <= count,
                    step == legacy_entry_step(v0.model, v0.colours, cmd, p@),
                    self@ == (DawView { lights: fold(v0.lights, k as int, step), ..v0 }),
                decreases count - k,
            {
                assert(w * k + w <= p@.len()) by (nonlinear_arith)
                    requires
                        k < count,
                        count == p@.len() / (w as nat),
                        w > 0,
                ;
                let e0 = p[w * k];
                let ghost before = self@.lights;
                match self.legacy_index(e0) {
                    Some(index) => {
                        if cmd != 0x0b {
                            let channel: u8 = if cmd == 0x23 {
                                1
                            } else if cmd == 0x28 {
                                2
                            } else {
                                0
                            };
                            let colour = p[w * k + 1];
                            let rgb = self.colours[colour as usize];
                            self.session_framebuffer[index as usize].palette(channel, rgb);
                        } else {
                            self.session_framebuffer[index as usize] = Light {
                                base: (p[w * k + 1], p[w * k + 2], p[w * k + 3]),
                                flash: (0, 0, 0),
                                flashing: false,
                                pulsing: false,
                            };
                        }
                    },
                    None => {},
                }
                k = k + 1;
                proof {
                    assert(self@.lights =~= step(before, (k - 1) as int));
                }
            }
        } else if cmd == 0x0e {
            let rgb = self.colours[p[0] as usize];
            let mut i: usize = 0;
            while i < 99
                invariant
                    v0 == old(self)@,
                    v0.wf(),
                    i <= 99,
                    p@.len() >= 1,
                    rgb == v0.colours[p@[0] as int],
                    self@ == (DawView { lights: self@.lights, ..v0 }),
                    self@.lights.len() == 128,
                    forall|j: int| 0 <= j < i ==> self@.lights[j] == rgb_light(rgb),
                    forall|j: int| i <= j < 128 ==> self@.lights[j] == v0.lights[j],
                decreases 99 - i,
            {
                self.session_framebuffer[i].palette(0, rgb);
                i = i + 1;
            }
            assert(self@.lights =~= v0.legacy_lights(cmd, p@));
        } else if cmd == 0x0f {
            let grid = p[0];
            let count = (p.len() - 1) / 3;
            let ghost step = bulk_step(v0.model, p@);
            let mut n: usize = 0;
            while n < count
                invariant
                    v0 == old(self)@,
                    v0.wf(),
                    legacy_lights_payload(v0.model, cmd, p@),
                    cmd == 0x0f,
                    grid == p@[0],
                    count == (p@.len() - 1) / 3,
                    n <= count,
                    step == bulk_step(v0.model, p@),
                    self@ == (DawView { lights: fold(v0.lights, n as int, step), ..v0 }),
                decreases count - n,
            {
                let ghost before = self@.lights;
                let index = bulk_pad(self.model, grid, n);
                match index {
                    Some(index) => {
                        if index != 99 && self.model.valid_index(index) {
                            self.session_framebuffer[index as usize] = Light {
                                base: (p[1 + 3 * n], p[2 + 3 * n], p[3 + 3 * n]),
                                flash: (0, 0, 0),
                                flashing: false,
                                pulsing: false,
                            };
                        }
                    },
                    None => {},
                }
                n = n + 1;
                proof {
                    assert(self@.lights =~= step(before, (n - 1) as int));
                }
            }
        } else if cmd == 0x0c || cmd == 0x0d {
            let axis = p[0];
            let count = p.len() - 1;
            let ghost step = line_step(v0.model, v0.colours, cmd, p@);
            let mut n: usize = 0;
            while n < count
                invariant
                    v0 == old(self)@,
                    v0.wf(),
                    legacy_lights_payload(v0.model, cmd, p@),
                    cmd == 0x0c || cmd == 0x0d,
                    axis == p@[0],
                    count == p@.len() - 1,
                    n <= count,
                    step == line_step(v0.model, v0.colours, cmd, p@),
                    self@ == (DawView { lights: fold(v0.lights, n as int, step), ..v0 }),
                decreases count - n,
            {
                let ghost before = self@.lights;
                let (row, col): (u8, u8) = if cmd == 0x0c {
                    (n as u8, axis)
                } else {
                    (axis, n as u8)
                };
                let index: Option<u8> = if self.model == Model::Mk2 {
                    if row < 8 && col <= 8 {
                        Some((row + 1) * 10 + col + 1)
                    } else if row == 8 && col < 8 {
                        Some(91 + col)
                    } else {
                        None
                    }
                } else {
                    Some(row * 10 + col)
                };
                match index {
                    Some(index) => {
                        if self.model.valid_index(index) {
                            let rgb = self.colours[p[1 + n] as usize];
                            self.session_framebuffer[index as usize].palette(0, rgb);
                        }
                    },
                    None => {},
                }
                n = n + 1;
                proof {
                    assert(index == line_index(v0.model, row as int, col as int));
                    assert(self@.lights =~= step(before, (n - 1) as int));
                }
            }
        }
    }

    /// Darkens the pads of a Clear command: notes, controllers, or both.
    fn clear(&mut self, notes: bool, cc: bool)
        requires
            old(self)@.wf(),
        ensures
            final(self)@ == (DawView { lights: old(self)@.cleared(notes, cc), ..old(self)@ }),
            final(self)@.wf(),
    {
        let ghost v0 = self@;
        let mut i: usize = 0;
        while i < 128
            invariant
                v0 == old(self)@,
                v0.wf(),
                i <= 128,
                self@ == (DawView { lights: self@.lights, ..v0 }),
                self@.lights.len() == 128,
                forall|j: int| 0 <= j < i ==> self@.lights[j] == v0.cleared(notes, cc)[j],
                forall|j: int| i <= j < 128 ==> self@.lights[j] == v0.lights[j],
            decreases 128 - i,
        {
            let hit = if self.model.is_cc(i as u8) {
                cc
            } else {
                notes
            };
            if hit {
                self.session_framebuffer[i] = Light::off();
            }
            i = i + 1;
        }
        assert(self@.lights =~= v0.cleared(notes, cc));
    }

    /// Applies the entries of a current-generation light command.
    fn apply_lights(&mut self, p: &[u8])
        requires
            old(self)@.wf(),
            light_entry_count(p@) is Some,
            all_at_most(p@, 127),
        ensures
            final(self)@ == (DawView {
                lights: lights_apply(old(self)@.model, old(self)@.colours, old(self)@.lights, p@),
                ..old(self)@
            }),
            final(self)@.wf(),
    {
        let ghost v0 = self@;
        let mut rest = p;
        while rest.len() > 0
            invariant
                v0 == old(self)@,
                v0.wf(),
                light_entry_count(rest@) is Some,
                all_at_most(rest@, 127),
                self@ == (DawView { lights: self@.lights, ..v0 }),
                self@.lights.len() == 128,
                lights_apply(v0.model, v0.colours, v0.lights, p@) == lights_apply(
                    v0.model,
                    v0.colours,
                    self@.lights,
                    rest@,
                ),
            decreases rest@.len(),
        {
            let ghost before = self@.lights;
            let kind = rest[0];
            let len: usize = if kind == 0 || kind == 2 {
                3
            } else if kind == 1 {
                4
            } else {
                5
            };
            let index = rest[1];
            if self.model.valid_index(index) {
                if kind == 0 {
                    let rgb = self.colours[rest[2] as usize];
                    self.session_framebuffer[index as usize].palette(0, rgb);
                } else if kind == 1 {
                    let base = self.colours[rest[3] as usize];
                    let flash = self.colours[rest[2] as usize];
                    self.session_framebuffer[index as usize].palette(0, base);
                    self.session_framebuffer[index as usize].palette(1, flash);
                } else if kind == 2 {
                    let rgb = self.colours[rest[2] as usize];
                    self.session_framebuffer[index as usize].palette(2, rgb);
                } else {
                    let (r, g, b) = (rest[2], rest[3], rest[4]);
                    assert(r >> 1 == r / 2 && g >> 1 == g / 2 && b >> 1 == b / 2) by (bit_vector);
                    self.session_framebuffer[index as usize] = Light {
                        base: (r >> 1, g >> 1, b >> 1),
                        flash: (0, 0, 0),
                        flashing: false,
                        pulsing: false,
                    };
                }
            }
            proof {
                let e = rest@.subrange(0, len as int);
                assert(self@.lights =~= light_entry(v0.model, v0.colours, before, e));
                assert forall|i: int| 0 <= i < rest@.len() - len implies rest@.subrange(len as int, rest@.len() as int)[i] <= 127 by {
                    assert(rest@[i + len] <= 127);
                }
            }
            rest = slice_subrange(rest, len, rest.len());
        }
    }

    /// Applies a Faders command to bank `bank`.
    fn apply_faders(&mut self, bank: u8, horizontal: bool, e: &[u8])
        requires
            old(self)@.wf(),
            bank < old(self)@.banks.len(),
            faders_valid_spec(e@),
            all_at_most(e@, 127),
        ensures
            final(self)@ == (DawView {
                banks: old(self)@.banks.update(bank as int, old(self)@.faders_command(bank, horizontal, e@)),
                ..old(self)@
            }),
            final(self)@.wf(),
    {
        let ghost v0 = self@;
        let mut b = self.banks[bank as usize];
        if b.horizontal != horizontal {
            b.stop();
        }
        b.horizontal = horizontal;
        let ghost start = b@.faders;
        proof {
            assert(bank_ok(v0.banks[bank as int]));
            assert forall|i: int| 0 <= i < 8 implies #[trigger] fader_ok(start[i]) by {
                assert(fader_ok(v0.banks[bank as int].faders[i]));
            }
            assert(start == (if v0.banks[bank as int].horizontal != horizontal {
                v0.banks[bank as int].stopped()
            } else {
                v0.banks[bank as int]
            }).faders);
        }
        let ghost step = fader_entry_step(e@, v0.cc_values);
        let count = e.len() / 4;
        let mut k: usize = 0;
        while k < count
            invariant
                v0 == old(self)@,
                v0.wf(),
                self@ == v0,
                faders_valid_spec(e@),
                all_at_most(e@, 127),
                count == e@.len() / 4,
                k <= count,
                step == fader_entry_step(e@, v0.cc_values),
                b@.horizontal == horizontal,
                b@.faders == fold(start, k as int, step),
                forall|i: int| 0 <= i < 8 ==> #[trigger] fader_ok(start[i]),
                forall|i: int| 0 <= i < 8 ==> #[trigger] fader_ok(b@.faders[i]),
            decreases count - k,
        {
            let ghost before = b@.faders;
            let index = e[4 * k];
            assert(e@[4 * (k as int)] <= 7);
            let cc = e[4 * k + 2];
            let mut f = b.faders[index as usize];
            f.stop();
            f.bipolar = e[4 * k + 1] != 0;
            f.cc = cc;
            f.colour = e[4 * k + 3];
            f.value = self.cc_values[cc as usize];
            b.faders[index as usize] = f;
            k = k + 1;
            proof {
                assert(b@.faders =~= step(before, (k - 1) as int));
            }
        }
        self.banks.set(bank as usize, b);
        proof {
            assert(self@.banks =~= v0.banks.update(bank as int, v0.faders_command(bank, horizontal, e@)));
            assert forall|i: int| 0 <= i < self@.banks.len() implies #[trigger] bank_ok(self@.banks[i]) by {
                if i != bank {
                    assert(bank_ok(v0.banks[i]));
                }
            }
        }
    }

    /// Applies a legacy Faders command to bank 0, unless it is ignored
    /// (see `DawView::legacy_faders_ignored`); returns whether it applied.
    fn apply_legacy_faders(&mut self, e: &[u8]) -> (applied: bool)
        requires
            old(self)@.wf(),
            faders_valid_spec(e@),
            all_at_most(e@, 127),
        ensures
            applied == !old(self)@.legacy_faders_ignored(e@),
            applied ==> final(self)@ == (DawView {
                banks: old(self)@.banks.update(
                    0,
                    BankView { faders: old(self)@.legacy_faders_command(e@), ..old(self)@.banks[0] },
                ),
                ..old(self)@
            }),
            !applied ==> final(self)@ == old(self)@,
            final(self)@.wf(),
    {
        let ghost v0 = self@;
        let count = e.len() / 4;
        if self.bank.is_none() {
            return false;
        }
        if self.model == Model::Mk2 {
            let bipolar_layout = self.layout == 5;
            let mut k: usize = 0;
            while k < count
                invariant
                    count == e@.len() / 4,
                    k <= count,
                    self@ == v0,
                    v0 == old(self)@,
                    v0.wf(),
                    v0.model == Model::Mk2,
                    bipolar_layout == (v0.layout == 5),
                    faders_valid_spec(e@),
                    forall|j: int| 0 <= j < k ==> (#[trigger] e@[4 * j + 1] != 0) == bipolar_layout,
                decreases count - k,
            {
                if (e[4 * k + 1] != 0) != bipolar_layout {
                    assert((e@[4 * (k as int) + 1] != 0) != (v0.layout == 5));
                    return false;
                }
                k = k + 1;
            }
        }
        if self.banks.len() == 0 {
            return false;
        }
        let mut b = self.banks[0];
        let ghost start = b@.faders;
        proof {
            assert(bank_ok(v0.banks[0]));
        }
        let ghost step = legacy_fader_entry_step(e@);
        let mut k: usize = 0;
        while k < count
            invariant
                v0 == old(self)@,
                v0.wf(),
                v0.banks.len() > 0,
                self@ == v0,
                faders_valid_spec(e@),
                all_at_most(e@, 127),
                count == e@.len() / 4,
                k <= count,
                step == legacy_fader_entry_step(e@),
                b@.horizontal == v0.banks[0].horizontal,
                start == v0.banks[0].faders,
                b@.faders == fold(start, k as int, step),
                forall|i: int| 0 <= i < 8 ==> #[trigger] fader_ok(start[i]),
                forall|i: int| 0 <= i < 8 ==> #[trigger] fader_ok(b@.faders[i]),
            decreases count - k,
        {
            let ghost before = b@.faders;
            let index = e[4 * k];
            assert(e@[4 * (k as int)] <= 7);
            let mut f = b.faders[index as usize];
            f.stop();
            f.bipolar = e[4 * k + 1] != 0;
            f.cc = 21 + index;
            f.colour = e[4 * k + 2];
            f.value = e[4 * k + 3];
            b.faders[index as usize] = f;
            k = k + 1;
            proof {
                assert(b@.faders =~= step(before, (k - 1) as int));
            }
        }
        self.banks.set(0, b);
        proof {
            assert(self@.banks =~= v0.banks.update(
                0,
                BankView { faders: v0.legacy_faders_command(e@), ..v0.banks[0] },
            ));
            assert forall|i: int| 0 <= i < self@.banks.len() implies #[trigger] bank_ok(self@.banks[i]) by {
                if i != 0 {
                    assert(bank_ok(v0.banks[i]));
                }
            }
        }
        true
    }

    /// Applies a Layout command; returns whether to redraw afterwards and the
    /// app to switch to (see `DawView::command_effect`).
    fn apply_layout(&mut self, layout: u8, subpage: u8, out: &mut Vec<Output>) -> (r: (bool, Option<AppId>))
        requires
            old(self)@.wf(),
            layout_view(old(self)@.model, layout, subpage).1 matches Some(b) ==> b < old(self)@.banks.len(),
        ensures
            ({
                let (v, o, switch, render) = old(self)@.command_effect(CommandView::Layout(layout, subpage));
                &&& final(self)@ == v
                &&& views(final(out)@) == views(old(out)@) + o
                &&& r == (render, switch)
            }),
            final(self)@.wf(),
    {
        let ghost v0 = self@;
        let modern = profile::modern(self.model);
        if (self.model == Model::ProMk3 && layout == 0x11) || (modern && layout == 0x7f) || (
        self.model == Model::Pro && layout == 3) {
            self.release_all(out);
            self.stop();
            return (true, Some(AppId::Programmer));
        }
        if modern && !self.enabled && (layout == 0 || (self.model == Model::ProMk3 && layout == 1)
            || (self.model != Model::ProMk3 && layout == 0x0d)) {
            assert(views(old(out)@) + seq![] =~= views(old(out)@));
            return (false, None);
        }
        if !modern {
            self.enabled = true;
        }
        let model = self.model;
        let (page, bank): (Page, Option<u8>) = if model == Model::ProMk3 && layout == 1 {
            (Page::Session, Some(subpage))
        } else if (model == Model::X || model == Model::MiniMk3) && layout == 0x0d {
            (Page::Session, Some(0))
        } else if (model == Model::Mk2 && (layout == 4 || layout == 5)) || (model == Model::Pro
            && layout == 2) {
            (Page::Session, Some(0))
        } else if layout == 0 {
            (Page::Session, None)
        } else if model == Model::ProMk3 && layout == 2 {
            (Page::Chord, None)
        } else if model == Model::ProMk3 && layout == 3 {
            (Page::Custom, None)
        } else if (model == Model::ProMk3 && layout == 4) || (model == Model::X && layout == 1) {
            (Page::Note, None)
        } else if model == Model::ProMk3 && layout == 7 {
            (Page::Sequencer, None)
        } else if model == Model::ProMk3 && layout == 0x0d {
            (Page::Projects, None)
        } else if model == Model::MiniMk3 && layout == 4 {
            (Page::Drums, None)
        } else if model == Model::MiniMk3 && layout == 5 {
            (Page::Keys, None)
        } else if model == Model::MiniMk3 && layout == 6 {
            (Page::User, None)
        } else {
            (Page::Custom, None)
        };
        if model == Model::Pro && layout == 2 && self.banks.len() > 0 {
            let mut b = self.banks[0];
            let ghost b0 = b;
            let mut i: usize = 0;
            while i < 8
                invariant
                    i <= 8,
                    b.horizontal == b0.horizontal,
                    forall|j: int| 0 <= j < i ==> b.faders@[j] == (Fader { colour: 0, ..b0.faders@[j] }),
                    forall|j: int| i <= j < 8 ==> b.faders@[j] == b0.faders@[j],
                decreases 8 - i,
            {
                b.faders[i].colour = 0;
                i = i + 1;
            }
            self.banks.set(0, b);
            proof {
                let prepared = v0.layout_prepared(layout);
                assert(self@.banks[0].faders =~= prepared.banks[0].faders);
                assert(self@.banks =~= prepared.banks);
                assert(self@ == prepared);
                assert forall|k: int| 0 <= k < self@.banks.len() implies #[trigger] bank_ok(self@.banks[k]) by {
                    assert(bank_ok(v0.banks[k]));
                    if k == 0 {
                        assert forall|j: int| 0 <= j < 8 implies #[trigger] fader_ok(self@.banks[0].faders[j]) by {
                            assert(fader_ok(v0.banks[0].faders[j]));
                        }
                    }
                }
            }
        }
        assert(self@ == v0.layout_prepared(layout));
        assert((page, bank) == layout_view(model, layout, subpage));
        self.change_view(page, layout, subpage, bank, out);
        (true, Some(AppId::Daw))
    }

    /// Stops the glides of one bank.
    fn stop_bank(&mut self, bank: u8)
        requires
            old(self)@.wf(),
            bank < old(self)@.banks.len(),
        ensures
            final(self)@ == (DawView {
                banks: old(self)@.banks.update(bank as int, old(self)@.banks[bank as int].stopped()),
                ..old(self)@
            }),
            final(self)@.wf(),
    {
        let ghost v0 = self@;
        let mut b = self.banks[bank as usize];
        b.stop();
        self.banks.set(bank as usize, b);
        proof {
            assert(self@.banks =~= v0.banks.update(bank as int, v0.banks[bank as int].stopped()));
            assert forall|k: int| 0 <= k < self@.banks.len() implies #[trigger] bank_ok(self@.banks[k]) by {
                assert(bank_ok(v0.banks[k]));
                if k == bank {
                    assert forall|j: int| 0 <= j < 8 implies #[trigger] fader_ok(self@.banks[k].faders[j]) by {
                        assert(fader_ok(v0.banks[k].faders[j]));
                    }
                }
            }
        }
    }

    /// Carries out a decoded command, without the redraw that follows it;
    /// returns whether to redraw and the app to switch to.
    fn apply_command(&mut self, command: Command, out: &mut Vec<Output>) -> (r: (bool, Option<AppId>))
        requires
            old(self)@.wf(),
            command_ok(old(self)@.model, command@),
        ensures
            ({
                let (v, o, switch, render) = old(self)@.command_effect(command@);
                &&& final(self)@ == v
                &&& views(final(out)@) == views(old(out)@) + o
                &&& r == (render, switch)
            }),
            final(self)@.wf(),
    {
        match command {
            Command::Enable(true) => {
                self.enabled = true;
                assert(views(old(out)@) + seq![] =~= views(old(out)@));
                (true, Some(AppId::Daw))
            },
            Command::Enable(false) => {
                self.reset(out);
                (true, Some(AppId::Daw))
            },
            Command::Query(cmd) => {
                self.query(cmd, out);
                (false, None)
            },
            Command::Performance => {
                self.release_all(out);
                self.stop();
                (true, Some(AppId::Performance))
            },
            Command::Live(false) => {
                self.release_all(out);
                self.stop();
                (true, Some(AppId::Programmer))
            },
            Command::Live(true) => {
                if self.enabled {
                    self.select_page(Page::Session, out);
                } else {
                    let page = profile::standalone_page(self.model);
                    self.select_page(page, out);
                }
                (true, Some(AppId::Daw))
            },
            Command::Layout(layout, subpage) => self.apply_layout(layout, subpage, out),
            Command::Faders(bank, horizontal, entries) => {
                self.apply_faders(bank, horizontal, entries);
                assert(views(old(out)@) + seq![] =~= views(old(out)@));
                (true, None)
            },
            Command::LegacyFaders(entries) => {
                assert(views(old(out)@) + seq![] =~= views(old(out)@));
                if self.apply_legacy_faders(entries) {
                    (true, None)
                } else {
                    (false, None)
                }
            },
            Command::Stop(bank) => {
                self.stop_bank(bank);
                assert(views(old(out)@) + seq![] =~= views(old(out)@));
                (true, None)
            },
            Command::SessionColours(a, b) => {
                self.session_colours = [a, b];
                assert(self@.session_colours =~= seq![a, b]);
                assert(views(old(out)@) + seq![] =~= views(old(out)@));
                (true, None)
            },
            Command::Clear(notes, cc) => {
                self.clear(notes, cc);
                assert(views(old(out)@) + seq![] =~= views(old(out)@));
                (true, None)
            },
            Command::Lights(p) => {
                self.apply_lights(p);
                assert(views(old(out)@) + seq![] =~= views(old(out)@));
                (true, None)
            },
            Command::LegacyLights(cmd, p) => {
                self.legacy_lights(cmd, p);
                assert(views(old(out)@) + seq![] =~= views(old(out)@));
                (true, None)
            },
        }
    }

    /// Handles a SysEx message from the DAW (see `DawView::receive_sysex`);
    /// returns whether it was a DAW command and the app to switch to.
    fn receive_sysex(&mut self, data: &[u8], out: &mut Vec<Output>) -> (r: (bool, Option<AppId>))
        requires
            old(self)@.wf(),
        ensures
            ({
                let (v, o, handled, switch) = old(self)@.receive_sysex(data@);
                &&& final(self)@ == v
                &&& views(final(out)@) == views(old(out)@) + o
                &&& r == (handled, switch)
            }),
            final(self)@.wf(),
    {
        let ghost v0 = self@;
        let command = match protocol::decode(self.model, data) {
            Some(c) => c,
            None => {
                assert(views(old(out)@) + seq![] =~= views(old(out)@));
                return (false, None);
            },
        };
        proof {
            lemma_decoded_command_ok(v0.model, data@);
        }
        let (render, switch) = self.apply_command(command, out);
        let ghost after = views(out@);
        if render {
            self.render(out);
        } else {
            assert(after =~= after + seq![]);
        }
        (true, switch)
    }

    /// Handles a SysEx message while `current` has the surface (see
    /// `DawView::receive_sysex_for_app`); returns whether it was a DAW
    /// command and the app to switch to.
    pub fn receive_sysex_for_app(&mut self, data: &[u8], current: AppId, out: &mut Vec<Output>) -> (r: (
        bool,
        Option<AppId>,
    ))
        requires
            old(self)@.wf(),
        ensures
            ({
                let (v, o, handled, switch) = old(self)@.receive_sysex_for_app(data@, current);
                &&& final(self)@ == v
                &&& views(final(out)@) == views(old(out)@) + o
                &&& r == (handled, switch)
            }),
            final(self)@.wf(),
    {
        if current == AppId::Programmer {
            match protocol::decode(self.model, data) {
                Some(Command::Query(0x0e)) => {
                    let p = [1u8];
                    assert(p@ =~= seq![1u8]);
                    self.reply(0x0e, &p, out);
                    return (true, None);
                },
                Some(Command::Query(0)) => {
                    if self.model == Model::ProMk3 {
                        let p = [0x11u8, 0, 0];
                        assert(p@ =~= seq![0x11u8, 0u8, 0u8]);
                        self.reply(0, &p, out);
                    } else {
                        let p = [0x7fu8];
                        assert(p@ =~= seq![0x7fu8]);
                        self.reply(0, &p, out);
                    }
                    return (true, None);
                },
                _ => {},
            }
        }
        self.receive_sysex(data, out)
    }

    /// Applies a fader controller from the DAW to every fader on it.
    fn faders_on_cc(&mut self, channel: u8, cc: u8, value: u8)
        requires
            old(self)@.wf(),
            value <= 127,
        ensures
            final(self)@ == (DawView { banks: old(self)@.banks_on_cc(channel, cc, value), ..old(self)@ }),
            final(self)@.wf(),
    {
        let ghost v0 = self@;
        let ghost target = v0.banks_on_cc(channel, cc, value);
        let n = self.banks.len();
        let mut bi: usize = 0;
        while bi < n
            invariant
                v0 == old(self)@,
                v0.wf(),
                value <= 127,
                target == v0.banks_on_cc(channel, cc, value),
                n == v0.banks.len(),
                bi <= n,
                self@ == (DawView { banks: self@.banks, ..v0 }),
                self@.banks.len() == n,
                forall|k: int| 0 <= k < bi ==> self@.banks[k] == target[k],
                forall|k: int| bi <= k < n ==> self@.banks[k] == v0.banks[k],
            decreases n - bi,
        {
            let mut b = self.banks[bi];
            let ghost b0 = b@;
            proof {
                assert(bank_ok(v0.banks[bi as int]));
            }
            let mut i: usize = 0;
            while i < 8
                invariant
                    i <= 8,
                    value <= 127,
                    bi < n,
                    n == v0.banks.len(),
                    v0 == old(self)@,
                    target == v0.banks_on_cc(channel, cc, value),
                    self@.model == v0.model,
                    b0 == v0.banks[bi as int],
                    bank_ok(b0),
                    b@.horizontal == b0.horizontal,
                    forall|j: int| 0 <= j < i ==> b@.faders[j] == target[bi as int].faders[j],
                    forall|j: int| i <= j < 8 ==> b@.faders[j] == b0.faders[j],
                decreases 8 - i,
            {
                let f = b.faders[i];
                if f.cc == cc {
                    if channel == 5 {
                        b.faders[i].colour = value;
                        if value == 0 {
                            b.faders[i].stop();
                        }
                    } else if self.model != Model::Pro || !f.moving() {
                        b.faders[i].stop();
                        b.faders[i].value = value;
                    }
                }
                assert(b@.faders[i as int] == target[bi as int].faders[i as int]);
                i = i + 1;
            }
            self.banks.set(bi, b);
            proof {
                assert(b@.faders =~= target[bi as int].faders);
            }
            bi = bi + 1;
        }
        proof {
            assert(self@.banks =~= target);
            assert forall|k: int| 0 <= k < self@.banks.len() implies #[trigger] bank_ok(self@.banks[k]) by {
                assert(bank_ok(v0.banks[k]));
                assert forall|j: int| 0 <= j < 8 implies #[trigger] fader_ok(self@.banks[k].faders[j]) by {
                    assert(fader_ok(v0.banks[k].faders[j]));
                }
            }
        }
    }

    /// Handles a short MIDI message (see `DawView::receive_midi`).
    pub fn receive_midi(&mut self, event: MidiEvent, out: &mut Vec<Output>)
        requires
            old(self)@.wf(),
        ensures
            final(self)@ == old(self)@.receive_midi(event).0,
            views(final(out)@) == views(old(out)@) + old(self)@.receive_midi(event).1,
            final(self)@.wf(),
    {
        if event.port != MidiPort::Daw || event.data1 > 127 || event.data2 > 127 {
            assert(views(old(out)@) + seq![] =~= views(old(out)@));
            return;
        }
        let status = event.status;
        let channel = status & 15;
        let kind = status & 0xf0;
        assert(channel == status % 16 && kind == status / 16 * 16) by (bit_vector)
            requires
                channel == status & 15,
                kind == status & 0xf0,
        ;
        let modern = profile::modern(self.model);
        if kind == 0xb0 && ((modern && (channel == 4 || channel == 5)) || (!modern
            && self.bank.is_some() && channel == 0 && 21 <= event.data1 && event.data1 <= 28)) {
            if channel != 5 {
                self.cc_values[event.data1 as usize] = event.data2;
            }
            self.faders_on_cc(channel, event.data1, event.data2);
            self.render_faders(out);
            return;
        }
        if channel > 2 || !(kind == 0x80 || kind == 0x90 || kind == 0xb0) {
            assert(views(old(out)@) + seq![] =~= views(old(out)@));
            return;
        }
        let index = match self.model.physical_index(event.data1, kind == 0xb0) {
            Some(index) => index,
            None => {
                assert(views(old(out)@) + seq![] =~= views(old(out)@));
                return;
            },
        };
        let colour = if kind == 0x80 {
            0
        } else {
            event.data2
        };
        let rgb = self.colours[colour as usize];
        self.session_framebuffer[index as usize].palette(channel, rgb);
        self.render_index(index, out);
    }

    /// The mode takes the surface (see `DawView::enter`).
    pub fn on_enter(&mut self, out: &mut Vec<Output>)
        requires
            old(self)@.wf(),
        ensures
            final(self)@ == old(self)@.enter().0,
            views(final(out)@) == views(old(out)@) + old(self)@.enter().1,
            final(self)@.wf(),
    {
        if !profile::modern(self.model) {
            self.enabled = true;
        }
        self.visible = true;
        self.render(out);
    }

    /// The mode leaves the surface (see `DawView::exit`).
    pub fn on_exit(&mut self, out: &mut Vec<Output>)
        requires
            old(self)@.wf(),
        ensures
            final(self)@ == old(self)@.exit().0,
            views(final(out)@) == views(old(out)@) + old(self)@.exit().1,
            final(self)@.wf(),
    {
        self.release_all(out);
        self.stop();
        self.visible = false;
    }

    /// A MIDI message for the mode (see `receive_midi`).
    pub fn on_midi(&mut self, event: MidiEvent, out: &mut Vec<Output>)
        requires
            old(self)@.wf(),
        ensures
            final(self)@ == old(self)@.receive_midi(event).0,
            views(final(out)@) == views(old(out)@) + old(self)@.receive_midi(event).1,
            final(self)@.wf(),
    {
        self.receive_midi(event, out);
    }

    /// Pressure on a pad (see `DawView::aftertouch`); `mode` is the
    /// aftertouch setting.
    pub fn on_aftertouch(&self, event: AftertouchEvent, mode: u8, out: &mut Vec<Output>)
        requires
            self@.wf(),
        ensures
            views(final(out)@) == views(old(out)@) + self@.aftertouch(event, mode),
    {
        if self.page != Page::Session || self.bank.is_some() || !is_grid(event.index)
            || !self.held[event.index as usize] {
            assert(views(old(out)@) + seq![] =~= views(old(out)@));
            return;
        }
        let value = if event.value > 127 {
            127
        } else {
            event.value
        };
        if mode == 1 {
            let m = vec![0xa0, event.index, value];
            assert(m@ =~= seq![0xa0u8, event.index, value]);
            emit(out, Output::Midi(m));
        } else if mode == 2 {
            let m = vec![0xd0, value];
            assert(m@ =~= seq![0xd0u8, value]);
            emit(out, Output::Midi(m));
        } else {
            assert(views(old(out)@) + seq![] =~= views(old(out)@));
            return;
        }
        assert(views(final(out)@) =~= views(old(out)@) + self@.aftertouch(event, mode));
    }

    /// A press or release on the surface (see `DawView::surface`); `curved`
    /// is the velocity curve's output for the press when velocity
    /// sensitivity is on.
    pub fn on_surface(&mut self, event: SurfaceEvent, curved: Option<u8>, out: &mut Vec<Output>)
        requires
            old(self)@.wf(),
        ensures
            final(self)@ == old(self)@.surface(event, curved).0,
            views(final(out)@) == views(old(out)@) + old(self)@.surface(event, curved).1,
            final(self)@.wf(),
    {
        let ghost v0 = self@;
        let index = event.index;
        if !self.model.valid_index(index) {
            assert(views(old(out)@) + seq![] =~= views(old(out)@));
            return;
        }
        if !event.pressed {
            if self.held[index as usize] {
                self.send(index, 0, out);
                self.held[index as usize] = false;
                assert(views(final(out)@) =~= views(old(out)@) + seq![pad_message(v0.model, index, 0)]);
            } else {
                assert(views(old(out)@) + seq![] =~= views(old(out)@));
            }
            return;
        }
        if self.held[index as usize] {
            assert(views(old(out)@) + seq![] =~= views(old(out)@));
            return;
        }
        match profile::page_button(self.model, index) {
            Some(page) => {
                if page == Page::Session && !self.enabled {
                    assert(views(old(out)@) + seq![] =~= views(old(out)@));
                    return;
                }
                self.send(index, 127, out);
                self.held[index as usize] = true;
                assert(views(out@) =~= views(old(out)@) + seq![pad_message(v0.model, index, 127)]);
                if self.page != page {
                    self.select_page(page, out);
                }
                return;
            },
            None => {},
        }
        if !self.enabled {
            assert(views(old(out)@) + seq![] =~= views(old(out)@));
            return;
        }
        if self.page != Page::Session && !(self.model == Model::X && index == 98) {
            assert(views(old(out)@) + seq![] =~= views(old(out)@));
            return;
        }
        match self.bank {
            Some(bank) => {
                if is_grid(index) {
                    let mut b = self.banks[bank as usize];
                    proof {
                        assert(bank_ok(v0.banks[bank as int]));
                    }
                    let (fader, step): (u8, u8) = if b.horizontal {
                        (8 - index / 10, index % 10 - 1)
                    } else {
                        (index % 10 - 1, index / 10 - 1)
                    };
                    let mut f = b.faders[fader as usize];
                    let sent = f.press(step as usize, event.value);
                    b.faders[fader as usize] = f;
                    self.banks.set(bank as usize, b);
                    if sent {
                        let m = vec![if profile::modern(self.model) {
                            0xb4
                        } else {
                            0xb0
                        }, f.cc, f.value];
                        assert(m@ =~= seq![fader_status(v0.model), f.cc, f.value]);
                        emit(out, Output::Midi(m));
                    } else {
                        assert(views(old(out)@) + seq![] =~= views(old(out)@));
                    }
                    proof {
                        let bk = v0.banks[bank as int];
                        assert(b@.faders =~= bk.faders.update(fader as int, f));
                        assert(self@.banks =~= v0.banks.update(
                            bank as int,
                            BankView { faders: bk.faders.update(fader as int, f), ..bk },
                        ));
                        assert(views(out@) =~= views(old(out)@) + v0.surface(event, curved).1);
                        assert forall|k: int| 0 <= k < self@.banks.len() implies #[trigger] bank_ok(self@.banks[k]) by {
                            assert(bank_ok(v0.banks[k]));
                            if k == bank {
                                assert forall|j: int| 0 <= j < 8 implies #[trigger] fader_ok(self@.banks[k].faders[j]) by {
                                    assert(fader_ok(v0.banks[k].faders[j]));
                                }
                            }
                        }
                    }
                    return;
                }
            },
            None => {},
        }
        let velocity: u8 = match curved {
            None => 127,
            Some(v) => if v < 1 {
                1
            } else if v > 127 {
                127
            } else {
                v
            },
        };
        let value = if self.model.is_cc(index) {
            127
        } else {
            velocity
        };
        self.send(index, value, out);
        self.held[index as usize] = true;
        assert(views(out@) =~= views(old(out)@) + seq![pad_message(v0.model, index, value)]);
    }

    /// A tick of the animation clock (see `DawView::tick`).
    pub fn on_tick(&mut self, out: &mut Vec<Output>)
        requires
            old(self)@.wf(),
        ensures
            final(self)@ == old(self)@.tick().0,
            views(final(out)@) == views(old(out)@) + old(self)@.tick().1,
            final(self)@.wf(),
    {
        let ghost v0 = self@;
        if !self.visible {
            assert(views(old(out)@) + seq![] =~= views(old(out)@));
            return;
        }
        let bank = match self.bank {
            Some(b) => b,
            None => {
                assert(views(old(out)@) + seq![] =~= views(old(out)@));
                return;
            },
        };
        assert(views(old(out)@) + seq![] =~= views(old(out)@));
        let mut i: usize = 0;
        while i < 8
            invariant
                v0 == old(self)@,
                v0.wf(),
                v0.bank == Some(bank),
                i <= 8,
                self@ == v0.tick_faders(bank as int, i as int).0,
                self@.wf(),
                self@.model == v0.model,
                self@.colours == v0.colours,
                self@.bank == v0.bank,
                self@.banks[bank as int].horizontal == v0.banks[bank as int].horizontal,
                views(out@) == views(old(out)@) + v0.tick_faders(bank as int, i as int).1,
            decreases 8 - i,
        {
            let ghost w = self@;
            let ghost before = views(out@);
            let mut b = self.banks[bank as usize];
            proof {
                assert(bank_ok(w.banks[bank as int]));
                assert(fader_ok(w.banks[bank as int].faders[i as int]));
            }
            let mut f = b.faders[i];
            let ghost f0 = f;
            let moving = f.moving();
            let changed = f.tick();
            assert(f.cc == f0.cc && f.colour == f0.colour);
            b.faders[i] = f;
            self.banks.set(bank as usize, b);
            if changed {
                let m = vec![if profile::modern(self.model) {
                    0xb4
                } else {
                    0xb0
                }, f.cc, f.value];
                assert(m@ =~= seq![fader_status(v0.model), f.cc, f.value]);
                emit(out, Output::Midi(m));
                self.cc_values[f.cc as usize] = f.value;
            }
            let ghost after_sent = views(out@);
            proof {
                let bk = w.banks[bank as int];
                assert(b@.faders =~= bk.faders.update(i as int, f));
                assert(self@.banks =~= w.banks.update(
                    bank as int,
                    BankView { faders: bk.faders.update(i as int, f), ..bk },
                ));
                assert forall|k: int| 0 <= k < self@.banks.len() implies #[trigger] bank_ok(self@.banks[k]) by {
                    assert(bank_ok(w.banks[k]));
                    if k == bank {
                        assert forall|j: int| 0 <= j < 8 implies #[trigger] fader_ok(self@.banks[k].faders[j]) by {
                            assert(fader_ok(w.banks[k].faders[j]));
                        }
                    }
                }
                assert(fader_ok(self@.banks[bank as int].faders[i as int]));
            }
            if moving && f.animation_frame() {
                self.render_fader(b.horizontal, i, &f, out);
            } else {
                assert(after_sent =~= after_sent + seq![]);
            }
            i = i + 1;
            proof {
                assert(self@ == v0.tick_faders(bank as int, i as int).0);
                assert(views(out@) =~= views(old(out)@) + v0.tick_faders(bank as int, i as int).1);
            }
        }
    }
}

} // verus!
