//! Decoding of the Novation DAW SysEx protocol.
//!
//! A message is `F0 00 20 29 02 <product> <command> <payload...> F7`, with
//! every byte after the product a 7-bit data byte.

use vstd::prelude::*;
use vstd::slice::slice_subrange;
use crate::device::Model;
use crate::daw::profile;

verus! {

/// A decoded DAW command.  Payloads borrow from the message.
#[derive(Clone, Copy, Debug, PartialEq, Eq)]
pub enum Command<'a> {
    Performance,
    Enable(bool),
    Query(u8),
    Layout(u8, u8),
    Live(bool),
    Faders(u8, bool, &'a [u8]),
    LegacyFaders(&'a [u8]),
    Clear(bool, bool),
    SessionColours(u8, u8),
    Stop(u8),
    Lights(&'a [u8]),
    LegacyLights(u8, &'a [u8]),
}

/// A command with its payloads taken as byte sequences.
pub enum CommandView {
    Performance,
    Enable(bool),
    Query(u8),
    Layout(u8, u8),
    Live(bool),
    Faders(u8, bool, Seq<u8>),
    LegacyFaders(Seq<u8>),
    Clear(bool, bool),
    SessionColours(u8, u8),
    Stop(u8),
    Lights(Seq<u8>),
    LegacyLights(u8, Seq<u8>),
}

impl<'a> View for Command<'a> {
    type V = CommandView;

    open spec fn view(&self) -> CommandView {
        match *self {
            Command::Performance => CommandView::Performance,
            Command::Enable(b) => CommandView::Enable(b),
            Command::Query(c) => CommandView::Query(c),
            Command::Layout(l, p) => CommandView::Layout(l, p),
            Command::Live(b) => CommandView::Live(b),
            Command::Faders(b, h, e) => CommandView::Faders(b, h, e@),
            Command::LegacyFaders(e) => CommandView::LegacyFaders(e@),
            Command::Clear(n, c) => CommandView::Clear(n, c),
            Command::SessionColours(a, i) => CommandView::SessionColours(a, i),
            Command::Stop(b) => CommandView::Stop(b),
            Command::Lights(e) => CommandView::Lights(e@),
            Command::LegacyLights(c, e) => CommandView::LegacyLights(c, e@),
        }
    }
}

/// Every byte of `s` is at most `bound`.
pub open spec fn all_at_most(s: Seq<u8>, bound: u8) -> bool {
    forall|i: int| 0 <= i < s.len() ==> s[i] <= bound
}

/// The fixed header, the model's product byte, the closing F7, and 7-bit
/// bytes in between.
pub open spec fn well_framed(model: Model, data: Seq<u8>) -> bool {
    &&& data.len() >= 8
    &&& data[0] == 0xf0 && data[1] == 0 && data[2] == 0x20 && data[3] == 0x29 && data[4] == 2
    &&& Some(data[5]) == model.product()
    &&& data.last() == 0xf7
    &&& all_at_most(data.subrange(6, data.len() - 1), 127)
}

/// Fader entries: one to eight groups of four bytes `index, bipolar, cc,
/// colour`, with indices below 8, a 0/1 polarity, and no index twice.
pub open spec fn faders_valid_spec(e: Seq<u8>) -> bool {
    &&& 0 < e.len() <= 32
    &&& e.len() % 4 == 0
    &&& forall|i: int| 0 <= i < e.len() / 4 ==> #[trigger] e[4 * i] <= 7 && e[4 * i + 1] <= 1
    &&& forall|i: int, j: int|
        0 <= i < j < e.len() / 4 ==> #[trigger] e[4 * i] != #[trigger] e[4 * j]
}

/// The length of a light entry from its type byte: 0 and 2 take a palette
/// colour, 1 takes two, 3 takes red, green and blue.
pub open spec fn light_entry_len(kind: u8) -> Option<nat> {
    if kind == 0 || kind == 2 {
        Some(3)
    } else if kind == 1 {
        Some(4)
    } else if kind == 3 {
        Some(5)
    } else {
        None
    }
}

/// The number of light entries that `p` splits into exactly, if it does.
pub open spec fn light_entry_count(p: Seq<u8>) -> Option<nat>
    decreases p.len(),
{
    if p.len() == 0 {
        Some(0)
    } else {
        match light_entry_len(p[0]) {
            Some(len) => if p.len() < len {
                None
            } else {
                match light_entry_count(p.subrange(len as int, p.len() as int)) {
                    Some(n) => Some(n + 1),
                    None => None,
                }
            },
            None => None,
        }
    }
}

pub open spec fn lights_valid_spec(p: Seq<u8>, max: nat) -> bool {
    light_entry_count(p) matches Some(n) && 0 < n <= max
}

/// The layouts a DAW may select, by model; `page` is the Pro Mk3's sub-page.
#[verifier::allow_in_spec]
pub fn valid_layout(model: Model, layout: u8, page: u8) -> bool
    returns
        match model {
            Model::ProMk3 => if layout == 0 || layout == 2 || layout == 4 || layout == 0x11 {
                page == 0
            } else if layout == 1 || layout == 7 || layout == 0x0d {
                page < 4
            } else if layout == 3 {
                page < 8
            } else {
                false
            },
            Model::X => layout == 0 || layout == 1 || (4 <= layout <= 7) || layout == 0x0d
                || layout == 0x7f,
            Model::MiniMk3 => layout == 0 || (4 <= layout <= 6) || layout == 0x0d || layout
                == 0x7f,
            _ => false,
        },
{
    match model {
        Model::ProMk3 => {
            if layout == 0 || layout == 2 || layout == 4 || layout == 0x11 {
                page == 0
            } else if layout == 1 || layout == 7 || layout == 0x0d {
                page < 4
            } else if layout == 3 {
                page < 8
            } else {
                false
            }
        },
        Model::X => layout == 0 || layout == 1 || (4 <= layout && layout <= 7) || layout == 0x0d
            || layout == 0x7f,
        Model::MiniMk3 => layout == 0 || (4 <= layout && layout <= 6) || layout == 0x0d || layout
            == 0x7f,
        _ => false,
    }
}

/// The payload of a legacy RGB light message: groups of four bytes
/// `index, red, green, blue` with 6-bit colour components.
pub open spec fn legacy_rgb_entries_valid(e: Seq<u8>) -> bool {
    &&& e.len() > 0
    &&& e.len() % 4 == 0
    &&& forall|i: int| 0 <= i < e.len() && i % 4 != 0 ==> e[i] <= 63
}

/// A legacy palette light payload: one to 97 pairs `index, colour`.
pub open spec fn legacy_pairs_valid(e: Seq<u8>) -> bool {
    e.len() > 0 && e.len() <= 194 && e.len() % 2 == 0
}

/// The command in a current-generation message (Pro Mk3, X, Mini Mk3).
pub open spec fn decode_modern(model: Model, cmd: u8, p: Seq<u8>) -> Option<CommandView> {
    let n = p.len();
    if cmd == 0 && n == 3 && p[0] == 0x14 && p[1] == 0 && p[2] == 0 && model == Model::ProMk3 {
        Some(CommandView::Performance)
    } else if cmd == 0 && n == 1 && p[0] == 0x7e && (model == Model::X || model
        == Model::MiniMk3) {
        Some(CommandView::Performance)
    } else if cmd == 0x10 && n == 1 && p[0] <= 1 {
        Some(CommandView::Enable(p[0] != 0))
    } else if cmd == 0 && n == 0 {
        Some(CommandView::Query(cmd))
    } else if (cmd == 0x01 || cmd == 0x10 || cmd == 0x14 || cmd == 0x0e) && n == 0 && model
        != Model::ProMk3 {
        Some(CommandView::Query(cmd))
    } else if cmd == 0x0e && n == 1 && p[0] <= 1 {
        Some(CommandView::Live(p[0] == 0))
    } else if cmd == 0 && n == 3 && p[2] == 0 && model == Model::ProMk3 && valid_layout(
        model,
        p[0],
        p[1],
    ) {
        Some(CommandView::Layout(p[0], p[1]))
    } else if cmd == 0 && n == 1 && model != Model::ProMk3 && valid_layout(model, p[0], 0) {
        Some(CommandView::Layout(p[0], 0))
    } else if cmd == 0x01 && n >= 2 && (p[0] as int) < profile::banks(model) && p[1] <= 1
        && faders_valid_spec(p.subrange(2, n as int)) {
        Some(CommandView::Faders(p[0], p[1] != 0, p.subrange(2, n as int)))
    } else if cmd == 0x12 && n == 3 && model != Model::ProMk3 && p[0] <= 1 && p[1] <= 1 && p[2]
        <= 1 && (model != Model::MiniMk3 || p[1] == 0) {
        Some(CommandView::Clear(p[0] != 0, p[2] != 0))
    } else if cmd == 0x14 && n == 2 && model != Model::ProMk3 {
        Some(CommandView::SessionColours(p[0], p[1]))
    } else if cmd == 0x19 && n == 1 && model == Model::ProMk3 && p[0] < 4 {
        Some(CommandView::Stop(p[0]))
    } else if cmd == 0x03 && lights_valid_spec(
        p,
        if model == Model::ProMk3 {
            108
        } else {
            81
        },
    ) {
        Some(CommandView::Lights(p))
    } else {
        None
    }
}

/// The most RGB triples a legacy bulk light message may carry.
pub open spec fn legacy_bulk_max(model: Model, grid: u8) -> nat {
    if grid == 1 {
        192
    } else if model == Model::Mk2 {
        243
    } else {
        300
    }
}

/// The command in a message of the earlier protocol (Mk2 and Pro).
pub open spec fn decode_legacy(model: Model, cmd: u8, p: Seq<u8>) -> Option<CommandView> {
    let n = p.len();
    if cmd == 0x22 && n == 1 && ((model == Model::Pro && p[0] == 3) || (model == Model::Mk2
        && p[0] == 1)) {
        Some(CommandView::Performance)
    } else if model == Model::Pro && cmd == 0x22 && n == 1 && p[0] == 0 {
        Some(CommandView::Layout(0, 0))
    } else if model == Model::Mk2 && cmd == 0x22 && n == 1 && (p[0] == 0 || p[0] == 4 || p[0]
        == 5) {
        Some(CommandView::Layout(p[0], 0))
    } else if model == Model::Pro && cmd == 0x2c && n == 1 && (p[0] == 2 || p[0] == 3) {
        Some(CommandView::Layout(p[0], 0))
    } else if (model == Model::Mk2 || model == Model::Pro) && cmd == 0x2b && faders_valid_spec(
        p,
    ) {
        Some(CommandView::LegacyFaders(p))
    } else if cmd == 0x0a && legacy_pairs_valid(p) {
        Some(CommandView::LegacyLights(cmd, p))
    } else if model == Model::Pro && (cmd == 0x23 || cmd == 0x28) && legacy_pairs_valid(p) {
        Some(CommandView::LegacyLights(cmd, p))
    } else if cmd == 0x0b && legacy_rgb_entries_valid(p) {
        Some(CommandView::LegacyLights(cmd, p))
    } else if (cmd == 0x0c || cmd == 0x0d) && n >= 2 && p[0] <= 9 && n - 1 <= 10 {
        Some(CommandView::LegacyLights(cmd, p))
    } else if cmd == 0x0e && n == 1 {
        Some(CommandView::LegacyLights(cmd, p))
    } else if cmd == 0x0f && n >= 2 && p[0] <= 1 && (n - 1) % 3 == 0 && n - 1 <= legacy_bulk_max(
        model,
        p[0],
    ) && all_at_most(p.subrange(1, n as int), 63) {
        Some(CommandView::LegacyLights(cmd, p))
    } else {
        None
    }
}

/// The command a message carries for a model, if it is a well-formed DAW
/// message for that model.
pub open spec fn decode_spec(model: Model, data: Seq<u8>) -> Option<CommandView> {
    if !well_framed(model, data) {
        None
    } else {
        let cmd = data[6];
        let p = data.subrange(7, data.len() - 1);
        if profile::modern(model) {
            decode_modern(model, cmd, p)
        } else {
            decode_legacy(model, cmd, p)
        }
    }
}

fn all_bytes_at_most(s: &[u8], bound: u8) -> (r: bool)
    ensures
        r == all_at_most(s@, bound),
{
    let mut i: usize = 0;
    while i < s.len()
        invariant
            i <= s@.len(),
            forall|k: int| 0 <= k < i ==> s@[k] <= bound,
        decreases s@.len() - i,
    {
        if s[i] > bound {
            return false;
        }
        i = i + 1;
    }
    true
}

fn frame_ok(model: Model, data: &[u8]) -> (r: bool)
    ensures
        r == well_framed(model, data@),
{
    let n = data.len();
    if n < 8 {
        return false;
    }
    if data[0] != 0xf0 || data[1] != 0 || data[2] != 0x20 || data[3] != 0x29 || data[4] != 2 {
        return false;
    }
    match model.product() {
        Some(product) => {
            if data[5] != product {
                return false;
            }
        },
        None => {
            return false;
        },
    }
    if data[n - 1] != 0xf7 {
        return false;
    }
    all_bytes_at_most(slice_subrange(data, 6, n - 1), 127)
}

/// Decodes a DAW SysEx message for `model`.
pub fn decode<'a>(model: Model, data: &'a [u8]) -> (r: Option<Command<'a>>)
    ensures
        r matches Some(c) ==> decode_spec(model, data@) == Some(c@),
        r is None ==> decode_spec(model, data@) is None,
{
    if !frame_ok(model, data) {
        return None;
    }
    let cmd = data[6];
    let p = slice_subrange(data, 7, data.len() - 1);
    if profile::modern(model) {
        decode_modern_exec(model, cmd, p)
    } else {
        decode_legacy_exec(model, cmd, p)
    }
}

fn decode_modern_exec<'a>(model: Model, cmd: u8, p: &'a [u8]) -> (r: Option<Command<'a>>)
    ensures
        r matches Some(c) ==> decode_modern(model, cmd, p@) == Some(c@),
        r is None ==> decode_modern(model, cmd, p@) is None,
{
    let n = p.len();
    if cmd == 0 && n == 3 && p[0] == 0x14 && p[1] == 0 && p[2] == 0 && model == Model::ProMk3 {
        Some(Command::Performance)
    } else if cmd == 0 && n == 1 && p[0] == 0x7e && (model == Model::X || model
        == Model::MiniMk3) {
        Some(Command::Performance)
    } else if cmd == 0x10 && n == 1 && p[0] <= 1 {
        Some(Command::Enable(p[0] != 0))
    } else if cmd == 0 && n == 0 {
        Some(Command::Query(cmd))
    } else if (cmd == 0x01 || cmd == 0x10 || cmd == 0x14 || cmd == 0x0e) && n == 0 && model
        != Model::ProMk3 {
        Some(Command::Query(cmd))
    } else if cmd == 0x0e && n == 1 && p[0] <= 1 {
        Some(Command::Live(p[0] == 0))
    } else if cmd == 0 && n == 3 && p[2] == 0 && model == Model::ProMk3 && valid_layout(
        model,
        p[0],
        p[1],
    ) {
        Some(Command::Layout(p[0], p[1]))
    } else if cmd == 0 && n == 1 && model != Model::ProMk3 && valid_layout(model, p[0], 0) {
        Some(Command::Layout(p[0], 0))
    } else if cmd == 0x01 && n >= 2 && (p[0] as usize) < profile::banks(model) && p[1] <= 1
        && faders_valid(slice_subrange(p, 2, n)) {
        Some(Command::Faders(p[0], p[1] != 0, slice_subrange(p, 2, n)))
    } else if cmd == 0x12 && n == 3 && model != Model::ProMk3 && p[0] <= 1 && p[1] <= 1 && p[2]
        <= 1 && (model != Model::MiniMk3 || p[1] == 0) {
        Some(Command::Clear(p[0] != 0, p[2] != 0))
    } else if cmd == 0x14 && n == 2 && model != Model::ProMk3 {
        Some(Command::SessionColours(p[0], p[1]))
    } else if cmd == 0x19 && n == 1 && model == Model::ProMk3 && p[0] < 4 {
        Some(Command::Stop(p[0]))
    } else if cmd == 0x03 && lights_valid(
        p,
        if model == Model::ProMk3 {
            108
        } else {
            81
        },
    ) {
        Some(Command::Lights(p))
    } else {
        None
    }
}

fn legacy_rgb_entries_ok(e: &[u8]) -> (r: bool)
    ensures
        r == legacy_rgb_entries_valid(e@),
{
    if e.len() == 0 || e.len() % 4 != 0 {
        return false;
    }
    let mut i: usize = 0;
    while i < e.len()
        invariant
            i <= e@.len(),
            forall|k: int| 0 <= k < i && k % 4 != 0 ==> e@[k] <= 63,
        decreases e@.len() - i,
    {
        if i % 4 != 0 && e[i] > 63 {
            return false;
        }
        i = i + 1;
    }
    true
}

fn decode_legacy_exec<'a>(model: Model, cmd: u8, p: &'a [u8]) -> (r: Option<Command<'a>>)
    ensures
        r matches Some(c) ==> decode_legacy(model, cmd, p@) == Some(c@),
        r is None ==> decode_legacy(model, cmd, p@) is None,
{
    let n = p.len();
    let pairs_ok = n > 0 && n <= 194 && n % 2 == 0;
    if cmd == 0x22 && n == 1 && ((model == Model::Pro && p[0] == 3) || (model == Model::Mk2
        && p[0] == 1)) {
        Some(Command::Performance)
    } else if model == Model::Pro && cmd == 0x22 && n == 1 && p[0] == 0 {
        Some(Command::Layout(0, 0))
    } else if model == Model::Mk2 && cmd == 0x22 && n == 1 && (p[0] == 0 || p[0] == 4 || p[0]
        == 5) {
        Some(Command::Layout(p[0], 0))
    } else if model == Model::Pro && cmd == 0x2c && n == 1 && (p[0] == 2 || p[0] == 3) {
        Some(Command::Layout(p[0], 0))
    } else if (model == Model::Mk2 || model == Model::Pro) && cmd == 0x2b && faders_valid(p) {
        Some(Command::LegacyFaders(p))
    } else if cmd == 0x0a && pairs_ok {
        Some(Command::LegacyLights(cmd, p))
    } else if model == Model::Pro && (cmd == 0x23 || cmd == 0x28) && pairs_ok {
        Some(Command::LegacyLights(cmd, p))
    } else if cmd == 0x0b && legacy_rgb_entries_ok(p) {
        Some(Command::LegacyLights(cmd, p))
    } else if (cmd == 0x0c || cmd == 0x0d) && n >= 2 && p[0] <= 9 && n - 1 <= 10 {
        Some(Command::LegacyLights(cmd, p))
    } else if cmd == 0x0e && n == 1 {
        Some(Command::LegacyLights(cmd, p))
    } else if cmd == 0x0f && n >= 2 && p[0] <= 1 && (n - 1) % 3 == 0 && n - 1 <= (if p[0] == 1 {
        192
    } else if model == Model::Mk2 {
        243
    } else {
        300
    }) && all_bytes_at_most(slice_subrange(p, 1, n), 63) {
        Some(Command::LegacyLights(cmd, p))
    } else {
        None
    }
}

/// Checks a fader payload (see `faders_valid_spec`).
pub fn faders_valid(entries: &[u8]) -> (r: bool)
    ensures
        r == faders_valid_spec(entries@),
{
    let n = entries.len();
    if n == 0 || n > 32 || n % 4 != 0 {
        return false;
    }
    let mut seen = [false; 8];
    let mut i: usize = 0;
    while i < n / 4
        invariant
            n == entries@.len(),
            0 < n <= 32,
            n % 4 == 0,
            i <= n / 4,
            forall|k: int| 0 <= k < i ==> #[trigger] entries@[4 * k] <= 7 && entries@[4 * k + 1] <= 1,
            forall|k: int, j: int|
                0 <= k < j < i ==> #[trigger] entries@[4 * k] != #[trigger] entries@[4 * j],
            forall|v: int| 0 <= v < 8 ==> (seen@[v] <==> exists|k: int| 0 <= k < i && #[trigger] entries@[4 * k] == v),
        decreases n / 4 - i,
    {
        let index = entries[4 * i];
        if index > 7 || entries[4 * i + 1] > 1 {
            return false;
        }
        if seen[index as usize] {
            assert(exists|k: int| 0 <= k < i && #[trigger] entries@[4 * k] == index);
            return false;
        }
        seen[index as usize] = true;
        i = i + 1;
        assert forall|v: int| 0 <= v < 8 implies (seen@[v] <==> exists|k: int| 0 <= k < i && #[trigger] entries@[4 * k] == v) by {
            if v == index as int {
                assert(entries@[4 * (i - 1)] == v);
            }
        }
    }
    true
}

/// Checks a light payload: it splits exactly into 1..=`max` entries.
pub fn lights_valid(p: &[u8], max: usize) -> (r: bool)
    ensures
        r == lights_valid_spec(p@, max as nat),
{
    let mut rest = p;
    let mut count: usize = 0;
    let total = p.len();
    while rest.len() > 0
        invariant
            total == p@.len(),
            rest@.len() <= p@.len(),
            count <= p@.len() - rest@.len(),
            light_entry_count(p@) == (match light_entry_count(rest@) {
                Some(m) => Some((m + count) as nat),
                None => None::<nat>,
            }),
        decreases rest@.len(),
    {
        let len: usize = if rest[0] == 0 || rest[0] == 2 {
            3
        } else if rest[0] == 1 {
            4
        } else if rest[0] == 3 {
            5
        } else {
            return false;
        };
        if rest.len() < len {
            return false;
        }
        rest = slice_subrange(rest, len, rest.len());
        count = count + 1;
    }
    count > 0 && count <= max
}

/// The bytes a command carries, if it carries any.
pub open spec fn payload(c: CommandView) -> Seq<u8> {
    match c {
        CommandView::Faders(_, _, e) => e,
        CommandView::LegacyFaders(e) => e,
        CommandView::Lights(e) => e,
        CommandView::LegacyLights(_, e) => e,
        _ => seq![],
    }
}

/// What a decoded command carries are data bytes of the message.
pub proof fn lemma_payload_is_data(model: Model, data: Seq<u8>)
    requires
        decode_spec(model, data) is Some,
    ensures
        all_at_most(payload(decode_spec(model, data).unwrap()), 127),
{
    let body = data.subrange(6, data.len() - 1);
    let p = data.subrange(7, data.len() - 1);
    assert forall|i: int| 0 <= i < p.len() implies p[i] <= 127 by {
        assert(p[i] == body[i + 1]);
    }
    let c = decode_spec(model, data).unwrap();
    let e = payload(c);
    if e.len() > 0 && e != p {
        assert(e == p.subrange(2, p.len() as int));
        assert forall|i: int| 0 <= i < e.len() implies e[i] <= 127 by {
            assert(e[i] == p[i + 2]);
        }
    }
}

/// A DAW message for a model: the header, the model's product byte, the
/// command byte, the payload and F7.
pub open spec fn daw_message(product: u8, cmd: u8, p: Seq<u8>) -> Seq<u8> {
    seq![0xf0u8, 0u8, 0x20u8, 0x29u8, 2u8, product, cmd] + p + seq![0xf7u8]
}

/// On the Launchpad Pro, the palette light commands (0x0a set, 0x23 flash,
/// 0x28 pulse) with 1 to 97 `index, colour` pairs of 7-bit bytes are always
/// understood, and carry their pairs.
pub proof fn lemma_pro_palette_lights_decode(cmd: u8, p: Seq<u8>)
    requires
        cmd == 0x0a || cmd == 0x23 || cmd == 0x28,
        p.len() % 2 == 0,
        0 < p.len() <= 194,
        all_at_most(p, 127),
    ensures
        decode_spec(Model::Pro, daw_message(0x10, cmd, p)) matches Some(
            CommandView::LegacyLights(c, q),
        ) && c == cmd && q == p,
{
    let data = daw_message(0x10, cmd, p);
    let n = data.len() as int;
    assert(data.subrange(7, n - 1) =~= p);
    assert(data.subrange(6, n - 1) =~= seq![cmd] + p);
    assert(data.last() == 0xf7);
    assert(all_at_most(data.subrange(6, n - 1), 127)) by {
        let b = data.subrange(6, n - 1);
        assert forall|i: int| 0 <= i < b.len() implies b[i] <= 127 by {
            if i > 0 {
                assert(b[i] == p[i - 1]);
            }
        }
    }
}

proof fn lemma_daw_message_frame(model: Model, cmd: u8, p: Seq<u8>)
    requires
        model.product() is Some,
        cmd <= 127,
        all_at_most(p, 127),
    ensures
        ({
            let data = daw_message(model.product().unwrap(), cmd, p);
            decode_spec(model, data) == if profile::modern(model) {
                decode_modern(model, cmd, p)
            } else {
                decode_legacy(model, cmd, p)
            }
        }),
{
    let data = daw_message(model.product().unwrap(), cmd, p);
    let n = data.len() as int;
    assert(data.subrange(7, n - 1) =~= p);
    assert(data.subrange(6, n - 1) =~= seq![cmd] + p);
    assert(data.last() == 0xf7);
    assert(all_at_most(data.subrange(6, n - 1), 127)) by {
        let b = data.subrange(6, n - 1);
        assert forall|i: int| 0 <= i < b.len() implies b[i] <= 127 by {
            if i > 0 {
                assert(b[i] == p[i - 1]);
            }
        }
    }
}

/// The commands that every current-generation model understands: enabling
/// (0x10), live mode (0x0e, where 0 turns it on), Session colours (0x14, not
/// on the Pro Mk3), stopping a fader bank (0x19, Pro Mk3 banks 0 to 3) and
/// selecting a layout the model has (0x00).
pub proof fn lemma_modern_commands_decode(model: Model, a: u8, b: u8)
    requires
        profile::modern(model),
        a <= 127,
        b <= 127,
    ensures
        ({
            let pr = model.product().unwrap();
            &&& a <= 1 ==> (decode_spec(model, daw_message(pr, 0x10, seq![a])) matches Some(
                CommandView::Enable(on),
            ) && on == (a == 1))
            &&& a <= 1 ==> (decode_spec(model, daw_message(pr, 0x0e, seq![a])) matches Some(
                CommandView::Live(on),
            ) && on == (a == 0))
            &&& model != Model::ProMk3 ==> (decode_spec(model, daw_message(pr, 0x14, seq![a, b]))
                matches Some(CommandView::SessionColours(x, y)) && x == a && y == b)
            &&& model == Model::ProMk3 && a < 4 ==> (decode_spec(
                model,
                daw_message(pr, 0x19, seq![a]),
            ) matches Some(CommandView::Stop(x)) && x == a)
            &&& model == Model::ProMk3 && valid_layout(model, a, b) ==> (decode_spec(
                model,
                daw_message(pr, 0, seq![a, b, 0u8]),
            ) matches Some(CommandView::Layout(x, y)) && x == a && y == b)
            &&& model != Model::ProMk3 && valid_layout(model, a, 0) ==> (decode_spec(
                model,
                daw_message(pr, 0, seq![a]),
            ) matches Some(CommandView::Layout(x, y)) && x == a && y == 0)
        }),
{
    lemma_daw_message_frame(model, 0x10, seq![a]);
    lemma_daw_message_frame(model, 0x0e, seq![a]);
    lemma_daw_message_frame(model, 0x14, seq![a, b]);
    lemma_daw_message_frame(model, 0x19, seq![a]);
    lemma_daw_message_frame(model, 0, seq![a, b, 0u8]);
    lemma_daw_message_frame(model, 0, seq![a]);
}

} // verus!
