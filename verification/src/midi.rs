//! MIDI ports and events, and the USB MIDI 1.0 framing of MIDI messages:
//! 4-byte packets whose first byte holds the cable number (high nibble) and
//! the code index number (low nibble).

use vstd::prelude::*;
use vstd::slice::slice_subrange;

verus! {

/// The longest SysEx message that is assembled, in bytes.
pub const SYSEX_MAX_LEN: usize = 600;

/// The most USB MIDI packets sent in one transfer.
pub const MIDI_TX_MAX_PACKET_COUNT: usize = 32;

/// A MIDI port of the device; its USB cable numbers are 0, 1 and 2.
#[derive(Clone, Copy, Debug, PartialEq, Eq, Structural)]
pub enum MidiPort {
    Daw,
    Midi,
    Din,
}

/// The USB cable number of a port.
pub open spec fn cable_of(port: MidiPort) -> int {
    match port {
        MidiPort::Daw => 0,
        MidiPort::Midi => 1,
        MidiPort::Din => 2,
    }
}

/// The port on a USB cable number, if any.
pub open spec fn port_of_cable(cable: int) -> Option<MidiPort> {
    if cable == 0 {
        Some(MidiPort::Daw)
    } else if cable == 1 {
        Some(MidiPort::Midi)
    } else if cable == 2 {
        Some(MidiPort::Din)
    } else {
        None
    }
}

/// A short MIDI message received on a port.
#[derive(Clone, Copy, Debug, PartialEq, Eq, Structural)]
pub struct MidiEvent {
    pub port: MidiPort,
    pub status: u8,
    pub data1: u8,
    pub data2: u8,
}

/// A USB MIDI event packet.
#[derive(Copy, Clone)]
pub struct UsbMidiPacket {
    pub data: [u8; 4],
}

impl UsbMidiPacket {
    pub fn empty() -> (p: Self)
        ensures
            p.data@ == seq![0u8, 0u8, 0u8, 0u8],
    {
        let p = Self { data: [0; 4] };
        assert(p.data@ =~= seq![0u8, 0u8, 0u8, 0u8]);
        p
    }
}

/// A complete SysEx message: the first `len` bytes of `data`, from F0 to F7.
#[derive(Copy, Clone)]
pub struct SysexMessage {
    pub port: MidiPort,
    pub len: usize,
    pub data: [u8; SYSEX_MAX_LEN],
}

impl SysexMessage {
    pub fn empty() -> (m: Self)
        ensures
            m.port == MidiPort::Daw,
            m.len == 0,
            forall|i: int| 0 <= i < SYSEX_MAX_LEN ==> m.data@[i] == 0,
    {
        Self { port: MidiPort::Daw, len: 0, data: [0; SYSEX_MAX_LEN] }
    }
}

/// The assembly state of one cable: whether a message is open, how many of
/// its bytes have been stored, and the buffer they are stored in.
pub struct CableState {
    pub active: bool,
    pub len: nat,
    pub buf: Seq<u8>,
}

/// The state of a cable after one byte, and the message it completes, as
/// its length and the buffer holding it.  Real-time bytes (F8..FF) pass by;
/// F0 opens a message; a status byte other than F0 and F7, or a byte that
/// does not fit, drops the open message; F7 completes it.
pub open spec fn receive_byte(c: CableState, byte: u8) -> (CableState, Option<(nat, Seq<u8>)>) {
    if byte >= 0xf8 {
        (c, None)
    } else {
        let c = if byte == 0xf0 {
            CableState { active: true, len: 0, buf: c.buf }
        } else {
            c
        };
        if !c.active {
            (c, None)
        } else if c.len == SYSEX_MAX_LEN || (byte >= 0x80 && byte != 0xf0 && byte != 0xf7) {
            (CableState { active: false, len: 0, buf: c.buf }, None)
        } else {
            let buf = c.buf.update(c.len as int, byte);
            let len = c.len + 1;
            if byte == 0xf7 {
                (CableState { active: false, len: 0, buf }, Some((len, buf)))
            } else {
                (CableState { active: true, len, buf }, None)
            }
        }
    }
}

/// Feeds bytes to a cable until one of them completes a message; the bytes
/// after that one are not looked at.
pub open spec fn receive_bytes(c: CableState, bytes: Seq<u8>) -> (CableState, Option<(nat, Seq<u8>)>)
    decreases bytes.len(),
{
    if bytes.len() == 0 {
        (c, None)
    } else {
        let (c1, m) = receive_byte(c, bytes[0]);
        if m is Some {
            (c1, m)
        } else {
            receive_bytes(c1, bytes.subrange(1, bytes.len() as int))
        }
    }
}

/// Assembles SysEx messages from the bytes of USB MIDI packets, per cable.
pub struct SysexReceiver {
    buf: [[u8; SYSEX_MAX_LEN]; 3],
    len: [usize; 3],
    active: [bool; 3],
}

impl View for SysexReceiver {
    type V = Seq<CableState>;

    closed spec fn view(&self) -> Seq<CableState> {
        Seq::new(
            3,
            |i: int|
                CableState { active: self.active@[i], len: self.len@[i] as nat, buf: self.buf@[i]@ },
        )
    }
}

impl SysexReceiver {
    closed spec fn lens_ok(self) -> bool {
        forall|i: int| 0 <= i < 3 ==> self.len@[i] <= SYSEX_MAX_LEN
    }

    /// Every cable is well kept (see `cable_ok`): no more than
    /// `SYSEX_MAX_LEN` bytes stored, and an open message holds F0 followed by
    /// data bytes.
    pub closed spec fn valid(self) -> bool {
        &&& self.lens_ok()
        &&& forall|i: int| 0 <= i < 3 ==> #[trigger] cable_ok(self@[i])
    }

    /// What `valid` says of the cables' states.
    pub proof fn lemma_valid(&self)
        requires
            self.valid(),
        ensures
            self@.len() == 3,
            forall|i: int|
                0 <= i < 3 ==> #[trigger] self@[i].len <= SYSEX_MAX_LEN && self@[i].buf.len()
                    == SYSEX_MAX_LEN,
            forall|i: int| 0 <= i < 3 ==> #[trigger] cable_ok(self@[i]),
    {
    }

    pub fn new() -> (r: Self)
        ensures
            r.valid(),
            r@.len() == 3,
            forall|i: int| 0 <= i < 3 ==> cable_ok(#[trigger] r@[i]),
            forall|i: int|
                0 <= i < 3 ==> !(#[trigger] r@[i]).active && r@[i].len == 0 && r@[i].buf
                    == Seq::new(SYSEX_MAX_LEN as nat, |k: int| 0u8),
    {
        let r = Self { buf: [[0; SYSEX_MAX_LEN]; 3], len: [0; 3], active: [false; 3] };
        assert forall|i: int| 0 <= i < 3 implies r@[i].buf == Seq::new(
            SYSEX_MAX_LEN as nat,
            |k: int| 0u8,
        ) by {
            assert(r@[i].buf =~= Seq::new(SYSEX_MAX_LEN as nat, |k: int| 0u8));
        }
        r
    }

    /// Feeds the bytes of one packet to the cable of `port`; returns the
    /// message that one of them completes.
    fn receive(&mut self, port: MidiPort, bytes: &[u8]) -> (r: Option<SysexMessage>)
        requires
            old(self).valid(),
        ensures
            final(self).valid(),
            ({
                let (c, m) = receive_bytes(old(self)@[cable_of(port)], bytes@);
                &&& final(self)@ == old(self)@.update(cable_of(port), c)
                &&& match (r, m) {
                    (None, None) => true,
                    (Some(msg), Some((len, buf))) => msg.port == port && msg.len == len
                        && msg.data@ == buf,
                    _ => false,
                }
            }),
            r matches Some(msg) ==> msg.len <= SYSEX_MAX_LEN && is_sysex_message(
                msg.data@.subrange(0, msg.len as int),
            ) && !final(self)@[cable_of(port)].active,
    {
        let cable: usize = match port {
            MidiPort::Daw => 0,
            MidiPort::Midi => 1,
            MidiPort::Din => 2,
        };
        let ghost c0 = self@[cable as int];
        let mut i: usize = 0;
        assert(bytes@.subrange(0, bytes@.len() as int) =~= bytes@);
        assert(forall|k: int| 0 <= k < 3 ==> #[trigger] cable_ok(old(self)@[k]));
        while i < bytes.len()
            invariant
                cable as int == cable_of(port),
                self.lens_ok(),
                forall|k: int| 0 <= k < 3 ==> #[trigger] cable_ok(old(self)@[k]),
                i <= bytes@.len(),
                forall|k: int| 0 <= k < 3 && k != cable ==> self@[k] == old(self)@[k],
                receive_bytes(c0, bytes@) == receive_bytes(
                    self@[cable as int],
                    bytes@.subrange(i as int, bytes@.len() as int),
                ),
                c0 == old(self)@[cable as int],
            decreases bytes@.len() - i,
        {
            let ghost before = self@[cable as int];
            let ghost rest = bytes@.subrange(i as int, bytes@.len() as int);
            assert(rest.subrange(1, rest.len() as int) =~= bytes@.subrange(i + 1, bytes@.len() as int));
            let byte = bytes[i];
            i = i + 1;
            if byte >= 0xf8 {
                continue;
            }
            if byte == 0xf0 {
                self.len[cable] = 0;
                self.active[cable] = true;
            }
            if !self.active[cable] {
                continue;
            }
            if self.len[cable] == SYSEX_MAX_LEN || (byte >= 0x80 && byte != 0xf0 && byte != 0xf7) {
                self.active[cable] = false;
                self.len[cable] = 0;
                continue;
            }
            let n = self.len[cable];
            self.buf[cable][n] = byte;
            self.len[cable] = n + 1;
            if byte == 0xf7 {
                let msg = SysexMessage { port, len: self.len[cable], data: self.buf[cable] };
                self.active[cable] = false;
                self.len[cable] = 0;
                proof {
                    assert(self@ =~= old(self)@.update(cable as int, receive_byte(before, byte).0));
                    lemma_receive_keeps_framing(c0, bytes@);
                    assert(cable_ok(old(self)@[cable as int]));
                    assert forall|k: int| 0 <= k < 3 implies #[trigger] cable_ok(self@[k]) by {
                        if k != cable {
                            assert(cable_ok(old(self)@[k]));
                        }
                    }
                }
                return Some(msg);
            }
        }
        proof {
            assert(bytes@.subrange(i as int, bytes@.len() as int) =~= Seq::<u8>::empty());
            assert(self@ =~= old(self)@.update(cable as int, self@[cable as int]));
            assert(cable_ok(old(self)@[cable as int]));
            lemma_receive_keeps_framing(c0, bytes@);
            assert forall|k: int| 0 <= k < 3 implies #[trigger] cable_ok(self@[k]) by {
                if k != cable {
                    assert(cable_ok(old(self)@[k]));
                }
            }
        }
        None
    }
}

/// What one USB MIDI packet delivers: a short message, or a SysEx message
/// that its bytes complete.
#[derive(Copy, Clone)]
pub enum UsbMidiInput {
    Midi(MidiEvent),
    Sysex(SysexMessage),
}

/// The port that a packet's cable number names, if any.
pub open spec fn packet_port(packet: Seq<u8>) -> Option<MidiPort> {
    port_of_cable(packet[0] as int / 16)
}

/// The code index number of a packet.
pub open spec fn packet_cin(packet: Seq<u8>) -> int {
    packet[0] as int % 16
}

/// How many SysEx bytes a packet with code index number `cin` (4 to 7) carries.
pub open spec fn sysex_byte_count(cin: int) -> int {
    if cin == 5 {
        1
    } else if cin == 6 {
        2
    } else {
        3
    }
}

/// What a packet delivers, as values: an event, or a SysEx message as its
/// port, its length and the buffer holding it.
pub enum UsbMidiInputView {
    Midi(MidiEvent),
    Sysex(MidiPort, nat, Seq<u8>),
}

pub open spec fn input_view(r: Option<UsbMidiInput>) -> Option<UsbMidiInputView> {
    match r {
        Some(UsbMidiInput::Midi(e)) => Some(UsbMidiInputView::Midi(e)),
        Some(UsbMidiInput::Sysex(m)) => Some(UsbMidiInputView::Sysex(m.port, m.len as nat, m.data@)),
        None => None,
    }
}

/// The receiver's cables after a packet, and what the packet delivers
/// (see `parse_usb_midi_packet`).
pub open spec fn parse_packet(packet: Seq<u8>, rx: Seq<CableState>) -> (Seq<CableState>, Option<
    UsbMidiInputView,
>) {
    if packet.len() < 4 {
        (rx, None)
    } else {
        match packet_port(packet) {
            None => (rx, None),
            Some(port) => {
                let cin = packet_cin(packet);
                if 4 <= cin <= 7 {
                    let (c, m) = receive_bytes(
                        rx[cable_of(port)],
                        packet.subrange(1, 1 + sysex_byte_count(cin)),
                    );
                    (
                        rx.update(cable_of(port), c),
                        match m {
                            Some((len, buf)) => Some(UsbMidiInputView::Sysex(port, len, buf)),
                            None => None,
                        },
                    )
                } else if 8 <= cin <= 14 {
                    (
                        rx,
                        Some(
                            UsbMidiInputView::Midi(
                                MidiEvent {
                                    port,
                                    status: packet[1],
                                    data1: packet[2],
                                    data2: packet[3],
                                },
                            ),
                        ),
                    )
                } else if cin == 15 && packet[1] != 0 {
                    (
                        rx,
                        Some(
                            UsbMidiInputView::Midi(
                                MidiEvent { port, status: packet[1], data1: 0, data2: 0 },
                            ),
                        ),
                    )
                } else {
                    (rx, None)
                }
            },
        }
    }
}

/// Interprets one USB MIDI packet received from the host: SysEx packets
/// (code index 4 to 7) go to the receiver, channel messages (8 to 14) and
/// single bytes (15) become events.  Packets that are short, that name an
/// unknown cable, or that carry other code indices deliver nothing.
pub fn parse_usb_midi_packet(packet: &[u8], sysex_rx: &mut SysexReceiver) -> (r: Option<
    UsbMidiInput,
>)
    requires
        old(sysex_rx).valid(),
    ensures
        final(sysex_rx).valid(),
        (final(sysex_rx)@, input_view(r)) == parse_packet(packet@, old(sysex_rx)@),
        input_view(r) matches Some(UsbMidiInputView::Sysex(_, len, buf)) ==> len <= SYSEX_MAX_LEN
            && is_sysex_message(buf.subrange(0, len as int)),
{
    if packet.len() < 4 {
        return None;
    }
    let head = packet[0];
    let cin = head & 0x0f;
    let cable = head >> 4;
    assert(cin == head % 16 && cable == head / 16) by (bit_vector)
        requires
            cin == head & 0x0f,
            cable == head >> 4,
    ;
    let port = match cable {
        0 => MidiPort::Daw,
        1 => MidiPort::Midi,
        2 => MidiPort::Din,
        _ => {
            return None;
        },
    };
    if 0x4 <= cin && cin <= 0x7 {
        let count: usize = if cin == 0x5 {
            1
        } else if cin == 0x6 {
            2
        } else {
            3
        };
        match sysex_rx.receive(port, slice_subrange(packet, 1, 1 + count)) {
            Some(msg) => Some(UsbMidiInput::Sysex(msg)),
            None => None,
        }
    } else if 0x8 <= cin && cin <= 0xe {
        Some(
            UsbMidiInput::Midi(
                MidiEvent { port, status: packet[1], data1: packet[2], data2: packet[3] },
            ),
        )
    } else if cin == 0xf && packet[1] != 0 {
        Some(UsbMidiInput::Midi(MidiEvent { port, status: packet[1], data1: 0, data2: 0 }))
    } else {
        None
    }
}

/// The code index number and the length of a short message, by its status byte.
#[verifier::allow_in_spec]
pub fn short_message_format(status: u8) -> Option<(u8, usize)>
    returns
        if 0x80 <= status <= 0x8f {
            Some((0x8u8, 3usize))
        } else if 0x90 <= status <= 0x9f {
            Some((0x9u8, 3usize))
        } else if 0xa0 <= status <= 0xaf {
            Some((0xau8, 3usize))
        } else if 0xb0 <= status <= 0xbf {
            Some((0xbu8, 3usize))
        } else if 0xc0 <= status <= 0xcf {
            Some((0xcu8, 2usize))
        } else if 0xd0 <= status <= 0xdf {
            Some((0xdu8, 2usize))
        } else if 0xe0 <= status <= 0xef {
            Some((0xeu8, 3usize))
        } else if status == 0xf1 || status == 0xf3 {
            Some((0x2u8, 2usize))
        } else if status == 0xf2 {
            Some((0x3u8, 3usize))
        } else if status == 0xf6 {
            Some((0x5u8, 1usize))
        } else if status >= 0xf8 {
            Some((0xfu8, 1usize))
        } else {
            None
        },
{
    if 0x80 <= status && status <= 0x8f {
        Some((0x8, 3))
    } else if 0x90 <= status && status <= 0x9f {
        Some((0x9, 3))
    } else if 0xa0 <= status && status <= 0xaf {
        Some((0xa, 3))
    } else if 0xb0 <= status && status <= 0xbf {
        Some((0xb, 3))
    } else if 0xc0 <= status && status <= 0xcf {
        Some((0xc, 2))
    } else if 0xd0 <= status && status <= 0xdf {
        Some((0xd, 2))
    } else if 0xe0 <= status && status <= 0xef {
        Some((0xe, 3))
    } else if status == 0xf1 || status == 0xf3 {
        Some((0x2, 2))
    } else if status == 0xf2 {
        Some((0x3, 3))
    } else if status == 0xf6 {
        Some((0x5, 1))
    } else if status >= 0xf8 {
        Some((0xf, 1))
    } else {
        None
    }
}

/// The first byte of every packet sent on `port`: the cable number (the
/// port's low nibble) in the high nibble.
pub open spec fn cable_byte(port: u8) -> u8 {
    ((port % 16) * 16) as u8
}

/// How many packets a SysEx message of `len` bytes takes.
pub open spec fn sysex_packet_count(len: int) -> int {
    (len + 2) / 3
}

/// Packet `i` of a SysEx message: three bytes at a time, with code index 4
/// while more than three bytes remain, and 5, 6 or 7 for the last one, one,
/// two or three bytes long, padded with zeros.
pub open spec fn sysex_packet(cable: u8, data: Seq<u8>, i: int) -> Seq<u8> {
    let src = 3 * i;
    let remain = data.len() - src;
    let cin: u8 = if remain > 3 {
        4
    } else if remain == 1 {
        5
    } else if remain == 2 {
        6
    } else {
        7
    };
    seq![
        cable | cin,
        data[src],
        if remain > 1 {
            data[src + 1]
        } else {
            0
        },
        if remain > 2 {
            data[src + 2]
        } else {
            0
        },
    ]
}

/// The packet of a short message whose status byte has the given format.
pub open spec fn short_packet(cable: u8, data: Seq<u8>, cin: u8, len: usize) -> Seq<u8> {
    seq![
        cable | cin,
        data[0],
        if len > 1 {
            data[1]
        } else {
            0
        },
        if len > 2 {
            data[2]
        } else {
            0
        },
    ]
}

/// Frames one MIDI message for sending on `port` into `out`; returns how many
/// packets it took.  A SysEx message (starting with F0) fails when `out` is
/// too short for it, after the packets that fit have been written; a short
/// message fails when its status byte is not one, when it is cut short, or
/// when `out` is empty, and nothing is written then.
pub fn encode_usb_midi_packets(port: u8, data: &[u8], out: &mut [UsbMidiPacket]) -> (r: Result<
    usize,
    (),
>)
    ensures
        data@.len() == 0 ==> r is Err && final(out)@ == old(out)@,
        data@.len() > 0 && data@[0] == 0xf0 ==> {
            let n = sysex_packet_count(data@.len() as int);
            &&& final(out)@.len() == old(out)@.len()
            &&& (r is Ok <==> n <= old(out)@.len())
            &&& (r matches Ok(k) ==> k == n)
            &&& forall|i: int|
                0 <= i < old(out)@.len() ==> if i < n {
                    (#[trigger] final(out)@[i]).data@ == sysex_packet(cable_byte(port), data@, i)
                } else {
                    final(out)@[i] == old(out)@[i]
                }
        },
        data@.len() > 0 && data@[0] != 0xf0 ==> match short_message_format(data@[0]) {
            Some((cin, len)) => if data@.len() < len || old(out)@.len() == 0 {
                r is Err && final(out)@ == old(out)@
            } else {
                &&& r == Ok::<usize, ()>(1)
                &&& final(out)@.len() == old(out)@.len()
                &&& final(out)@[0].data@ == short_packet(cable_byte(port), data@, cin, len)
                &&& forall|i: int| 1 <= i < old(out)@.len() ==> #[trigger] final(out)@[i] == old(out)@[i]
            },
            None => r is Err && final(out)@ == old(out)@,
        },
{
    if data.len() == 0 {
        return Err(());
    }
    let cable = (port & 0x0f) << 4;
    assert(cable == cable_byte(port)) by (bit_vector)
        requires
            cable == (port & 0x0f) << 4,
    ;
    if data[0] == 0xf0 {
        return encode_sysex_packets(cable, data, out);
    }
    let (cin, message_len) = match short_message_format(data[0]) {
        Some(f) => f,
        None => {
            return Err(());
        },
    };
    if data.len() < message_len || out.len() == 0 {
        return Err(());
    }
    let packet = UsbMidiPacket {
        data: [
            cable | cin,
            data[0],
            if message_len > 1 {
                data[1]
            } else {
                0
            },
            if message_len > 2 {
                data[2]
            } else {
                0
            },
        ],
    };
    out[0] = packet;
    assert(final(out)@[0].data@ =~= short_packet(cable, data@, cin, message_len));
    Ok(1)
}

fn encode_sysex_packets(cable: u8, data: &[u8], out: &mut [UsbMidiPacket]) -> (r: Result<
    usize,
    (),
>)
    requires
        data@.len() > 0,
    ensures
        ({
            let n = sysex_packet_count(data@.len() as int);
            &&& final(out)@.len() == old(out)@.len()
            &&& (r is Ok <==> n <= old(out)@.len())
            &&& (r matches Ok(k) ==> k == n)
            &&& forall|i: int|
                0 <= i < old(out)@.len() ==> if i < n {
                    (#[trigger] final(out)@[i]).data@ == sysex_packet(cable, data@, i)
                } else {
                    final(out)@[i] == old(out)@[i]
                }
        }),
{
    let mut src: usize = 0;
    let mut dst: usize = 0;
    let ghost n = sysex_packet_count(data@.len() as int);
    while src < data.len()
        invariant
            src <= data@.len(),
            src < data@.len() ==> src == 3 * dst && dst < n,
            src == data@.len() ==> dst == n,
            n == sysex_packet_count(data@.len() as int),
            data@.len() > 0,
            out@.len() == old(out)@.len(),
            dst <= old(out)@.len(),
            forall|i: int|
                0 <= i < old(out)@.len() ==> if i < dst {
                    (#[trigger] out@[i]).data@ == sysex_packet(cable, data@, i)
                } else {
                    out@[i] == old(out)@[i]
                },
        decreases data@.len() - src,
    {
        if dst >= out.len() {
            return Err(());
        }
        let remain = data.len() - src;
        let take: usize = if remain < 3 {
            remain
        } else {
            3
        };
        let cin: u8 = if remain > 3 {
            0x4
        } else if remain == 1 {
            0x5
        } else if remain == 2 {
            0x6
        } else {
            0x7
        };
        let packet = UsbMidiPacket {
            data: [
                cable | cin,
                data[src],
                if take > 1 {
                    data[src + 1]
                } else {
                    0
                },
                if take > 2 {
                    data[src + 2]
                } else {
                    0
                },
            ],
        };
        out[dst] = packet;
        assert(out@[dst as int].data@ =~= sysex_packet(cable, data@, dst as int));
        src = src + take;
        dst = dst + 1;
    }
    Ok(dst)
}

/// A short message framed for a port comes back from its packet as the same
/// event: channel messages (80..EF) with their data bytes, zero where the
/// message has fewer, and real-time messages (F8..FF) alone.
pub proof fn lemma_short_message_round_trip(port: u8, data: Seq<u8>, rx: Seq<CableState>)
    requires
        port < 3,
        data.len() > 0,
        0x80 <= data[0] <= 0xef || data[0] >= 0xf8,
        data.len() >= short_message_format(data[0]).unwrap().1,
    ensures
        ({
            let (cin, len) = short_message_format(data[0]).unwrap();
            parse_packet(short_packet(cable_byte(port), data, cin, len), rx) == (
                rx,
                Some(
                    UsbMidiInputView::Midi(
                        MidiEvent {
                            port: port_of_cable(port as int).unwrap(),
                            status: data[0],
                            data1: if len > 1 {
                                data[1]
                            } else {
                                0
                            },
                            data2: if len > 2 {
                                data[2]
                            } else {
                                0
                            },
                        },
                    ),
                ),
            )
        }),
{
    let (cin, len) = short_message_format(data[0]).unwrap();
    let head = cable_byte(port) | cin;
    assert(head / 16 == port && head % 16 == cin) by (bit_vector)
        requires
            port < 3,
            cin < 16,
            head == (((port % 16) * 16) as u8) | cin,
    ;
}

/// A well-formed SysEx message: F0, data bytes, F7, at most `SYSEX_MAX_LEN`
/// bytes in all.
pub open spec fn is_sysex_message(data: Seq<u8>) -> bool {
    &&& 2 <= data.len() <= SYSEX_MAX_LEN
    &&& data[0] == 0xf0
    &&& data.last() == 0xf7
    &&& forall|i: int| 0 < i < data.len() - 1 ==> #[trigger] data[i] < 0x80
}

/// The packets of a SysEx message, in order.
pub open spec fn sysex_packets(cable: u8, data: Seq<u8>) -> Seq<Seq<u8>> {
    Seq::new(sysex_packet_count(data.len() as int) as nat, |i: int| sysex_packet(cable, data, i))
}

/// Packets fed to a receiver in order: its cables afterwards, and what
/// each packet delivered.
pub open spec fn feed_packets(rx: Seq<CableState>, packets: Seq<Seq<u8>>) -> (Seq<CableState>, Seq<
    Option<UsbMidiInputView>,
>)
    decreases packets.len(),
{
    if packets.len() == 0 {
        (rx, seq![])
    } else {
        let (r1, o) = feed_packets(rx, packets.drop_last());
        let (r2, x) = parse_packet(packets.last(), r1);
        (r2, o.push(x))
    }
}

/// A message may arrive split at any byte: feeding bytes in two parts, the
/// first of which completes nothing, is feeding them at once.
pub proof fn lemma_receive_bytes_append(c: CableState, a: Seq<u8>, b: Seq<u8>)
    requires
        receive_bytes(c, a).1 is None,
    ensures
        receive_bytes(c, a + b) == receive_bytes(receive_bytes(c, a).0, b),
    decreases a.len(),
{
    if a.len() == 0 {
        assert(a + b =~= b);
    } else {
        let (c1, m) = receive_byte(c, a[0]);
        let rest = a.subrange(1, a.len() as int);
        assert((a + b)[0] == a[0]);
        assert((a + b).subrange(1, (a + b).len() as int) =~= rest + b);
        lemma_receive_bytes_append(c1, rest, b);
    }
}

proof fn lemma_sysex_prefix(c: CableState, data: Seq<u8>, k: int)
    requires
        is_sysex_message(data),
        1 <= k < data.len(),
        c.buf.len() == SYSEX_MAX_LEN,
    ensures
        receive_bytes(c, data.subrange(0, k)).1 is None,
        receive_bytes(c, data.subrange(0, k)).0.active,
        receive_bytes(c, data.subrange(0, k)).0.len == k,
        receive_bytes(c, data.subrange(0, k)).0.buf.len() == SYSEX_MAX_LEN,
        receive_bytes(c, data.subrange(0, k)).0.buf.subrange(0, k) == data.subrange(0, k),
    decreases k,
{
    if k == 1 {
        let one = data.subrange(0, 1);
        let (c1, m) = receive_byte(c, data[0]);
        assert(one.subrange(1, 1) =~= Seq::<u8>::empty());
        assert(receive_bytes(c1, one.subrange(1, 1)) == (c1, None::<(nat, Seq<u8>)>));
        assert(receive_bytes(c, one) == (c1, None::<(nat, Seq<u8>)>));
        assert(c1.buf == c.buf.update(0, 0xf0u8));
        assert(c1.buf.subrange(0, 1) =~= one);
    } else {
        lemma_sysex_prefix(c, data, k - 1);
        let a = data.subrange(0, k - 1);
        let b = seq![data[k - 1]];
        assert(data.subrange(0, k) =~= a + b);
        lemma_receive_bytes_append(c, a, b);
        let c1 = receive_bytes(c, a).0;
        assert(data[k - 1] < 0x80);
        let (c2, m) = receive_byte(c1, data[k - 1]);
        assert(b.subrange(1, 1) =~= Seq::<u8>::empty());
        assert(receive_bytes(c2, b.subrange(1, 1)) == (c2, None::<(nat, Seq<u8>)>));
        assert(receive_bytes(c1, b) == (c2, None::<(nat, Seq<u8>)>));
        assert(c2.buf == c1.buf.update(k - 1, data[k - 1]));
        assert(c2.buf.subrange(0, k) =~= data.subrange(0, k)) by {
            assert forall|j: int| 0 <= j < k implies c2.buf[j] == data[j] by {
                if j < k - 1 {
                    assert(c1.buf.subrange(0, k - 1)[j] == data.subrange(0, k - 1)[j]);
                }
            }
        }
    }
}

/// A well-formed SysEx message fed to a cable in any state comes out
/// whole at its last byte.
proof fn lemma_sysex_whole(c: CableState, data: Seq<u8>)
    requires
        is_sysex_message(data),
        c.buf.len() == SYSEX_MAX_LEN,
    ensures
        receive_bytes(c, data).1 matches Some((len, buf)) && len == data.len() && buf.len()
            == SYSEX_MAX_LEN && buf.subrange(0, len as int) == data,
        !receive_bytes(c, data).0.active,
        receive_bytes(c, data).0.len == 0,
{
    let n = data.len() as int;
    lemma_sysex_prefix(c, data, n - 1);
    let a = data.subrange(0, n - 1);
    let b = seq![data[n - 1]];
    assert(data =~= a + b);
    lemma_receive_bytes_append(c, a, b);
    let c1 = receive_bytes(c, a).0;
    assert(b.subrange(1, 1) =~= Seq::<u8>::empty());
    let (c2, m) = receive_bytes(c1, b);
    let buf = c1.buf.update(n - 1, 0xf7u8);
    assert(m == Some((n as nat, buf)));
    assert(buf.subrange(0, n) =~= data) by {
        assert forall|j: int| 0 <= j < n implies buf[j] == data[j] by {
            if j < n - 1 {
                assert(c1.buf.subrange(0, n - 1)[j] == data.subrange(0, n - 1)[j]);
            }
        }
    }
}

proof fn lemma_sysex_packet_parse(port: u8, data: Seq<u8>, i: int, rx: Seq<CableState>)
    requires
        port < 3,
        data.len() > 0,
        0 <= i < sysex_packet_count(data.len() as int),
        rx.len() == 3,
    ensures
        ({
            let cable = port as int;
            let end = if 3 * i + 3 <= data.len() {
                3 * i + 3
            } else {
                data.len() as int
            };
            let (c, m) = receive_bytes(rx[cable], data.subrange(3 * i, end));
            parse_packet(sysex_packet(cable_byte(port), data, i), rx) == (
                rx.update(cable, c),
                match m {
                    Some((len, buf)) => Some(
                        UsbMidiInputView::Sysex(port_of_cable(cable).unwrap(), len, buf),
                    ),
                    None => None,
                },
            )
        }),
{
    let p = sysex_packet(cable_byte(port), data, i);
    let remain = data.len() - 3 * i;
    let cin: u8 = if remain > 3 {
        4
    } else if remain == 1 {
        5
    } else if remain == 2 {
        6
    } else {
        7
    };
    let head = cable_byte(port) | cin;
    assert(head / 16 == port && head % 16 == cin) by (bit_vector)
        requires
            port < 3,
            4 <= cin <= 7,
            head == (((port % 16) * 16) as u8) | cin,
    ;
    let end = if 3 * i + 3 <= data.len() {
        3 * i + 3
    } else {
        data.len() as int
    };
    assert(p.subrange(1, 1 + sysex_byte_count(cin as int)) =~= data.subrange(3 * i, end));
}

/// A well-formed SysEx message framed into packets for a port and fed back
/// through a receiver, from any state, comes out whole with the last packet
/// and with none before it.
pub proof fn lemma_sysex_round_trip(port: u8, data: Seq<u8>, rx: Seq<CableState>)
    requires
        port < 3,
        is_sysex_message(data),
        rx.len() == 3,
        forall|i: int| 0 <= i < 3 ==> (#[trigger] rx[i]).buf.len() == SYSEX_MAX_LEN,
    ensures
        ({
            let outs = feed_packets(rx, sysex_packets(cable_byte(port), data)).1;
            &&& outs.len() == sysex_packet_count(data.len() as int)
            &&& forall|k: int| 0 <= k < outs.len() - 1 ==> outs[k] is None
            &&& outs.last() matches Some(UsbMidiInputView::Sysex(p, len, buf)) && p
                == port_of_cable(port as int).unwrap() && len == data.len() && buf.subrange(
                0,
                len as int,
            ) == data
        }),
{
    let packets = sysex_packets(cable_byte(port), data);
    let n = packets.len() as int;
    let cable = port as int;
    let c0 = rx[cable];
    // After the first i packets (all but the last), the cable has taken the
    // first 3 * i bytes and nothing was delivered.
    assert forall|i: int| 0 <= i < n implies {
        let (r, o) = #[trigger] feed_packets(rx, packets.take(i));
        &&& o.len() == i
        &&& (forall|k: int| 0 <= k < i ==> o[k] is None)
        &&& r == rx.update(cable, if i == 0 { c0 } else { receive_bytes(c0, data.subrange(0, 3 * i)).0 })
    } by {
        lemma_feed_prefix(port, data, rx, i);
    }
    let (r, o) = feed_packets(rx, packets.take(n - 1));
    assert(packets.take(n).drop_last() =~= packets.take(n - 1));
    assert(packets.take(n) =~= packets);
    let c1 = r[cable];
    lemma_sysex_packet_parse(port, data, n - 1, r);
    let start = 3 * (n - 1);
    let tail = data.subrange(start, data.len() as int);
    assert(3 * (n - 1) + 3 >= data.len());
    if n == 1 {
        assert(tail =~= data);
        lemma_sysex_whole(c0, data);
    } else {
        lemma_sysex_prefix(c0, data, start);
        lemma_receive_bytes_append(c0, data.subrange(0, start), tail);
        assert(data.subrange(0, start) + tail =~= data);
        lemma_sysex_whole(c0, data);
    }
}

proof fn lemma_feed_prefix(port: u8, data: Seq<u8>, rx: Seq<CableState>, i: int)
    requires
        port < 3,
        is_sysex_message(data),
        rx.len() == 3,
        forall|j: int| 0 <= j < 3 ==> (#[trigger] rx[j]).buf.len() == SYSEX_MAX_LEN,
        0 <= i < sysex_packet_count(data.len() as int),
    ensures
        ({
            let cable = port as int;
            let (r, o) = feed_packets(rx, sysex_packets(cable_byte(port), data).take(i));
            &&& o.len() == i
            &&& (forall|k: int| 0 <= k < i ==> o[k] is None)
            &&& r == rx.update(
                cable,
                if i == 0 {
                    rx[cable]
                } else {
                    receive_bytes(rx[cable], data.subrange(0, 3 * i)).0
                },
            )
        }),
    decreases i,
{
    let packets = sysex_packets(cable_byte(port), data);
    let cable = port as int;
    let c0 = rx[cable];
    if i == 0 {
        assert(packets.take(0) =~= Seq::<Seq<u8>>::empty());
        assert(rx.update(cable, c0) =~= rx);
    } else {
        lemma_feed_prefix(port, data, rx, i - 1);
        assert(packets.take(i).drop_last() =~= packets.take(i - 1));
        let (r1, o1) = feed_packets(rx, packets.take(i - 1));
        assert(3 * i < data.len());
        lemma_sysex_packet_parse(port, data, i - 1, r1);
        let chunk = data.subrange(3 * (i - 1), 3 * i);
        if i == 1 {
            assert(r1 =~= rx);
            lemma_sysex_prefix(c0, data, 3);
            assert(chunk =~= data.subrange(0, 3));
        } else {
            lemma_sysex_prefix(c0, data, 3 * (i - 1));
            lemma_receive_bytes_append(c0, data.subrange(0, 3 * (i - 1)), chunk);
            assert(data.subrange(0, 3 * (i - 1)) + chunk =~= data.subrange(0, 3 * i));
            lemma_sysex_prefix(c0, data, 3 * i);
        }
        let (r2, x) = feed_packets(rx, packets.take(i));
        assert(r2 =~= rx.update(cable, receive_bytes(c0, data.subrange(0, 3 * i)).0));
    }
}

/// A cable's state as the receiver keeps it: a full-size buffer, and while
/// a message is open, F0 followed by data bytes.
pub open spec fn cable_ok(c: CableState) -> bool {
    &&& c.buf.len() == SYSEX_MAX_LEN
    &&& c.len <= SYSEX_MAX_LEN
    &&& c.active ==> c.len >= 1 && c.buf[0] == 0xf0 && forall|j: int|
        1 <= j < c.len ==> #[trigger] c.buf[j] < 0x80
}

proof fn lemma_receive_byte_keeps_framing(c: CableState, byte: u8)
    requires
        cable_ok(c),
    ensures
        cable_ok(receive_byte(c, byte).0),
        receive_byte(c, byte).1 matches Some((len, buf)) ==> len <= SYSEX_MAX_LEN && buf.len()
            == SYSEX_MAX_LEN && is_sysex_message(buf.subrange(0, len as int)),
        receive_byte(c, byte).1 is Some ==> !receive_byte(c, byte).0.active,
{
    if let Some((len, buf)) = receive_byte(c, byte).1 {
        let m = buf.subrange(0, len as int);
        assert forall|i: int| 0 < i < m.len() - 1 implies #[trigger] m[i] < 0x80 by {
            assert(m[i] == c.buf[i]);
        }
    }
}

/// Every message the receiver assembles is a well-formed SysEx message,
/// and its cables stay well kept, whatever bytes arrive.
pub proof fn lemma_receive_keeps_framing(c: CableState, bytes: Seq<u8>)
    requires
        cable_ok(c),
    ensures
        cable_ok(receive_bytes(c, bytes).0),
        receive_bytes(c, bytes).1 matches Some((len, buf)) ==> len <= SYSEX_MAX_LEN && buf.len()
            == SYSEX_MAX_LEN && is_sysex_message(buf.subrange(0, len as int)),
        receive_bytes(c, bytes).1 is Some ==> !receive_bytes(c, bytes).0.active,
    decreases bytes.len(),
{
    if bytes.len() > 0 {
        lemma_receive_byte_keeps_framing(c, bytes[0]);
        let (c1, m) = receive_byte(c, bytes[0]);
        if m is None {
            lemma_receive_keeps_framing(c1, bytes.subrange(1, bytes.len() as int));
        }
    }
}

} // verus!
