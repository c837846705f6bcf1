use lib::midi::{
    encode_usb_midi_packets, parse_usb_midi_packet, MidiEvent, MidiPort, SysexReceiver,
    UsbMidiInput, UsbMidiPacket, SYSEX_MAX_LEN,
};

fn encode(port: u8, data: &[u8], room: usize) -> (Result<usize, ()>, Vec<[u8; 4]>) {
    let mut out = vec![UsbMidiPacket::empty(); room];
    let r = encode_usb_midi_packets(port, data, &mut out);
    (r, out.iter().map(|p| p.data).collect())
}

fn feed(rx: &mut SysexReceiver, packets: &[[u8; 4]]) -> Vec<Option<UsbMidiInput>> {
    packets.iter().map(|p| parse_usb_midi_packet(p, rx)).collect()
}

fn event(r: &Option<UsbMidiInput>) -> Option<MidiEvent> {
    match r {
        Some(UsbMidiInput::Midi(e)) => Some(*e),
        _ => None,
    }
}

fn sysex(r: &Option<UsbMidiInput>) -> Option<(MidiPort, Vec<u8>)> {
    match r {
        Some(UsbMidiInput::Sysex(m)) => Some((m.port, m.data[..m.len].to_vec())),
        _ => None,
    }
}

#[test]
fn empty_packet_is_zero() {
    assert_eq!(UsbMidiPacket::empty().data, [0, 0, 0, 0]);
}

#[test]
fn encodes_note_on_for_its_cable() {
    let (r, out) = encode(1, &[0x90, 60, 100], 2);
    assert_eq!(r, Ok(1));
    assert_eq!(out[0], [0x19, 0x90, 60, 100]);
    assert_eq!(out[1], [0, 0, 0, 0]);
}

#[test]
fn encodes_short_messages_by_length() {
    assert_eq!(encode(0, &[0xc3, 5], 1), (Ok(1), vec![[0x0c, 0xc3, 5, 0]]));
    assert_eq!(encode(2, &[0xf8], 1), (Ok(1), vec![[0x2f, 0xf8, 0, 0]]));
    assert_eq!(encode(0x13, &[0xe0, 1, 2], 1), (Ok(1), vec![[0x3e, 0xe0, 1, 2]]));
    assert_eq!(encode(0, &[0xf2, 1, 2], 1), (Ok(1), vec![[0x03, 0xf2, 1, 2]]));
    assert_eq!(encode(0, &[0xf1, 9], 1), (Ok(1), vec![[0x02, 0xf1, 9, 0]]));
    assert_eq!(encode(0, &[0xf6], 1), (Ok(1), vec![[0x05, 0xf6, 0, 0]]));
}

#[test]
fn refuses_what_cannot_be_framed() {
    assert_eq!(encode(0, &[], 1), (Err(()), vec![[0, 0, 0, 0]]));
    assert_eq!(encode(0, &[0x40, 1], 1), (Err(()), vec![[0, 0, 0, 0]]));
    assert_eq!(encode(0, &[0x90, 1], 1), (Err(()), vec![[0, 0, 0, 0]]));
    assert_eq!(encode(0, &[0xf4], 1), (Err(()), vec![[0, 0, 0, 0]]));
    assert_eq!(encode(0, &[0x90, 1, 2], 0), (Err(()), vec![]));
}

#[test]
fn encodes_sysex_three_bytes_at_a_time() {
    assert_eq!(
        encode(0, &[0xf0, 1, 2, 3, 4, 0xf7], 4),
        (Ok(2), vec![[0x04, 0xf0, 1, 2], [0x07, 3, 4, 0xf7], [0; 4], [0; 4]])
    );
    assert_eq!(encode(1, &[0xf0, 1, 2, 0xf7], 2), (Ok(2), vec![[0x14, 0xf0, 1, 2], [0x15, 0xf7, 0, 0]]));
    assert_eq!(encode(2, &[0xf0, 1, 2, 3, 0xf7], 2), (Ok(2), vec![[0x24, 0xf0, 1, 2], [0x26, 3, 0xf7, 0]]));
    assert_eq!(encode(0, &[0xf0, 0xf7], 1), (Ok(1), vec![[0x06, 0xf0, 0xf7, 0]]));
}

#[test]
fn sysex_that_does_not_fit_fails_after_writing_what_fits() {
    let (r, out) = encode(0, &[0xf0, 1, 2, 3, 4, 5, 0xf7], 2);
    assert_eq!(r, Err(()));
    assert_eq!(out, vec![[0x04, 0xf0, 1, 2], [0x04, 3, 4, 5]]);
}

#[test]
fn parses_channel_and_realtime_events() {
    let mut rx = SysexReceiver::new();
    let r = parse_usb_midi_packet(&[0x19, 0x90, 60, 100], &mut rx);
    assert_eq!(event(&r), Some(MidiEvent { port: MidiPort::Midi, status: 0x90, data1: 60, data2: 100 }));
    let r = parse_usb_midi_packet(&[0x2f, 0xf8, 7, 7], &mut rx);
    assert_eq!(event(&r), Some(MidiEvent { port: MidiPort::Din, status: 0xf8, data1: 0, data2: 0 }));
    assert!(parse_usb_midi_packet(&[0x0f, 0, 7, 7], &mut rx).is_none());
}

#[test]
fn ignores_short_and_foreign_packets() {
    let mut rx = SysexReceiver::new();
    assert!(parse_usb_midi_packet(&[0x09, 0x90, 60], &mut rx).is_none());
    assert!(parse_usb_midi_packet(&[0x39, 0x90, 60, 1], &mut rx).is_none());
    assert!(parse_usb_midi_packet(&[0x02, 0xf1, 60, 0], &mut rx).is_none());
    assert!(parse_usb_midi_packet(&[0x00, 0x90, 60, 0], &mut rx).is_none());
}

#[test]
fn short_messages_survive_framing() {
    for port in 0..3u8 {
        for data in [vec![0x80u8, 1, 2], vec![0x9f, 3, 4], vec![0xc5, 9], vec![0xd0, 70], vec![0xef, 1, 127], vec![0xfe]] {
            let (r, out) = encode(port, &data, 1);
            assert_eq!(r, Ok(1));
            let mut rx = SysexReceiver::new();
            let e = event(&parse_usb_midi_packet(&out[0], &mut rx)).unwrap();
            let expected_port = [MidiPort::Daw, MidiPort::Midi, MidiPort::Din][port as usize];
            assert_eq!(e.port, expected_port);
            assert_eq!(e.status, data[0]);
            assert_eq!(e.data1, if data.len() > 1 { data[1] } else { 0 });
            assert_eq!(e.data2, if data.len() > 2 { data[2] } else { 0 });
        }
    }
}

#[test]
fn sysex_survives_framing() {
    for len in 2..40usize {
        let mut data = vec![0xf0u8];
        data.extend((1..len - 1).map(|i| (i * 7 % 128) as u8));
        data.push(0xf7);
        let n = (len + 2) / 3;
        let (r, out) = encode(1, &data, n);
        assert_eq!(r, Ok(n));
        let mut rx = SysexReceiver::new();
        let got = feed(&mut rx, &out);
        for g in &got[..n - 1] {
            assert!(g.is_none());
        }
        assert_eq!(sysex(&got[n - 1]), Some((MidiPort::Midi, data.clone())));
    }
}

#[test]
fn status_byte_drops_an_open_sysex() {
    let mut rx = SysexReceiver::new();
    let got = feed(&mut rx, &[[0x04, 0xf0, 1, 2], [0x07, 0x90, 4, 0xf7]]);
    assert!(got[0].is_none() && got[1].is_none());
    let got = feed(&mut rx, &[[0x06, 0xf0, 0xf7, 0]]);
    assert_eq!(sysex(&got[0]), Some((MidiPort::Daw, vec![0xf0, 0xf7])));
}

#[test]
fn realtime_bytes_pass_through_an_open_sysex() {
    let mut rx = SysexReceiver::new();
    let got = feed(&mut rx, &[[0x04, 0xf0, 1, 2], [0x04, 0xf8, 3, 4], [0x05, 0xf7, 0, 0]]);
    assert_eq!(sysex(&got[2]), Some((MidiPort::Daw, vec![0xf0, 1, 2, 3, 4, 0xf7])));
}

#[test]
fn cables_assemble_independently() {
    let mut rx = SysexReceiver::new();
    let got = feed(&mut rx, &[[0x04, 0xf0, 1, 2], [0x14, 0xf0, 9, 8], [0x15, 0xf7, 0, 0], [0x06, 3, 0xf7, 0]]);
    assert_eq!(sysex(&got[2]), Some((MidiPort::Midi, vec![0xf0, 9, 8, 0xf7])));
    assert_eq!(sysex(&got[3]), Some((MidiPort::Daw, vec![0xf0, 1, 2, 3, 0xf7])));
}

#[test]
fn overlong_sysex_is_dropped() {
    let mut rx = SysexReceiver::new();
    let mut packets = vec![[0x04u8, 0xf0, 1, 1]];
    for _ in 0..(SYSEX_MAX_LEN / 3) {
        packets.push([0x04, 1, 1, 1]);
    }
    packets.push([0x05, 0xf7, 0, 0]);
    let got = feed(&mut rx, &packets);
    assert!(got.iter().all(|g| g.is_none()));
}

#[test]
fn longest_sysex_is_kept() {
    let mut data = vec![0xf0u8];
    data.extend(std::iter::repeat(5u8).take(SYSEX_MAX_LEN - 2));
    data.push(0xf7);
    let n = (SYSEX_MAX_LEN + 2) / 3;
    let (r, out) = encode(0, &data, n);
    assert_eq!(r, Ok(n));
    let mut rx = SysexReceiver::new();
    let got = feed(&mut rx, &out);
    assert_eq!(sysex(&got[n - 1]), Some((MidiPort::Daw, data)));
}

#[test]
fn lone_end_byte_is_ignored() {
    let mut rx = SysexReceiver::new();
    assert!(parse_usb_midi_packet(&[0x05, 0xf7, 0, 0], &mut rx).is_none());
}
