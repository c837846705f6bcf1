use lib::daw::profile::{banks, modern, page_button, standalone_layout, standalone_page, Page};
use lib::daw::protocol::{decode, faders_valid, lights_valid, valid_layout, Command};
use lib::device::Model;
use lib::modes::is_selection;

fn msg(product: u8, cmd: u8, payload: &[u8]) -> Vec<u8> {
    let mut m = vec![0xf0, 0, 0x20, 0x29, 2, product, cmd];
    m.extend_from_slice(payload);
    m.push(0xf7);
    m
}

#[test]
fn decodes_enable_and_disable() {
    assert_eq!(decode(Model::ProMk3, &msg(0x0e, 0x10, &[1])), Some(Command::Enable(true)));
    assert_eq!(decode(Model::ProMk3, &msg(0x0e, 0x10, &[0])), Some(Command::Enable(false)));
    assert_eq!(decode(Model::ProMk3, &msg(0x0e, 0x10, &[2])), None);
}

#[test]
fn decodes_queries_by_model() {
    assert_eq!(decode(Model::ProMk3, &msg(0x0e, 0, &[])), Some(Command::Query(0)));
    assert_eq!(decode(Model::ProMk3, &msg(0x0e, 0x10, &[])), None);
    assert_eq!(decode(Model::X, &msg(0x0c, 0x10, &[])), Some(Command::Query(0x10)));
    assert_eq!(decode(Model::X, &msg(0x0c, 0x14, &[])), Some(Command::Query(0x14)));
    assert_eq!(decode(Model::MiniMk3, &msg(0x0d, 0x0e, &[])), Some(Command::Query(0x0e)));
    assert_eq!(decode(Model::X, &msg(0x0c, 0x01, &[])), Some(Command::Query(0x01)));
}

#[test]
fn decodes_performance_and_live() {
    assert_eq!(decode(Model::ProMk3, &msg(0x0e, 0, &[0x14, 0, 0])), Some(Command::Performance));
    assert_eq!(decode(Model::X, &msg(0x0c, 0, &[0x7e])), Some(Command::Performance));
    assert_eq!(decode(Model::ProMk3, &msg(0x0e, 0, &[0x7e])), None);
    assert_eq!(decode(Model::X, &msg(0x0c, 0x0e, &[0])), Some(Command::Live(true)));
    assert_eq!(decode(Model::X, &msg(0x0c, 0x0e, &[1])), Some(Command::Live(false)));
}

#[test]
fn decodes_layouts() {
    assert_eq!(decode(Model::ProMk3, &msg(0x0e, 0, &[1, 3, 0])), Some(Command::Layout(1, 3)));
    assert_eq!(decode(Model::ProMk3, &msg(0x0e, 0, &[1, 4, 0])), None);
    assert_eq!(decode(Model::ProMk3, &msg(0x0e, 0, &[3, 7, 0])), Some(Command::Layout(3, 7)));
    assert_eq!(decode(Model::X, &msg(0x0c, 0, &[0x0d])), Some(Command::Layout(0x0d, 0)));
    assert_eq!(decode(Model::X, &msg(0x0c, 0, &[2])), None);
    assert_eq!(decode(Model::MiniMk3, &msg(0x0d, 0, &[7])), None);
    assert_eq!(decode(Model::MiniMk3, &msg(0x0d, 0, &[6])), Some(Command::Layout(6, 0)));
}

#[test]
fn decodes_faders() {
    let entries = [0u8, 1, 7, 5];
    let m = msg(0x0e, 1, &[2, 1, 0, 1, 7, 5]);
    assert_eq!(decode(Model::ProMk3, &m), Some(Command::Faders(2, true, &entries)));
    assert_eq!(decode(Model::ProMk3, &msg(0x0e, 1, &[4, 1, 0, 1, 7, 5])), None);
    assert_eq!(decode(Model::X, &msg(0x0c, 1, &[1, 0, 0, 1, 7, 5])), None);
    assert_eq!(decode(Model::X, &msg(0x0c, 1, &[0, 2, 0, 1, 7, 5])), None);
    assert_eq!(decode(Model::X, &msg(0x0c, 1, &[0, 0, 3, 1, 7, 5, 3, 0, 8, 5])), None);
}

#[test]
fn decodes_session_setup() {
    assert_eq!(decode(Model::X, &msg(0x0c, 0x12, &[1, 0, 1])), Some(Command::Clear(true, true)));
    assert_eq!(decode(Model::MiniMk3, &msg(0x0d, 0x12, &[1, 1, 0])), None);
    assert_eq!(decode(Model::ProMk3, &msg(0x0e, 0x12, &[1, 0, 1])), None);
    assert_eq!(decode(Model::X, &msg(0x0c, 0x14, &[5, 6])), Some(Command::SessionColours(5, 6)));
    assert_eq!(decode(Model::ProMk3, &msg(0x0e, 0x19, &[3])), Some(Command::Stop(3)));
    assert_eq!(decode(Model::ProMk3, &msg(0x0e, 0x19, &[4])), None);
    assert_eq!(decode(Model::X, &msg(0x0c, 0x19, &[0])), None);
}

#[test]
fn decodes_lights() {
    let p = [0u8, 11, 5, 3, 12, 1, 2, 3];
    assert_eq!(decode(Model::X, &msg(0x0c, 3, &p)), Some(Command::Lights(&p)));
    assert_eq!(decode(Model::X, &msg(0x0c, 3, &[4, 11, 5])), None);
    assert_eq!(decode(Model::X, &msg(0x0c, 3, &[1, 11, 5])), None);
    assert_eq!(decode(Model::X, &msg(0x0c, 3, &[])), None);
}

#[test]
fn rejects_badly_framed_messages() {
    let good = msg(0x0e, 0x10, &[1]);
    assert!(decode(Model::ProMk3, &good).is_some());
    assert_eq!(decode(Model::X, &good), None);
    assert_eq!(decode(Model::Basic, &good), None);
    let mut no_end = good.clone();
    no_end.pop();
    no_end.push(0x01);
    assert_eq!(decode(Model::ProMk3, &no_end), None);
    let mut high = good.clone();
    high[7] = 0x81;
    assert_eq!(decode(Model::ProMk3, &high), None);
    let mut header = good.clone();
    header[3] = 0x28;
    assert_eq!(decode(Model::ProMk3, &header), None);
    assert_eq!(decode(Model::ProMk3, &good[..7]), None);
}

#[test]
fn decodes_legacy_messages() {
    assert_eq!(decode(Model::Mk2, &msg(0x18, 0x22, &[1])), Some(Command::Performance));
    assert_eq!(decode(Model::Mk2, &msg(0x18, 0x22, &[4])), Some(Command::Layout(4, 0)));
    assert_eq!(decode(Model::Mk2, &msg(0x18, 0x22, &[3])), None);
    assert_eq!(decode(Model::Pro, &msg(0x10, 0x22, &[3])), Some(Command::Performance));
    assert_eq!(decode(Model::Pro, &msg(0x10, 0x22, &[0])), Some(Command::Layout(0, 0)));
    assert_eq!(decode(Model::Pro, &msg(0x10, 0x2c, &[2])), Some(Command::Layout(2, 0)));
    let pair = [11u8, 5];
    assert_eq!(decode(Model::Mk2, &msg(0x18, 0x0a, &pair)), Some(Command::LegacyLights(0x0a, &pair)));
    assert_eq!(decode(Model::Mk2, &msg(0x18, 0x0a, &[11])), None);
    assert_eq!(decode(Model::Pro, &msg(0x10, 0x23, &pair)), Some(Command::LegacyLights(0x23, &pair)));
    assert_eq!(decode(Model::Mk2, &msg(0x18, 0x23, &pair)), None);
    let rgb = [11u8, 63, 0, 1];
    assert_eq!(decode(Model::Mk2, &msg(0x18, 0x0b, &rgb)), Some(Command::LegacyLights(0x0b, &rgb)));
    assert_eq!(decode(Model::Mk2, &msg(0x18, 0x0b, &[11, 64, 0, 1])), None);
    let col = [9u8, 1, 2];
    assert_eq!(decode(Model::Pro, &msg(0x10, 0x0c, &col)), Some(Command::LegacyLights(0x0c, &col)));
    assert_eq!(decode(Model::Pro, &msg(0x10, 0x0c, &[10, 1])), None);
    assert_eq!(decode(Model::Pro, &msg(0x10, 0x0e, &[5])), Some(Command::LegacyLights(0x0e, &[5])));
    let bulk = [1u8, 1, 2, 3];
    assert_eq!(decode(Model::Mk2, &msg(0x18, 0x0f, &bulk)), Some(Command::LegacyLights(0x0f, &bulk)));
    assert_eq!(decode(Model::Mk2, &msg(0x18, 0x0f, &[2, 1, 2, 3])), None);
    assert_eq!(decode(Model::Mk2, &msg(0x18, 0x0f, &[0, 1, 2, 64])), None);
    let faders = [0u8, 0, 5, 64];
    assert_eq!(decode(Model::Pro, &msg(0x10, 0x2b, &faders)), Some(Command::LegacyFaders(&faders)));
}

#[test]
fn legacy_bulk_message_size_limits() {
    let mut grid = vec![1u8];
    grid.extend(std::iter::repeat(1u8).take(192));
    assert!(decode(Model::Mk2, &msg(0x18, 0x0f, &grid)).is_some());
    grid.extend([1u8, 1, 1]);
    assert_eq!(decode(Model::Mk2, &msg(0x18, 0x0f, &grid)), None);
    let mut all = vec![0u8];
    all.extend(std::iter::repeat(1u8).take(246));
    assert_eq!(decode(Model::Mk2, &msg(0x18, 0x0f, &all)), None);
    assert!(decode(Model::Pro, &msg(0x10, 0x0f, &all)).is_some());
}

#[test]
fn fader_entries_rules() {
    assert!(!faders_valid(&[]));
    assert!(faders_valid(&[0, 0, 1, 1, 7, 1, 2, 2]));
    assert!(!faders_valid(&[8, 0, 0, 0]));
    assert!(!faders_valid(&[0, 2, 0, 0]));
    assert!(!faders_valid(&[0, 0, 1, 1, 0, 1, 2, 2]));
    assert!(!faders_valid(&[0, 0, 1, 1, 1]));
    let nine: Vec<u8> = (0..9u8).flat_map(|i| [i % 8, 0, 0, 0]).collect();
    assert!(!faders_valid(&nine));
    let eight: Vec<u8> = (0..8u8).flat_map(|i| [i, 0, 0, 0]).collect();
    assert!(faders_valid(&eight));
}

#[test]
fn light_entries_rules() {
    assert!(!lights_valid(&[], 5));
    assert!(lights_valid(&[0, 11, 5], 1));
    assert!(!lights_valid(&[0, 11, 5, 2, 12, 6], 1));
    assert!(lights_valid(&[0, 11, 5, 2, 12, 6], 2));
    assert!(!lights_valid(&[3, 11, 1, 2], 2));
    assert!(lights_valid(&[1, 11, 1, 2], 2));
    assert!(!lights_valid(&[5, 11, 1], 2));
}

#[test]
fn layout_table() {
    assert!(valid_layout(Model::ProMk3, 0, 0));
    assert!(!valid_layout(Model::ProMk3, 0, 1));
    assert!(valid_layout(Model::ProMk3, 0x0d, 3));
    assert!(!valid_layout(Model::ProMk3, 0x0d, 4));
    assert!(valid_layout(Model::ProMk3, 3, 7));
    assert!(!valid_layout(Model::ProMk3, 5, 0));
    assert!(valid_layout(Model::X, 0x7f, 0));
    assert!(!valid_layout(Model::X, 3, 0));
    assert!(valid_layout(Model::MiniMk3, 6, 0));
    assert!(!valid_layout(Model::MiniMk3, 7, 0));
    assert!(!valid_layout(Model::Mk2, 0, 0));
}

#[test]
fn usb_port_shares_mode_selection_only() {
    assert!(is_selection(Model::X, &msg(0x0c, 0, &[0x7e])));
    assert!(is_selection(Model::X, &msg(0x0c, 0, &[0x0d])));
    assert!(is_selection(Model::X, &msg(0x0c, 0x0e, &[1])));
    assert!(!is_selection(Model::X, &msg(0x0c, 0x10, &[1])));
    assert!(!is_selection(Model::X, &msg(0x0c, 3, &[0, 11, 5])));
    assert!(!is_selection(Model::X, &msg(0x0e, 0, &[0x7e])));
}

#[test]
fn page_buttons_and_standalone_pages() {
    assert_eq!(page_button(Model::ProMk3, 93), Some(Page::Session));
    assert_eq!(page_button(Model::ProMk3, 98), Some(Page::Projects));
    assert_eq!(page_button(Model::X, 95), Some(Page::Session));
    assert_eq!(page_button(Model::X, 98), None);
    assert_eq!(page_button(Model::MiniMk3, 98), Some(Page::User));
    assert_eq!(page_button(Model::Mk2, 95), None);
    assert_eq!(standalone_page(Model::MiniMk3), Page::Keys);
    assert_eq!(standalone_page(Model::X), Page::Note);
    assert_eq!(standalone_page(Model::Pro), Page::Session);
    assert_eq!(standalone_layout(Model::ProMk3), 4);
    assert_eq!(standalone_layout(Model::MiniMk3), 5);
    assert_eq!(banks(Model::ProMk3), 4);
    assert_eq!(banks(Model::Basic), 0);
    assert_eq!(banks(Model::Mk2), 1);
    assert!(modern(Model::MiniMk3));
    assert!(!modern(Model::Pro));
}
