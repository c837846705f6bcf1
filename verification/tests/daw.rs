use lib::daw::state::{AftertouchEvent, AppId, Output, SurfaceEvent};
use lib::daw::DawApp;
use lib::device::Model;
use lib::midi::{MidiEvent, MidiPort};

fn colours() -> [(u8, u8, u8); 128] {
    let mut c = [(0u8, 0u8, 0u8); 128];
    for (i, e) in c.iter_mut().enumerate() {
        *e = (i as u8, 2 * (i as u8 % 100), 127 - i as u8);
    }
    c
}

fn msg(product: u8, cmd: u8, payload: &[u8]) -> Vec<u8> {
    let mut m = vec![0xf0, 0, 0x20, 0x29, 2, product, cmd];
    m.extend_from_slice(payload);
    m.push(0xf7);
    m
}

fn midi(bytes: &[u8]) -> Output {
    Output::Midi(bytes.to_vec())
}

fn sysex(app: &mut DawApp, data: &[u8], current: AppId) -> ((bool, Option<AppId>), Vec<Output>) {
    let mut out = Vec::new();
    let r = app.receive_sysex_for_app(data, current, &mut out);
    (r, out)
}

fn note(app: &mut DawApp, status: u8, data1: u8, data2: u8) -> Vec<Output> {
    let mut out = Vec::new();
    app.receive_midi(MidiEvent { port: MidiPort::Daw, status, data1, data2 }, &mut out);
    out
}

fn press(app: &mut DawApp, index: u8, pressed: bool, value: u8, curved: Option<u8>) -> Vec<Output> {
    let mut out = Vec::new();
    app.on_surface(SurfaceEvent { index, pressed, value }, curved, &mut out);
    out
}

fn entered(model: Model) -> DawApp {
    let mut app = DawApp::new(model, colours());
    let mut out = Vec::new();
    app.on_enter(&mut out);
    app
}

#[test]
fn new_app_keeps_its_model() {
    let app = DawApp::new(Model::X, colours());
    assert_eq!(app.model(), Model::X);
}

#[test]
fn entering_draws_the_page_buttons_of_the_standalone_page() {
    let mut app = DawApp::new(Model::ProMk3, colours());
    let mut out = Vec::new();
    app.on_enter(&mut out);
    assert_eq!(
        out,
        vec![
            Output::ClearLeds,
            Output::SetLed(93, 0),
            Output::SetLed(94, 0x80ff80),
            Output::SetLed(95, 0x303030),
            Output::SetLed(96, 0x303030),
            Output::SetLed(97, 0x303030),
            Output::SetLed(98, 0x303030),
        ]
    );
}

#[test]
fn hidden_mode_draws_nothing() {
    let mut app = DawApp::new(Model::X, colours());
    let ((handled, switch), out) = sysex(&mut app, &msg(0x0c, 0x10, &[1]), AppId::Daw);
    assert!(handled);
    assert_eq!(switch, Some(AppId::Daw));
    assert!(out.is_empty());
    let mut out = Vec::new();
    app.on_tick(&mut out);
    assert!(out.is_empty());
}

#[test]
fn enabling_switches_to_the_daw_and_redraws() {
    let mut app = entered(Model::ProMk3);
    let ((handled, switch), out) = sysex(&mut app, &msg(0x0e, 0x10, &[1]), AppId::Daw);
    assert!(handled);
    assert_eq!(switch, Some(AppId::Daw));
    assert_eq!(out[0], Output::ClearLeds);
    assert_eq!(out[1], Output::SetLed(93, 0x303030));
}

#[test]
fn queries_are_answered_without_redraw() {
    let mut app = entered(Model::ProMk3);
    let ((handled, switch), out) = sysex(&mut app, &msg(0x0e, 0, &[]), AppId::Daw);
    assert!(handled);
    assert_eq!(switch, None);
    assert_eq!(out, vec![midi(&[0xf0, 0, 0x20, 0x29, 2, 0x0e, 0, 4, 0, 0, 0xf7])]);
    let mut x = entered(Model::X);
    let (_, out) = sysex(&mut x, &msg(0x0c, 0x10, &[]), AppId::Daw);
    assert_eq!(out, vec![midi(&[0xf0, 0, 0x20, 0x29, 2, 0x0c, 0x10, 0, 0xf7])]);
    let (_, out) = sysex(&mut x, &msg(0x0c, 0x0e, &[]), AppId::Daw);
    assert_eq!(out, vec![midi(&[0xf0, 0, 0x20, 0x29, 2, 0x0c, 0x0e, 0, 0xf7])]);
    let (_, out) = sysex(&mut x, &msg(0x0c, 0x14, &[]), AppId::Daw);
    assert_eq!(out, vec![midi(&[0xf0, 0, 0x20, 0x29, 2, 0x0c, 0x14, 0, 0, 0xf7])]);
}

#[test]
fn programmer_mode_answers_mode_queries_for_itself() {
    let mut app = entered(Model::X);
    let (r, out) = sysex(&mut app, &msg(0x0c, 0x0e, &[]), AppId::Programmer);
    assert_eq!(r, (true, None));
    assert_eq!(out, vec![midi(&[0xf0, 0, 0x20, 0x29, 2, 0x0c, 0x0e, 1, 0xf7])]);
    let (r, out) = sysex(&mut app, &msg(0x0c, 0, &[]), AppId::Programmer);
    assert_eq!(r, (true, None));
    assert_eq!(out, vec![midi(&[0xf0, 0, 0x20, 0x29, 2, 0x0c, 0, 0x7f, 0xf7])]);
    let mut pro = entered(Model::ProMk3);
    let (_, out) = sysex(&mut pro, &msg(0x0e, 0, &[]), AppId::Programmer);
    assert_eq!(out, vec![midi(&[0xf0, 0, 0x20, 0x29, 2, 0x0e, 0, 0x11, 0, 0, 0xf7])]);
}

#[test]
fn foreign_messages_are_not_handled() {
    let mut app = entered(Model::X);
    let (r, out) = sysex(&mut app, &msg(0x0e, 0x10, &[1]), AppId::Daw);
    assert_eq!(r, (false, None));
    assert!(out.is_empty());
}

#[test]
fn session_layout_confirms_to_the_pro_mk3_and_shows_lights() {
    let mut app = entered(Model::ProMk3);
    sysex(&mut app, &msg(0x0e, 0x10, &[1]), AppId::Daw);
    let (r, out) = sysex(&mut app, &msg(0x0e, 0, &[0, 0, 0]), AppId::Daw);
    assert_eq!(r, (true, Some(AppId::Daw)));
    assert_eq!(out[0], midi(&[0xf0, 0, 0x20, 0x29, 2, 0x0e, 0, 0, 0, 0, 0xf7]));
    assert_eq!(out[1], Output::ClearLeds);
    let out = note(&mut app, 0x90, 11, 5);
    assert_eq!(out, vec![Output::SetDawLed(11, colours()[5], None, false)]);
    let out = note(&mut app, 0x91, 11, 9);
    assert_eq!(out, vec![Output::SetDawLed(11, colours()[5], Some(colours()[9]), false)]);
    let out = note(&mut app, 0x82, 11, 9);
    assert_eq!(out, vec![Output::SetDawLed(11, colours()[0], None, true)]);
    let out = note(&mut app, 0xb0, 99, 3);
    assert_eq!(out, vec![Output::SetDawLed(0, colours()[3], None, false)]);
    assert!(note(&mut app, 0x93, 11, 5).is_empty());
    assert!(note(&mut app, 0x90, 91, 5).is_empty());
}

#[test]
fn disabled_modern_models_ignore_the_session_layout() {
    let mut app = entered(Model::X);
    let (r, out) = sysex(&mut app, &msg(0x0c, 0, &[0]), AppId::Daw);
    assert_eq!(r, (true, None));
    assert!(out.is_empty());
}

#[test]
fn programmer_layout_hands_over_the_surface() {
    let mut app = entered(Model::X);
    let (r, _) = sysex(&mut app, &msg(0x0c, 0, &[0x7f]), AppId::Daw);
    assert_eq!(r, (true, Some(AppId::Programmer)));
    let (r, _) = sysex(&mut app, &msg(0x0c, 0, &[0x7e]), AppId::Daw);
    assert_eq!(r, (true, Some(AppId::Performance)));
    let (r, _) = sysex(&mut app, &msg(0x0c, 0x0e, &[1]), AppId::Daw);
    assert_eq!(r, (true, Some(AppId::Programmer)));
    let (r, _) = sysex(&mut app, &msg(0x0c, 0x0e, &[0]), AppId::Daw);
    assert_eq!(r, (true, Some(AppId::Daw)));
}

#[test]
fn pads_send_notes_and_controllers_and_release_them() {
    let mut app = entered(Model::X);
    sysex(&mut app, &msg(0x0c, 0x10, &[1]), AppId::Daw);
    sysex(&mut app, &msg(0x0c, 0, &[0]), AppId::Daw);
    assert_eq!(press(&mut app, 11, true, 90, None), vec![midi(&[0x90, 11, 127])]);
    assert!(press(&mut app, 11, true, 90, None).is_empty());
    assert_eq!(press(&mut app, 11, false, 0, None), vec![midi(&[0x90, 11, 0])]);
    assert!(press(&mut app, 11, false, 0, None).is_empty());
    assert_eq!(press(&mut app, 12, true, 90, Some(0)), vec![midi(&[0x90, 12, 1])]);
    assert_eq!(press(&mut app, 13, true, 90, Some(200)), vec![midi(&[0x90, 13, 127])]);
    assert_eq!(press(&mut app, 14, true, 90, Some(77)), vec![midi(&[0x90, 14, 77])]);
    assert_eq!(press(&mut app, 19, true, 10, Some(10)), vec![midi(&[0xb0, 19, 127])]);
    assert!(press(&mut app, 1, true, 10, None).is_empty());
    let mut out = Vec::new();
    app.on_exit(&mut out);
    assert_eq!(
        out,
        vec![midi(&[0x90, 12, 0]), midi(&[0x90, 13, 0]), midi(&[0x90, 14, 0]), midi(&[0xb0, 19, 0])]
    );
}

#[test]
fn page_buttons_switch_pages() {
    let mut app = entered(Model::X);
    sysex(&mut app, &msg(0x0c, 0x10, &[1]), AppId::Daw);
    let out = press(&mut app, 95, true, 100, None);
    assert_eq!(out[0], midi(&[0xb0, 95, 127]));
    assert_eq!(out[1], Output::ClearLeds);
    assert!(out.contains(&Output::SetLed(95, 0x80ff80)));
    assert!(out.contains(&Output::SetLed(96, 0x303030)));
    assert_eq!(press(&mut app, 95, false, 0, None), vec![midi(&[0xb0, 95, 0])]);
}

#[test]
fn session_button_is_dark_until_a_daw_enables() {
    let mut app = entered(Model::X);
    assert!(press(&mut app, 95, true, 100, None).is_empty());
}

#[test]
fn aftertouch_follows_the_setting() {
    let mut app = entered(Model::X);
    sysex(&mut app, &msg(0x0c, 0x10, &[1]), AppId::Daw);
    sysex(&mut app, &msg(0x0c, 0, &[0]), AppId::Daw);
    press(&mut app, 44, true, 100, None);
    let mut out = Vec::new();
    app.on_aftertouch(AftertouchEvent { index: 44, value: 200 }, 1, &mut out);
    app.on_aftertouch(AftertouchEvent { index: 44, value: 50 }, 2, &mut out);
    app.on_aftertouch(AftertouchEvent { index: 44, value: 50 }, 0, &mut out);
    app.on_aftertouch(AftertouchEvent { index: 45, value: 50 }, 1, &mut out);
    assert_eq!(out, vec![midi(&[0xa0, 44, 127]), midi(&[0xd0, 50])]);
}

#[test]
fn faders_follow_presses_and_glide() {
    let mut app = entered(Model::ProMk3);
    sysex(&mut app, &msg(0x0e, 0x10, &[1]), AppId::Daw);
    let (r, _) = sysex(&mut app, &msg(0x0e, 0, &[1, 0, 0]), AppId::Daw);
    assert_eq!(r, (true, Some(AppId::Daw)));
    note(&mut app, 0xb4, 7, 34);
    sysex(&mut app, &msg(0x0e, 1, &[0, 0, 0, 0, 7, 5]), AppId::Daw);
    assert_eq!(press(&mut app, 31, true, 127, None), vec![midi(&[0xb4, 7, 34])]);
    assert!(press(&mut app, 81, true, 127, None).is_empty());
    let mut sent = Vec::new();
    for _ in 0..20 {
        let mut out = Vec::new();
        app.on_tick(&mut out);
        for o in out {
            if let Output::Midi(m) = o {
                sent.push(m);
            }
        }
    }
    assert_eq!(sent.len(), 10);
    assert_eq!(sent.last(), Some(&vec![0xb4, 7, 127]));
    let (_, out) = sysex(&mut app, &msg(0x0e, 0, &[]), AppId::Daw);
    assert_eq!(out, vec![midi(&[0xf0, 0, 0x20, 0x29, 2, 0x0e, 0, 1, 0, 0, 0xf7])]);
}

#[test]
fn fader_query_reports_bank_zero() {
    let mut app = entered(Model::X);
    sysex(&mut app, &msg(0x0c, 1, &[0, 1, 2, 1, 9, 4]), AppId::Daw);
    let (_, out) = sysex(&mut app, &msg(0x0c, 1, &[]), AppId::Daw);
    let mut expected = vec![0xf0, 0, 0x20, 0x29, 2, 0x0c, 1, 0, 1];
    for i in 0..8u8 {
        if i == 2 {
            expected.extend([2, 1, 9, 4]);
        } else {
            expected.extend([i, 0, 0, 0]);
        }
    }
    expected.push(0xf7);
    assert_eq!(out, vec![Output::Midi(expected)]);
}

#[test]
fn disabling_returns_to_the_standalone_page() {
    let mut app = entered(Model::ProMk3);
    sysex(&mut app, &msg(0x0e, 0x10, &[1]), AppId::Daw);
    sysex(&mut app, &msg(0x0e, 0, &[0, 0, 0]), AppId::Daw);
    press(&mut app, 33, true, 100, None);
    let (r, out) = sysex(&mut app, &msg(0x0e, 0x10, &[0]), AppId::Daw);
    assert_eq!(r, (true, Some(AppId::Daw)));
    assert_eq!(out[0], midi(&[0x90, 33, 0]));
    assert_eq!(out[1], Output::ClearLeds);
    let (_, out) = sysex(&mut app, &msg(0x0e, 0, &[]), AppId::Daw);
    assert_eq!(out, vec![midi(&[0xf0, 0, 0x20, 0x29, 2, 0x0e, 0, 4, 0, 0, 0xf7])]);
}

#[test]
fn light_entries_and_clear() {
    let mut app = entered(Model::X);
    sysex(&mut app, &msg(0x0c, 0x10, &[1]), AppId::Daw);
    sysex(&mut app, &msg(0x0c, 0, &[0]), AppId::Daw);
    let (_, out) = sysex(&mut app, &msg(0x0c, 3, &[3, 11, 10, 20, 31, 2, 12, 7, 1, 13, 4, 5]), AppId::Daw);
    assert!(out.contains(&Output::SetDawLed(11, (5, 10, 15), None, false)));
    assert!(out.contains(&Output::SetDawLed(12, colours()[7], None, true)));
    assert!(out.contains(&Output::SetDawLed(13, colours()[5], Some(colours()[4]), false)));
    let (_, out) = sysex(&mut app, &msg(0x0c, 0x12, &[1, 0, 0]), AppId::Daw);
    assert!(out.contains(&Output::SetDawLed(11, (0, 0, 0), None, false)));
    let (_, out) = sysex(&mut app, &msg(0x0c, 0x14, &[9, 8]), AppId::Daw);
    assert!(out.contains(&Output::SetLedPalette(95, 9)));
}

#[test]
fn legacy_mk2_lights_use_its_top_row_numbers() {
    let mut app = entered(Model::Mk2);
    let (r, _) = sysex(&mut app, &msg(0x18, 0x22, &[0]), AppId::Daw);
    assert_eq!(r, (true, Some(AppId::Daw)));
    let (_, out) = sysex(&mut app, &msg(0x18, 0x0a, &[104, 5, 11, 6]), AppId::Daw);
    assert!(out.contains(&Output::SetDawLed(91, colours()[5], None, false)));
    assert!(out.contains(&Output::SetDawLed(11, colours()[6], None, false)));
    let (_, out) = sysex(&mut app, &msg(0x18, 0x0b, &[12, 1, 2, 3]), AppId::Daw);
    assert!(out.contains(&Output::SetDawLed(12, (1, 2, 3), None, false)));
    let (_, out) = sysex(&mut app, &msg(0x18, 0x0d, &[8, 1, 2]), AppId::Daw);
    assert!(out.contains(&Output::SetDawLed(91, colours()[1], None, false)));
    assert!(out.contains(&Output::SetDawLed(92, colours()[2], None, false)));
    let (_, out) = sysex(&mut app, &msg(0x18, 0x0f, &[0, 1, 2, 3]), AppId::Daw);
    assert!(out.contains(&Output::SetDawLed(11, (1, 2, 3), None, false)));
    let (_, out) = sysex(&mut app, &msg(0x18, 0x0e, &[9]), AppId::Daw);
    assert!(out.contains(&Output::SetDawLed(88, colours()[9], None, false)));
    assert!(out.contains(&Output::SetDawLed(98, colours()[9], None, false)));
}

#[test]
fn legacy_faders_need_a_fader_layout() {
    let mut app = entered(Model::Mk2);
    let (r, out) = sysex(&mut app, &msg(0x18, 0x2b, &[0, 0, 5, 64]), AppId::Daw);
    assert_eq!(r, (true, None));
    assert!(out.is_empty());
    sysex(&mut app, &msg(0x18, 0x22, &[4]), AppId::Daw);
    let (r, out) = sysex(&mut app, &msg(0x18, 0x2b, &[0, 1, 5, 64]), AppId::Daw);
    assert_eq!(r, (true, None));
    assert!(out.is_empty());
    let (_, out) = sysex(&mut app, &msg(0x18, 0x2b, &[0, 0, 5, 127]), AppId::Daw);
    assert!(out.contains(&Output::SetDawLed(81, colours()[5], None, false)));
    assert!(press(&mut app, 11, true, 127, None).is_empty());
    assert_eq!(press(&mut app, 81, true, 127, None), vec![midi(&[0xb0, 21, 127])]);
}

#[test]
fn showing_the_current_view_again_changes_nothing() {
    let mut app = entered(Model::ProMk3);
    sysex(&mut app, &msg(0x0e, 0x10, &[1]), AppId::Daw);
    let (_, first) = sysex(&mut app, &msg(0x0e, 0, &[0, 0, 0]), AppId::Daw);
    assert_eq!(first[0], midi(&[0xf0, 0, 0x20, 0x29, 2, 0x0e, 0, 0, 0, 0, 0xf7]));
    press(&mut app, 44, true, 100, None);
    let (r, again) = sysex(&mut app, &msg(0x0e, 0, &[0, 0, 0]), AppId::Daw);
    assert_eq!(r, (true, Some(AppId::Daw)));
    assert_eq!(again[0], Output::ClearLeds);
    assert!(!again.contains(&midi(&[0x90, 44, 0])));
}
