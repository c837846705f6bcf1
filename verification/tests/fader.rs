use lib::daw::fader::{Bank, Fader, BIPOLAR, UNIPOLAR};

fn lit(bipolar: bool, value: u8) -> Fader {
    let mut f = Fader::new();
    f.bipolar = bipolar;
    f.colour = 5;
    f.value = value;
    f
}

#[test]
fn new_fader_is_idle() {
    let f = Fader::new();
    assert!(!f.moving());
    assert_eq!((f.cc, f.colour, f.value, f.bipolar), (0, 0, 0, false));
    assert_eq!(f.position(), 0);
    assert!(f.animation_frame());
}

#[test]
fn dark_fader_ignores_presses() {
    let mut f = Fader::new();
    assert!(!f.press(7, 127));
    assert!(!f.moving());
    assert_eq!(f.brightness(0), 0);
}

#[test]
fn glide_duration_follows_velocity() {
    for (velocity, duration) in [(127u8, 20u16), (200, 20), (1, 2000), (0, 2000), (64, 1010)] {
        let mut f = lit(false, 0);
        assert!(!f.press(7, velocity));
        assert_eq!(f.duration, duration);
        assert_eq!(f.target, 127);
        assert_eq!(f.start, 0);
    }
}

#[test]
fn press_at_rest_on_the_step_value_stops_at_once() {
    let mut f = lit(false, 34);
    assert!(f.press(2, 10));
    assert!(!f.moving());
    assert_eq!(f.value, 34);
}

#[test]
fn glide_moves_on_every_second_tick_and_settles_at_target() {
    let mut f = lit(false, 0);
    assert!(!f.press(7, 127));
    assert!(!f.tick());
    assert_eq!(f.value, 0);
    assert!(f.tick());
    assert_eq!(f.value, 12);
    let mut ticks = 2;
    while f.moving() {
        f.tick();
        ticks += 1;
    }
    assert_eq!(ticks, 20);
    assert_eq!(f.value, UNIPOLAR[7]);
    assert!(!f.tick());
}

#[test]
fn glide_down_rounds_towards_the_start() {
    let mut f = lit(false, 127);
    assert!(!f.press(0, 127));
    assert_eq!(f.start, 127 * 256);
    f.tick();
    assert!(f.tick());
    assert_eq!(f.value, 114);
}

#[test]
fn every_step_is_reached_by_a_glide() {
    for bipolar in [false, true] {
        for step in 0..8usize {
            for velocity in [1u8, 50, 127] {
                let mut f = lit(bipolar, 40);
                let at_rest = f.press(step, velocity);
                let target = if bipolar { BIPOLAR[step] } else { UNIPOLAR[step] };
                if !at_rest {
                    let d = f.duration;
                    for _ in 0..d {
                        f.tick();
                    }
                    assert!(!f.moving());
                    assert_eq!(f.value, target);
                }
            }
        }
    }
}

#[test]
fn unipolar_brightness_fills_steps_below_the_value() {
    let f = lit(false, 34);
    assert_eq!(f.brightness(0), 255);
    assert_eq!(f.brightness(1), 255);
    assert_eq!(f.brightness(2), 255);
    assert_eq!(f.brightness(3), 0);
    assert_eq!(f.brightness(7), 0);
    let g = lit(false, 25);
    assert_eq!(g.brightness(2), 120);
}

#[test]
fn bipolar_brightness_spreads_from_the_centre() {
    let centre = lit(true, 63);
    let lit_steps: Vec<u8> = (0..8).map(|s| centre.brightness(s)).collect();
    assert_eq!(lit_steps, vec![0, 0, 0, 255, 255, 0, 0, 0]);
    let low = lit(true, 0);
    let v: Vec<u8> = (0..8).map(|s| low.brightness(s)).collect();
    assert_eq!(v, vec![255, 255, 255, 255, 0, 0, 0, 0]);
    let high = lit(true, 127);
    let v: Vec<u8> = (0..8).map(|s| high.brightness(s)).collect();
    assert_eq!(v, vec![0, 0, 0, 0, 255, 255, 255, 255]);
    let between = lit(true, 52);
    assert_eq!(between.brightness(2), 134);
    assert_eq!(between.brightness(3), 255);
    assert_eq!(between.brightness(1), 0);
}

#[test]
fn stopping_a_bank_stops_every_fader() {
    let mut b = Bank::new();
    assert!(!b.horizontal);
    for i in 0..8 {
        b.faders[i].colour = 1;
        b.faders[i].press(7, 1);
        assert!(b.faders[i].moving());
    }
    b.stop();
    assert!(b.faders.iter().all(|f| !f.moving()));
}

#[test]
fn dark_fader_is_dark_at_every_step() {
    let mut f = Fader::new();
    for step in 0..20usize {
        assert_eq!(f.brightness(step), 0);
    }
    assert!(!f.press(12, 100));
    assert!(!f.tick());
}

#[test]
fn glide_value_moves_steadily_towards_the_target() {
    for (start, step) in [(0u8, 7usize), (127, 0), (34, 5), (106, 1)] {
        for velocity in [1u8, 90, 127] {
            let mut f = lit(false, start);
            assert!(!f.press(step, velocity));
            let target = UNIPOLAR[step];
            let mut last = f.value;
            while f.moving() {
                f.tick();
                if target >= start {
                    assert!(last <= f.value && f.value <= target);
                } else {
                    assert!(target <= f.value && f.value <= last);
                }
                last = f.value;
            }
            assert_eq!(f.value, target);
        }
    }
}
