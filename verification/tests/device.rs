use lib::device::{is_grid, Model};

const MODELS: [Model; 6] = [
    Model::ProMk3,
    Model::X,
    Model::MiniMk3,
    Model::Mk2,
    Model::Pro,
    Model::Basic,
];

#[test]
fn grid_pads_have_row_and_column_in_one_to_eight() {
    assert!(is_grid(11));
    assert!(is_grid(88));
    assert!(is_grid(45));
    assert!(!is_grid(10));
    assert!(!is_grid(19));
    assert!(!is_grid(91));
    assert!(!is_grid(0));
    assert!(!is_grid(8));
}

#[test]
fn model_follows_feature_priority() {
    assert_eq!(Model::current(true, true, true, true, true), Model::ProMk3);
    assert_eq!(Model::current(false, true, true, false, false), Model::X);
    assert_eq!(Model::current(false, false, true, true, false), Model::MiniMk3);
    assert_eq!(Model::current(false, false, false, true, true), Model::Mk2);
    assert_eq!(Model::current(false, false, false, false, true), Model::Pro);
    assert_eq!(Model::current(false, false, false, false, false), Model::Basic);
}

#[test]
fn product_bytes() {
    assert_eq!(Model::ProMk3.product(), Some(0x0e));
    assert_eq!(Model::X.product(), Some(0x0c));
    assert_eq!(Model::MiniMk3.product(), Some(0x0d));
    assert_eq!(Model::Mk2.product(), Some(0x18));
    assert_eq!(Model::Pro.product(), Some(0x10));
    assert_eq!(Model::Basic.product(), None);
}

#[test]
fn valid_indices_by_model() {
    for i in [1u8, 8, 10, 90, 19, 89, 91, 99, 101, 108, 55] {
        assert!(Model::ProMk3.valid_index(i), "{}", i);
    }
    for i in [0u8, 9, 100, 109, 127] {
        assert!(!Model::ProMk3.valid_index(i), "{}", i);
    }
    assert!(Model::ProMk3.valid_index(20));
    assert!(Model::Pro.valid_index(80));
    assert!(!Model::Pro.valid_index(90));
    assert!(Model::Pro.valid_index(99));
    assert!(!Model::Pro.valid_index(101));
    assert!(Model::Mk2.valid_index(98));
    assert!(!Model::Mk2.valid_index(99));
    assert!(!Model::Mk2.valid_index(10));
    assert!(Model::Mk2.valid_index(19));
    assert!(Model::X.valid_index(99));
    assert!(!Model::X.valid_index(1));
    assert!(Model::Basic.valid_index(33));
    assert!(!Model::Basic.valid_index(99));
}

#[test]
fn mk2_sends_top_row_as_104_to_111() {
    assert_eq!(Model::Mk2.wire_index(91), 104);
    assert_eq!(Model::Mk2.wire_index(98), 111);
    assert_eq!(Model::Mk2.wire_index(19), 19);
    assert_eq!(Model::X.wire_index(91), 91);
    assert!(Model::Mk2.is_cc(91));
    assert!(!Model::Mk2.is_cc(19));
    assert!(Model::X.is_cc(19));
    assert!(Model::X.is_cc(91));
    assert!(!Model::X.is_cc(11));
}

#[test]
fn pro_mk3_logo_is_led_zero() {
    assert_eq!(Model::ProMk3.led_index(99), 0);
    assert_eq!(Model::ProMk3.led_index(98), 98);
    assert_eq!(Model::X.led_index(99), 99);
}

#[test]
fn incoming_index_addresses_the_pad_it_was_sent_for() {
    for model in MODELS {
        for i in 0..=255u8 {
            if model.valid_index(i) {
                assert_eq!(
                    model.physical_index(model.wire_index(i), model.is_cc(i)),
                    Some(i),
                    "{:?} {}",
                    model,
                    i
                );
            }
        }
    }
}

#[test]
fn incoming_index_of_the_wrong_kind_addresses_nothing() {
    assert_eq!(Model::X.physical_index(11, true), None);
    assert_eq!(Model::X.physical_index(91, false), None);
    assert_eq!(Model::Mk2.physical_index(104, true), Some(91));
    assert_eq!(Model::Mk2.physical_index(104, false), None);
    assert_eq!(Model::Mk2.physical_index(91, true), Some(91));
    assert_eq!(Model::X.physical_index(200, true), None);
}
