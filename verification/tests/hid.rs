use vesper::button_array::KeyEvent;
use vesper::hid::{
    on_config_read, ConfigAction, DeviceStatus, HidCfgCommand, HidReport, KeyState, LayerState,
    SharedState,
};
use vesper::keyboard::{KeyMap, KeyMapping, KeyPress};

const NOTHING: KeyMapping = KeyMapping { press: None, held: None };

fn key(code: u8, modifiers: u8) -> Option<KeyMap> {
    Some(KeyMap { key: KeyPress::Key(code), modifiers })
}

fn layer(press: KeyPress) -> Option<KeyMap> {
    Some(KeyMap { key: press, modifiers: 0xFF })
}

fn press(code: u8) -> KeyMapping {
    KeyMapping { press: key(code, 0), held: None }
}

/// Key `id` has code `id + 1` on the first layer and none on the others.
fn plain() -> SharedState {
    let mut base = [NOTHING; 56];
    for id in 0..56 {
        base[id] = press(id as u8 + 1);
    }
    SharedState::new(base)
}

fn codes(state: &mut SharedState) -> (u8, [u8; 6]) {
    state.map_hid_report_inner()
}

#[test]
fn new_state_has_no_key_down() {
    let mut state = plain();
    assert_eq!(state.current_layer, LayerState::Fixed(0));
    assert_eq!(codes(&mut state), (0, [0; 6]));
    assert!(state.key_map[4] == [NOTHING; 56]);
    assert!(state.key_map[0][3] == press(4));
}

#[test]
fn first_six_keys_are_reported_in_order() {
    let mut state = plain();
    for id in [40, 3, 55, 7, 0, 20, 33, 8] {
        state.handle_key_event(KeyEvent::KeyPressed(id));
    }
    assert_eq!(codes(&mut state), (0, [1, 4, 8, 9, 21, 34]));
}

#[test]
fn released_key_leaves_no_trace() {
    let mut state = plain();
    state.handle_key_event(KeyEvent::KeyPressed(3));
    state.handle_key_event(KeyEvent::KeyHeld(3));
    assert_eq!(state.key_states[3], Some(KeyState::Held));
    state.handle_key_event(KeyEvent::KeyReleased(3));
    assert_eq!(state.key_states, [None; 56]);
    assert_eq!(codes(&mut state), (0, [0; 6]));
}

#[test]
fn held_key_falls_back() {
    let mut state = plain();
    state.current_layer = LayerState::Fixed(2);
    state.key_map[0][5] = KeyMapping { press: key(10, 0), held: key(11, 0) };
    state.handle_key_event(KeyEvent::KeyHeld(5));
    assert_eq!(codes(&mut state).1[0], 11);
    state.key_map[0][5].held = None;
    assert_eq!(codes(&mut state).1[0], 10);
    // What the layer in use says of a pressed key goes before what the first says of a held one.
    state.key_map[0][5].held = key(11, 0);
    state.key_map[2][5].press = key(12, 0);
    assert_eq!(codes(&mut state).1[0], 12);
    state.key_map[2][5].held = key(13, 0);
    assert_eq!(codes(&mut state).1[0], 13);
    // A key that is only pressed does not get the meaning of a held one.
    state.handle_key_event(KeyEvent::KeyPressed(5));
    assert_eq!(codes(&mut state).1[0], 12);
    state.key_map[2][5].press = None;
    assert_eq!(codes(&mut state).1[0], 10);
    state.key_map[0][5].press = None;
    assert_eq!(codes(&mut state).1[0], 0);
}

#[test]
fn modifiers_come_together() {
    let mut state = plain();
    state.key_map[0][1].press = key(2, 0b0000_0001);
    state.key_map[0][2].press = key(3, 0b0010_0000);
    state.key_map[0][3] = KeyMapping { press: layer(KeyPress::LayerSet0), held: None };
    for id in 1..4 {
        state.handle_key_event(KeyEvent::KeyPressed(id));
    }
    // The layer key takes a place but has no code, and its modifiers do not count.
    assert_eq!(codes(&mut state), (0b0010_0001, [2, 3, 0, 0, 0, 0]));
}

#[test]
fn key_without_meaning_takes_a_place() {
    let mut state = plain();
    state.key_map[0][2] = NOTHING;
    for id in 1..8 {
        state.handle_key_event(KeyEvent::KeyPressed(id));
    }
    assert_eq!(codes(&mut state), (0, [2, 0, 4, 5, 6, 7]));
}

#[test]
fn layer_key_counts_for_the_keys_behind_it() {
    let mut state = plain();
    state.key_map[0][10] = KeyMapping { press: layer(KeyPress::LayerSet3), held: None };
    state.key_map[3][5] = press(100);
    state.key_map[3][20] = press(101);
    for id in [5, 10, 20] {
        state.handle_key_event(KeyEvent::KeyPressed(id));
    }
    assert_eq!(codes(&mut state), (0, [6, 0, 101, 0, 0, 0]));
    assert_eq!(state.current_layer, LayerState::Fixed(3));
    // From the next report on it counts for all.
    assert_eq!(codes(&mut state), (0, [100, 0, 101, 0, 0, 0]));
}

#[test]
fn every_layer_key_switches_its_layer() {
    let sets = [
        KeyPress::LayerSet0,
        KeyPress::LayerSet1,
        KeyPress::LayerSet2,
        KeyPress::LayerSet3,
        KeyPress::LayerSet4,
    ];
    let holds = [
        KeyPress::LayerHold0,
        KeyPress::LayerHold1,
        KeyPress::LayerHold2,
        KeyPress::LayerHold3,
        KeyPress::LayerHold4,
    ];
    for i in 0..5 {
        let mut state = plain();
        state.current_layer = LayerState::Held { base: 2, held: 1 };
        state.key_map[0][0].press = layer(sets[i]);
        state.handle_key_event(KeyEvent::KeyPressed(0));
        codes(&mut state);
        assert_eq!(state.current_layer, LayerState::Fixed(i));

        let mut state = plain();
        state.current_layer = LayerState::Held { base: 2, held: 1 };
        state.key_map[0][0].press = layer(holds[i]);
        state.handle_key_event(KeyEvent::KeyPressed(0));
        codes(&mut state);
        assert_eq!(state.current_layer, LayerState::Held { base: 2, held: i });
    }
}

#[test]
fn held_layer_is_read_and_keeps_its_base() {
    let mut state = plain();
    state.current_layer = LayerState::Fixed(1);
    state.key_map[1][0].press = layer(KeyPress::LayerHold4);
    state.key_map[4][1] = press(77);
    state.handle_key_event(KeyEvent::KeyPressed(0));
    state.handle_key_event(KeyEvent::KeyPressed(1));
    assert_eq!(codes(&mut state), (0, [0, 77, 0, 0, 0, 0]));
    assert_eq!(state.current_layer, LayerState::Held { base: 1, held: 4 });
}

#[test]
fn layers_held_on_top_of_one_another_keep_the_base() {
    let mut state = plain();
    state.current_layer = LayerState::Fixed(1);
    state.key_map[1][0].press = layer(KeyPress::LayerHold2);
    state.key_map[2][1].press = layer(KeyPress::LayerHold3);
    state.key_map[3][2] = press(88);
    for id in 0..3 {
        state.handle_key_event(KeyEvent::KeyPressed(id));
    }
    assert_eq!(state.get_current_base_layer(), 1);
    assert_eq!(codes(&mut state), (0, [0, 0, 88, 0, 0, 0]));
    assert_eq!(state.get_current_base_layer(), 1);
    assert_eq!(state.get_current_layer_mapping()[2], press(88));
    assert_eq!(state.current_layer, LayerState::Held { base: 1, held: 3 });
}

#[test]
fn base_layer_is_not_read() {
    let mut state = plain();
    state.current_layer = LayerState::Held { base: 99, held: 2 };
    state.key_map[2][5] = press(66);
    state.handle_key_event(KeyEvent::KeyPressed(5));
    assert_eq!(codes(&mut state), (0, [66, 0, 0, 0, 0, 0]));
    assert_eq!(state.current_layer, LayerState::Held { base: 99, held: 2 });
}

#[test]
fn same_keys_same_report() {
    let mut state = plain();
    state.handle_key_event(KeyEvent::KeyPressed(9));
    let first = codes(&mut state);
    assert_eq!(codes(&mut state), first);
    assert_eq!(state.current_layer, LayerState::Fixed(0));
}

#[test]
fn both_protocols_agree() {
    let mut state = plain();
    state.key_map[0][2].press = key(30, 0x12);
    state.handle_key_event(KeyEvent::KeyPressed(2));
    state.handle_key_event(KeyEvent::KeyPressed(4));
    assert_eq!(state.map_hid_keyboard_report_boot(), [0x12, 0, 30, 5, 0, 0, 0, 0]);
    let report = state.map_hid_keyboard_report();
    assert_eq!(report.modifier, 0x12);
    assert_eq!(report.reserved, 0);
    assert_eq!(report.leds, 0);
    assert_eq!(report.keycodes, [30, 5, 0, 0, 0, 0]);
}

#[test]
fn protocol_decides_on_the_report() {
    let mut state = plain();
    state.handle_key_event(KeyEvent::KeyPressed(2));
    match state.next_report(0) {
        HidReport::Boot(bytes) => assert_eq!(bytes, [0, 0, 3, 0, 0, 0, 0, 0]),
        HidReport::Keyboard(_) => panic!("boot protocol expected"),
    }
    for code in [1, 2, 255] {
        match state.next_report(code) {
            HidReport::Boot(_) => panic!("report protocol expected"),
            HidReport::Keyboard(report) => assert_eq!(report.keycodes[0], 3),
        }
    }
}

#[test]
fn four_held_corner_keys_ask_for_the_boot_loader() {
    let mut state = plain();
    assert!(!state.handle_key_event(KeyEvent::KeyHeld(0)));
    assert!(!state.handle_key_event(KeyEvent::KeyHeld(1)));
    assert!(!state.handle_key_event(KeyEvent::KeyHeld(32)));
    assert!(!state.handle_key_event(KeyEvent::KeyPressed(33)));
    assert!(state.handle_key_event(KeyEvent::KeyHeld(33)));
    assert!(state.should_do_bootloader());
    assert!(!state.handle_key_event(KeyEvent::KeyReleased(1)));
}

#[test]
fn configuration_is_echoed() {
    assert_eq!(on_config_read(Some(0)), ConfigAction::Close);
    assert_eq!(on_config_read(Some(1)), ConfigAction::Echo);
    assert_eq!(on_config_read(Some(64)), ConfigAction::Echo);
    assert_eq!(on_config_read(None), ConfigAction::Ignore);
}

#[test]
fn configuration_commands_carry_mappings() {
    let command = HidCfgCommand::WriteKeyMapping { id: 3, key_mapping: press(4) };
    assert!(command != HidCfgCommand::ReadKeyMapping { id: 3 });
}

#[test]
fn device_is_configured_by_the_host_alone() {
    let mut status = DeviceStatus::new();
    assert!(!status.configured);
    status.configured(true);
    assert!(status.configured);
    status.reset();
    assert!(!status.configured);
    status.configured(true);
    status.enabled(true);
    assert!(!status.configured);
    status.configured(true);
    status.addressed(5);
    assert!(!status.configured);
    status.configured(false);
    assert!(!status.configured);
}
