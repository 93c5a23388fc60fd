use vesper::button_array::{
    wait_for_edge_event, wait_for_hold_event, ButtonArray, EdgeState, KeyEvent, KeyState, Level,
    PinSignal, PinWait,
};
use vesper::time::{Duration, Instant};

fn at(ticks: u64) -> Instant {
    Instant { ticks }
}

#[test]
fn events_move_to_other_keys() {
    assert_eq!(KeyEvent::KeyPressed(3) + 28, KeyEvent::KeyPressed(31));
    assert_eq!(KeyEvent::KeyHeld(0) + 1, KeyEvent::KeyHeld(1));
    assert_eq!(KeyEvent::KeyReleased(5) + 0, KeyEvent::KeyReleased(5));
}

#[test]
fn new_keys_are_up() {
    let buttons = ButtonArray::<3>::new(Duration { ticks: 7 });
    for id in 0..3 {
        assert_eq!(buttons.key_states[id], KeyState::Released);
        assert_eq!(buttons.edge_states[id], EdgeState::Waiting { last_level: Level::High });
        assert_eq!(buttons.pin_wait(id), PinWait::AnyEdge);
        assert_eq!(buttons.hold_due(id), None);
    }
    assert_eq!(buttons.debounce, Duration { ticks: 7 });
    assert_eq!(buttons.hold, Duration { ticks: 1_000_000 });
}

#[test]
fn edge_is_looked_at_again_after_the_debounce_time() {
    let mut state = EdgeState::Waiting { last_level: Level::High };
    let debounce = Duration { ticks: 1000 };
    assert_eq!(wait_for_edge_event(4, &mut state, debounce, PinSignal::Edge(at(50))), None);
    assert_eq!(state, EdgeState::Debounce { last_level: Level::High, deadline: at(1050) });
    assert_eq!(state.wait(), PinWait::Until(at(1050)));
    assert_eq!(
        wait_for_edge_event(4, &mut state, debounce, PinSignal::Settled(Level::Low)),
        Some(KeyEvent::KeyPressed(4))
    );
    assert_eq!(state, EdgeState::Waiting { last_level: Level::Low });
}

#[test]
fn bounce_is_ignored() {
    let mut state = EdgeState::Waiting { last_level: Level::Low };
    let debounce = Duration { ticks: 10 };
    wait_for_edge_event(0, &mut state, debounce, PinSignal::Edge(at(0)));
    assert_eq!(
        wait_for_edge_event(0, &mut state, debounce, PinSignal::Settled(Level::Low)),
        None
    );
    assert_eq!(state, EdgeState::Waiting { last_level: Level::Low });
}

#[test]
fn presses_and_releases_take_turns() {
    let mut buttons = ButtonArray::<2>::new(Duration { ticks: 5 });
    let mut events: Vec<KeyEvent> = Vec::new();
    let levels = [Level::High, Level::Low, Level::Low, Level::High, Level::Low, Level::High];
    for i in 0..levels.len() {
        assert_eq!(buttons.pin_signal(1, PinSignal::Edge(at(100 * i as u64))), None);
        assert_eq!(buttons.pin_wait(1), PinWait::Until(at(100 * i as u64 + 5)));
        if let Some(event) = buttons.pin_signal(1, PinSignal::Settled(levels[i])) {
            events.push(event);
        }
    }
    assert_eq!(
        events,
        vec![
            KeyEvent::KeyPressed(1),
            KeyEvent::KeyReleased(1),
            KeyEvent::KeyPressed(1),
            KeyEvent::KeyReleased(1),
        ]
    );
    assert_eq!(buttons.edge_states[0], EdgeState::Waiting { last_level: Level::High });
}

#[test]
fn held_once_for_each_press() {
    let mut buttons = ButtonArray::<2>::new(Duration { ticks: 5 });
    assert_eq!(
        buttons.wait_key_event(KeyEvent::KeyPressed(1), at(30)),
        KeyEvent::KeyPressed(1)
    );
    assert_eq!(buttons.key_states[1], KeyState::Pressed(at(30)));
    assert_eq!(buttons.hold_due(1), Some((at(1_000_030), KeyEvent::KeyHeld(1))));
    assert_eq!(buttons.hold_due(0), None);
    buttons.wait_key_event(KeyEvent::KeyHeld(1), at(1_000_030));
    assert_eq!(buttons.key_states[1], KeyState::Held);
    assert_eq!(buttons.hold_due(1), None);
    buttons.wait_key_event(KeyEvent::KeyReleased(1), at(1_000_040));
    assert_eq!(buttons.key_states, [KeyState::Released; 2]);
    assert_eq!(buttons.hold_due(1), None);
}

#[test]
fn hold_is_due_for_pressed_keys_only() {
    let hold = Duration { ticks: 9 };
    assert_eq!(
        wait_for_hold_event(6, &KeyState::Pressed(at(1)), hold),
        Some((at(10), KeyEvent::KeyHeld(6)))
    );
    assert_eq!(wait_for_hold_event(6, &KeyState::Held, hold), None);
    assert_eq!(wait_for_hold_event(6, &KeyState::Released, hold), None);
}

#[test]
fn press_hold_release_in_turn() {
    let mut buttons = ButtonArray::<2>::new(Duration { ticks: 5 });
    let mut events: Vec<KeyEvent> = Vec::new();
    for (i, level) in [Level::Low, Level::High, Level::Low].into_iter().enumerate() {
        let now = 10_000_000 * i as u64;
        assert_eq!(buttons.pin_signal(0, PinSignal::Edge(at(now))), None);
        if let Some(event) = buttons.pin_signal(0, PinSignal::Settled(level)) {
            events.push(buttons.wait_key_event(event, at(now + 5)));
        }
        if let Some((due, event)) = buttons.hold_due(0) {
            assert_eq!(due, at(now + 5 + 1_000_000));
            events.push(buttons.wait_key_event(event, due));
        }
        assert_eq!(buttons.key_states[0] == KeyState::Released, level == Level::High);
        assert_eq!(buttons.edge_states[0], EdgeState::Waiting { last_level: level });
        assert_eq!(buttons.key_states[1], KeyState::Released);
    }
    assert_eq!(
        events,
        vec![
            KeyEvent::KeyPressed(0),
            KeyEvent::KeyHeld(0),
            KeyEvent::KeyReleased(0),
            KeyEvent::KeyPressed(0),
            KeyEvent::KeyHeld(0),
        ]
    );
}
