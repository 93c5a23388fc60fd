//! What holds of every report.
use super::{
    key_state_after, keys_down, meaning, KeyState, KeyboardReport, LayerState, ProtocolMode,
    SharedState, NUM_KEYS, NUM_LAYERS, REPORT_KEYS,
};
use crate::button_array::KeyEvent;
use crate::keyboard::{KeyMap, KeyMapping, KeyPress};
use vstd::prelude::*;

verus! {

/// The keys found down are those that are down, each once, in order.
pub proof fn keys_down_are_exactly_those(key_states: Seq<Option<KeyState>>, n: int)
    requires
        0 <= n <= key_states.len(),
    ensures
        forall|id: int|
            keys_down(key_states, n).contains(id) <==> 0 <= id < n && key_states[id] is Some,
        forall|i: int, j: int|
            0 <= i < j < keys_down(key_states, n).len() ==> keys_down(key_states, n)[i] < keys_down(
                key_states,
                n,
            )[j],
    decreases n,
{
    let down = keys_down(key_states, n);
    if n > 0 {
        keys_down_are_exactly_those(key_states, n - 1);
        let fewer = keys_down(key_states, n - 1);
        assert forall|i: int| 0 <= i < fewer.len() implies fewer[i] < n - 1 by {
            assert(fewer.contains(fewer[i]));
        }
        assert forall|id: int|
            down.contains(id) <==> 0 <= id < n && key_states[id] is Some by {
            if key_states[n - 1] is Some {
                if id == n - 1 {
                    assert(down[down.len() - 1] == id);
                } else if fewer.contains(id) {
                    let i = choose|i: int| 0 <= i < fewer.len() && fewer[i] == id;
                    assert(down[i] == id);
                } else if down.contains(id) {
                    let i = choose|i: int| 0 <= i < down.len() && down[i] == id;
                    assert(fewer[i] == id);
                }
            }
        }
    }
}

/// A report tells of the first keys that are down: of all, if it has room, and else of none that
/// comes behind one that it leaves out.
pub proof fn reported_keys_are_the_first_down(state: SharedState, id: int)
    requires
        0 <= id < NUM_KEYS,
    ensures
        state.reported().len() <= REPORT_KEYS,
        state.reported().contains(id) ==> state.key_states@[id] is Some,
        state.key_states@[id] is Some && !state.reported().contains(id) ==> {
            &&& state.reported().len() == REPORT_KEYS
            &&& forall|k: int| 0 <= k < REPORT_KEYS ==> #[trigger] state.reported()[k] < id
        },
{
    let down = keys_down(state.key_states@, NUM_KEYS as int);
    let reported = state.reported();
    keys_down_are_exactly_those(state.key_states@, NUM_KEYS as int);
    if reported.contains(id) {
        let k = choose|k: int| 0 <= k < reported.len() && reported[k] == id;
        assert(down[k] == id);
        assert(down.contains(id));
    } else if state.key_states@[id] is Some {
        assert(down.contains(id));
        let j = choose|j: int| 0 <= j < down.len() && down[j] == id;
        assert(j >= REPORT_KEYS) by {
            if j < REPORT_KEYS {
                assert(reported[j] == id);
            }
        }
        assert forall|k: int| 0 <= k < REPORT_KEYS implies #[trigger] state.reported()[k] < id by {
            assert(down[k] < down[j]);
        }
    }
}

/// With no key down, a report is empty and leaves the layers alone.
pub proof fn no_key_down_no_report(state: SharedState)
    requires
        forall|id: int| 0 <= id < NUM_KEYS ==> #[trigger] state.key_states@[id] is None,
    ensures
        state.modifier() == 0,
        forall|k: int| 0 <= k < REPORT_KEYS ==> #[trigger] state.keycodes()[k] == 0,
        state.layer_after(state.reported().len() as int) == state.current_layer,
{
    keys_down_are_exactly_those(state.key_states@, NUM_KEYS as int);
    let down = keys_down(state.key_states@, NUM_KEYS as int);
    if down.len() > 0 {
        assert(down.contains(down[0]));
    }
}

/// Both protocols tell the host the same.
pub proof fn both_protocols_agree(state: SharedState, report: KeyboardReport)
    requires
        state.is_keyboard_report(report),
    ensures
        state.boot_report().len() == 8,
        state.boot_report()[0] == report.modifier,
        state.boot_report()[1] == report.reserved,
        state.boot_report().skip(2) == report.keycodes@,
{
    assert(state.boot_report().skip(2) =~= report.keycodes@);
}

/// The layer in use always exists, and so does the layer below, if it did before.
pub proof fn layers_stay_within_bounds(state: SharedState, k: int)
    requires
        state.inv(),
    ensures
        state.layer_after(k).inv(),
        state.current_layer.base() < NUM_LAYERS ==> state.layer_after(k).base() < NUM_LAYERS,
    decreases k,
{
    if k > 0 {
        layers_stay_within_bounds(state, k - 1);
    }
}

/// Holding a layer keeps the layer below, and setting a layer replaces it.
pub proof fn held_layer_keeps_its_base(layers: LayerState, key: KeyPress)
    ensures
        layers.after(key).base() == if layers.after(key) is Fixed {
            layers.after(key).active()
        } else {
            layers.base()
        },
{
}

/// Whether `key` sets a layer.
pub open spec fn sets_a_layer(key: KeyPress) -> bool {
    match key {
        KeyPress::LayerSet0
        | KeyPress::LayerSet1
        | KeyPress::LayerSet2
        | KeyPress::LayerSet3
        | KeyPress::LayerSet4 => true,
        _ => false,
    }
}

proof fn base_after(state: SharedState, k: int)
    requires
        forall|j: int|
            0 <= j < k ==> match #[trigger] state.reported_meaning(j) {
                Some(keymap) => !sets_a_layer(keymap.key),
                None => true,
            },
    ensures
        state.layer_after(k).base() == state.current_layer.base(),
    decreases k,
{
    if k > 0 {
        base_after(state, k - 1);
        assert(match state.reported_meaning(k - 1) {
            Some(keymap) => !sets_a_layer(keymap.key),
            None => true,
        });
    }
}

/// A report that meets no key that sets a layer keeps the layer below, however many layers are held,
/// also one on top of another.
pub proof fn report_keeps_the_base_layer(state: SharedState, after: SharedState)
    requires
        state.after_report(after),
        forall|k: int|
            0 <= k < state.reported().len() ==> match #[trigger] state.reported_meaning(k) {
                Some(keymap) => !sets_a_layer(keymap.key),
                None => true,
            },
    ensures
        after.current_layer.base() == state.current_layer.base(),
{
    base_after(state, state.reported().len() as int);
}

/// Whether none of the reported keys is a layer key.
pub open spec fn no_layer_key(state: SharedState) -> bool {
    forall|k: int|
        0 <= k < state.reported().len() ==> match #[trigger] state.reported_meaning(k) {
            Some(keymap) => keymap.key is Key,
            None => true,
        }
}

proof fn layers_without_layer_key(state: SharedState, k: int)
    requires
        no_layer_key(state),
        k <= state.reported().len(),
    ensures
        state.layer_after(k) == state.current_layer,
    decreases k,
{
    if k > 0 {
        layers_without_layer_key(state, k - 1);
        assert(match state.reported_meaning(k - 1) {
            Some(keymap) => keymap.key is Key,
            None => true,
        });
    }
}

/// As long as no layer key is down and no key changes, report after report is the same.
pub proof fn same_keys_same_report(state: SharedState, after: SharedState)
    requires
        no_layer_key(state),
        state.after_report(after),
    ensures
        after == state,
{
    layers_without_layer_key(state, state.reported().len() as int);
}

/// A report has the modifiers of every key that it has a code for.
pub proof fn no_modifier_is_lost(state: SharedState, j: int, k: int)
    requires
        0 <= j < k,
        state.reported_meaning(j) is Some,
        state.reported_meaning(j)->Some_0.key is Key,
    ensures
        state.modifiers(k) & state.reported_meaning(j)->Some_0.modifiers
            == state.reported_meaning(j)->Some_0.modifiers,
    decreases k,
{
    let own = state.reported_meaning(j)->Some_0.modifiers;
    let before = state.modifiers(k - 1);
    if j == k - 1 {
        assert((before | own) & own == own) by (bit_vector);
    } else {
        no_modifier_is_lost(state, j, k - 1);
        match state.reported_meaning(k - 1) {
            Some(keymap) => {
                let other = keymap.modifiers;
                assert((before | other) & own == own) by (bit_vector)
                    requires
                        before & own == own,
                ;
            },
            None => {},
        }
    }
}

/// A key that is pressed, held or not, and then released leaves no trace among the keys.
pub proof fn released_key_leaves_no_trace(
    key_states: Seq<Option<KeyState>>,
    down: KeyEvent,
    up: KeyEvent,
)
    requires
        down.id() == up.id(),
        up is KeyReleased,
        down.id() < key_states.len(),
        key_states[down.id() as int] is None,
    ensures
        key_states.update(down.id() as int, key_state_after(down)).update(
            up.id() as int,
            key_state_after(up),
        ) == key_states,
{
    assert(key_states.update(down.id() as int, key_state_after(down)).update(
        up.id() as int,
        key_state_after(up),
    ) =~= key_states);
}

/// The layers in use are those that their state names: the one held, if one is held, on top of the
/// one below; else the one that is set, which is its own base.
pub proof fn layers_are_those_named(idx: usize, base: usize, held: usize)
    ensures
        LayerState::Fixed(idx).active() == idx,
        LayerState::Fixed(idx).base() == idx,
        (LayerState::Held { base, held }).active() == held,
        (LayerState::Held { base, held }).base() == base,
        LayerState::Fixed(idx).inv() <==> idx < 5,
        (LayerState::Held { base, held }).inv() <==> held < 5,
{
}

/// A report can be made whenever the layer in use exists, whatever else the state is.
pub proof fn report_needs_the_layer_in_use_only(state: SharedState)
    ensures
        state.inv() <==> match state.current_layer {
            LayerState::Fixed(idx) => idx < 5,
            LayerState::Held { held, .. } => held < 5,
        },
{
}

/// A key that sets a layer puts that layer in use, whatever was; one that holds a layer puts it on
/// top of the layer below; any other key leaves the layers alone.
pub proof fn layer_keys_do_as_they_are_named(layers: LayerState, code: u8)
    ensures
        layers.after(KeyPress::Key(code)) == layers,
        layers.after(KeyPress::LayerSet0) == LayerState::Fixed(0),
        layers.after(KeyPress::LayerSet1) == LayerState::Fixed(1),
        layers.after(KeyPress::LayerSet2) == LayerState::Fixed(2),
        layers.after(KeyPress::LayerSet3) == LayerState::Fixed(3),
        layers.after(KeyPress::LayerSet4) == LayerState::Fixed(4),
        ({
            let base = match layers {
                LayerState::Fixed(idx) => idx,
                LayerState::Held { base, .. } => base,
            };
            &&& layers.after(KeyPress::LayerHold0) == (LayerState::Held { base, held: 0 })
            &&& layers.after(KeyPress::LayerHold1) == (LayerState::Held { base, held: 1 })
            &&& layers.after(KeyPress::LayerHold2) == (LayerState::Held { base, held: 2 })
            &&& layers.after(KeyPress::LayerHold3) == (LayerState::Held { base, held: 3 })
            &&& layers.after(KeyPress::LayerHold4) == (LayerState::Held { base, held: 4 })
        }),
{
}

/// A layer key counts from the next reported key on, and nothing else moves the layers.
pub proof fn layer_key_counts_from_the_next_key_on(state: SharedState, k: int)
    requires
        0 <= k < state.reported().len(),
    ensures
        state.layer_after(0) == state.current_layer,
        state.reported_meaning(k) is None ==> state.layer_after(k + 1) == state.layer_after(k),
        state.reported_meaning(k) matches Some(keymap) ==> state.layer_after(k + 1)
            == state.layer_after(k).after(keymap.key),
{
    reveal_with_fuel(SharedState::layer_after, 2);
}

/// What a key means is one of its entries in the key map, as it stands, with its modifiers: for a
/// pressed key the press entry of the layer in use, else of the first; for a held key the hold entry,
/// else the press entry of the layer in use, else the hold entry, else the press entry of the first.
pub proof fn meaning_is_the_first_entry_there_is(current: KeyMapping, base: KeyMapping)
    ensures
        current.press is Some ==> meaning(KeyState::Pressed, current, base) == current.press,
        current.press is None ==> meaning(KeyState::Pressed, current, base) == base.press,
        current.held is Some ==> meaning(KeyState::Held, current, base) == current.held,
        current.held is None && current.press is Some ==> meaning(KeyState::Held, current, base)
            == current.press,
        current.held is None && current.press is None && base.held is Some ==> meaning(
            KeyState::Held,
            current,
            base,
        ) == base.held,
        current.held is None && current.press is None && base.held is None ==> meaning(
            KeyState::Held,
            current,
            base,
        ) == base.press,
{
}

/// A key that has no hold entry on either layer means the same when it is held as when it is pressed,
/// modifiers and all.
pub proof fn hold_without_an_entry_changes_nothing(current: KeyMapping, base: KeyMapping)
    requires
        current.held is None,
        base.held is None,
    ensures
        meaning(KeyState::Held, current, base) == meaning(KeyState::Pressed, current, base),
{
}

/// A reported key means what the entries of that key say, on the layer in use when its turn comes and
/// on the first one.
pub proof fn reported_key_is_read_from_its_own_entries(state: SharedState, k: int)
    requires
        0 <= k < state.reported().len(),
    ensures
        ({
            let id = state.reported()[k];
            let layer = match state.layer_after(k) {
                LayerState::Fixed(idx) => idx,
                LayerState::Held { held, .. } => held,
            };
            let current = state.key_map@[layer as int]@[id];
            let base = state.key_map@[0]@[id];
            &&& 0 <= id < 56
            &&& state.key_states@[id] is Some
            &&& state.key_states@[id] == Some(KeyState::Pressed) ==> state.reported_meaning(k)
                == if current.press is Some {
                current.press
            } else {
                base.press
            }
            &&& state.key_states@[id] == Some(KeyState::Held) ==> state.reported_meaning(k)
                == if current.held is Some {
                current.held
            } else if current.press is Some {
                current.press
            } else if base.held is Some {
                base.held
            } else {
                base.press
            }
        }),
{
    let id = state.reported()[k];
    keys_down_are_exactly_those(state.key_states@, NUM_KEYS as int);
    let down = keys_down(state.key_states@, NUM_KEYS as int);
    assert(down[k] == id);
    assert(down.contains(id));
}

/// The keys of a report come in the order of their numbers, each once, six at most.
pub proof fn reported_keys_are_in_order(state: SharedState, i: int, j: int)
    requires
        0 <= i < j < state.reported().len(),
    ensures
        state.reported()[i] < state.reported()[j],
        state.reported().len() <= 6,
{
    keys_down_are_exactly_those(state.key_states@, NUM_KEYS as int);
}

/// A report leaves a key out only if it is full.
pub proof fn key_is_left_out_only_of_a_full_report(state: SharedState, id: int)
    requires
        0 <= id < 56,
        state.key_states@[id] is Some,
        !state.reported().contains(id),
    ensures
        state.reported().len() == 6,
        forall|k: int| 0 <= k < 6 ==> #[trigger] state.reported()[k] < id,
{
    reported_keys_are_the_first_down(state, id);
}

/// Each reported key has a place of its own in the report, with its code in it, or zero if it has
/// none; the places left over are zero. The modifiers of a key with a code are all in the report.
pub proof fn report_has_every_code_with_its_modifiers(state: SharedState, k: int)
    requires
        0 <= k < 6,
    ensures
        state.keycodes().len() == 6,
        k >= state.reported().len() ==> state.keycodes()[k] == 0,
        k < state.reported().len() ==> match state.reported_meaning(k) {
            Some(KeyMap { key: KeyPress::Key(code), modifiers }) => {
                &&& state.keycodes()[k] == code
                &&& state.modifier() & modifiers == modifiers
            },
            _ => state.keycodes()[k] == 0,
        },
{
    if k < state.reported().len() && state.reported_meaning(k) is Some
        && state.reported_meaning(k)->Some_0.key is Key {
        no_modifier_is_lost(state, k, state.reported().len() as int);
    }
}

/// A key keeps its modifiers while it is held: as long as no layer key is down, the report has all
/// modifiers of the entry that it reads for each key with a code.
pub proof fn held_key_keeps_its_modifiers(state: SharedState, k: int)
    requires
        no_layer_key(state),
        0 <= k < state.reported().len(),
    ensures
        ({
            let id = state.reported()[k];
            let layer = match state.current_layer {
                LayerState::Fixed(idx) => idx,
                LayerState::Held { held, .. } => held,
            };
            let current = state.key_map@[layer as int]@[id];
            let base = state.key_map@[0]@[id];
            let held = state.key_states@[id] == Some(KeyState::Held);
            let entry = if held && current.held is Some {
                current.held
            } else if current.press is Some {
                current.press
            } else if held && base.held is Some {
                base.held
            } else {
                base.press
            };
            entry matches Some(KeyMap { key: KeyPress::Key(code), modifiers }) ==> {
                &&& state.keycodes()[k] == code
                &&& state.modifier() & modifiers == modifiers
            }
        }),
{
    layers_without_layer_key(state, k);
    reported_key_is_read_from_its_own_entries(state, k);
    keys_down_are_exactly_those(state.key_states@, NUM_KEYS as int);
    report_has_every_code_with_its_modifiers(state, k);
}

proof fn modifiers_without(state: SharedState, k: int, bits: u8)
    requires
        forall|j: int|
            0 <= j < k ==> match #[trigger] state.reported_meaning(j) {
                Some(KeyMap { key: KeyPress::Key(_), modifiers }) => modifiers & bits == 0,
                _ => true,
            },
    ensures
        state.modifiers(k) & bits == 0,
    decreases k,
{
    if k > 0 {
        let before = state.modifiers(k - 1);
        modifiers_without(state, k - 1, bits);
        assert(match state.reported_meaning(k - 1) {
            Some(KeyMap { key: KeyPress::Key(_), modifiers }) => modifiers & bits == 0,
            _ => true,
        });
        if let Some(KeyMap { key: KeyPress::Key(_), modifiers }) = state.reported_meaning(k - 1) {
            assert((before | modifiers) & bits == 0) by (bit_vector)
                requires
                    before & bits == 0,
                    modifiers & bits == 0,
            ;
        }
    } else {
        assert(0u8 & bits == 0) by (bit_vector);
    }
}

/// A report has no modifier that none of its keys with a code has.
pub proof fn no_modifier_is_made_up(state: SharedState, bits: u8)
    requires
        forall|j: int|
            0 <= j < state.reported().len() ==> match #[trigger] state.reported_meaning(j) {
                Some(KeyMap { key: KeyPress::Key(_), modifiers }) => modifiers & bits == 0,
                _ => true,
            },
    ensures
        state.modifier() & bits == 0,
{
    modifiers_without(state, state.reported().len() as int, bits);
}

/// In the boot protocol a report is the modifiers, a zero and the six codes; in the report protocol
/// it says the same and tells of no lights.
pub proof fn reports_are_laid_out_so(state: SharedState, report: KeyboardReport)
    ensures
        state.boot_report().len() == 8,
        state.boot_report()[0] == state.modifier(),
        state.boot_report()[1] == 0,
        state.boot_report().skip(2) == state.keycodes(),
        state.is_keyboard_report(report) <==> {
            &&& report.modifier == state.modifier()
            &&& report.reserved == 0
            &&& report.leds == 0
            &&& report.keycodes@ == state.keycodes()
        },
{
    assert(state.boot_report().skip(2) =~= state.keycodes());
}

/// Making a report moves the layers at most: to where the last reported key leaves them.
pub proof fn report_moves_the_layers_at_most(state: SharedState, after: SharedState)
    requires
        state.after_report(after),
    ensures
        after.key_states == state.key_states,
        after.key_map == state.key_map,
        after.current_layer == state.layer_after(state.reported().len() as int),
{
}

/// A key is noted as what happened to it: down when pressed, held when held, and up when released.
pub proof fn key_is_noted_as_what_happened(id: usize)
    ensures
        key_state_after(KeyEvent::KeyPressed(id)) == Some(KeyState::Pressed),
        key_state_after(KeyEvent::KeyHeld(id)) == Some(KeyState::Held),
        key_state_after(KeyEvent::KeyReleased(id)) is None,
{
}

/// The keyboard asks for the USB boot loader only while each of the four corner keys is held: any one
/// of them that is up, or merely pressed, is enough to keep it from that.
pub proof fn each_corner_key_has_to_be_held(state: SharedState, id: int)
    requires
        id == 0 || id == 1 || id == 32 || id == 33,
        state.key_states@[id] != Some(KeyState::Held),
    ensures
        !state.wants_bootloader(),
{
}

/// The four corner keys, all held, are enough to ask for the USB boot loader, whatever the other keys
/// do.
pub proof fn corner_keys_are_enough(state: SharedState)
    requires
        forall|id: int|
            id == 0 || id == 1 || id == 32 || id == 33 ==> #[trigger] state.key_states@[id] == Some(
                KeyState::Held,
            ),
    ensures
        state.wants_bootloader(),
{
    assert(state.key_states@[0] == Some(KeyState::Held));
    assert(state.key_states@[1] == Some(KeyState::Held));
    assert(state.key_states@[32] == Some(KeyState::Held));
    assert(state.key_states@[33] == Some(KeyState::Held));
}

/// Zero stands for the boot protocol and no other code does.
pub proof fn zero_alone_is_the_boot_protocol(code: u8)
    ensures
        ProtocolMode::from_code(code) is Boot <==> code == 0,
        ProtocolMode::from_code(code) is Report <==> code != 0,
{
}

/// An empty mapping means nothing, pressed or held.
pub proof fn empty_mapping_means_nothing(base: KeyMapping)
    ensures
        KeyMapping::none().press is None,
        KeyMapping::none().held is None,
        meaning(KeyState::Pressed, KeyMapping::none(), base) == base.press,
{
}

} // verus!
