//! What the keyboard reports to the host.
pub mod laws;

use crate::button_array::KeyEvent;
use crate::keyboard::{KeyMap, KeyMapping, KeyPress};
use vstd::prelude::*;

verus! {

/// How many keys the two boards have.
pub const NUM_KEYS: usize = 56;

/// How many layers there are.
pub const NUM_LAYERS: usize = 5;

/// How many keys one report has room for.
pub const REPORT_KEYS: usize = 6;

/// Which layer the keys are read from.
#[derive(Debug, Copy, Clone, PartialEq, Eq, Structural)]
pub enum LayerState {
    /// That layer.
    Fixed(usize),
    /// Layer `held`, on top of layer `base`.
    Held { base: usize, held: usize },
}

impl LayerState {
    /// The layer that the keys are read from.
    pub open spec fn active(self) -> usize {
        match self {
            LayerState::Fixed(idx) => idx,
            LayerState::Held { held, .. } => held,
        }
    }

    /// The layer below.
    pub open spec fn base(self) -> usize {
        match self {
            LayerState::Fixed(idx) => idx,
            LayerState::Held { base, .. } => base,
        }
    }

    /// The layer that the keys are read from exists.
    pub open spec fn inv(self) -> bool {
        self.active() < NUM_LAYERS
    }

    /// The layers when `key` has been pressed.
    pub open spec fn after(self, key: KeyPress) -> LayerState {
        match key {
            KeyPress::Key(_) => self,
            KeyPress::LayerSet0 => LayerState::Fixed(0),
            KeyPress::LayerSet1 => LayerState::Fixed(1),
            KeyPress::LayerSet2 => LayerState::Fixed(2),
            KeyPress::LayerSet3 => LayerState::Fixed(3),
            KeyPress::LayerSet4 => LayerState::Fixed(4),
            KeyPress::LayerHold0 => LayerState::Held { base: self.base(), held: 0 },
            KeyPress::LayerHold1 => LayerState::Held { base: self.base(), held: 1 },
            KeyPress::LayerHold2 => LayerState::Held { base: self.base(), held: 2 },
            KeyPress::LayerHold3 => LayerState::Held { base: self.base(), held: 3 },
            KeyPress::LayerHold4 => LayerState::Held { base: self.base(), held: 4 },
        }
    }
}

/// A key that is down.
#[derive(Debug, Copy, Clone, PartialEq, Eq, Structural)]
pub enum KeyState {
    Pressed,
    Held,
}

/// A keyboard report, as the host's report protocol has it.
#[derive(Debug, Copy, Clone)]
pub struct KeyboardReport {
    pub modifier: u8,
    pub reserved: u8,
    pub leds: u8,
    pub keycodes: [u8; 6],
}

/// A request to read or write the key map.
#[derive(Debug, Copy, Clone, PartialEq, Eq, Structural)]
pub enum HidCfgCommand {
    WriteKeyMapping { id: u8, key_mapping: KeyMapping },
    ReadKeyMapping { id: u8 },
}

/// What the reports are made from.
pub struct SharedState {
    /// The keys that are down.
    pub key_states: [Option<KeyState>; 56],
    /// What each key means on each layer.
    pub key_map: [[KeyMapping; 56]; 5],
    pub current_layer: LayerState,
}

/// `a` if there is one, else `b`.
pub open spec fn or_else(a: Option<KeyMap>, b: Option<KeyMap>) -> Option<KeyMap> {
    if a is Some {
        a
    } else {
        b
    }
}

/// The meaning of a key in state `state` that means `current` on the layer in use and `base` on
/// the first layer.
///
/// The layer in use goes before the first one; on each, a key that is held falls back on what it
/// means when pressed.
pub open spec fn meaning(state: KeyState, current: KeyMapping, base: KeyMapping) -> Option<KeyMap> {
    match state {
        KeyState::Pressed => or_else(current.press, base.press),
        KeyState::Held => or_else(
            or_else(current.held, current.press),
            or_else(base.held, base.press),
        ),
    }
}

/// The numbers of the keys that are down among the first `n`, in order.
pub open spec fn keys_down(key_states: Seq<Option<KeyState>>, n: int) -> Seq<int>
    decreases n,
{
    if n <= 0 {
        seq![]
    } else if key_states[n - 1] is Some {
        keys_down(key_states, n - 1).push(n - 1)
    } else {
        keys_down(key_states, n - 1)
    }
}

impl SharedState {
    /// The state is one that the operations leave behind.
    pub open spec fn inv(self) -> bool {
        self.current_layer.inv()
    }

    /// Whether the top two keys on the left and on the right are held.
    pub open spec fn wants_bootloader(self) -> bool {
        &&& self.key_states@[0] == Some(KeyState::Held)
        &&& self.key_states@[1] == Some(KeyState::Held)
        &&& self.key_states@[32] == Some(KeyState::Held)
        &&& self.key_states@[33] == Some(KeyState::Held)
    }

    /// The numbers of the keys that a report tells of: the first that are down.
    pub open spec fn reported(self) -> Seq<int> {
        let down = keys_down(self.key_states@, NUM_KEYS as int);
        if down.len() <= REPORT_KEYS {
            down
        } else {
            down.take(REPORT_KEYS as int)
        }
    }

    /// The layers when the first `k` reported keys have been looked at: a layer key counts for
    /// the keys behind it.
    pub open spec fn layer_after(self, k: int) -> LayerState
        decreases k, 0int,
    {
        if k <= 0 {
            self.current_layer
        } else {
            match self.reported_meaning(k - 1) {
                Some(keymap) => self.layer_after(k - 1).after(keymap.key),
                None => self.layer_after(k - 1),
            }
        }
    }

    /// The meaning of the `k`-th reported key.
    pub open spec fn reported_meaning(self, k: int) -> Option<KeyMap>
        decreases k, 1int,
    {
        let id = self.reported()[k];
        meaning(
            self.key_states@[id]->Some_0,
            self.key_map@[self.layer_after(k).active() as int]@[id],
            self.key_map@[0]@[id],
        )
    }

    /// The code in the `k`-th place of a report; 0 if there is none.
    pub open spec fn keycode(self, k: int) -> u8 {
        if k < self.reported().len() {
            match self.reported_meaning(k) {
                Some(KeyMap { key: KeyPress::Key(code), .. }) => code,
                _ => 0,
            }
        } else {
            0
        }
    }

    /// The codes of a report.
    pub open spec fn keycodes(self) -> Seq<u8> {
        Seq::new(REPORT_KEYS as nat, |k: int| self.keycode(k))
    }

    /// The modifiers of the first `k` reported keys together. Layer keys have none.
    pub open spec fn modifiers(self, k: int) -> u8
        decreases k,
    {
        if k <= 0 {
            0
        } else {
            match self.reported_meaning(k - 1) {
                Some(KeyMap { key: KeyPress::Key(_), modifiers }) => self.modifiers(k - 1)
                    | modifiers,
                _ => self.modifiers(k - 1),
            }
        }
    }

    /// The modifiers of a report.
    pub open spec fn modifier(self) -> u8 {
        self.modifiers(self.reported().len() as int)
    }

    /// The state when a report has been made: the layers may be others.
    pub open spec fn after_report(self, after: SharedState) -> bool {
        &&& after.key_states == self.key_states
        &&& after.key_map == self.key_map
        &&& after.current_layer == self.layer_after(self.reported().len() as int)
    }
}

/// `a` if there is one, else `b`.
fn first_of(a: Option<KeyMap>, b: Option<KeyMap>) -> (first: Option<KeyMap>)
    ensures
        first == or_else(a, b),
{
    match a {
        Some(keymap) => Some(keymap),
        None => b,
    }
}

impl SharedState {
    /// No key is down, the first layer is in use, and the keys mean on it what `base` says. The
    /// other layers are empty.
    pub fn new(base: [KeyMapping; 56]) -> (state: SharedState)
        ensures
            state.inv(),
            state.current_layer == LayerState::Fixed(0),
            forall|id: int| 0 <= id < NUM_KEYS ==> #[trigger] state.key_states@[id] is None,
            state.key_map@[0] == base,
            forall|layer: int, id: int|
                1 <= layer < NUM_LAYERS && 0 <= id < NUM_KEYS
                    ==> #[trigger] state.key_map@[layer]@[id] == KeyMapping::none(),
            forall|layer: int, id: int|
                1 <= layer < 5 && 0 <= id < 56 ==> (#[trigger] state.key_map@[layer]@[id]).press
                    is None && state.key_map@[layer]@[id].held is None,
    {
        let empty: [KeyMapping; 56] = [KeyMapping { press: None, held: None };56];
        SharedState {
            key_states: [None;56],
            key_map: [base, empty, empty, empty, empty],
            current_layer: LayerState::Fixed(0),
        }
    }

    /// Whether to go into the USB boot loader: if the top two keys on the left and on the right
    /// are held.
    pub fn should_do_bootloader(&self) -> (yes: bool)
        ensures
            yes == self.wants_bootloader(),
            yes <==> forall|id: int|
                id == 0 || id == 1 || id == 32 || id == 33 ==> #[trigger] self.key_states@[id]
                    == Some(KeyState::Held),
    {
        is_held(self.key_states[0]) && is_held(self.key_states[1]) && is_held(self.key_states[32])
            && is_held(self.key_states[33])
    }

    /// What the keys mean on the layer in use.
    pub fn get_current_layer_mapping(&self) -> (mapping: &[KeyMapping; 56])
        requires
            self.current_layer.active() < NUM_LAYERS,
        ensures
            *mapping == self.key_map@[self.current_layer.active() as int],
            *mapping == match self.current_layer {
                LayerState::Fixed(idx) => self.key_map@[idx as int],
                LayerState::Held { held, .. } => self.key_map@[held as int],
            },
    {
        match self.current_layer {
            LayerState::Fixed(idx) => &self.key_map[idx],
            LayerState::Held { held, .. } => &self.key_map[held],
        }
    }

    /// The layer below the one in use.
    pub fn get_current_base_layer(&self) -> (base: usize)
        ensures
            base == self.current_layer.base(),
            base == match self.current_layer {
                LayerState::Fixed(idx) => idx,
                LayerState::Held { base, .. } => base,
            },
    {
        match self.current_layer {
            LayerState::Fixed(idx) => idx,
            LayerState::Held { base, .. } => base,
        }
    }

    /// What key `id`, which is in state `state`, means now.
    fn meaning(&self, id: usize, state: KeyState) -> (keymap: Option<KeyMap>)
        requires
            self.inv(),
            id < NUM_KEYS,
        ensures
            keymap == meaning(
                state,
                self.key_map@[self.current_layer.active() as int]@[id as int],
                self.key_map@[0]@[id as int],
            ),
    {
        let current: KeyMapping = self.get_current_layer_mapping()[id];
        let base: KeyMapping = self.key_map[0][id];
        match state {
            KeyState::Pressed => first_of(current.press, base.press),
            KeyState::Held => first_of(
                first_of(current.held, current.press),
                first_of(base.held, base.press),
            ),
        }
    }

    /// Lets `key` switch the layers, if it is a layer key; returns its code, if it is not.
    fn press(&mut self, key: KeyPress) -> (code: Option<u8>)
        requires
            old(self).inv(),
        ensures
            final(self).inv(),
            final(self).key_states == old(self).key_states,
            final(self).key_map == old(self).key_map,
            final(self).current_layer == old(self).current_layer.after(key),
            code == match key {
                KeyPress::Key(code) => Some(code),
                _ => None,
            },
    {
        let base = self.get_current_base_layer();
        match key {
            KeyPress::LayerSet0 => {
                self.current_layer = LayerState::Fixed(0);
            },
            KeyPress::LayerSet1 => {
                self.current_layer = LayerState::Fixed(1);
            },
            KeyPress::LayerSet2 => {
                self.current_layer = LayerState::Fixed(2);
            },
            KeyPress::LayerSet3 => {
                self.current_layer = LayerState::Fixed(3);
            },
            KeyPress::LayerSet4 => {
                self.current_layer = LayerState::Fixed(4);
            },
            KeyPress::LayerHold0 => {
                self.current_layer = LayerState::Held { base, held: 0 };
            },
            KeyPress::LayerHold1 => {
                self.current_layer = LayerState::Held { base, held: 1 };
            },
            KeyPress::LayerHold2 => {
                self.current_layer = LayerState::Held { base, held: 2 };
            },
            KeyPress::LayerHold3 => {
                self.current_layer = LayerState::Held { base, held: 3 };
            },
            KeyPress::LayerHold4 => {
                self.current_layer = LayerState::Held { base, held: 4 };
            },
            KeyPress::Key(code) => {
                return Some(code);
            },
        }
        None
    }

    /// Maps the keys that are down to modifiers and key codes.
    pub fn map_hid_report_inner(&mut self) -> (report: (u8, [u8; 6]))
        requires
            old(self).inv(),
        ensures
            final(self).inv(),
            old(self).after_report(*final(self)),
            final(self).key_states == old(self).key_states,
            final(self).key_map == old(self).key_map,
            report.0 == old(self).modifier(),
            report.1@ == old(self).keycodes(),
    {
        let mut keycodes: [u8; 6] = [0, 0, 0, 0, 0, 0];
        let mut modifier: u8 = 0;
        let mut idx: usize = 0;
        let mut id: usize = 0;
        let ghost before = *self;
        let ghost down = keys_down(before.key_states@, NUM_KEYS as int);
        while id < NUM_KEYS && idx < REPORT_KEYS
            invariant
                before == *old(self),
                down == keys_down(before.key_states@, NUM_KEYS as int),
                id <= NUM_KEYS,
                idx <= REPORT_KEYS,
                idx == keys_down(before.key_states@, id as int).len(),
                self.inv(),
                self.key_states == before.key_states,
                self.key_map == before.key_map,
                self.current_layer == before.layer_after(idx as int),
                modifier == before.modifiers(idx as int),
                forall|k: int| 0 <= k < idx ==> keycodes@[k] == before.keycode(k),
                forall|k: int| idx <= k < REPORT_KEYS ==> keycodes@[k] == 0,
            decreases NUM_KEYS - id,
        {
            if let Some(state) = self.key_states[id] {
                proof {
                    keys_down_grows(before.key_states@, id + 1, NUM_KEYS as int);
                    assert(before.reported()[idx as int] == id);
                    reveal_with_fuel(SharedState::layer_after, 2);
                    reveal_with_fuel(SharedState::reported_meaning, 2);
                }
                if let Some(keymap) = self.meaning(id, state) {
                    if let Some(code) = self.press(keymap.key) {
                        keycodes[idx] = code;
                        modifier = modifier | keymap.modifiers;
                    }
                }
                idx += 1;
            }
            id += 1;
        }
        proof {
            keys_down_grows(before.key_states@, id as int, NUM_KEYS as int);
            assert(before.reported().len() == idx);
            assert(keycodes@ =~= before.keycodes());
        }
        (modifier, keycodes)
    }
}

/// Looking at more keys finds more that are down, behind those found before.
proof fn keys_down_grows(key_states: Seq<Option<KeyState>>, m: int, n: int)
    requires
        m <= n,
    ensures
        keys_down(key_states, m).len() <= keys_down(key_states, n).len(),
        forall|k: int|
            0 <= k < keys_down(key_states, m).len() ==> keys_down(key_states, m)[k] == keys_down(
                key_states,
                n,
            )[k],
    decreases n - m,
{
    if m < n {
        keys_down_grows(key_states, m, n - 1);
    }
}

/// Whether the key is held.
fn is_held(state: Option<KeyState>) -> (yes: bool)
    ensures
        yes == (state == Some(KeyState::Held)),
{
    match state {
        Some(KeyState::Held) => true,
        _ => false,
    }
}

impl SharedState {
    /// A report as the boot protocol has it: the modifiers, a zero, the key codes.
    pub open spec fn boot_report(self) -> Seq<u8> {
        seq![self.modifier(), 0u8] + self.keycodes()
    }

    /// Whether `report` is the one for this state as the report protocol has it.
    pub open spec fn is_keyboard_report(self, report: KeyboardReport) -> bool {
        &&& report.modifier == self.modifier()
        &&& report.reserved == 0
        &&& report.leds == 0
        &&& report.keycodes@ == self.keycodes()
    }

    /// Makes a report as the boot protocol has it.
    pub fn map_hid_keyboard_report_boot(&mut self) -> (report: [u8; 8])
        requires
            old(self).inv(),
        ensures
            final(self).inv(),
            old(self).after_report(*final(self)),
            final(self).key_states == old(self).key_states,
            final(self).key_map == old(self).key_map,
            report@ == old(self).boot_report(),
            report@[0] == old(self).modifier(),
            report@[1] == 0,
            report@.skip(2) == old(self).keycodes(),
    {
        let (modifier, codes) = self.map_hid_report_inner();
        let report: [u8; 8] = [
            modifier,
            0,
            codes[0],
            codes[1],
            codes[2],
            codes[3],
            codes[4],
            codes[5],
        ];
        assert(report@ =~= old(self).boot_report());
        assert(report@.skip(2) =~= old(self).keycodes());
        report
    }

    /// Makes a report as the report protocol has it.
    pub fn map_hid_keyboard_report(&mut self) -> (report: KeyboardReport)
        requires
            old(self).inv(),
        ensures
            final(self).inv(),
            old(self).after_report(*final(self)),
            final(self).key_states == old(self).key_states,
            final(self).key_map == old(self).key_map,
            old(self).is_keyboard_report(report),
            report.modifier == old(self).modifier(),
            report.reserved == 0,
            report.leds == 0,
            report.keycodes@ == old(self).keycodes(),
    {
        let (modifier, keycodes) = self.map_hid_report_inner();
        KeyboardReport { modifier, reserved: 0, leds: 0, keycodes }
    }
}

/// The protocol in which the host wants its reports.
#[derive(Debug, Copy, Clone, PartialEq, Eq, Structural)]
pub enum ProtocolMode {
    Boot,
    Report,
}

impl ProtocolMode {
    /// The protocol that `code` stands for.
    pub open spec fn from_code(code: u8) -> ProtocolMode {
        if code == 0 {
            ProtocolMode::Boot
        } else {
            ProtocolMode::Report
        }
    }
}

/// `embassy_usb::class::hid::HidProtocolMode::from` for a byte: zero stands for the boot protocol,
/// any other value for the report protocol.
#[verifier::external_body]
fn protocol_mode(code: u8) -> (mode: ProtocolMode)
    ensures
        mode == ProtocolMode::from_code(code),
{
    match embassy_usb::class::hid::HidProtocolMode::from(code) {
        embassy_usb::class::hid::HidProtocolMode::Boot => ProtocolMode::Boot,
        embassy_usb::class::hid::HidProtocolMode::Report => ProtocolMode::Report,
    }
}

/// A report in the protocol that the host wants.
#[derive(Debug, Copy, Clone)]
pub enum HidReport {
    Boot([u8; 8]),
    Keyboard(KeyboardReport),
}

impl SharedState {
    /// Makes the next report, in the protocol that `mode_code` stands for.
    pub fn next_report(&mut self, mode_code: u8) -> (report: HidReport)
        requires
            old(self).inv(),
        ensures
            final(self).inv(),
            old(self).after_report(*final(self)),
            match ProtocolMode::from_code(mode_code) {
                ProtocolMode::Boot => report matches HidReport::Boot(bytes) && bytes@ == old(
                    self,
                ).boot_report(),
                ProtocolMode::Report => report matches HidReport::Keyboard(report) && old(
                    self,
                ).is_keyboard_report(report),
            },
            report is Boot <==> mode_code == 0,
            final(self).key_states == old(self).key_states,
            final(self).key_map == old(self).key_map,
    {
        match protocol_mode(mode_code) {
            ProtocolMode::Boot => HidReport::Boot(self.map_hid_keyboard_report_boot()),
            ProtocolMode::Report => HidReport::Keyboard(self.map_hid_keyboard_report()),
        }
    }

    /// Notes `evt`; returns whether to go into the USB boot loader now.
    pub fn handle_key_event(&mut self, evt: KeyEvent) -> (reset: bool)
        requires
            old(self).inv(),
            evt.id() < NUM_KEYS,
        ensures
            final(self).inv(),
            final(self).key_states@ == old(self).key_states@.update(
                evt.id() as int,
                key_state_after(evt),
            ),
            final(self).key_map == old(self).key_map,
            final(self).current_layer == old(self).current_layer,
            final(self).key_states@ == match evt {
                KeyEvent::KeyPressed(id) => old(self).key_states@.update(
                    id as int,
                    Some(KeyState::Pressed),
                ),
                KeyEvent::KeyHeld(id) => old(self).key_states@.update(
                    id as int,
                    Some(KeyState::Held),
                ),
                KeyEvent::KeyReleased(id) => old(self).key_states@.update(id as int, None),
            },
            reset == final(self).wants_bootloader(),
            reset <==> forall|id: int|
                id == 0 || id == 1 || id == 32 || id == 33
                    ==> #[trigger] final(self).key_states@[id] == Some(KeyState::Held),
    {
        match evt {
            KeyEvent::KeyPressed(id) => {
                self.key_states[id] = Some(KeyState::Pressed);
            },
            KeyEvent::KeyHeld(id) => {
                self.key_states[id] = Some(KeyState::Held);
            },
            KeyEvent::KeyReleased(id) => {
                self.key_states[id] = None;
            },
        }
        self.should_do_bootloader()
    }
}

/// The state of a key when `evt` has happened to it.
pub open spec fn key_state_after(evt: KeyEvent) -> Option<KeyState> {
    match evt {
        KeyEvent::KeyPressed(_) => Some(KeyState::Pressed),
        KeyEvent::KeyHeld(_) => Some(KeyState::Held),
        KeyEvent::KeyReleased(_) => None,
    }
}

/// What to do about a read from the configuration interface.
#[derive(Debug, Copy, Clone, PartialEq, Eq, Structural)]
pub enum ConfigAction {
    /// Stop reading: the interface is closed.
    Close,
    /// Send the whole buffer back.
    Echo,
    /// Read again.
    Ignore,
}

/// What to do when a read from the configuration interface has brought so many bytes, or, with
/// `None`, has failed.
pub fn on_config_read(len: Option<usize>) -> (action: ConfigAction)
    ensures
        action == match len {
            Some(n) => if n == 0 {
                ConfigAction::Close
            } else {
                ConfigAction::Echo
            },
            None => ConfigAction::Ignore,
        },
{
    match len {
        Some(0) => ConfigAction::Close,
        Some(_) => ConfigAction::Echo,
        None => ConfigAction::Ignore,
    }
}

/// What the host has made of the device.
#[derive(Debug, Copy, Clone, PartialEq, Eq, Structural)]
pub struct DeviceStatus {
    /// Whether it may draw the current that it asked for.
    pub configured: bool,
}

impl DeviceStatus {
    /// A device that the host has not met.
    pub fn new() -> (status: DeviceStatus)
        ensures
            !status.configured,
    {
        DeviceStatus { configured: false }
    }

    /// The device was enabled or disabled.
    pub fn enabled(&mut self, _enabled: bool)
        ensures
            !final(self).configured,
    {
        self.configured = false;
    }

    /// The bus was reset.
    pub fn reset(&mut self)
        ensures
            !final(self).configured,
    {
        self.configured = false;
    }

    /// The device was given an address.
    pub fn addressed(&mut self, _addr: u8)
        ensures
            !final(self).configured,
    {
        self.configured = false;
    }

    /// The device was configured, or its configuration was taken back.
    pub fn configured(&mut self, configured: bool)
        ensures
            final(self).configured == configured,
    {
        self.configured = configured;
    }
}

} // verus!
