//! Turns the levels of the key inputs into key events: debounces presses and releases, and
//! notices keys that are held down.
use crate::time::{millis_as_ticks, Duration, Instant};
use core::ops::Add;
use vstd::prelude::*;

verus! {

/// Something that happened to the key of that number.
#[derive(Debug, Copy, Clone, PartialEq, Eq, Structural)]
pub enum KeyEvent {
    KeyPressed(usize),
    KeyReleased(usize),
    KeyHeld(usize),
}

impl KeyEvent {
    /// The number of the key.
    pub open spec fn id(self) -> usize {
        match self {
            KeyEvent::KeyPressed(id) => id,
            KeyEvent::KeyReleased(id) => id,
            KeyEvent::KeyHeld(id) => id,
        }
    }

    /// The same for the key of number `id`.
    pub open spec fn with_id(self, id: usize) -> KeyEvent {
        match self {
            KeyEvent::KeyPressed(_) => KeyEvent::KeyPressed(id),
            KeyEvent::KeyReleased(_) => KeyEvent::KeyReleased(id),
            KeyEvent::KeyHeld(_) => KeyEvent::KeyHeld(id),
        }
    }
}

impl Add<usize> for KeyEvent {
    type Output = KeyEvent;

    fn add(self, rhs: usize) -> (moved: KeyEvent) {
        match self {
            KeyEvent::KeyPressed(id) => KeyEvent::KeyPressed(id + rhs),
            KeyEvent::KeyHeld(id) => KeyEvent::KeyHeld(id + rhs),
            KeyEvent::KeyReleased(id) => KeyEvent::KeyReleased(id + rhs),
        }
    }
}

impl vstd::std_specs::ops::AddSpecImpl<usize> for KeyEvent {
    open spec fn obeys_add_spec() -> bool {
        true
    }

    open spec fn add_req(self, rhs: usize) -> bool {
        self.id() + rhs <= usize::MAX
    }

    open spec fn add_spec(self, rhs: usize) -> KeyEvent {
        self.with_id((self.id() + rhs) as usize)
    }
}

/// The level of an input. A key that is down pulls its input low.
#[derive(Debug, Copy, Clone, PartialEq, Eq, Structural)]
pub enum Level {
    Low,
    High,
}

/// How far the debouncing of an input has come.
#[derive(Debug, Copy, Clone, PartialEq, Eq, Structural)]
pub enum EdgeState {
    /// The input is steady at `last_level`.
    Waiting { last_level: Level },
    /// The input was steady at `last_level`, then had an edge; it is looked at again at `deadline`.
    Debounce { last_level: Level, deadline: Instant },
}

/// What is known of a key.
#[derive(Debug, Copy, Clone, PartialEq, Eq, Structural)]
pub enum KeyState {
    /// It went down at that time.
    Pressed(Instant),
    /// It has been down long enough to count as held.
    Held,
    /// It is up.
    Released,
}

/// What an input waits for.
#[derive(Debug, Copy, Clone, PartialEq, Eq, Structural)]
pub enum PinWait {
    /// An edge, either way.
    AnyEdge,
    /// That time.
    Until(Instant),
}

/// What an input waited for, and what was found then.
#[derive(Debug, Copy, Clone, PartialEq, Eq, Structural)]
pub enum PinSignal {
    /// It had an edge, at that time.
    Edge(Instant),
    /// The time to look at it again has come, and it is at that level.
    Settled(Level),
}

/// The event that an input reports when it has become steady at `level`.
pub open spec fn level_event(id: usize, level: Level) -> KeyEvent {
    match level {
        Level::Low => KeyEvent::KeyPressed(id),
        Level::High => KeyEvent::KeyReleased(id),
    }
}

impl EdgeState {
    /// The level at which the input was last found steady.
    pub open spec fn level(self) -> Level {
        match self {
            EdgeState::Waiting { last_level } => last_level,
            EdgeState::Debounce { last_level, .. } => last_level,
        }
    }

    /// Whether the input waits for `signal`.
    pub open spec fn expects(self, signal: PinSignal) -> bool {
        self is Waiting <==> signal is Edge
    }

    /// The state when `signal` has come.
    pub open spec fn after(self, debounce_t: Duration, signal: PinSignal) -> EdgeState {
        match signal {
            PinSignal::Edge(now) => EdgeState::Debounce {
                last_level: self.level(),
                deadline: now.plus(debounce_t),
            },
            PinSignal::Settled(level) => EdgeState::Waiting { last_level: level },
        }
    }

    /// The event that `signal` makes for the key of number `id`: one if and only if the input is
    /// found at another level than before.
    pub open spec fn event(self, id: usize, signal: PinSignal) -> Option<KeyEvent> {
        match signal {
            PinSignal::Edge(_) => None,
            PinSignal::Settled(level) => if level != self.level() {
                Some(level_event(id, level))
            } else {
                None
            },
        }
    }

    /// What the input waits for.
    pub open spec fn spec_wait(self) -> PinWait {
        match self {
            EdgeState::Waiting { .. } => PinWait::AnyEdge,
            EdgeState::Debounce { deadline, .. } => PinWait::Until(deadline),
        }
    }

    /// What the input waits for.
    pub fn wait(&self) -> (wait: PinWait)
        ensures
            wait == self.spec_wait(),
            wait == match *self {
                EdgeState::Waiting { .. } => PinWait::AnyEdge,
                EdgeState::Debounce { deadline, .. } => PinWait::Until(deadline),
            },
    {
        match *self {
            EdgeState::Waiting { .. } => PinWait::AnyEdge,
            EdgeState::Debounce { deadline, .. } => PinWait::Until(deadline),
        }
    }
}

/// One round of waiting for an event of the input of key `id`: takes what the input waited for
/// and returns the event, if there is one.
pub fn wait_for_edge_event(
    id: usize,
    edge_state: &mut EdgeState,
    debounce_t: Duration,
    signal: PinSignal,
) -> (event: Option<KeyEvent>)
    requires
        old(edge_state).expects(signal),
        signal matches PinSignal::Edge(now) ==> now.can_add(debounce_t),
    ensures
        *final(edge_state) == old(edge_state).after(debounce_t, signal),
        event == old(edge_state).event(id, signal),
        match (*old(edge_state), signal) {
            (EdgeState::Waiting { last_level }, PinSignal::Edge(now)) => {
                &&& *final(edge_state) matches EdgeState::Debounce { last_level: kept, deadline }
                &&& kept == last_level
                &&& deadline.ticks == now.ticks + debounce_t.ticks
                &&& event is None
            },
            (EdgeState::Debounce { last_level, .. }, PinSignal::Settled(level)) => {
                &&& *final(edge_state) == (EdgeState::Waiting { last_level: level })
                &&& event == match (last_level, level) {
                    (Level::High, Level::Low) => Some(KeyEvent::KeyPressed(id)),
                    (Level::Low, Level::High) => Some(KeyEvent::KeyReleased(id)),
                    _ => None,
                }
            },
            _ => true,
        },
{
    match *edge_state {
        EdgeState::Waiting { last_level } => {
            if let PinSignal::Edge(now) = signal {
                *edge_state = EdgeState::Debounce { last_level, deadline: now.after(debounce_t) };
            }
            None
        },
        EdgeState::Debounce { last_level, .. } => {
            if let PinSignal::Settled(current) = signal {
                *edge_state = EdgeState::Waiting { last_level: current };
                if current != last_level {
                    return Some(
                        match current {
                            Level::Low => KeyEvent::KeyPressed(id),
                            Level::High => KeyEvent::KeyReleased(id),
                        },
                    );
                }
            }
            None
        },
    }
}

impl KeyState {
    /// When the key counts as held, should nothing else happen to it.
    pub open spec fn held_at(self, hold_t: Duration) -> Option<Instant> {
        match self {
            KeyState::Pressed(pressed) => Some(pressed.plus(hold_t)),
            KeyState::Held | KeyState::Released => None,
        }
    }

    /// The state of a key when `event` has happened to it at `now`.
    pub open spec fn from_event(event: KeyEvent, now: Instant) -> KeyState {
        match event {
            KeyEvent::KeyPressed(_) => KeyState::Pressed(now),
            KeyEvent::KeyReleased(_) => KeyState::Released,
            KeyEvent::KeyHeld(_) => KeyState::Held,
        }
    }
}

/// The event that the key of number `id` is held, and when it is due; `None` if it never is.
pub fn wait_for_hold_event(id: usize, state: &KeyState, hold_t: Duration) -> (due: Option<
    (Instant, KeyEvent),
>)
    requires
        state matches KeyState::Pressed(pressed) ==> pressed.can_add(hold_t),
    ensures
        due == match state.held_at(hold_t) {
            Some(at) => Some((at, KeyEvent::KeyHeld(id))),
            None => None,
        },
        match *state {
            KeyState::Pressed(pressed) => {
                &&& due is Some
                &&& due->Some_0.0.ticks == pressed.ticks + hold_t.ticks
                &&& due->Some_0.1 == KeyEvent::KeyHeld(id)
            },
            KeyState::Held | KeyState::Released => due is None,
        },
{
    match *state {
        KeyState::Pressed(pressed) => Some((pressed.after(hold_t), KeyEvent::KeyHeld(id))),
        KeyState::Held | KeyState::Released => None,
    }
}

/// How long a key has to be down to count as held, in milliseconds.
pub const HOLD_MILLIS: u64 = 1000;

/// The keys of one board.
pub struct ButtonArray<const NPINS: usize> {
    pub key_states: [KeyState; NPINS],
    pub edge_states: [EdgeState; NPINS],
    pub debounce: Duration,
    pub hold: Duration,
}

impl<const NPINS: usize> ButtonArray<NPINS> {
    /// Keys that are all up, with inputs that have to be steady for `debounce`.
    pub fn new(debounce: Duration) -> (buttons: Self)
        ensures
            forall|id: int| 0 <= id < NPINS ==> buttons.key_states@[id] == KeyState::Released,
            forall|id: int|
                0 <= id < NPINS ==> buttons.edge_states@[id] == (EdgeState::Waiting {
                    last_level: Level::High,
                }),
            buttons.debounce == debounce,
            buttons.hold.ticks == millis_as_ticks(HOLD_MILLIS as int),
            buttons.hold.ticks == 1_000_000,
    {
        ButtonArray {
            key_states: [KeyState::Released; NPINS],
            edge_states: [EdgeState::Waiting { last_level: Level::High }; NPINS],
            debounce,
            hold: Duration::from_millis(HOLD_MILLIS),
        }
    }

    /// What the input of key `id` waits for.
    pub fn pin_wait(&self, id: usize) -> (wait: PinWait)
        requires
            id < NPINS,
        ensures
            wait == self.edge_states@[id as int].spec_wait(),
            wait == match self.edge_states@[id as int] {
                EdgeState::Waiting { .. } => PinWait::AnyEdge,
                EdgeState::Debounce { deadline, .. } => PinWait::Until(deadline),
            },
    {
        self.edge_states[id].wait()
    }

    /// Takes what the input of key `id` waited for; returns the event, if there is one.
    pub fn pin_signal(&mut self, id: usize, signal: PinSignal) -> (event: Option<KeyEvent>)
        requires
            id < NPINS,
            old(self).edge_states@[id as int].expects(signal),
            signal matches PinSignal::Edge(now) ==> now.can_add(old(self).debounce),
        ensures
            event == old(self).edge_states@[id as int].event(id, signal),
            final(self).edge_states@ == old(self).edge_states@.update(
                id as int,
                old(self).edge_states@[id as int].after(old(self).debounce, signal),
            ),
            match (old(self).edge_states@[id as int], signal) {
                (EdgeState::Waiting { last_level }, PinSignal::Edge(now)) => {
                    &&& final(self).edge_states@[id as int] matches EdgeState::Debounce {
                        last_level: kept,
                        deadline,
                    }
                    &&& kept == last_level
                    &&& deadline.ticks == now.ticks + old(self).debounce.ticks
                    &&& event is None
                },
                (EdgeState::Debounce { last_level, .. }, PinSignal::Settled(level)) => {
                    &&& final(self).edge_states@[id as int] == (EdgeState::Waiting {
                        last_level: level,
                    })
                    &&& event == match (last_level, level) {
                        (Level::High, Level::Low) => Some(KeyEvent::KeyPressed(id)),
                        (Level::Low, Level::High) => Some(KeyEvent::KeyReleased(id)),
                        _ => None,
                    }
                },
                _ => true,
            },
            final(self).key_states == old(self).key_states,
            final(self).debounce == old(self).debounce,
            final(self).hold == old(self).hold,
    {
        let mut edge_state = self.edge_states[id];
        let event = wait_for_edge_event(id, &mut edge_state, self.debounce, signal);
        self.edge_states[id] = edge_state;
        event
    }

    /// The event that key `id` is held, and when it is due; `None` if it never is.
    pub fn hold_due(&self, id: usize) -> (due: Option<(Instant, KeyEvent)>)
        requires
            id < NPINS,
            self.key_states@[id as int] matches KeyState::Pressed(pressed) ==> pressed.can_add(
                self.hold,
            ),
        ensures
            due == match self.key_states@[id as int].held_at(self.hold) {
                Some(at) => Some((at, KeyEvent::KeyHeld(id))),
                None => None,
            },
            match self.key_states@[id as int] {
                KeyState::Pressed(pressed) => {
                    &&& due is Some
                    &&& due->Some_0.0.ticks == pressed.ticks + self.hold.ticks
                    &&& due->Some_0.1 == KeyEvent::KeyHeld(id)
                },
                KeyState::Held | KeyState::Released => due is None,
            },
    {
        wait_for_hold_event(id, &self.key_states[id], self.hold)
    }

    /// The end of waiting for a key event: notes what `evt`, the first that came, at `now`, makes
    /// of its key.
    pub fn wait_key_event(&mut self, evt: KeyEvent, now: Instant) -> (event: KeyEvent)
        requires
            evt.id() < NPINS,
        ensures
            event == evt,
            final(self).key_states@ == old(self).key_states@.update(
                evt.id() as int,
                KeyState::from_event(evt, now),
            ),
            final(self).key_states@ == match evt {
                KeyEvent::KeyPressed(id) => old(self).key_states@.update(
                    id as int,
                    KeyState::Pressed(now),
                ),
                KeyEvent::KeyReleased(id) => old(self).key_states@.update(
                    id as int,
                    KeyState::Released,
                ),
                KeyEvent::KeyHeld(id) => old(self).key_states@.update(id as int, KeyState::Held),
            },
            final(self).edge_states == old(self).edge_states,
            final(self).debounce == old(self).debounce,
            final(self).hold == old(self).hold,
    {
        match evt {
            KeyEvent::KeyPressed(id) => {
                self.key_states[id] = KeyState::Pressed(now);
            },
            KeyEvent::KeyReleased(id) => {
                self.key_states[id] = KeyState::Released;
            },
            KeyEvent::KeyHeld(id) => {
                self.key_states[id] = KeyState::Held;
            },
        }
        evt
    }
}

impl Level {
    /// The other level.
    pub open spec fn other(self) -> Level {
        match self {
            Level::Low => Level::High,
            Level::High => Level::Low,
        }
    }
}

/// What an input reports as `signals` come, one after the other.
pub open spec fn events_of(
    id: usize,
    state: EdgeState,
    debounce_t: Duration,
    signals: Seq<PinSignal>,
) -> Seq<KeyEvent>
    decreases signals.len(),
{
    if signals.len() == 0 {
        seq![]
    } else {
        let later = events_of(
            id,
            state.after(debounce_t, signals[0]),
            debounce_t,
            signals.drop_first(),
        );
        match state.event(id, signals[0]) {
            Some(event) => seq![event] + later,
            None => later,
        }
    }
}

/// The presses and the releases that an input reports take turns, whatever its level does, and the
/// first one is the change from the level at which it was steady.
pub proof fn presses_and_releases_take_turns(
    id: usize,
    state: EdgeState,
    debounce_t: Duration,
    signals: Seq<PinSignal>,
)
    ensures
        forall|i: int|
            0 <= i < events_of(id, state, debounce_t, signals).len() ==> #[trigger] events_of(
                id,
                state,
                debounce_t,
                signals,
            )[i] == level_event(
                id,
                if i % 2 == 0 {
                    state.level().other()
                } else {
                    state.level()
                },
            ),
    decreases signals.len(),
{
    if signals.len() > 0 {
        let next = state.after(debounce_t, signals[0]);
        let events = events_of(id, state, debounce_t, signals);
        let later = events_of(id, next, debounce_t, signals.drop_first());
        presses_and_releases_take_turns(id, next, debounce_t, signals.drop_first());
        match state.event(id, signals[0]) {
            Some(event) => {
                assert(next.level() == state.level().other());
                assert forall|i: int| 0 <= i < events.len() implies #[trigger] events[i]
                    == level_event(
                    id,
                    if i % 2 == 0 {
                        state.level().other()
                    } else {
                        state.level()
                    },
                ) by {
                    if i > 0 {
                        assert(events[i] == later[i - 1]);
                    }
                }
            },
            None => {
                assert(next.level() == state.level());
            },
        }
    }
}

/// An input that bounces, but is where it was when it is looked at again, reports nothing and is as
/// steady as before.
pub proof fn bounce_is_ignored(id: usize, level: Level, debounce_t: Duration, now: Instant)
    ensures
        ({
            let steady = EdgeState::Waiting { last_level: level };
            let bounced = steady.after(debounce_t, PinSignal::Edge(now));
            &&& steady.event(id, PinSignal::Edge(now)) is None
            &&& bounced.event(id, PinSignal::Settled(level)) is None
            &&& bounced.after(debounce_t, PinSignal::Settled(level)) == steady
        }),
{
}

/// A key is held once for each time that it is pressed: pressing it makes that due, and nothing else
/// does.
pub proof fn held_once_for_each_press(event: KeyEvent, now: Instant, hold_t: Duration)
    ensures
        KeyState::from_event(event, now).held_at(hold_t) == if event is KeyPressed {
            Some(now.plus(hold_t))
        } else {
            None
        },
{
}

/// One key with its input.
pub struct Key {
    pub edge: EdgeState,
    pub state: KeyState,
}

/// What can happen to a key.
pub enum KeyInput {
    /// What its input waited for.
    Signal(PinSignal),
    /// The time when it counts as held.
    HoldDue,
}

impl Key {
    /// A key as a new array has it.
    pub open spec fn untouched() -> Key {
        Key { edge: EdgeState::Waiting { last_level: Level::High }, state: KeyState::Released }
    }

    /// Whether `input` can happen to the key at `now`. It counts as held no sooner than `hold_t`
    /// after it went down.
    pub open spec fn expects(self, hold_t: Duration, now: Instant, input: KeyInput) -> bool {
        match input {
            KeyInput::Signal(signal) => self.edge.expects(signal),
            KeyInput::HoldDue => match self.state {
                KeyState::Pressed(pressed) => pressed.can_add(hold_t) && pressed.plus(hold_t).ticks
                    <= now.ticks,
                KeyState::Held | KeyState::Released => false,
            },
        }
    }

    /// The event that `input` makes of key `id`.
    pub open spec fn event(self, id: usize, input: KeyInput) -> Option<KeyEvent> {
        match input {
            KeyInput::Signal(signal) => self.edge.event(id, signal),
            KeyInput::HoldDue => Some(KeyEvent::KeyHeld(id)),
        }
    }

    /// The key when `input` has happened to it at `now` and its event, if there is one, is noted.
    pub open spec fn after(
        self,
        id: usize,
        debounce_t: Duration,
        now: Instant,
        input: KeyInput,
    ) -> Key {
        Key {
            edge: match input {
                KeyInput::Signal(signal) => self.edge.after(debounce_t, signal),
                KeyInput::HoldDue => self.edge,
            },
            state: match self.event(id, input) {
                Some(event) => KeyState::from_event(event, now),
                None => self.state,
            },
        }
    }

    /// Whether each of `inputs` can happen to the key as it is then.
    pub open spec fn admits(
        self,
        id: usize,
        debounce_t: Duration,
        hold_t: Duration,
        inputs: Seq<(Instant, KeyInput)>,
    ) -> bool
        decreases inputs.len(),
    {
        inputs.len() == 0 || {
            &&& self.expects(hold_t, inputs[0].0, inputs[0].1)
            &&& self.after(id, debounce_t, inputs[0].0, inputs[0].1).admits(
                id,
                debounce_t,
                hold_t,
                inputs.drop_first(),
            )
        }
    }

    /// The key when all of `inputs` have happened to it.
    pub open spec fn run(
        self,
        id: usize,
        debounce_t: Duration,
        inputs: Seq<(Instant, KeyInput)>,
    ) -> Key
        decreases inputs.len(),
    {
        if inputs.len() == 0 {
            self
        } else {
            self.after(id, debounce_t, inputs[0].0, inputs[0].1).run(
                id,
                debounce_t,
                inputs.drop_first(),
            )
        }
    }

    /// The events that `inputs` make of the key, each with its time.
    pub open spec fn events(
        self,
        id: usize,
        debounce_t: Duration,
        inputs: Seq<(Instant, KeyInput)>,
    ) -> Seq<(Instant, KeyEvent)>
        decreases inputs.len(),
    {
        if inputs.len() == 0 {
            seq![]
        } else {
            let later = self.after(id, debounce_t, inputs[0].0, inputs[0].1).events(
                id,
                debounce_t,
                inputs.drop_first(),
            );
            match self.event(id, inputs[0].1) {
                Some(event) => seq![(inputs[0].0, event)] + later,
                None => later,
            }
        }
    }

    /// Whether the key is up exactly if its input was last found high.
    pub open spec fn agrees(self) -> bool {
        self.state is Released <==> self.edge.level() is High
    }
}

impl<const NPINS: usize> ButtonArray<NPINS> {
    /// Key `id` with its input.
    pub open spec fn key(self, id: int) -> Key {
        Key { edge: self.edge_states@[id], state: self.key_states@[id] }
    }
}

/// A signal for one input, its event noted if there is one, moves that key and no other.
pub proof fn signal_moves_one_key<const NPINS: usize>(
    before: ButtonArray<NPINS>,
    after: ButtonArray<NPINS>,
    id: usize,
    signal: PinSignal,
    now: Instant,
    other: int,
)
    requires
        id < NPINS,
        0 <= other < NPINS,
        after.edge_states@ == before.edge_states@.update(
            id as int,
            before.edge_states@[id as int].after(before.debounce, signal),
        ),
        after.key_states@ == match before.edge_states@[id as int].event(id, signal) {
            Some(event) => before.key_states@.update(
                event.id() as int,
                KeyState::from_event(event, now),
            ),
            None => before.key_states@,
        },
    ensures
        after.key(id as int) == before.key(id as int).after(
            id,
            before.debounce,
            now,
            KeyInput::Signal(signal),
        ),
        other != id ==> after.key(other) == before.key(other),
{
}

/// Noting that one key is held moves that key and no other.
pub proof fn hold_moves_one_key<const NPINS: usize>(
    before: ButtonArray<NPINS>,
    after: ButtonArray<NPINS>,
    id: usize,
    now: Instant,
    other: int,
)
    requires
        id < NPINS,
        0 <= other < NPINS,
        after.edge_states == before.edge_states,
        after.key_states@ == before.key_states@.update(
            id as int,
            KeyState::from_event(KeyEvent::KeyHeld(id), now),
        ),
    ensures
        after.key(id as int) == before.key(id as int).after(
            id,
            before.debounce,
            now,
            KeyInput::HoldDue,
        ),
        other != id ==> after.key(other) == before.key(other),
{
}

/// A key is up exactly if its input was last found high, whatever happens to it; so it is of every
/// key of a new array.
pub proof fn key_is_up_exactly_if_its_input_is_high(
    key: Key,
    id: usize,
    debounce_t: Duration,
    hold_t: Duration,
    inputs: Seq<(Instant, KeyInput)>,
)
    requires
        key.agrees(),
        key.admits(id, debounce_t, hold_t, inputs),
    ensures
        Key::untouched().agrees(),
        key.run(id, debounce_t, inputs).agrees(),
    decreases inputs.len(),
{
    if inputs.len() > 0 {
        key_is_up_exactly_if_its_input_is_high(
            key.after(id, debounce_t, inputs[0].0, inputs[0].1),
            id,
            debounce_t,
            hold_t,
            inputs.drop_first(),
        );
    }
}

/// Whether `event` can come behind `before`, the last event of a key: a press first or behind a
/// release, a hold behind a press, a release behind a press or a hold. A hold comes no sooner than
/// `hold_t` behind its press.
pub open spec fn comes_behind(
    before: Option<(Instant, KeyEvent)>,
    event: (Instant, KeyEvent),
    hold_t: Duration,
) -> bool {
    match event.1 {
        KeyEvent::KeyPressed(_) => before is None || before->Some_0.1 is KeyReleased,
        KeyEvent::KeyHeld(_) => {
            &&& before is Some
            &&& before->Some_0.1 is KeyPressed
            &&& before->Some_0.0.ticks + hold_t.ticks <= event.0.ticks
        },
        KeyEvent::KeyReleased(_) => before is Some && before->Some_0.1 !is KeyReleased,
    }
}

/// Whether each of `events` is one of key `id` and can come behind the one before it, and the first
/// behind `before`.
pub open spec fn in_turn(
    before: Option<(Instant, KeyEvent)>,
    events: Seq<(Instant, KeyEvent)>,
    id: usize,
    hold_t: Duration,
) -> bool {
    forall|i: int|
        0 <= i < events.len() ==> (#[trigger] events[i]).1.id() == id && comes_behind(
            if i == 0 {
                before
            } else {
                Some(events[i - 1])
            },
            events[i],
            hold_t,
        )
}

/// Whether `before`, the last event of a key, is what made its state.
spec fn made(before: Option<(Instant, KeyEvent)>, state: KeyState) -> bool {
    match before {
        None => state is Released,
        Some((at, event)) => state == KeyState::from_event(event, at),
    }
}

proof fn events_come_in_turn(
    key: Key,
    before: Option<(Instant, KeyEvent)>,
    id: usize,
    debounce_t: Duration,
    hold_t: Duration,
    inputs: Seq<(Instant, KeyInput)>,
)
    requires
        key.agrees(),
        made(before, key.state),
        key.admits(id, debounce_t, hold_t, inputs),
    ensures
        in_turn(before, key.events(id, debounce_t, inputs), id, hold_t),
    decreases inputs.len(),
{
    if inputs.len() > 0 {
        let (now, input) = inputs[0];
        let next = key.after(id, debounce_t, now, input);
        let events = key.events(id, debounce_t, inputs);
        let later = next.events(id, debounce_t, inputs.drop_first());
        match key.event(id, input) {
            Some(event) => {
                let first = Some((now, event));
                events_come_in_turn(next, first, id, debounce_t, hold_t, inputs.drop_first());
                assert forall|i: int| 0 <= i < events.len() implies (#[trigger] events[i]).1.id()
                    == id && comes_behind(
                    if i == 0 {
                        before
                    } else {
                        Some(events[i - 1])
                    },
                    events[i],
                    hold_t,
                ) by {
                    if i > 0 {
                        assert(events[i] == later[i - 1]);
                    }
                }
            },
            None => {
                events_come_in_turn(next, before, id, debounce_t, hold_t, inputs.drop_first());
            },
        }
    }
}

/// The events of a key are presses, each with at most one hold and then a release behind it, over
/// and over, and may break off anywhere. A hold comes no sooner than its time behind the press.
pub proof fn press_hold_release_in_turn(
    id: usize,
    debounce_t: Duration,
    hold_t: Duration,
    inputs: Seq<(Instant, KeyInput)>,
)
    requires
        Key::untouched().admits(id, debounce_t, hold_t, inputs),
    ensures
        in_turn(None, Key::untouched().events(id, debounce_t, inputs), id, hold_t),
{
    events_come_in_turn(Key::untouched(), None, id, debounce_t, hold_t, inputs);
}

/// A key can count as held from the time on for which its hold is due, and not before.
pub proof fn hold_is_taken_when_due(key: Key, hold_t: Duration, now: Instant)
    requires
        key.state matches KeyState::Pressed(pressed) ==> pressed.can_add(hold_t),
    ensures
        key.expects(hold_t, now, KeyInput::HoldDue) <==> match key.state.held_at(hold_t) {
            Some(at) => at.ticks <= now.ticks,
            None => false,
        },
{
}

/// Moving an event to another number keeps its kind and gives it that number; moving it twice is
/// moving it once.
pub proof fn moved_event_keeps_its_kind(event: KeyEvent, n: usize, m: usize)
    ensures
        event.with_id(n) is KeyPressed <==> event is KeyPressed,
        event.with_id(n) is KeyReleased <==> event is KeyReleased,
        event.with_id(n) is KeyHeld <==> event is KeyHeld,
        event.with_id(n).id() == n,
        event.with_id(n).with_id(m) == event.with_id(m),
        event.with_id(event.id()) == event,
        match event.with_id(n) {
            KeyEvent::KeyPressed(id) => id == n,
            KeyEvent::KeyReleased(id) => id == n,
            KeyEvent::KeyHeld(id) => id == n,
        },
{
}

/// An event carries its number openly.
pub proof fn event_has_its_number(n: usize)
    ensures
        KeyEvent::KeyPressed(n).id() == n,
        KeyEvent::KeyReleased(n).id() == n,
        KeyEvent::KeyHeld(n).id() == n,
{
}

/// Adding to an event adds to its number and keeps its kind, wherever the sum can be counted.
pub proof fn adding_moves_an_event_on(event: KeyEvent, n: usize)
    requires
        event.id() + n <= usize::MAX,
    ensures
        vstd::std_specs::ops::AddSpec::add_req(event, n),
        match event {
            KeyEvent::KeyPressed(id) => vstd::std_specs::ops::AddSpec::add_spec(event, n)
                == KeyEvent::KeyPressed((id + n) as usize),
            KeyEvent::KeyReleased(id) => vstd::std_specs::ops::AddSpec::add_spec(event, n)
                == KeyEvent::KeyReleased((id + n) as usize),
            KeyEvent::KeyHeld(id) => vstd::std_specs::ops::AddSpec::add_spec(event, n)
                == KeyEvent::KeyHeld((id + n) as usize),
        },
{
}

/// Behind an edge the input is looked at again one debounce time later, to the tick, and until then
/// it counts as being where it was. Two edges are looked at as far apart as they came.
pub proof fn edge_is_looked_at_one_debounce_time_later(
    state: EdgeState,
    id: usize,
    debounce_t: Duration,
    now: Instant,
)
    requires
        now.ticks + debounce_t.ticks <= u64::MAX,
    ensures
        state.event(id, PinSignal::Edge(now)) is None,
        state.after(debounce_t, PinSignal::Edge(now)) matches EdgeState::Debounce {
            last_level,
            deadline,
        } && last_level == state.level() && deadline.ticks == now.ticks + debounce_t.ticks,
        state.after(debounce_t, PinSignal::Edge(now)).spec_wait() matches PinWait::Until(until)
            && until.ticks == now.ticks + debounce_t.ticks,
{
}

/// An input that is looked at again is steady at the level found, and waits for the next edge. It
/// reports a press exactly if it went from high to low, a release exactly if it went from low to
/// high, both of its own key.
pub proof fn change_of_level_is_reported(
    state: EdgeState,
    id: usize,
    debounce_t: Duration,
    level: Level,
)
    ensures
        ({
            let was = match state {
                EdgeState::Waiting { last_level } => last_level,
                EdgeState::Debounce { last_level, .. } => last_level,
            };
            let event = state.event(id, PinSignal::Settled(level));
            &&& state.after(debounce_t, PinSignal::Settled(level)) == (EdgeState::Waiting {
                last_level: level,
            })
            &&& state.after(debounce_t, PinSignal::Settled(level)).spec_wait() == PinWait::AnyEdge
            &&& event == Some(KeyEvent::KeyPressed(id)) <==> was is High && level is Low
            &&& event == Some(KeyEvent::KeyReleased(id)) <==> was is Low && level is High
            &&& event is None <==> was == level
            &&& state.level() == was
        }),
{
}

/// A steady input takes an edge and nothing else; one that is looked at again takes the level found
/// and nothing else.
pub proof fn input_takes_what_it_waits_for(state: EdgeState, now: Instant, level: Level)
    ensures
        state.expects(PinSignal::Edge(now)) <==> state is Waiting,
        state.expects(PinSignal::Settled(level)) <==> state is Debounce,
        state is Waiting ==> state.spec_wait() == PinWait::AnyEdge,
        state matches EdgeState::Debounce { deadline, .. } ==> state.spec_wait() == PinWait::Until(
            deadline,
        ),
{
}

/// A press is noted with its time, a hold as a hold, a release as a release. Of these, a press alone
/// makes a hold due: the hold time later, to the tick.
pub proof fn event_is_noted_as_it_is(id: usize, now: Instant, hold_t: Duration)
    requires
        now.ticks + hold_t.ticks <= u64::MAX,
    ensures
        KeyState::from_event(KeyEvent::KeyPressed(id), now) == KeyState::Pressed(now),
        KeyState::from_event(KeyEvent::KeyHeld(id), now) == KeyState::Held,
        KeyState::from_event(KeyEvent::KeyReleased(id), now) == KeyState::Released,
        KeyState::Pressed(now).held_at(hold_t) matches Some(at) && at.ticks == now.ticks
            + hold_t.ticks,
        KeyState::Held.held_at(hold_t) is None,
        KeyState::Released.held_at(hold_t) is None,
        HOLD_MILLIS == 1000,
{
}

} // verus!
