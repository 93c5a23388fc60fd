//! The serial line from the second board: frames of bytes, a length byte in front of each, and the
//! signs of life among them.
use crate::button_array::KeyEvent;
use crate::bytes::push_all;
use crate::command::SlaveEvent;
use crate::time::{millis_as_ticks, Duration, Instant};
use vstd::prelude::*;

verus! {

/// The longest payload that can be framed: the sender's buffer without the length byte.
pub const MAX_SEND: usize = 511;

/// The longest payload that can be received: the receiver's buffer.
pub const MAX_RECEIVE: usize = 32;

/// How long the rest of a frame may take once its length is there, in milliseconds.
pub const PAYLOAD_MILLIS: u64 = 100;

/// How long the second board may be silent, in milliseconds.
pub const WATCHDOG_MILLIS: u64 = 500;

/// The number that the first key of the second board has for the whole keyboard.
pub const FIRST_SLAVE_KEY: usize = 28;

/// `payload` with its length in front. The length byte counts up to 255 and then starts over.
pub open spec fn frame_of(payload: Seq<u8>) -> Seq<u8> {
    seq![(payload.len() % 256) as u8] + payload
}

/// The frame that carries `payload`.
pub fn frame(payload: &[u8]) -> (bytes: Vec<u8>)
    requires
        payload@.len() <= MAX_SEND,
    ensures
        bytes@ == frame_of(payload@),
        bytes@.len() == payload@.len() + 1,
        bytes@[0] == payload@.len() % 256,
        bytes@.skip(1) == payload@,
{
    let mut bytes: Vec<u8> = Vec::new();
    bytes.push((payload.len() % 256) as u8);
    push_all(&mut bytes, payload);
    assert(bytes@ =~= frame_of(payload@));
    assert(bytes@.skip(1) =~= payload@);
    bytes
}

/// What the receiver waits for.
#[derive(Debug, Copy, Clone, PartialEq, Eq, Structural)]
pub enum LinkWait {
    /// A length byte, however long it takes.
    Length,
    /// So many bytes, within `PAYLOAD_MILLIS`.
    Payload(usize),
}

/// What came of waiting.
#[derive(Debug)]
pub enum LinkInput {
    Length(u8),
    Payload(Vec<u8>),
    TimedOut,
}

/// What came of waiting, with the bytes as a sequence.
pub enum LinkSeen {
    Length(u8),
    Payload(Seq<u8>),
    TimedOut,
}

impl View for LinkInput {
    type V = LinkSeen;

    open spec fn view(&self) -> LinkSeen {
        match self {
            LinkInput::Length(n) => LinkSeen::Length(*n),
            LinkInput::Payload(bytes) => LinkSeen::Payload(bytes@),
            LinkInput::TimedOut => LinkSeen::TimedOut,
        }
    }
}

impl LinkWait {
    /// Whether `seen` can come of waiting.
    pub open spec fn expects(self, seen: LinkSeen) -> bool {
        match self {
            LinkWait::Length => seen matches LinkSeen::Length(n) && n <= MAX_RECEIVE,
            LinkWait::Payload(n) => match seen {
                LinkSeen::Length(_) => false,
                LinkSeen::Payload(bytes) => bytes.len() == n,
                LinkSeen::TimedOut => true,
            },
        }
    }

    /// What is waited for when `seen` has come.
    pub open spec fn after(self, seen: LinkSeen) -> LinkWait {
        match seen {
            LinkSeen::Length(n) => LinkWait::Payload(n as usize),
            LinkSeen::Payload(_) | LinkSeen::TimedOut => LinkWait::Length,
        }
    }

    /// The payloads, one or none, that are complete when `seen` has come.
    pub open spec fn delivered(seen: LinkSeen) -> Seq<Seq<u8>> {
        match seen {
            LinkSeen::Payload(bytes) => seq![bytes],
            LinkSeen::Length(_) | LinkSeen::TimedOut => seq![],
        }
    }
}

/// The receiver's end of the line.
pub struct SlaveLink {
    /// What it waits for.
    pub wait: LinkWait,
    /// When the second board has been silent for too long.
    pub watchdog_deadline: Instant,
}

impl SlaveLink {
    /// The state is one that the operations leave behind.
    pub open spec fn inv(self) -> bool {
        self.wait matches LinkWait::Payload(n) ==> n <= MAX_RECEIVE
    }

    /// Starts listening at `now`.
    pub fn new(now: Instant) -> (link: SlaveLink)
        requires
            now.ticks + millis_as_ticks(WATCHDOG_MILLIS as int) <= u64::MAX,
        ensures
            link.inv(),
            link.wait == LinkWait::Length,
            link.watchdog_deadline.ticks == now.ticks + millis_as_ticks(WATCHDOG_MILLIS as int),
            link.watchdog_deadline.ticks == now.ticks + 500_000,
    {
        SlaveLink {
            wait: LinkWait::Length,
            watchdog_deadline: now.after(Duration::from_millis(WATCHDOG_MILLIS)),
        }
    }

    /// Takes what came of waiting; returns the payload, when one is complete.
    pub fn receive(&mut self, input: LinkInput) -> (payload: Option<Vec<u8>>)
        requires
            old(self).inv(),
            old(self).wait.expects(input@),
        ensures
            final(self).inv(),
            final(self).wait == old(self).wait.after(input@),
            final(self).watchdog_deadline == old(self).watchdog_deadline,
            match payload {
                Some(bytes) => LinkWait::delivered(input@) == seq![bytes@],
                None => LinkWait::delivered(input@) == Seq::<Seq<u8>>::empty(),
            },
            match input {
                LinkInput::Length(n) => {
                    &&& final(self).wait == LinkWait::Payload(n as usize)
                    &&& payload is None
                },
                LinkInput::Payload(bytes) => {
                    &&& final(self).wait == LinkWait::Length
                    &&& payload is Some
                    &&& payload->Some_0@ == bytes@
                },
                LinkInput::TimedOut => {
                    &&& final(self).wait == LinkWait::Length
                    &&& payload is None
                },
            },
    {
        match input {
            LinkInput::Length(n) => {
                self.wait = LinkWait::Payload(n as usize);
                None
            },
            LinkInput::Payload(bytes) => {
                self.wait = LinkWait::Length;
                Some(bytes)
            },
            LinkInput::TimedOut => {
                self.wait = LinkWait::Length;
                None
            },
        }
    }

    /// Takes what the second board reports, at `now`: a sign of life moves the deadline, a key
    /// event is returned for the whole keyboard.
    pub fn handle_slave_event(&mut self, now: Instant, evt: SlaveEvent) -> (event: Option<KeyEvent>)
        requires
            old(self).inv(),
            now.ticks + millis_as_ticks(WATCHDOG_MILLIS as int) <= u64::MAX,
            evt matches SlaveEvent::KeyEvent(key) ==> key.id() + FIRST_SLAVE_KEY <= usize::MAX,
        ensures
            final(self).inv(),
            final(self).wait == old(self).wait,
            match evt {
                SlaveEvent::Watchdog => {
                    &&& final(self).watchdog_deadline.ticks == now.ticks + millis_as_ticks(
                        WATCHDOG_MILLIS as int,
                    )
                    &&& event is None
                },
                SlaveEvent::KeyEvent(key) => {
                    &&& final(self).watchdog_deadline == old(self).watchdog_deadline
                    &&& event == Some(key.with_id((key.id() + FIRST_SLAVE_KEY) as usize))
                },
            },
            match evt {
                SlaveEvent::Watchdog => final(self).watchdog_deadline.ticks == now.ticks + 500_000,
                SlaveEvent::KeyEvent(KeyEvent::KeyPressed(id)) => event == Some(
                    KeyEvent::KeyPressed((id + 28) as usize),
                ),
                SlaveEvent::KeyEvent(KeyEvent::KeyReleased(id)) => event == Some(
                    KeyEvent::KeyReleased((id + 28) as usize),
                ),
                SlaveEvent::KeyEvent(KeyEvent::KeyHeld(id)) => event == Some(
                    KeyEvent::KeyHeld((id + 28) as usize),
                ),
            },
    {
        match evt {
            SlaveEvent::Watchdog => {
                self.watchdog_deadline = now.after(Duration::from_millis(WATCHDOG_MILLIS));
                None
            },
            SlaveEvent::KeyEvent(key) => Some(key + FIRST_SLAVE_KEY),
        }
    }
}

/// The bytes on the line when `payloads` are sent one after the other.
pub open spec fn stream_of(payloads: Seq<Seq<u8>>) -> Seq<u8>
    decreases payloads.len(),
{
    if payloads.len() == 0 {
        seq![]
    } else {
        frame_of(payloads[0]) + stream_of(payloads.drop_first())
    }
}

/// The payloads that a receiver that waits for `wait` gets out of `stream`, when all of it comes in
/// time.
pub open spec fn received(wait: LinkWait, stream: Seq<u8>) -> Seq<Seq<u8>>
    decreases
            stream.len(),
            if wait is Payload {
                1int
            } else {
                0int
            },
{
    match wait {
        LinkWait::Length => if stream.len() == 0 {
            seq![]
        } else {
            received(wait.after(LinkSeen::Length(stream[0])), stream.skip(1))
        },
        LinkWait::Payload(n) => if stream.len() < n {
            seq![]
        } else {
            let seen = LinkSeen::Payload(stream.take(n as int));
            LinkWait::delivered(seen) + received(wait.after(seen), stream.skip(n as int))
        },
    }
}

/// What is sent arrives: the receiver gets the payloads whole and in order.
pub proof fn what_is_sent_arrives(payloads: Seq<Seq<u8>>)
    requires
        forall|i: int| 0 <= i < payloads.len() ==> #[trigger] payloads[i].len() <= MAX_RECEIVE,
    ensures
        received(LinkWait::Length, stream_of(payloads)) == payloads,
    decreases payloads.len(),
{
    if payloads.len() > 0 {
        let first = payloads[0];
        let others = payloads.drop_first();
        let stream = stream_of(payloads);
        let rest = stream_of(others);
        assert forall|i: int| 0 <= i < others.len() implies #[trigger] others[i].len()
            <= MAX_RECEIVE by {
            assert(others[i] == payloads[i + 1]);
        }
        what_is_sent_arrives(others);
        assert(first.len() <= MAX_RECEIVE);
        assert(stream[0] == first.len());
        let body = stream.skip(1);
        assert(body.take(first.len() as int) =~= first);
        assert(body.skip(first.len() as int) =~= rest);
        let wait = LinkWait::Payload(first.len() as usize);
        assert(received(LinkWait::Length, stream) == received(wait, body));
        assert(received(wait, body) == seq![first] + received(LinkWait::Length, rest));
        assert(seq![first] + others =~= payloads);
    } else {
        assert(received(LinkWait::Length, stream_of(payloads)) =~= payloads);
    }
}

/// A frame cut short is forgotten in time: the receiver then takes the next one as if nothing had
/// been.
pub proof fn late_frame_is_forgotten(wait: LinkWait, payloads: Seq<Seq<u8>>)
    requires
        wait is Payload,
        forall|i: int| 0 <= i < payloads.len() ==> #[trigger] payloads[i].len() <= MAX_RECEIVE,
    ensures
        received(wait.after(LinkSeen::TimedOut), stream_of(payloads)) == payloads,
{
    what_is_sent_arrives(payloads);
}

/// A frame is its payload with one byte in front, the payload's length as far as a byte counts.
pub proof fn frame_is_length_and_payload(payload: Seq<u8>)
    ensures
        frame_of(payload).len() == payload.len() + 1,
        frame_of(payload)[0] == payload.len() % 256,
        frame_of(payload).skip(1) == payload,
{
    assert(frame_of(payload).skip(1) =~= payload);
}

/// A length byte is followed by so many bytes and no other number of them. They, or giving up on
/// them, are followed by the next length byte; they alone are handed on, and unchanged.
pub proof fn length_says_how_much_follows(wait: LinkWait, n: u8, bytes: Seq<u8>)
    ensures
        wait.after(LinkSeen::Length(n)) == LinkWait::Payload(n as usize),
        wait.after(LinkSeen::Length(n)).expects(LinkSeen::Payload(bytes)) <==> bytes.len() == n,
        wait.after(LinkSeen::Length(n)).expects(LinkSeen::TimedOut),
        !wait.after(LinkSeen::Length(n)).expects(LinkSeen::Length(n)),
        wait.after(LinkSeen::Payload(bytes)) == LinkWait::Length,
        wait.after(LinkSeen::TimedOut) == LinkWait::Length,
        LinkWait::Length.expects(LinkSeen::Length(n)) <==> n <= 32,
        !LinkWait::Length.expects(LinkSeen::Payload(bytes)),
        !LinkWait::Length.expects(LinkSeen::TimedOut),
        LinkWait::delivered(LinkSeen::Payload(bytes)) == seq![bytes],
        LinkWait::delivered(LinkSeen::Length(n)) == Seq::<Seq<u8>>::empty(),
        LinkWait::delivered(LinkSeen::TimedOut) == Seq::<Seq<u8>>::empty(),
{
}

/// What came of waiting is what the input says, word for word; and a receiver may be waiting for any
/// payload that it has room for.
pub proof fn input_is_seen_as_it_is(input: LinkInput, link: SlaveLink)
    ensures
        match input {
            LinkInput::Length(n) => input@ == LinkSeen::Length(n),
            LinkInput::Payload(bytes) => input@ == LinkSeen::Payload(bytes@),
            LinkInput::TimedOut => input@ == LinkSeen::TimedOut,
        },
        match link.wait {
            LinkWait::Length => link.inv(),
            LinkWait::Payload(n) => link.inv() <==> n <= 32,
        },
{
}

/// Whatever happens to a key of the second board happens to the key 28 numbers on, and is of the same
/// kind; so different events stay different.
pub proof fn second_board_events_keep_their_kind(key: KeyEvent, other: KeyEvent)
    requires
        key.id() + 28 <= usize::MAX,
        other.id() + 28 <= usize::MAX,
    ensures
        ({
            let moved = key.with_id((key.id() + FIRST_SLAVE_KEY) as usize);
            let also = other.with_id((other.id() + FIRST_SLAVE_KEY) as usize);
            &&& match key {
                KeyEvent::KeyPressed(id) => moved == KeyEvent::KeyPressed((id + 28) as usize),
                KeyEvent::KeyReleased(id) => moved == KeyEvent::KeyReleased((id + 28) as usize),
                KeyEvent::KeyHeld(id) => moved == KeyEvent::KeyHeld((id + 28) as usize),
            }
            &&& moved == also <==> key == other
        }),
{
}

/// How long the line may be silent, and how long its frames and payloads may be.
pub proof fn line_has_these_limits()
    ensures
        WATCHDOG_MILLIS == 500,
        PAYLOAD_MILLIS == 100,
        MAX_RECEIVE == 32,
        MAX_SEND == 511,
        FIRST_SLAVE_KEY == 28,
{
}

/// The keys of the two boards never get in each other's way: those of the second board come behind
/// the first board's and fill up the keyboard.
pub proof fn boards_share_the_keyboard(key: KeyEvent)
    requires
        key.id() < crate::hid::NUM_KEYS - FIRST_SLAVE_KEY,
    ensures
        FIRST_SLAVE_KEY <= key.with_id((key.id() + FIRST_SLAVE_KEY) as usize).id()
            < crate::hid::NUM_KEYS,
{
}

} // verus!
