//! What a conversation with the boot loader consists of, and how it moves on.
//!
//! A conversation is a list of steps. The first step is the one under way; what comes of
//! it decides which steps are left.
use super::frame::{
    activation_reply, bare_frame, erase_frame, program_frame, read_frame, BootloaderCommand, Error,
    FLASH_PAGE_SIZE, FLASH_SECTOR_SIZE, FLASH_SIZE, MAX_READ, SLAVE_APPCODE_OFFSET,
};
use crate::bytes::{from_le32, le32};
use crate::time::{Duration, Instant};
use vstd::prelude::*;

verus! {

/// What is done with the bytes that a step receives.
pub enum Check {
    /// They have to be the boot loader's greeting.
    Activation,
    /// They are the checksum of the firmware in flash, which decides whether to program.
    StoredCrc,
    /// They have to start with the data that was programmed.
    Page(Seq<u8>),
    /// They are a ready flag, to be handed out.
    ReadyFlag,
    /// They are handed out as they are.
    HandOut,
}

/// One step of a conversation.
pub enum Step {
    /// Switch the second board's power on or off.
    Power(bool),
    /// Let so many milliseconds pass.
    Sleep(u64),
    /// Throw away what comes in first, however long it takes.
    Drain,
    /// Throw away what comes in within so many milliseconds.
    DrainFor(u64),
    /// Send a frame.
    Send(Seq<u8>),
    /// Receive so many bytes.
    Receive(nat, Check),
    /// Ask whether the boot loader is ready, as part of waiting for it.
    Ask,
    /// Receive the answer to `Ask`.
    Answer,
    /// Give up.
    Fail(Error),
}

/// What came of the step under way.
pub enum Seen {
    /// It was carried out.
    Done,
    /// It was carried out, and these bytes came in.
    Received(Seq<u8>),
    /// It was not carried out in time.
    TimedOut,
    /// The serial line failed.
    Failed,
}

/// What a conversation hands out in the end.
pub enum Told {
    Nothing,
    Ready(bool),
    Data(Seq<u8>),
}

/// What is to be done next.
pub enum Order {
    SetPower(bool),
    Sleep(u64),
    Drain,
    DrainFor(u64),
    Write(Seq<u8>, Instant),
    Read(nat, Instant),
    Finish(Result<Told, Error>),
}

/// A conversation, as far as it is still to be held.
pub struct Conversation {
    /// The firmware that the second board is to run.
    pub image: Seq<u8>,
    /// The checksum of `image`.
    pub crc: u32,
    /// How long one transfer, and one wait for the boot loader, may take.
    pub timeout: Duration,
    /// The steps left, the one under way first.
    pub steps: Seq<Step>,
    /// When the wait for the boot loader that is under way has to be over.
    pub wait_until: Instant,
    /// What is handed out at the end.
    pub told: Told,
}

/// How many pages `len` bytes take up.
pub open spec fn page_count(len: nat) -> nat {
    (len + FLASH_PAGE_SIZE - 1) as nat / FLASH_PAGE_SIZE as nat
}

/// Where in flash the checksum of a firmware of `len` bytes stands: at the start of the first
/// page behind it.
pub open spec fn crc_offset(len: nat) -> int {
    SLAVE_APPCODE_OFFSET + FLASH_PAGE_SIZE * page_count(len)
}

/// Asking until the boot loader is ready.
pub open spec fn ready_steps() -> Seq<Step> {
    seq![Step::Ask, Step::Answer]
}

/// Reading `len` bytes of flash from `offset` on.
pub open spec fn read_steps(offset: u32, len: nat, check: Check) -> Seq<Step> {
    if len == 0 || len > MAX_READ {
        seq![Step::Fail(Error::InvalidLength)]
    } else {
        seq![Step::Send(read_frame(offset, len as u16)), Step::Receive(len, check)]
    }
}

/// Erasing sector `sector`.
pub open spec fn erase_steps(sector: int) -> Seq<Step> {
    if sector * FLASH_SECTOR_SIZE >= FLASH_SIZE {
        seq![Step::Fail(Error::InvalidOffset)]
    } else {
        seq![Step::Send(erase_frame(sector as u16))] + ready_steps()
    }
}

/// Reading page `page` back, which has to start with `data`.
pub open spec fn verify_steps(page: int, data: Seq<u8>) -> Seq<Step> {
    if page * FLASH_PAGE_SIZE >= FLASH_SIZE {
        seq![Step::Fail(Error::InvalidOffset)]
    } else {
        seq![
            Step::Send(read_frame((page * FLASH_PAGE_SIZE) as u32, FLASH_PAGE_SIZE as u16)),
            Step::Receive(FLASH_PAGE_SIZE as nat, Check::Page(data)),
        ]
    }
}

/// Programming the page at `offset` with `data` and reading it back.
pub open spec fn program_page_steps(offset: int, data: Seq<u8>) -> Seq<Step> {
    if offset % (FLASH_PAGE_SIZE as int) != 0 {
        seq![Step::Fail(Error::InvalidOffset)]
    } else if offset >= FLASH_SIZE || data.len() > FLASH_PAGE_SIZE {
        seq![Step::Fail(Error::InvalidLength)]
    } else {
        seq![Step::Send(program_frame(offset as u32, data))] + ready_steps() + verify_steps(
            offset / (FLASH_PAGE_SIZE as int),
            data,
        )
    }
}

/// What page `k` of a firmware holds: its bytes there, or, in the page behind it, its checksum.
pub open spec fn page_data(data: Seq<u8>, crc: u32, k: int) -> Seq<u8> {
    if k < page_count(data.len()) {
        let end = FLASH_PAGE_SIZE * (k + 1);
        data.subrange(
            FLASH_PAGE_SIZE * k,
            if end <= data.len() {
                end
            } else {
                data.len() as int
            },
        )
    } else {
        le32(crc)
    }
}

/// Programming the pages of `data` from number `k` on, and its checksum in the page behind it.
pub open spec fn pages_from(offset: int, data: Seq<u8>, crc: u32, k: int) -> Seq<Step>
    decreases page_count(data.len()) + 1 - k,
{
    if k > page_count(data.len()) {
        seq![]
    } else {
        program_page_steps(offset + FLASH_PAGE_SIZE * k, page_data(data, crc, k)) + pages_from(
            offset,
            data,
            crc,
            k + 1,
        )
    }
}

/// Programming `data` at `offset`, page by page, and its checksum in the page behind it.
pub open spec fn program_steps(offset: int, data: Seq<u8>, crc: u32) -> Seq<Step> {
    if offset % (FLASH_PAGE_SIZE as int) != 0 {
        seq![Step::Fail(Error::InvalidOffset)]
    } else if offset + data.len() > FLASH_SIZE {
        seq![Step::Fail(Error::InvalidLength)]
    } else {
        pages_from(offset, data, crc, 0)
    }
}

/// The number of the sector in which the application starts.
pub open spec fn first_sector() -> int {
    SLAVE_APPCODE_OFFSET as int / FLASH_SECTOR_SIZE as int
}

/// The number of the last sector that is erased for a firmware of `len` bytes, counted from the
/// first.
pub open spec fn last_erased(len: nat) -> int {
    len as int / FLASH_SECTOR_SIZE as int
}

/// Erasing the sectors for a firmware of `len` bytes, from the `k`-th on.
pub open spec fn erases_from(len: nat, k: int) -> Seq<Step>
    decreases last_erased(len) + 1 - k,
{
    if k > last_erased(len) {
        seq![]
    } else {
        erase_steps(first_sector() + k) + erases_from(len, k + 1)
    }
}

/// Replacing the firmware of the second board by `image`.
pub open spec fn program_slave_steps(image: Seq<u8>, crc: u32) -> Seq<Step> {
    erases_from(image.len(), 0) + program_steps(SLAVE_APPCODE_OFFSET as int, image, crc)
}

/// Starting the application and throwing away what its start puts on the line.
pub open spec fn start_steps() -> Seq<Step> {
    seq![
        Step::Send(bare_frame(BootloaderCommand::GotoAppcode)),
        Step::Drain,
        Step::DrainFor(100),
    ]
}

/// Switching the second board on and waking its boot loader.
pub open spec fn wake_steps() -> Seq<Step> {
    seq![
        Step::Power(true),
        Step::Sleep(500),
        Step::Drain,
        Step::DrainFor(100),
        Step::Send(bare_frame(BootloaderCommand::Activate)),
        Step::Receive(4, Check::Activation),
    ]
}

/// Booting the second board with firmware `image`.
pub open spec fn boot_steps(image: Seq<u8>) -> Seq<Step> {
    wake_steps() + read_steps(crc_offset(image.len()) as u32, 4, Check::StoredCrc) + start_steps()
}

/// Switching the second board off and booting it again.
pub open spec fn reboot_steps(image: Seq<u8>) -> Seq<Step> {
    seq![Step::Power(false), Step::Sleep(100)] + boot_steps(image)
}

impl Step {
    /// Whether `seen` can come of this step.
    pub open spec fn expects(self, seen: Seen) -> bool {
        match self {
            Step::Power(_) | Step::Sleep(_) | Step::Drain | Step::DrainFor(_) => seen is Done,
            Step::Send(_) | Step::Ask => seen is Done || seen is TimedOut || seen is Failed,
            Step::Receive(len, _) => match seen {
                Seen::Received(bytes) => bytes.len() == len,
                Seen::TimedOut | Seen::Failed => true,
                Seen::Done => false,
            },
            Step::Answer => match seen {
                Seen::Received(bytes) => bytes.len() == 1,
                Seen::TimedOut | Seen::Failed => true,
                Seen::Done => false,
            },
            Step::Fail(_) => false,
        }
    }
}

impl Conversation {
    /// Whether anything is left to be done.
    pub open spec fn over(self) -> bool {
        self.steps.len() == 0 || self.steps[0] is Fail
    }

    /// Whether `seen` can come of the step under way.
    pub open spec fn expects(self, seen: Seen) -> bool {
        self.steps.len() > 0 && self.steps[0].expects(seen)
    }

    /// The steps left when `bytes` have come in as the step under way had to receive them.
    pub open spec fn steps_after_bytes(self, bytes: Seq<u8>) -> Seq<Step> {
        let rest = self.steps.drop_first();
        match self.steps[0] {
            Step::Receive(_, Check::Activation) => if bytes == activation_reply() {
                rest
            } else {
                seq![Step::Fail(Error::Activation)]
            },
            Step::Receive(_, Check::StoredCrc) => if from_le32(bytes) == self.crc {
                rest
            } else {
                program_slave_steps(self.image, self.crc) + rest
            },
            Step::Receive(_, Check::Page(data)) => if bytes.take(data.len() as int) == data {
                rest
            } else {
                seq![Step::Fail(Error::Verification)]
            },
            Step::Answer => if bytes[0] != 0 {
                rest
            } else {
                ready_steps() + rest
            },
            _ => rest,
        }
    }

    /// The steps left when `seen` has come of the step under way.
    pub open spec fn steps_after(self, seen: Seen) -> Seq<Step> {
        match seen {
            Seen::Done => self.steps.drop_first(),
            Seen::Received(bytes) => self.steps_after_bytes(bytes),
            Seen::TimedOut => seq![Step::Fail(Error::Timeout)],
            Seen::Failed => seq![Step::Fail(Error::UnexpectedEof)],
        }
    }

    /// What is handed out at the end when `seen` has come of the step under way.
    pub open spec fn told_after(self, seen: Seen) -> Told {
        match (self.steps[0], seen) {
            (Step::Receive(_, Check::ReadyFlag), Seen::Received(bytes)) => Told::Ready(
                bytes[0] != 0,
            ),
            (Step::Receive(_, Check::HandOut), Seen::Received(bytes)) => Told::Data(bytes),
            _ => self.told,
        }
    }

    /// The conversation when `seen` has come of the step under way, at `now`.
    ///
    /// A wait for the boot loader that starts here has `timeout` from `now`; one that goes on
    /// keeps the end that it has.
    pub open spec fn advance(self, now: Instant, seen: Seen) -> Conversation {
        let steps = self.steps_after(seen);
        Conversation {
            steps,
            wait_until: if self.steps[0] !is Answer && steps.len() > 0 && steps[0] is Ask {
                now.plus(self.timeout)
            } else {
                self.wait_until
            },
            told: self.told_after(seen),
            ..self
        }
    }

    /// What the step under way asks for, at `now`.
    pub open spec fn order(self, now: Instant) -> Order {
        if self.steps.len() == 0 {
            Order::Finish(Ok(self.told))
        } else {
            match self.steps[0] {
                Step::Power(on) => Order::SetPower(on),
                Step::Sleep(millis) => Order::Sleep(millis),
                Step::Drain => Order::Drain,
                Step::DrainFor(millis) => Order::DrainFor(millis),
                Step::Send(frame) => Order::Write(frame, now.plus(self.timeout)),
                Step::Receive(len, _) => Order::Read(len, now.plus(self.timeout)),
                Step::Ask => Order::Write(
                    bare_frame(BootloaderCommand::ReadyBusy),
                    self.wait_until,
                ),
                Step::Answer => Order::Read(1, self.wait_until),
                Step::Fail(error) => Order::Finish(Err(error)),
            }
        }
    }

    /// The same partner and firmware, with `steps` to be gone through from `now` on.
    pub open spec fn begun(self, now: Instant, steps: Seq<Step>) -> Conversation {
        Conversation {
            steps,
            wait_until: if steps.len() > 0 && steps[0] is Ask {
                now.plus(self.timeout)
            } else {
                self.wait_until
            },
            told: Told::Nothing,
            ..self
        }
    }
}

} // verus!
