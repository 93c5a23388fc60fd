//! Boots the second board of the keyboard and, where its firmware is out of date, programs it.
//!
//! [`SlaveBootloader`] holds no serial line of its own. Each operation begins a conversation and
//! returns the first [`Action`] to carry out; what came of it goes into
//! [`SlaveBootloader::step`], which returns the next one, until there is a result.
pub mod flash;
pub mod frame;
pub mod laws;
pub mod orders;
pub mod script;

pub use frame::{
    BootloaderCommand, Error, UartError, FLASH_PAGE_SIZE, FLASH_SECTOR_SIZE, FLASH_SIZE,
    SLAVE_APPCODE_OFFSET,
};

use crate::bytes::{le32, push_le32, read_le32, starts_with};
use crate::time::{millis_as_ticks, Duration, Instant};
use frame::{
    bare_frame, build_bare_frame, build_erase_frame, build_program_frame, build_read_frame,
    erase_frame, is_activation_reply, program_frame, read_frame, MAX_READ,
};
use script::{
    boot_steps, crc_offset, erase_steps, erases_from, first_sector, last_erased, page_count,
    page_data, pages_from, program_page_steps, program_steps, read_steps, ready_steps,
    reboot_steps, start_steps, verify_steps, Check, Conversation, Order, Seen, Step, Told,
};
use vstd::prelude::*;
use vstd::slice::{slice_subrange, slice_to_vec};

verus! {

/// What came of an [`Action`].
#[derive(Debug, PartialEq, Eq)]
pub enum Event {
    /// It was carried out.
    Done,
    /// It was carried out, and these bytes came in.
    Received(Vec<u8>),
    /// It was not carried out before its deadline.
    TimedOut,
    /// The serial line failed.
    Failed,
}

/// What an operation hands out in the end.
#[derive(Debug, PartialEq, Eq)]
pub enum Reply {
    Nothing,
    /// Whether the boot loader is ready.
    Ready(bool),
    /// The bytes that were read.
    Data(Vec<u8>),
}

/// What is to be done next.
#[derive(Debug, PartialEq, Eq)]
pub enum Action {
    /// Switch the second board's power on or off.
    SetPower(bool),
    /// Wait for so many milliseconds.
    Sleep(u64),
    /// Read up to one byte, however long it takes, and forget what came of it.
    Drain,
    /// Read up to one byte within so many milliseconds, and forget what came of it.
    DrainFor(u64),
    /// Write all these bytes before the deadline.
    Write(Vec<u8>, Instant),
    /// Read exactly so many bytes before the deadline.
    Read(usize, Instant),
    /// Nothing: this is the result.
    Finish(Result<Reply, Error>),
}

impl View for Event {
    type V = Seen;

    open spec fn view(&self) -> Seen {
        match self {
            Event::Done => Seen::Done,
            Event::Received(bytes) => Seen::Received(bytes@),
            Event::TimedOut => Seen::TimedOut,
            Event::Failed => Seen::Failed,
        }
    }
}

impl View for Reply {
    type V = Told;

    open spec fn view(&self) -> Told {
        match self {
            Reply::Nothing => Told::Nothing,
            Reply::Ready(ready) => Told::Ready(*ready),
            Reply::Data(bytes) => Told::Data(bytes@),
        }
    }
}

impl View for Action {
    type V = Order;

    open spec fn view(&self) -> Order {
        match self {
            Action::SetPower(on) => Order::SetPower(*on),
            Action::Sleep(millis) => Order::Sleep(*millis),
            Action::Drain => Order::Drain,
            Action::DrainFor(millis) => Order::DrainFor(*millis),
            Action::Write(bytes, deadline) => Order::Write(bytes@, *deadline),
            Action::Read(len, deadline) => Order::Read(*len as nat, *deadline),
            Action::Finish(Ok(reply)) => Order::Finish(Ok(reply@)),
            Action::Finish(Err(error)) => Order::Finish(Err(*error)),
        }
    }
}

/// The remainder `value` when `bits` more bits have been divided out, lowest first. The polynomial
/// is that of CRC-32C, 0x1EDC6F41, with its bits in reverse.
pub open spec fn crc32c_shifted(value: u32, bits: nat) -> u32
    decreases bits,
{
    if bits == 0 {
        value
    } else {
        crc32c_shifted(
            if value & 1 == 1 {
                (value >> 1) ^ 0x82F6_3B78
            } else {
                value >> 1
            },
            (bits - 1) as nat,
        )
    }
}

/// The remainder when all of `data` has been divided out, from all ones on.
pub open spec fn crc32c_remainder(data: Seq<u8>) -> u32
    decreases data.len(),
{
    if data.len() == 0 {
        0xFFFF_FFFF
    } else {
        crc32c_shifted(crc32c_remainder(data.drop_last()) ^ (data.last() as u32), 8)
    }
}

/// The CRC-32C checksum of `data`.
pub open spec fn crc32c_of(data: Seq<u8>) -> u32 {
    crc32c_remainder(data) ^ 0xFFFF_FFFF
}

/// `embedded_crc32c::crc32c`, which is documented to be the CRC-32C checksum of the bytes. It goes by
/// a table of the remainders of single bytes.
#[verifier::external_body]
fn crc32c(data: &[u8]) -> (crc: u32)
    ensures
        crc == crc32c_of(data@),
{
    embedded_crc32c::crc32c(data)
}

/// Asking once whether the boot loader is ready.
pub open spec fn query_steps() -> Seq<Step> {
    seq![
        Step::Send(bare_frame(BootloaderCommand::ReadyBusy)),
        Step::Receive(1, Check::ReadyFlag),
    ]
}

/// What a wait for the boot loader follows.
#[derive(Copy, Clone)]
enum Task {
    /// Nothing.
    Alone,
    /// Erasing the sector of that number, counted from the first.
    Erase(usize),
    /// Programming the page of that number.
    Page(usize),
}

/// The step under way.
enum Stage {
    Over,
    PowerOff,
    PowerOffDelay,
    PowerOn,
    PowerOnDelay,
    Settle,
    SettleBriefly,
    Activate,
    ActivateReply,
    CrcRequest,
    CrcReply,
    Erase(usize),
    Page(usize),
    Verify(usize),
    VerifyReply(usize),
    Ask(Task),
    Answer(Task),
    Start,
    Flush,
    FlushBriefly,
    Query,
    QueryReply,
    ReadRequest(u32, usize),
    ReadReply(usize),
    RawWrite(Vec<u8>),
    RawRead(usize),
    Failed(Error),
}

/// The offset of page `k` of the firmware.
spec fn page_offset(k: int) -> int {
    SLAVE_APPCODE_OFFSET + FLASH_PAGE_SIZE * k
}

/// The steps left when page `k` has been programmed and the boot loader is ready again.
spec fn verify_and_rest(image: Seq<u8>, crc: u32, k: int) -> Seq<Step> {
    verify_steps(page_offset(k) / (FLASH_PAGE_SIZE as int), page_data(image, crc, k))
        + pages_from(SLAVE_APPCODE_OFFSET as int, image, crc, k + 1) + start_steps()
}

impl Task {
    /// The steps left when the boot loader is ready again.
    spec fn rest(self, image: Seq<u8>, crc: u32) -> Seq<Step> {
        match self {
            Task::Alone => seq![],
            Task::Erase(k) => erases_from(image.len(), k + 1) + program_steps(
                SLAVE_APPCODE_OFFSET as int,
                image,
                crc,
            ) + start_steps(),
            Task::Page(k) => verify_and_rest(image, crc, k as int),
        }
    }

    spec fn inv(self, len: nat) -> bool {
        match self {
            Task::Alone => true,
            Task::Erase(k) => k <= last_erased(len) && (first_sector() + k) * FLASH_SECTOR_SIZE
                < FLASH_SIZE,
            Task::Page(k) => page_fits(len, k as int),
        }
    }
}

/// Whether page `k` is one of those of a firmware of `len` bytes, and within flash.
spec fn page_fits(len: nat, k: int) -> bool {
    0 <= k <= page_count(len) && SLAVE_APPCODE_OFFSET + len <= FLASH_SIZE && page_offset(k)
        < FLASH_SIZE
}

impl Stage {
    /// The steps left.
    #[verifier::opaque]
    spec fn steps(self, image: Seq<u8>, crc: u32) -> Seq<Step> {
        match self {
            Stage::Over => seq![],
            Stage::PowerOff => reboot_steps(image),
            Stage::PowerOffDelay => reboot_steps(image).skip(1),
            Stage::PowerOn => boot_steps(image),
            Stage::PowerOnDelay => boot_steps(image).skip(1),
            Stage::Settle => boot_steps(image).skip(2),
            Stage::SettleBriefly => boot_steps(image).skip(3),
            Stage::Activate => boot_steps(image).skip(4),
            Stage::ActivateReply => boot_steps(image).skip(5),
            Stage::CrcRequest => boot_steps(image).skip(6),
            Stage::CrcReply => boot_steps(image).skip(7),
            Stage::Erase(k) => erases_from(image.len(), k as int) + program_steps(
                SLAVE_APPCODE_OFFSET as int,
                image,
                crc,
            ) + start_steps(),
            Stage::Page(k) => pages_from(SLAVE_APPCODE_OFFSET as int, image, crc, k as int)
                + start_steps(),
            Stage::Verify(k) => verify_and_rest(image, crc, k as int),
            Stage::VerifyReply(k) => verify_and_rest(image, crc, k as int).skip(1),
            Stage::Ask(task) => ready_steps() + task.rest(image, crc),
            Stage::Answer(task) => (ready_steps() + task.rest(image, crc)).skip(1),
            Stage::Start => start_steps(),
            Stage::Flush => start_steps().skip(1),
            Stage::FlushBriefly => start_steps().skip(2),
            Stage::Query => query_steps(),
            Stage::QueryReply => query_steps().skip(1),
            Stage::ReadRequest(offset, len) => read_steps(offset, len as nat, Check::HandOut),
            Stage::ReadReply(len) => seq![Step::Receive(len as nat, Check::HandOut)],
            Stage::RawWrite(bytes) => seq![Step::Send(bytes@)],
            Stage::RawRead(len) => seq![Step::Receive(len as nat, Check::HandOut)],
            Stage::Failed(error) => seq![Step::Fail(error)],
        }
    }

    spec fn inv(self, len: nat) -> bool {
        match self {
            Stage::Erase(k) => k <= last_erased(len),
            Stage::Page(k) => k <= page_count(len) && SLAVE_APPCODE_OFFSET + len <= FLASH_SIZE,
            Stage::Verify(k) => page_fits(len, k as int),
            Stage::VerifyReply(k) => page_fits(len, k as int),
            Stage::Ask(task) => task.inv(len),
            Stage::Answer(task) => task.inv(len),
            _ => true,
        }
    }
}

impl Stage {
    /// The step under way.
    spec fn head(self, image: Seq<u8>, crc: u32) -> Step {
        match self {
            Stage::Over => Step::Drain,
            Stage::PowerOff => Step::Power(false),
            Stage::PowerOffDelay => Step::Sleep(100),
            Stage::PowerOn => Step::Power(true),
            Stage::PowerOnDelay => Step::Sleep(500),
            Stage::Settle => Step::Drain,
            Stage::SettleBriefly => Step::DrainFor(100),
            Stage::Activate => Step::Send(bare_frame(BootloaderCommand::Activate)),
            Stage::ActivateReply => Step::Receive(4, Check::Activation),
            Stage::CrcRequest => Step::Send(read_frame(crc_offset(image.len()) as u32, 4)),
            Stage::CrcReply => Step::Receive(4, Check::StoredCrc),
            Stage::Erase(k) => if (first_sector() + k) * FLASH_SECTOR_SIZE >= FLASH_SIZE {
                Step::Fail(Error::InvalidOffset)
            } else {
                Step::Send(erase_frame((first_sector() + k) as u16))
            },
            Stage::Page(k) => if page_offset(k as int) >= FLASH_SIZE {
                Step::Fail(Error::InvalidLength)
            } else {
                Step::Send(
                    program_frame(page_offset(k as int) as u32, page_data(image, crc, k as int)),
                )
            },
            Stage::Verify(k) => Step::Send(
                read_frame(page_offset(k as int) as u32, FLASH_PAGE_SIZE as u16),
            ),
            Stage::VerifyReply(k) => Step::Receive(
                FLASH_PAGE_SIZE as nat,
                Check::Page(page_data(image, crc, k as int)),
            ),
            Stage::Ask(_) => Step::Ask,
            Stage::Answer(_) => Step::Answer,
            Stage::Start => Step::Send(bare_frame(BootloaderCommand::GotoAppcode)),
            Stage::Flush => Step::Drain,
            Stage::FlushBriefly => Step::DrainFor(100),
            Stage::Query => Step::Send(bare_frame(BootloaderCommand::ReadyBusy)),
            Stage::QueryReply => Step::Receive(1, Check::ReadyFlag),
            Stage::ReadRequest(offset, len) => if len == 0 || len > MAX_READ {
                Step::Fail(Error::InvalidLength)
            } else {
                Step::Send(read_frame(offset, len as u16))
            },
            Stage::ReadReply(len) => Step::Receive(len as nat, Check::HandOut),
            Stage::RawWrite(bytes) => Step::Send(bytes@),
            Stage::RawRead(len) => Step::Receive(len as nat, Check::HandOut),
            Stage::Failed(error) => Step::Fail(error),
        }
    }
}

/// A page holds no more than a page.
proof fn page_data_fits(image: Seq<u8>, crc: u32, k: int)
    requires
        0 <= k <= page_count(image.len()),
    ensures
        page_data(image, crc, k).len() <= FLASH_PAGE_SIZE,
{
}

/// The steps of booting, one by one.
proof fn boot_heads(image: Seq<u8>)
    ensures
        boot_steps(image).len() == 11,
        boot_steps(image)[0] == Step::Power(true),
        boot_steps(image)[1] == Step::Sleep(500),
        boot_steps(image)[2] == Step::Drain,
        boot_steps(image)[3] == Step::DrainFor(100),
        boot_steps(image)[4] == Step::Send(bare_frame(BootloaderCommand::Activate)),
        boot_steps(image)[5] == Step::Receive(4, Check::Activation),
        boot_steps(image)[6] == Step::Send(read_frame(crc_offset(image.len()) as u32, 4)),
        boot_steps(image)[7] == Step::Receive(4, Check::StoredCrc),
        boot_steps(image)[8] == Step::Send(bare_frame(BootloaderCommand::GotoAppcode)),
        reboot_steps(image).len() == 13,
        reboot_steps(image)[0] == Step::Power(false),
        reboot_steps(image)[1] == Step::Sleep(100),
{
}

/// The step under way is the first of those left.
proof fn stage_head(stage: Stage, image: Seq<u8>, crc: u32)
    requires
        image_fits(image.len()),
        stage.inv(image.len()),
    ensures
        stage is Over <==> stage.steps(image, crc).len() == 0,
        stage !is Over ==> stage.steps(image, crc)[0] == stage.head(image, crc),
{
    reveal(Stage::steps);
    let steps = stage.steps(image, crc);
    match stage {
        Stage::Erase(k) => {
            let first = erase_steps(first_sector() + k);
            assert(first.len() > 0 && first[0] == stage.head(image, crc));
            assert(erases_from(image.len(), k as int)[0] == first[0]);
            assert(steps[0] == first[0]);
        },
        Stage::Page(k) => {
            page_data_fits(image, crc, k as int);
            let first = program_page_steps(page_offset(k as int), page_data(image, crc, k as int));
            assert(first.len() > 0 && first[0] == stage.head(image, crc));
            assert(pages_from(SLAVE_APPCODE_OFFSET as int, image, crc, k as int)[0] == first[0]);
            assert(steps[0] == first[0]);
        },
        Stage::Verify(k) => {
            let first = verify_steps(
                page_offset(k as int) / (FLASH_PAGE_SIZE as int),
                page_data(image, crc, k as int),
            );
            assert(first.len() > 0 && first[0] == stage.head(image, crc));
            assert(steps[0] == first[0]);
        },
        Stage::VerifyReply(k) => {
            let first = verify_steps(
                page_offset(k as int) / (FLASH_PAGE_SIZE as int),
                page_data(image, crc, k as int),
            );
            assert(first.len() > 1 && first[1] == stage.head(image, crc));
            assert(verify_and_rest(image, crc, k as int)[1] == first[1]);
            assert(steps[0] == first[1]);
        },
        Stage::Ask(task) => {
            assert(steps[0] == ready_steps()[0]);
        },
        Stage::Answer(task) => {
            assert((ready_steps() + task.rest(image, crc))[1] == ready_steps()[1]);
            assert(steps[0] == ready_steps()[1]);
        },
        Stage::Start | Stage::Flush | Stage::FlushBriefly | Stage::Query | Stage::QueryReply
        | Stage::ReadRequest(..) | Stage::ReadReply(..) | Stage::RawWrite(..) | Stage::RawRead(
            ..,
        ) => {},
        Stage::Failed(_) | Stage::Over => {},
        _ => {
            boot_heads(image);
        },
    }
}

impl Stage {
    /// The stage that follows when the step under way has gone well.
    spec fn next(self, len: nat) -> Stage {
        match self {
            Stage::PowerOff => Stage::PowerOffDelay,
            Stage::PowerOffDelay => Stage::PowerOn,
            Stage::PowerOn => Stage::PowerOnDelay,
            Stage::PowerOnDelay => Stage::Settle,
            Stage::Settle => Stage::SettleBriefly,
            Stage::SettleBriefly => Stage::Activate,
            Stage::Activate => Stage::ActivateReply,
            Stage::ActivateReply => Stage::CrcRequest,
            Stage::CrcRequest => Stage::CrcReply,
            Stage::CrcReply => Stage::Start,
            Stage::Erase(k) => Stage::Ask(Task::Erase(k)),
            Stage::Page(k) => Stage::Ask(Task::Page(k)),
            Stage::Verify(k) => Stage::VerifyReply(k),
            Stage::VerifyReply(k) => if k < page_count(len) {
                Stage::Page((k + 1) as usize)
            } else {
                Stage::Start
            },
            Stage::Ask(task) => Stage::Answer(task),
            Stage::Answer(Task::Alone) => Stage::Over,
            Stage::Answer(Task::Erase(k)) => if k < last_erased(len) {
                Stage::Erase((k + 1) as usize)
            } else {
                Stage::Page(0)
            },
            Stage::Answer(Task::Page(k)) => Stage::Verify(k),
            Stage::Start => Stage::Flush,
            Stage::Flush => Stage::FlushBriefly,
            Stage::Query => Stage::QueryReply,
            Stage::ReadRequest(_, len) => Stage::ReadReply(len),
            _ => Stage::Over,
        }
    }
}

/// Leaving out one step more.
proof fn skip_one_more(steps: Seq<Step>, n: int)
    requires
        0 <= n < steps.len(),
    ensures
        steps.skip(n).drop_first() == steps.skip(n + 1),
{
    assert(steps.skip(n).drop_first() =~= steps.skip(n + 1));
}

/// The first step of a list is the first of what it starts with.
proof fn drop_from_front(front: Seq<Step>, rest: Seq<Step>)
    requires
        front.len() > 0,
    ensures
        (front + rest).drop_first() == front.drop_first() + rest,
{
    assert((front + rest).drop_first() =~= front.drop_first() + rest);
}

/// The steps of booting follow one another.
proof fn boot_next(stage: Stage, image: Seq<u8>, crc: u32)
    requires
        stage is PowerOff || stage is PowerOffDelay || stage is PowerOn || stage is PowerOnDelay
            || stage is Settle || stage is SettleBriefly || stage is Activate
            || stage is ActivateReply || stage is CrcRequest || stage is CrcReply,
    ensures
        stage.next(image.len()).steps(image, crc) == stage.steps(image, crc).drop_first(),
{
    reveal(Stage::steps);
    let boot = boot_steps(image);
    let reboot = reboot_steps(image);
    assert(boot.len() == 11);
    assert(boot.skip(0) =~= boot);
    assert(boot.skip(8) =~= start_steps());
    assert(reboot.skip(0) =~= reboot);
    assert(reboot.skip(2) =~= boot);
    skip_one_more(reboot, 0);
    skip_one_more(reboot, 1);
    skip_one_more(boot, 0);
    skip_one_more(boot, 1);
    skip_one_more(boot, 2);
    skip_one_more(boot, 3);
    skip_one_more(boot, 4);
    skip_one_more(boot, 5);
    skip_one_more(boot, 6);
    skip_one_more(boot, 7);
}

/// Erasing one sector is followed by a wait, and that by the next sector or the first page.
proof fn erase_next(k: usize, image: Seq<u8>, crc: u32)
    requires
        k <= last_erased(image.len()),
        (first_sector() + k) * FLASH_SECTOR_SIZE < FLASH_SIZE,
    ensures
        Stage::Ask(Task::Erase(k)).steps(image, crc) == Stage::Erase(k).steps(
            image,
            crc,
        ).drop_first(),
        Stage::Answer(Task::Erase(k)).next(image.len()).steps(image, crc) == Task::Erase(k).rest(
            image,
            crc,
        ),
        Stage::Answer(Task::Erase(k)).next(image.len()).inv(image.len()),
{
    reveal(Stage::steps);
    let program = program_steps(SLAVE_APPCODE_OFFSET as int, image, crc);
    let sector = erase_steps(first_sector() + k);
    let others = erases_from(image.len(), k + 1);
    assert(sector.drop_first() =~= ready_steps());
    assert(sector + others + program + start_steps() =~= sector + (others + program
        + start_steps()));
    drop_from_front(sector, others + program + start_steps());
    if k == last_erased(image.len()) {
        assert(others + program + start_steps() =~= program + start_steps());
    }
}

/// Programming one page is followed by a wait, reading it back, and the next page or the start of
/// the application.
proof fn page_next(k: usize, image: Seq<u8>, crc: u32)
    requires
        page_fits(image.len(), k as int),
    ensures
        Stage::Ask(Task::Page(k)).steps(image, crc) == Stage::Page(k).steps(
            image,
            crc,
        ).drop_first(),
        Stage::VerifyReply(k).next(image.len()).steps(image, crc) == Stage::VerifyReply(k).steps(
            image,
            crc,
        ).drop_first(),
        Stage::VerifyReply(k).next(image.len()).inv(image.len()),
{
    reveal(Stage::steps);
    page_data_fits(image, crc, k as int);
    let data = page_data(image, crc, k as int);
    let frame = seq![Step::Send(program_frame(page_offset(k as int) as u32, data))];
    let verify = verify_steps(page_offset(k as int) / (FLASH_PAGE_SIZE as int), data);
    let others = pages_from(SLAVE_APPCODE_OFFSET as int, image, crc, k + 1);
    assert(frame + ready_steps() + verify + others + start_steps() =~= frame + (ready_steps() + (
    verify + others + start_steps())));
    drop_from_front(frame, ready_steps() + (verify + others + start_steps()));
    assert(frame.drop_first() + (ready_steps() + (verify + others + start_steps()))
        =~= ready_steps() + (verify + others + start_steps()));
    assert((verify + others + start_steps()).skip(1).drop_first() =~= others + start_steps());
    if k == page_count(image.len()) {
        assert(others + start_steps() =~= start_steps());
    }
}

/// When the step under way has gone well, the steps behind it are left.
proof fn stage_next(stage: Stage, image: Seq<u8>, crc: u32)
    requires
        image_fits(image.len()),
        stage.inv(image.len()),
        stage !is Over,
        stage.head(image, crc) !is Fail,
    ensures
        stage.next(image.len()).inv(image.len()),
        stage.next(image.len()).steps(image, crc) == stage.steps(image, crc).drop_first(),
{
    let steps = stage.steps(image, crc);
    let next = stage.next(image.len());
    match stage {
        Stage::Erase(k) => {
            erase_next(k, image, crc);
        },
        Stage::Page(k) => {
            page_next(k, image, crc);
        },
        Stage::VerifyReply(k) => {
            page_next(k, image, crc);
        },
        Stage::Verify(k) => {
            reveal(Stage::steps);
            assert(next.steps(image, crc) =~= steps.drop_first());
        },
        Stage::Ask(task) => {
            reveal(Stage::steps);
            assert(next.steps(image, crc) =~= steps.drop_first());
        },
        Stage::Answer(task) => {
            assert(steps.drop_first() =~= task.rest(image, crc)) by {
                reveal(Stage::steps);
            }
            match task {
                Task::Alone => {
                    reveal(Stage::steps);
                },
                Task::Erase(k) => {
                    erase_next(k, image, crc);
                },
                Task::Page(k) => {
                    reveal(Stage::steps);
                },
            }
        },
        Stage::Start | Stage::Flush | Stage::FlushBriefly | Stage::Query | Stage::QueryReply
        | Stage::ReadRequest(..) | Stage::ReadReply(..) | Stage::RawWrite(..) | Stage::RawRead(
            ..,
        ) => {
            reveal(Stage::steps);
            assert(next.steps(image, crc) =~= steps.drop_first());
        },
        Stage::Failed(_) | Stage::Over => {},
        _ => {
            boot_next(stage, image, crc);
        },
    }
}

/// The longest time that a transfer, or a wait for the boot loader, may take, in milliseconds.
pub const TIMEOUT_MILLIS: u64 = 1000;

/// The master's side of the conversations with the second board's boot loader.
pub struct SlaveBootloader<'b> {
    image: &'b [u8],
    crc: u32,
    timeout: Duration,
    stage: Stage,
    wait_until: Instant,
    reply: Reply,
}

impl<'b> View for SlaveBootloader<'b> {
    type V = Conversation;

    closed spec fn view(&self) -> Conversation {
        Conversation {
            image: self.image@,
            crc: self.crc,
            timeout: self.timeout,
            steps: self.stage.steps(self.image@, self.crc),
            wait_until: self.wait_until,
            told: self.reply@,
        }
    }
}

/// Whether the offsets that booting a firmware of `len` bytes uses can be counted.
pub open spec fn image_fits(len: nat) -> bool {
    crc_offset(len) <= u32::MAX
}

impl<'b> SlaveBootloader<'b> {
    /// The state is one that the operations leave behind.
    pub closed spec fn inv(&self) -> bool {
        &&& image_fits(self.image@.len())
        &&& self.stage.inv(self.image@.len())
    }

    /// Talks to a board that is to run `image`, whose checksum is `crc`.
    pub fn with_crc(image: &'b [u8], crc: u32) -> (bootloader: Self)
        requires
            image_fits(image@.len()),
        ensures
            bootloader.inv(),
            bootloader@.image == image@,
            bootloader@.crc == crc,
            bootloader@.timeout.ticks == millis_as_ticks(TIMEOUT_MILLIS as int),
            bootloader@.timeout.ticks == 1_000_000,
            bootloader@.steps == Seq::<Step>::empty(),
            bootloader@.told == Told::Nothing,
    {
        proof {
            reveal(Stage::steps);
        }
        SlaveBootloader {
            image,
            crc,
            timeout: Duration::from_millis(TIMEOUT_MILLIS),
            stage: Stage::Over,
            wait_until: Instant { ticks: 0 },
            reply: Reply::Nothing,
        }
    }

    /// Talks to a board that is to run `image`.
    pub fn new(image: &'b [u8]) -> (bootloader: Self)
        requires
            image_fits(image@.len()),
        ensures
            bootloader.inv(),
            bootloader@.image == image@,
            bootloader@.crc == crc32c_of(image@),
            bootloader@.timeout.ticks == millis_as_ticks(TIMEOUT_MILLIS as int),
            bootloader@.timeout.ticks == 1_000_000,
            bootloader@.steps == Seq::<Step>::empty(),
            bootloader@.told == Told::Nothing,
    {
        Self::with_crc(image, crc32c(image))
    }

    /// How many pages the firmware takes up.
    fn page_count(&self) -> (count: usize)
        requires
            self.inv(),
        ensures
            count == page_count(self.image@.len()),
    {
        let len = self.image.len();
        if len % FLASH_PAGE_SIZE == 0 {
            len / FLASH_PAGE_SIZE
        } else {
            len / FLASH_PAGE_SIZE + 1
        }
    }

    /// What page `k` of the firmware holds.
    fn page_data(&self, k: usize) -> (data: Vec<u8>)
        requires
            self.inv(),
            k <= page_count(self.image@.len()),
        ensures
            data@ == page_data(self.image@, self.crc, k as int),
            data@.len() <= FLASH_PAGE_SIZE,
    {
        if k < self.page_count() {
            let len = self.image.len();
            let start: usize = FLASH_PAGE_SIZE * k;
            let end: usize = if len - start <= FLASH_PAGE_SIZE {
                len
            } else {
                start + FLASH_PAGE_SIZE
            };
            slice_to_vec(slice_subrange(self.image, start, end))
        } else {
            let mut data: Vec<u8> = Vec::new();
            push_le32(&mut data, self.crc);
            assert(data@ =~= le32(self.crc));
            data
        }
    }

    /// A copy of what is handed out at the end.
    fn reply(&self) -> (reply: Reply)
        ensures
            reply@ == self.reply@,
    {
        match &self.reply {
            Reply::Nothing => Reply::Nothing,
            Reply::Ready(ready) => Reply::Ready(*ready),
            Reply::Data(bytes) => Reply::Data(slice_to_vec(bytes.as_slice())),
        }
    }

    /// What the step under way asks for, at `now`.
    fn action(&self, now: Instant) -> (action: Action)
        requires
            self.inv(),
            now.can_add(self@.timeout),
        ensures
            action@ == self@.order(now),
    {
        proof {
            stage_head(self.stage, self.image@, self.crc);
        }
        let deadline = now.after(self.timeout);
        match &self.stage {
            Stage::Over => Action::Finish(Ok(self.reply())),
            Stage::PowerOff => {
                Action::SetPower(false)
            },
            Stage::PowerOffDelay => {
                Action::Sleep(100)
            },
            Stage::PowerOn => {
                Action::SetPower(true)
            },
            Stage::PowerOnDelay => {
                Action::Sleep(500)
            },
            Stage::Settle => {
                Action::Drain
            },
            Stage::SettleBriefly => {
                Action::DrainFor(100)
            },
            Stage::Activate => {
                Action::Write(build_bare_frame(BootloaderCommand::Activate), deadline)
            },
            Stage::ActivateReply => {
                Action::Read(4, deadline)
            },
            Stage::CrcRequest => {
                let offset: u32 = SLAVE_APPCODE_OFFSET + (FLASH_PAGE_SIZE * self.page_count())
                    as u32;
                Action::Write(build_read_frame(offset, 4), deadline)
            },
            Stage::CrcReply => {
                Action::Read(4, deadline)
            },
            Stage::Erase(k) => {
                let sector: usize = SLAVE_APPCODE_OFFSET as usize / FLASH_SECTOR_SIZE + *k;
                if sector >= FLASH_SIZE / FLASH_SECTOR_SIZE {
                    Action::Finish(Err(Error::InvalidOffset))
                } else {
                    Action::Write(build_erase_frame(sector as u16), deadline)
                }
            },
            Stage::Page(k) => {
                let offset: u32 = SLAVE_APPCODE_OFFSET + (FLASH_PAGE_SIZE * *k) as u32;
                let data = self.page_data(*k);
                if offset >= FLASH_SIZE as u32 {
                    Action::Finish(Err(Error::InvalidLength))
                } else {
                    Action::Write(build_program_frame(offset, data.as_slice()), deadline)
                }
            },
            Stage::Verify(k) => {
                let offset: u32 = SLAVE_APPCODE_OFFSET + (FLASH_PAGE_SIZE * *k) as u32;
                Action::Write(build_read_frame(offset, FLASH_PAGE_SIZE as u16), deadline)
            },
            Stage::VerifyReply(k) => {
                Action::Read(FLASH_PAGE_SIZE, deadline)
            },
            Stage::Ask(_) => {
                Action::Write(build_bare_frame(BootloaderCommand::ReadyBusy), self.wait_until)
            },
            Stage::Answer(_) => {
                Action::Read(1, self.wait_until)
            },
            Stage::Start => {
                Action::Write(build_bare_frame(BootloaderCommand::GotoAppcode), deadline)
            },
            Stage::Flush => {
                Action::Drain
            },
            Stage::FlushBriefly => {
                Action::DrainFor(100)
            },
            Stage::Query => {
                Action::Write(build_bare_frame(BootloaderCommand::ReadyBusy), deadline)
            },
            Stage::QueryReply => {
                Action::Read(1, deadline)
            },
            Stage::ReadRequest(offset, len) => {
                if *len == 0 || *len > MAX_READ {
                    Action::Finish(Err(Error::InvalidLength))
                } else {
                    Action::Write(build_read_frame(*offset, *len as u16), deadline)
                }
            },
            Stage::ReadReply(len) => Action::Read(*len, deadline),
            Stage::RawWrite(bytes) => Action::Write(slice_to_vec(bytes.as_slice()), deadline),
            Stage::RawRead(len) => Action::Read(*len, deadline),
            Stage::Failed(error) => Action::Finish(Err(*error)),
        }
    }

    /// The stage that follows when the step under way has gone well.
    fn next_stage(&self) -> (next: Stage)
        requires
            self.inv(),
            self.stage !is Over,
            self.stage.head(self.image@, self.crc) !is Fail,
        ensures
            next == self.stage.next(self.image@.len()),
    {
        match &self.stage {
            Stage::PowerOff => Stage::PowerOffDelay,
            Stage::PowerOffDelay => Stage::PowerOn,
            Stage::PowerOn => Stage::PowerOnDelay,
            Stage::PowerOnDelay => Stage::Settle,
            Stage::Settle => Stage::SettleBriefly,
            Stage::SettleBriefly => Stage::Activate,
            Stage::Activate => Stage::ActivateReply,
            Stage::ActivateReply => Stage::CrcRequest,
            Stage::CrcRequest => Stage::CrcReply,
            Stage::CrcReply => Stage::Start,
            Stage::Erase(k) => Stage::Ask(Task::Erase(*k)),
            Stage::Page(k) => Stage::Ask(Task::Page(*k)),
            Stage::Verify(k) => Stage::VerifyReply(*k),
            Stage::VerifyReply(k) => {
                if *k < self.page_count() {
                    Stage::Page(*k + 1)
                } else {
                    Stage::Start
                }
            },
            Stage::Ask(task) => Stage::Answer(*task),
            Stage::Answer(Task::Alone) => Stage::Over,
            Stage::Answer(Task::Erase(k)) => {
                if *k < self.image.len() / FLASH_SECTOR_SIZE {
                    Stage::Erase(*k + 1)
                } else {
                    Stage::Page(0)
                }
            },
            Stage::Answer(Task::Page(k)) => Stage::Verify(*k),
            Stage::Start => Stage::Flush,
            Stage::Flush => Stage::FlushBriefly,
            Stage::Query => Stage::QueryReply,
            Stage::ReadRequest(_, len) => Stage::ReadReply(*len),
            _ => Stage::Over,
        }
    }

    /// Begins a conversation with the steps of `stage`.
    fn begin(&mut self, now: Instant, stage: Stage) -> (action: Action)
        requires
            old(self).inv(),
            stage.inv(old(self).image@.len()),
            now.can_add(old(self)@.timeout),
        ensures
            final(self).inv(),
            final(self)@ == old(self)@.begun(now, stage.steps(old(self)@.image, old(self)@.crc)),
            action@ == final(self)@.order(now),
    {
        proof {
            stage_head(stage, self.image@, self.crc);
        }
        if let Stage::Ask(_) = &stage {
            self.wait_until = now.after(self.timeout);
        }
        self.stage = stage;
        self.reply = Reply::Nothing;
        self.action(now)
    }

    /// Boots the second board, unless it is `powered` already.
    pub fn boot_slave(&mut self, now: Instant, powered: bool) -> (action: Action)
        requires
            old(self).inv(),
            now.can_add(old(self)@.timeout),
        ensures
            final(self).inv(),
            final(self)@ == old(self)@.begun(now, if powered {
                seq![]
            } else {
                boot_steps(old(self)@.image)
            }),
            action@ == final(self)@.order(now),
    {
        proof {
            reveal(Stage::steps);
        }
        if powered {
            self.begin(now, Stage::Over)
        } else {
            self.begin(now, Stage::PowerOn)
        }
    }

    /// Switches the second board off and boots it again.
    pub fn reboot_slave(&mut self, now: Instant) -> (action: Action)
        requires
            old(self).inv(),
            now.can_add(old(self)@.timeout),
        ensures
            final(self).inv(),
            final(self)@ == old(self)@.begun(now, reboot_steps(old(self)@.image)),
            action@ == final(self)@.order(now),
    {
        proof {
            reveal(Stage::steps);
        }
        self.begin(now, Stage::PowerOff)
    }

    /// Reads `n` bytes.
    pub fn try_read(&mut self, now: Instant, n: usize) -> (action: Action)
        requires
            old(self).inv(),
            now.can_add(old(self)@.timeout),
            n <= FLASH_PAGE_SIZE,
        ensures
            final(self).inv(),
            final(self)@ == old(self)@.begun(now, seq![Step::Receive(n as nat, Check::HandOut)]),
            action@ == final(self)@.order(now),
    {
        proof {
            reveal(Stage::steps);
        }
        self.begin(now, Stage::RawRead(n))
    }

    /// Writes `buf`.
    pub fn try_write(&mut self, now: Instant, buf: &[u8]) -> (action: Action)
        requires
            old(self).inv(),
            now.can_add(old(self)@.timeout),
        ensures
            final(self).inv(),
            final(self)@ == old(self)@.begun(now, seq![Step::Send(buf@)]),
            action@ == final(self)@.order(now),
    {
        proof {
            reveal(Stage::steps);
        }
        self.begin(now, Stage::RawWrite(slice_to_vec(buf)))
    }

    /// Asks whether the boot loader is ready for the next command.
    pub fn is_ready(&mut self, now: Instant) -> (action: Action)
        requires
            old(self).inv(),
            now.can_add(old(self)@.timeout),
        ensures
            final(self).inv(),
            final(self)@ == old(self)@.begun(now, query_steps()),
            action@ == final(self)@.order(now),
    {
        proof {
            reveal(Stage::steps);
        }
        self.begin(now, Stage::Query)
    }

    /// Waits for the boot loader to be ready for the next command.
    pub fn wait_ready(&mut self, now: Instant) -> (action: Action)
        requires
            old(self).inv(),
            now.can_add(old(self)@.timeout),
        ensures
            final(self).inv(),
            final(self)@ == old(self)@.begun(now, ready_steps()),
            action@ == final(self)@.order(now),
    {
        proof {
            reveal(Stage::steps);
            assert(ready_steps() + Task::Alone.rest(self.image@, self.crc) =~= ready_steps());
        }
        self.begin(now, Stage::Ask(Task::Alone))
    }

    /// Reads `len` bytes of flash from `offset` on.
    pub fn read(&mut self, now: Instant, offset: u32, len: usize) -> (action: Action)
        requires
            old(self).inv(),
            now.can_add(old(self)@.timeout),
        ensures
            final(self).inv(),
            final(self)@ == old(self)@.begun(now, read_steps(offset, len as nat, Check::HandOut)),
            action@ == final(self)@.order(now),
    {
        proof {
            reveal(Stage::steps);
        }
        self.begin(now, Stage::ReadRequest(offset, len))
    }

    /// Whether `event` can come of the action under way.
    pub fn expects(&self, event: &Event) -> (yes: bool)
        requires
            self.inv(),
        ensures
            yes == self@.expects(event@),
    {
        proof {
            stage_head(self.stage, self.image@, self.crc);
        }
        match self.action(Instant { ticks: 0 }) {
            Action::SetPower(_) | Action::Sleep(_) | Action::Drain | Action::DrainFor(_) => {
                match event {
                    Event::Done => true,
                    _ => false,
                }
            },
            Action::Write(_, _) => match event {
                Event::Received(_) => false,
                _ => true,
            },
            Action::Read(len, _) => match event {
                Event::Done => false,
                Event::Received(bytes) => bytes.len() == len,
                _ => true,
            },
            Action::Finish(_) => false,
        }
    }

    /// The stage that follows when `bytes` have come in as the step under way had to receive them;
    /// notes what is to be handed out.
    fn stage_after_bytes(&mut self, bytes: Vec<u8>) -> (next: Stage)
        requires
            old(self).inv(),
            old(self)@.expects(Seen::Received(bytes@)),
        ensures
            final(self).image == old(self).image,
            final(self).crc == old(self).crc,
            final(self).timeout == old(self).timeout,
            final(self).stage == old(self).stage,
            final(self).wait_until == old(self).wait_until,
            final(self).reply@ == old(self)@.told_after(Seen::Received(bytes@)),
            next.inv(old(self).image@.len()),
            next.steps(old(self).image@, old(self).crc) == old(self)@.steps_after_bytes(bytes@),
    {
        let ghost image = self.image@;
        let ghost crc = self.crc;
        proof {
            stage_head(self.stage, image, crc);
            stage_next(self.stage, image, crc);
        }
        match &self.stage {
            Stage::ActivateReply => {
                if is_activation_reply(bytes.as_slice()) {
                    self.next_stage()
                } else {
                    proof {
                        reveal(Stage::steps);
                    }
                    Stage::Failed(Error::Activation)
                }
            },
            Stage::CrcReply => {
                if read_le32(bytes.as_slice()) == self.crc {
                    self.next_stage()
                } else {
                    proof {
                        reveal(Stage::steps);
                    }
                    Stage::Erase(0)
                }
            },
            Stage::VerifyReply(k) => {
                let data = self.page_data(*k);
                if starts_with(bytes.as_slice(), data.as_slice()) {
                    self.next_stage()
                } else {
                    proof {
                        reveal(Stage::steps);
                    }
                    Stage::Failed(Error::Verification)
                }
            },
            Stage::Answer(task) => {
                if bytes[0] != 0 {
                    self.next_stage()
                } else {
                    let again = *task;
                    proof {
                        reveal(Stage::steps);
                        assert(self.stage.steps(image, crc).drop_first() =~= again.rest(
                            image,
                            crc,
                        ));
                    }
                    Stage::Ask(again)
                }
            },
            Stage::QueryReply => {
                let next = self.next_stage();
                self.reply = Reply::Ready(bytes[0] != 0);
                next
            },
            Stage::ReadReply(_) | Stage::RawRead(_) => {
                let next = self.next_stage();
                self.reply = Reply::Data(bytes);
                next
            },
            _ => Stage::Over,
        }
    }

    /// Moves the conversation on by what came, at `now`, of the action under way, and returns the
    /// next one.
    pub fn step(&mut self, now: Instant, event: Event) -> (action: Action)
        requires
            old(self).inv(),
            old(self)@.expects(event@),
            now.can_add(old(self)@.timeout),
        ensures
            final(self).inv(),
            final(self)@ == old(self)@.advance(now, event@),
            action@ == final(self)@.order(now),
    {
        proof {
            stage_head(self.stage, self.image@, self.crc);
            stage_next(self.stage, self.image@, self.crc);
        }
        let waiting = match &self.stage {
            Stage::Answer(_) => true,
            _ => false,
        };
        let next = match event {
            Event::Done => self.next_stage(),
            Event::TimedOut => Stage::Failed(Error::Timeout),
            Event::Failed => Stage::Failed(Error::UnexpectedEof),
            Event::Received(bytes) => self.stage_after_bytes(bytes),
        };
        proof {
            stage_head(next, self.image@, self.crc);
            assert(next is Failed ==> next.steps(self.image@, self.crc) =~= seq![
                Step::Fail(next->Failed_0),
            ]) by {
                reveal(Stage::steps);
            }
        }
        if let Stage::Ask(_) = &next {
            if !waiting {
                self.wait_until = now.after(self.timeout);
            }
        }
        self.stage = next;
        self.action(now)
    }
}

} // verus!
