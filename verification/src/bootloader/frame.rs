//! The frames that the boot loader of the second board understands.
use crate::bytes::{le16, le32, push_all, push_le16, push_le32};
use vstd::prelude::*;

verus! {

/// The size of the second board's flash, in bytes.
pub const FLASH_SIZE: usize = 4096 * 1024;

/// The unit in which flash is programmed, in bytes.
pub const FLASH_PAGE_SIZE: usize = 256;

/// The unit in which flash is erased, in bytes.
pub const FLASH_SECTOR_SIZE: usize = 4096;

/// Where in flash the application starts.
pub const SLAVE_APPCODE_OFFSET: u32 = 32 * 1024;

/// The longest run of bytes that one read may ask for.
pub const MAX_READ: usize = 4096;

/// What went wrong on the serial line, as its driver reports it.
#[derive(Debug, Copy, Clone, PartialEq, Eq, Structural)]
pub enum UartError {
    Overrun,
    Break,
    Parity,
    Framing,
}

/// Why talking to the boot loader failed.
#[derive(Debug, Copy, Clone, PartialEq, Eq, Structural)]
pub enum Error {
    UartError(UartError),
    InvalidLength,
    InvalidData,
    Timeout,
    InvalidOffset,
    Verification,
    Uf2Error,
    Activation,
    UnexpectedEof,
}

impl From<UartError> for Error {
    fn from(err: UartError) -> (res: Error) {
        Error::UartError(err)
    }
}

impl vstd::std_specs::convert::FromSpecImpl<UartError> for Error {
    open spec fn obeys_from_spec() -> bool {
        true
    }

    open spec fn from_spec(err: UartError) -> Error {
        Error::UartError(err)
    }
}

/// The commands of the boot loader.
#[derive(Debug, Copy, Clone, PartialEq, Eq, Structural)]
pub enum BootloaderCommand {
    ReadyBusy,
    Version,
    Read,
    Program,
    Erase,
    GotoAppcode,
    FlashSize,
    Activate,
}

impl BootloaderCommand {
    /// The byte that a frame with this command starts with.
    pub open spec fn spec_code(self) -> u8 {
        match self {
            BootloaderCommand::ReadyBusy => 0x01,
            BootloaderCommand::Version => 0x02,
            BootloaderCommand::Read => 0x10,
            BootloaderCommand::Program => 0x20,
            BootloaderCommand::Erase => 0x30,
            BootloaderCommand::GotoAppcode => 0x40,
            BootloaderCommand::FlashSize => 0x50,
            BootloaderCommand::Activate => 0xA5,
        }
    }

    /// The byte that a frame with this command starts with.
    pub fn code(self) -> (byte: u8)
        ensures
            byte == self.spec_code(),
    {
        match self {
            BootloaderCommand::ReadyBusy => 0x01,
            BootloaderCommand::Version => 0x02,
            BootloaderCommand::Read => 0x10,
            BootloaderCommand::Program => 0x20,
            BootloaderCommand::Erase => 0x30,
            BootloaderCommand::GotoAppcode => 0x40,
            BootloaderCommand::FlashSize => 0x50,
            BootloaderCommand::Activate => 0xA5,
        }
    }
}

/// No two commands share a byte.
pub proof fn command_codes_differ(a: BootloaderCommand, b: BootloaderCommand)
    ensures
        a.spec_code() == b.spec_code() ==> a == b,
{
}

/// The frame of a command without operands.
pub open spec fn bare_frame(command: BootloaderCommand) -> Seq<u8> {
    seq![command.spec_code()]
}

/// The frame that asks for `len` bytes of flash from `offset` on.
pub open spec fn read_frame(offset: u32, len: u16) -> Seq<u8> {
    bare_frame(BootloaderCommand::Read) + le32(offset) + le16(len)
}

/// The frame that erases sector `sector`.
pub open spec fn erase_frame(sector: u16) -> Seq<u8> {
    bare_frame(BootloaderCommand::Erase) + le16(sector)
}

/// `data`, filled up to a page with the value that erased flash reads as.
pub open spec fn padded_page(data: Seq<u8>) -> Seq<u8> {
    data + Seq::new((FLASH_PAGE_SIZE - data.len()) as nat, |i: int| 0xFFu8)
}

/// The frame that programs the page at `offset` with `data`, filled up to a page.
pub open spec fn program_frame(offset: u32, data: Seq<u8>) -> Seq<u8> {
    bare_frame(BootloaderCommand::Program) + le32(offset) + le16(FLASH_PAGE_SIZE as u16)
        + padded_page(data)
}

/// What an activated boot loader answers: `pbt3`.
pub open spec fn activation_reply() -> Seq<u8> {
    seq![0x70u8, 0x62u8, 0x74u8, 0x33u8]
}

/// A frame of a command without operands.
pub fn build_bare_frame(command: BootloaderCommand) -> (frame: Vec<u8>)
    ensures
        frame@ == bare_frame(command),
        frame@.len() == 1,
{
    let mut frame: Vec<u8> = Vec::new();
    frame.push(command.code());
    assert(frame@ =~= bare_frame(command));
    frame
}

/// A frame that asks for `len` bytes of flash from `offset` on.
pub fn build_read_frame(offset: u32, len: u16) -> (frame: Vec<u8>)
    ensures
        frame@ == read_frame(offset, len),
        frame@.len() == 7,
        frame@[0] == 0x10,
        frame@[1] + 0x100 * frame@[2] + 0x1_0000 * frame@[3] + 0x100_0000 * frame@[4] == offset,
        frame@[5] + 0x100 * frame@[6] == len,
{
    let mut frame = build_bare_frame(BootloaderCommand::Read);
    push_le32(&mut frame, offset);
    push_le16(&mut frame, len);
    frame
}

/// A frame that erases sector `sector`.
pub fn build_erase_frame(sector: u16) -> (frame: Vec<u8>)
    ensures
        frame@ == erase_frame(sector),
        frame@.len() == 3,
        frame@[0] == 0x30,
        frame@[1] + 0x100 * frame@[2] == sector,
{
    let mut frame = build_bare_frame(BootloaderCommand::Erase);
    push_le16(&mut frame, sector);
    frame
}

/// A frame that programs the page at `offset` with `data`, filled up to a page.
pub fn build_program_frame(offset: u32, data: &[u8]) -> (frame: Vec<u8>)
    requires
        data@.len() <= FLASH_PAGE_SIZE,
    ensures
        frame@ == program_frame(offset, data@),
        frame@.len() == FLASH_PAGE_SIZE + 7,
        frame@.len() == 263,
        frame@[0] == 0x20,
        frame@[1] + 0x100 * frame@[2] + 0x1_0000 * frame@[3] + 0x100_0000 * frame@[4] == offset,
        frame@[5] == 0 && frame@[6] == 1,
        forall|b: int|
            0 <= b < 256 ==> #[trigger] frame@[7 + b] == if b < data@.len() {
                data@[b]
            } else {
                0xFF
            },
{
    let mut frame = build_bare_frame(BootloaderCommand::Program);
    push_le32(&mut frame, offset);
    push_le16(&mut frame, FLASH_PAGE_SIZE as u16);
    push_all(&mut frame, data);
    let ghost unpadded = frame@;
    let mut i: usize = data.len();
    while i < FLASH_PAGE_SIZE
        invariant
            data@.len() <= i <= FLASH_PAGE_SIZE,
            frame@ == unpadded + Seq::new((i - data@.len()) as nat, |j: int| 0xFFu8),
        decreases FLASH_PAGE_SIZE - i,
    {
        frame.push(0xFF);
        assert(frame@ =~= unpadded + Seq::new((i + 1 - data@.len()) as nat, |j: int| 0xFFu8));
        i += 1;
    }
    assert(frame@ =~= program_frame(offset, data@));
    frame
}

/// Whether `reply` is what an activated boot loader answers.
pub fn is_activation_reply(reply: &[u8]) -> (yes: bool)
    ensures
        yes == (reply@ == activation_reply()),
        yes <==> reply@ == seq![0x70u8, 0x62u8, 0x74u8, 0x33u8],
{
    let yes = reply.len() == 4 && reply[0] == 0x70 && reply[1] == 0x62 && reply[2] == 0x74
        && reply[3] == 0x33;
    assert(yes ==> reply@ =~= activation_reply());
    yes
}

/// The commands have these bytes.
pub proof fn commands_have_these_codes()
    ensures
        BootloaderCommand::ReadyBusy.spec_code() == 0x01,
        BootloaderCommand::Version.spec_code() == 0x02,
        BootloaderCommand::Read.spec_code() == 0x10,
        BootloaderCommand::Program.spec_code() == 0x20,
        BootloaderCommand::Erase.spec_code() == 0x30,
        BootloaderCommand::GotoAppcode.spec_code() == 0x40,
        BootloaderCommand::FlashSize.spec_code() == 0x50,
        BootloaderCommand::Activate.spec_code() == 0xA5,
{
}

/// A frame without operands is its command's byte alone.
pub proof fn bare_frame_is_one_byte(command: BootloaderCommand)
    ensures
        bare_frame(command).len() == 1,
        bare_frame(command)[0] == command.spec_code(),
{
}

/// A read frame is seven bytes: the command, the offset and the length, lowest byte first.
pub proof fn read_frame_is_laid_out_so(offset: u32, len: u16)
    ensures
        ({
            let frame = read_frame(offset, len);
            &&& frame.len() == 7
            &&& frame[0] == 0x10
            &&& frame[1] + 0x100 * frame[2] + 0x1_0000 * frame[3] + 0x100_0000 * frame[4] == offset
            &&& frame[5] + 0x100 * frame[6] == len
        }),
{
}

/// An erase frame is three bytes: the command and the sector, lowest byte first.
pub proof fn erase_frame_is_laid_out_so(sector: u16)
    ensures
        ({
            let frame = erase_frame(sector);
            &&& frame.len() == 3
            &&& frame[0] == 0x30
            &&& frame[1] + 0x100 * frame[2] == sector
        }),
{
}

/// A program frame is the command, the offset, the length of a page, and a page: the data, and ones
/// behind it, which leave erased flash as it is.
pub proof fn program_frame_is_laid_out_so(offset: u32, data: Seq<u8>)
    requires
        data.len() <= 256,
    ensures
        ({
            let frame = program_frame(offset, data);
            &&& frame.len() == 263
            &&& frame[0] == 0x20
            &&& frame[1] + 0x100 * frame[2] + 0x1_0000 * frame[3] + 0x100_0000 * frame[4] == offset
            &&& frame[5] == 0
            &&& frame[6] == 1
            &&& forall|b: int|
                0 <= b < 256 ==> #[trigger] frame[7 + b] == if b < data.len() {
                    data[b]
                } else {
                    0xFFu8
                }
        }),
{
}

/// An activated boot loader greets with `pbt3`.
pub proof fn greeting_is_pbt3()
    ensures
        activation_reply() == seq![0x70u8, 0x62u8, 0x74u8, 0x33u8],
{
}

/// The second board has 4 MiB of flash, in sectors of 4 KiB and pages of 256 bytes, and the
/// application starts behind the first 32 KiB.
pub proof fn flash_is_laid_out_so()
    ensures
        FLASH_SIZE == 0x40_0000,
        FLASH_SECTOR_SIZE == 0x1000,
        FLASH_PAGE_SIZE == 0x100,
        SLAVE_APPCODE_OFFSET == 0x8000,
        MAX_READ == 0x1000,
{
}

/// An error of the serial line is kept as it is.
pub proof fn serial_error_is_kept(err: UartError)
    ensures
        <Error as vstd::std_specs::convert::FromSpec<UartError>>::from_spec(err) == Error::UartError(
            err,
        ),
{
}

} // verus!
