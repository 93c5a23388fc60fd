use vesper::bootloader::{
    Action, BootloaderCommand, Error, Event, Reply, SlaveBootloader, UartError, FLASH_PAGE_SIZE,
    FLASH_SECTOR_SIZE, FLASH_SIZE, SLAVE_APPCODE_OFFSET,
};
use vesper::time::Instant;

const START: usize = SLAVE_APPCODE_OFFSET as usize;

fn at(ticks: u64) -> Instant {
    Instant { ticks }
}

/// A second board: its power, its flash, and how often it claims to be busy after a command.
struct Board {
    powered: bool,
    flash: Vec<u8>,
    busy_polls: usize,
    busy: usize,
    frames: Vec<Vec<u8>>,
    pending: Vec<u8>,
    corrupt_reads: bool,
    started: bool,
}

impl Board {
    fn new(fill: u8) -> Board {
        Board {
            powered: false,
            flash: vec![fill; FLASH_SIZE],
            busy_polls: 0,
            busy: 0,
            frames: Vec::new(),
            pending: Vec::new(),
            corrupt_reads: false,
            started: false,
        }
    }

    fn take_frame(&mut self, frame: &[u8]) {
        match frame[0] {
            0xA5 => self.pending = b"pbt3".to_vec(),
            0x01 => {
                self.pending = vec![if self.busy == 0 { 1 } else { 0 }];
                self.busy = self.busy.saturating_sub(1);
                return;
            }
            0x10 => {
                let offset = u32::from_le_bytes([frame[1], frame[2], frame[3], frame[4]]) as usize;
                let len = u16::from_le_bytes([frame[5], frame[6]]) as usize;
                let mut data: Vec<u8> = Vec::new();
                for i in 0..len {
                    data.push(if offset + i < FLASH_SIZE { self.flash[offset + i] } else { 0xFF });
                }
                if self.corrupt_reads && len == FLASH_PAGE_SIZE {
                    data[0] ^= 1;
                }
                self.pending = data;
            }
            0x20 => {
                assert_eq!(frame.len(), FLASH_PAGE_SIZE + 7);
                let offset = u32::from_le_bytes([frame[1], frame[2], frame[3], frame[4]]) as usize;
                assert_eq!(u16::from_le_bytes([frame[5], frame[6]]) as usize, FLASH_PAGE_SIZE);
                for i in 0..FLASH_PAGE_SIZE {
                    self.flash[offset + i] &= frame[7 + i];
                }
                self.busy = self.busy_polls;
            }
            0x30 => {
                assert_eq!(frame.len(), 3);
                let sector = u16::from_le_bytes([frame[1], frame[2]]) as usize;
                for i in 0..FLASH_SECTOR_SIZE {
                    self.flash[sector * FLASH_SECTOR_SIZE + i] = 0xFF;
                }
                self.busy = self.busy_polls;
            }
            0x40 => self.started = true,
            other => panic!("unknown command {}", other),
        }
        self.frames.push(frame.to_vec());
    }
}

/// Carries out `action` and all that follow, one tick apart, and returns the result.
fn converse(
    bootloader: &mut SlaveBootloader,
    board: &mut Board,
    first: Action,
) -> Result<Reply, Error> {
    let mut action = first;
    let mut now: u64 = 0;
    loop {
        now += 1;
        let event = match action {
            Action::SetPower(on) => {
                board.powered = on;
                Event::Done
            }
            Action::Sleep(_) | Action::Drain | Action::DrainFor(_) => Event::Done,
            Action::Write(bytes, _) => {
                assert!(board.powered);
                board.take_frame(&bytes);
                Event::Done
            }
            Action::Read(len, _) => {
                assert_eq!(board.pending.len(), len);
                Event::Received(board.pending.clone())
            }
            Action::Finish(result) => return result,
        };
        assert!(bootloader.expects(&event));
        action = bootloader.step(at(now), event);
    }
}

fn image(len: usize) -> Vec<u8> {
    (0..len).map(|i| (i * 7 + i / 256) as u8).collect()
}

fn boot(image: &[u8], board: &mut Board) -> Result<Reply, Error> {
    let mut bootloader = SlaveBootloader::new(image);
    let first = bootloader.boot_slave(at(0), board.powered);
    converse(&mut bootloader, board, first)
}

fn kinds(board: &Board) -> Vec<u8> {
    board.frames.iter().map(|frame| frame[0]).collect()
}

#[test]
fn commands_have_their_codes() {
    assert_eq!(BootloaderCommand::ReadyBusy.code(), 0x01);
    assert_eq!(BootloaderCommand::Version.code(), 0x02);
    assert_eq!(BootloaderCommand::Read.code(), 0x10);
    assert_eq!(BootloaderCommand::Program.code(), 0x20);
    assert_eq!(BootloaderCommand::Erase.code(), 0x30);
    assert_eq!(BootloaderCommand::GotoAppcode.code(), 0x40);
    assert_eq!(BootloaderCommand::FlashSize.code(), 0x50);
    assert_eq!(BootloaderCommand::Activate.code(), 0xA5);
}

#[test]
fn serial_errors_become_boot_errors() {
    assert_eq!(Error::from(UartError::Framing), Error::UartError(UartError::Framing));
}

#[test]
fn powered_board_is_left_alone() {
    let image = image(1000);
    let mut bootloader = SlaveBootloader::new(&image);
    assert_eq!(bootloader.boot_slave(at(5), true), Action::Finish(Ok(Reply::Nothing)));
}

#[test]
fn boot_goes_step_by_step() {
    let image = image(300);
    let mut bl = SlaveBootloader::with_crc(&image, 0x0403_0201);
    assert_eq!(bl.boot_slave(at(0), false), Action::SetPower(true));
    assert_eq!(bl.step(at(1), Event::Done), Action::Sleep(500));
    assert_eq!(bl.step(at(2), Event::Done), Action::Drain);
    assert_eq!(bl.step(at(3), Event::Done), Action::DrainFor(100));
    assert_eq!(bl.step(at(4), Event::Done), Action::Write(vec![0xA5], at(1_000_004)));
    assert_eq!(bl.step(at(5), Event::Done), Action::Read(4, at(1_000_005)));
    // Two pages of firmware from 0x8000 on: the checksum stands at 0x8200.
    assert_eq!(
        bl.step(at(6), Event::Received(b"pbt3".to_vec())),
        Action::Write(vec![0x10, 0x00, 0x82, 0x00, 0x00, 4, 0], at(1_000_006))
    );
    assert_eq!(bl.step(at(7), Event::Done), Action::Read(4, at(1_000_007)));
    assert_eq!(
        bl.step(at(8), Event::Received(vec![1, 2, 3, 4])),
        Action::Write(vec![0x40], at(1_000_008))
    );
    assert_eq!(bl.step(at(9), Event::Done), Action::Drain);
    assert_eq!(bl.step(at(10), Event::Done), Action::DrainFor(100));
    assert_eq!(bl.step(at(11), Event::Done), Action::Finish(Ok(Reply::Nothing)));
}

#[test]
fn checksum_is_crc32c() {
    let mut board = Board::new(0);
    assert_eq!(boot(b"123456789", &mut board), Ok(Reply::Nothing));
    assert_eq!(board.flash[START + 256..START + 260], [0x83, 0x92, 0x06, 0xE3]);
}

#[test]
fn checksum_is_the_remainder_of_the_bits() {
    let image = image(1000);
    let mut value: u32 = 0xFFFF_FFFF;
    for byte in &image {
        value ^= *byte as u32;
        for _ in 0..8 {
            value = if value & 1 == 1 { (value >> 1) ^ 0x82F6_3B78 } else { value >> 1 };
        }
    }
    let mut board = Board::new(0);
    assert_eq!(boot(&image, &mut board), Ok(Reply::Nothing));
    assert_eq!(board.flash[START + 1024..START + 1028], (!value).to_le_bytes());
}

#[test]
fn new_firmware_is_programmed() {
    let image = image(10_000);
    let mut board = Board::new(0);
    board.busy_polls = 3;
    assert_eq!(boot(&image, &mut board), Ok(Reply::Nothing));
    assert!(board.started);
    assert_eq!(&board.flash[START..START + image.len()], &image[..]);
    // The rest of the last page is left erased.
    assert_eq!(board.flash[START + 10_000], 0xFF);
    assert_eq!(board.flash[START + 40 * 256 - 1], 0xFF);

    // Activation and checksum, three sectors, forty pages and the checksum, each page read back.
    let mut expected: Vec<u8> = vec![0xA5, 0x10, 0x30, 0x30, 0x30];
    for _ in 0..41 {
        expected.push(0x20);
        expected.push(0x10);
    }
    expected.push(0x40);
    assert_eq!(kinds(&board), expected);
    assert_eq!(board.frames[2], vec![0x30, 8, 0]);
    assert_eq!(board.frames[4], vec![0x30, 10, 0]);
    assert_eq!(board.frames[5][..7], [0x20, 0x00, 0x80, 0x00, 0x00, 0x00, 0x01]);
    assert_eq!(board.frames[6], vec![0x10, 0x00, 0x80, 0x00, 0x00, 0x00, 0x01]);
}

#[test]
fn programmed_board_is_not_programmed_again() {
    let image = image(5000);
    let mut board = Board::new(0x55);
    assert_eq!(boot(&image, &mut board), Ok(Reply::Nothing));
    board.powered = false;
    board.frames.clear();
    assert_eq!(boot(&image, &mut board), Ok(Reply::Nothing));
    assert_eq!(kinds(&board), vec![0xA5, 0x10, 0x40]);
}

#[test]
fn checksum_behind_the_last_erased_sector_needs_erased_flash() {
    // The firmware ends in the last page of a sector, so its checksum is in the next one.
    let image = image(4000);
    let mut board = Board::new(0);
    assert_eq!(boot(&image, &mut board), Err(Error::Verification));
    let mut board = Board::new(0xFF);
    assert_eq!(boot(&image, &mut board), Ok(Reply::Nothing));
    assert_eq!(board.frames[2], vec![0x30, 8, 0]);
    assert_eq!(board.frames[3][0], 0x20);
}

#[test]
fn well_booted_board_is_never_programmed_again() {
    // Whether the page of the checksum is erased or not.
    for len in [0, 100, 3840, 3841, 4000, 4096] {
        let image = image(len);
        let mut board = Board::new(0xFF);
        assert_eq!(boot(&image, &mut board), Ok(Reply::Nothing));
        board.powered = false;
        board.frames.clear();
        assert_eq!(boot(&image, &mut board), Ok(Reply::Nothing));
        assert_eq!(kinds(&board), vec![0xA5, 0x10, 0x40]);
    }
}

#[test]
fn second_boot_that_breaks_off_programs_nothing() {
    let image = image(5000);
    let mut board = Board::new(0x55);
    assert_eq!(boot(&image, &mut board), Ok(Reply::Nothing));
    let flash = board.flash.clone();
    // A reboot has thirteen steps; break off after each of them.
    for steps in 0..=13 {
        board.frames.clear();
        let mut bl = SlaveBootloader::new(&image);
        let mut action = bl.reboot_slave(at(0));
        for _ in 0..steps {
            let event = match action {
                Action::Write(bytes, _) => {
                    board.take_frame(&bytes);
                    Event::Done
                }
                Action::Read(_, _) => Event::Received(board.pending.clone()),
                _ => Event::Done,
            };
            action = bl.step(at(1), event);
        }
        assert!(kinds(&board).iter().all(|kind| *kind != 0x20 && *kind != 0x30));
        assert_eq!(action == Action::Finish(Ok(Reply::Nothing)), steps == 13);
    }
    assert!(board.flash == flash);
}

#[test]
fn boot_spares_the_boot_loader() {
    let mut board = Board::new(0x55);
    assert_eq!(boot(&image(5000), &mut board), Ok(Reply::Nothing));
    assert_eq!(board.flash[..START], vec![0x55; START][..]);
    let mut board = Board::new(0x55);
    board.corrupt_reads = true;
    assert_eq!(boot(&image(5000), &mut board), Err(Error::Verification));
    assert_eq!(board.flash[..START], vec![0x55; START][..]);
}

#[test]
fn failed_boot_leaves_the_power_on() {
    let image = image(300);
    let mut board = Board::new(0x55);
    board.corrupt_reads = true;
    assert_eq!(boot(&image, &mut board), Err(Error::Verification));
    assert!(board.powered);
    board.frames.clear();
    board.corrupt_reads = false;
    assert_eq!(boot(&image, &mut board), Ok(Reply::Nothing));
    assert!(board.frames.is_empty());
    let mut bl = SlaveBootloader::new(&image);
    let first = bl.reboot_slave(at(0));
    assert_eq!(converse(&mut bl, &mut board, first), Ok(Reply::Nothing));
    assert!(board.started);
}

#[test]
fn whole_pages_and_empty_firmware_are_programmed() {
    for len in [0, 256, 512] {
        let image = image(len);
        let mut board = Board::new(0x55);
        assert_eq!(boot(&image, &mut board), Ok(Reply::Nothing));
        assert_eq!(&board.flash[START..START + len], &image[..]);
        let programs = kinds(&board).iter().filter(|kind| **kind == 0x20).count();
        assert_eq!(programs, len / 256 + 1);
    }
}

#[test]
fn reboot_switches_off_first() {
    let image = image(100);
    let mut bl = SlaveBootloader::new(&image);
    assert_eq!(bl.reboot_slave(at(0)), Action::SetPower(false));
    assert_eq!(bl.step(at(1), Event::Done), Action::Sleep(100));
    assert_eq!(bl.step(at(2), Event::Done), Action::SetPower(true));
    assert_eq!(bl.step(at(3), Event::Done), Action::Sleep(500));
}

#[test]
fn wrong_greeting_is_refused() {
    let image = image(100);
    let mut bl = SlaveBootloader::new(&image);
    bl.boot_slave(at(0), false);
    for _ in 0..5 {
        bl.step(at(0), Event::Done);
    }
    assert_eq!(
        bl.step(at(0), Event::Received(b"pbt4".to_vec())),
        Action::Finish(Err(Error::Activation))
    );
}

#[test]
fn wrong_page_is_refused() {
    let image = image(100);
    let mut board = Board::new(0);
    board.corrupt_reads = true;
    assert_eq!(boot(&image, &mut board), Err(Error::Verification));
    assert_eq!(kinds(&board), vec![0xA5, 0x10, 0x30, 0x20, 0x10]);
}

#[test]
fn failed_transfers_end_the_conversation() {
    let image = image(100);
    let mut bl = SlaveBootloader::new(&image);
    bl.try_write(at(0), &[1, 2]);
    assert_eq!(bl.step(at(1), Event::TimedOut), Action::Finish(Err(Error::Timeout)));
    assert!(!bl.expects(&Event::Done));
    assert!(!bl.expects(&Event::TimedOut));
    bl.try_read(at(0), 2);
    assert_eq!(bl.step(at(1), Event::Failed), Action::Finish(Err(Error::UnexpectedEof)));
}

#[test]
fn single_transfers() {
    let image = image(100);
    let mut bl = SlaveBootloader::new(&image);
    assert_eq!(bl.try_write(at(7), &[1, 2]), Action::Write(vec![1, 2], at(1_000_007)));
    assert_eq!(bl.step(at(8), Event::Done), Action::Finish(Ok(Reply::Nothing)));
    assert_eq!(bl.try_read(at(7), 2), Action::Read(2, at(1_000_007)));
    assert!(!bl.expects(&Event::Received(vec![5])));
    assert_eq!(
        bl.step(at(8), Event::Received(vec![5, 6])),
        Action::Finish(Ok(Reply::Data(vec![5, 6])))
    );
}

#[test]
fn readiness_is_asked_for_once() {
    let image = image(100);
    let mut bl = SlaveBootloader::new(&image);
    assert_eq!(bl.is_ready(at(0)), Action::Write(vec![1], at(1_000_000)));
    assert_eq!(bl.step(at(1), Event::Done), Action::Read(1, at(1_000_001)));
    assert_eq!(
        bl.step(at(2), Event::Received(vec![0])),
        Action::Finish(Ok(Reply::Ready(false)))
    );
    bl.is_ready(at(0));
    bl.step(at(1), Event::Done);
    assert_eq!(
        bl.step(at(2), Event::Received(vec![9])),
        Action::Finish(Ok(Reply::Ready(true)))
    );
}

#[test]
fn waiting_asks_until_ready_and_gains_no_time() {
    let image = image(100);
    let mut bl = SlaveBootloader::new(&image);
    assert_eq!(bl.wait_ready(at(100)), Action::Write(vec![1], at(1_000_100)));
    for i in 1..10 {
        assert_eq!(bl.step(at(100 + 2 * i), Event::Done), Action::Read(1, at(1_000_100)));
        assert_eq!(
            bl.step(at(101 + 2 * i), Event::Received(vec![0])),
            Action::Write(vec![1], at(1_000_100))
        );
    }
    bl.step(at(500), Event::Done);
    assert_eq!(
        bl.step(at(501), Event::Received(vec![1])),
        Action::Finish(Ok(Reply::Nothing))
    );
    bl.wait_ready(at(0));
    bl.step(at(1), Event::Done);
    assert_eq!(bl.step(at(1_000_000), Event::TimedOut), Action::Finish(Err(Error::Timeout)));
}

#[test]
fn reads_are_limited() {
    let image = image(100);
    let mut bl = SlaveBootloader::new(&image);
    assert_eq!(bl.read(at(0), 0, 0), Action::Finish(Err(Error::InvalidLength)));
    assert_eq!(bl.read(at(0), 0, 4097), Action::Finish(Err(Error::InvalidLength)));
    assert_eq!(
        bl.read(at(0), 0x0102_0304, 4096),
        Action::Write(vec![0x10, 4, 3, 2, 1, 0x00, 0x10], at(1_000_000))
    );
    assert_eq!(bl.step(at(1), Event::Done), Action::Read(4096, at(1_000_001)));
    assert_eq!(
        bl.step(at(2), Event::Received(vec![3; 4096])),
        Action::Finish(Ok(Reply::Data(vec![3; 4096])))
    );
}

#[test]
fn oversized_firmware_is_not_programmed() {
    // Its last byte is within flash, but its checksum is not.
    let fits = FLASH_SIZE - START - 256;
    let mut board = Board::new(0xFF);
    assert_eq!(boot(&image(fits + 1), &mut board), Err(Error::InvalidLength));
    assert!(!board.started);
    // One more sector than there is has to be erased.
    let mut board = Board::new(0xFF);
    assert_eq!(boot(&image(FLASH_SIZE - START), &mut board), Err(Error::InvalidOffset));
    assert_eq!(*kinds(&board).last().unwrap(), 0x30);
}

#[test]
fn largest_firmware_is_programmed() {
    let len = FLASH_SIZE - START - 256;
    let image = image(len);
    let mut board = Board::new(0xFF);
    assert_eq!(boot(&image, &mut board), Ok(Reply::Nothing));
    assert_eq!(&board.flash[START..START + len], &image[..]);
}
