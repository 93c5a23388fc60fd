//! What the frames of a programming run do to the second board's flash.
use super::frame::{
    bare_frame, erase_frame, padded_page, program_frame, read_frame, BootloaderCommand, FLASH_PAGE_SIZE,
    FLASH_SECTOR_SIZE, FLASH_SIZE, SLAVE_APPCODE_OFFSET,
};
use super::laws::{
    all_stay_clear, boot_stays_clear, failure_lasts, gets_behind, goes_through,
    good_boot_leaves_nothing_out, good_end_means_all_steps, held_in_two_parts, no_crc_check,
    oversized_firmware_is_not_programmed, program_has_no_crc_check, quiet, quiet_step,
    reboot_is_a_boot_from_power_off, stays_clear, Inputs,
};
use super::script::{
    boot_steps, crc_offset, erase_steps, erases_from, first_sector, last_erased, page_count,
    page_data, pages_from, program_page_steps, program_slave_steps, program_steps, read_steps,
    ready_steps, reboot_steps, start_steps, verify_steps, wake_steps, Check, Conversation, Seen, Step,
};
use crate::bytes::{
    from_le16, from_le32, from_le32_injective, le16, le16_round_trip, le32, le32_round_trip,
};
use vstd::prelude::*;

verus! {

/// The flash when it has carried out `frame`: erasing sets every bit of a sector, and
/// programming can only clear bits of a page.
pub open spec fn flash_after(flash: Seq<u8>, frame: Seq<u8>) -> Seq<u8> {
    if frame[0] == BootloaderCommand::Erase.spec_code() {
        let start = from_le16(frame.skip(1)) * FLASH_SECTOR_SIZE;
        Seq::new(
            flash.len(),
            |i: int|
                if start <= i < start + FLASH_SECTOR_SIZE {
                    0xFFu8
                } else {
                    flash[i]
                },
        )
    } else if frame[0] == BootloaderCommand::Program.spec_code() {
        let start = from_le32(frame.skip(1));
        Seq::new(
            flash.len(),
            |i: int|
                if start <= i < start + from_le16(frame.skip(5)) {
                    flash[i] & frame[7 + i - start]
                } else {
                    flash[i]
                },
        )
    } else {
        flash
    }
}

/// The flash when it has carried out the frames that `steps` send.
pub open spec fn flash_after_steps(flash: Seq<u8>, steps: Seq<Step>) -> Seq<u8>
    decreases steps.len(),
{
    if steps.len() == 0 {
        flash
    } else {
        flash_after_steps(
            match steps[0] {
                Step::Send(frame) => flash_after(flash, frame),
                _ => flash,
            },
            steps.drop_first(),
        )
    }
}

proof fn flash_after_concat(flash: Seq<u8>, a: Seq<Step>, b: Seq<Step>)
    ensures
        flash_after_steps(flash, a + b) == flash_after_steps(flash_after_steps(flash, a), b),
    decreases a.len(),
{
    if a.len() == 0 {
        assert(a + b =~= b);
    } else {
        assert((a + b).drop_first() =~= a.drop_first() + b);
        flash_after_concat(
            match a[0] {
                Step::Send(frame) => flash_after(flash, frame),
                _ => flash,
            },
            a.drop_first(),
            b,
        );
    }
}

/// The byte that page `k` of a firmware has for the flash cell at `i`.
spec fn cell(image: Seq<u8>, crc: u32, i: int) -> u8 {
    let at = i - SLAVE_APPCODE_OFFSET;
    padded_page(page_data(image, crc, at / (FLASH_PAGE_SIZE as int)))[at % (FLASH_PAGE_SIZE as int)]
}

/// An erase frame sets every bit of its sector.
proof fn erase_frame_effect(flash: Seq<u8>, sector: u16)
    ensures
        flash_after(flash, erase_frame(sector)) == Seq::new(
            flash.len(),
            |i: int|
                if sector * FLASH_SECTOR_SIZE <= i < (sector + 1) * FLASH_SECTOR_SIZE {
                    0xFFu8
                } else {
                    flash[i]
                },
        ),
{
    assert(erase_frame(sector).skip(1) =~= le16(sector));
    le16_round_trip(sector);
}

/// A program frame clears bits of its page.
proof fn program_frame_effect(flash: Seq<u8>, offset: u32, data: Seq<u8>)
    requires
        data.len() <= FLASH_PAGE_SIZE,
    ensures
        flash_after(flash, program_frame(offset, data)) == Seq::new(
            flash.len(),
            |i: int|
                if offset <= i < offset + FLASH_PAGE_SIZE {
                    flash[i] & padded_page(data)[i - offset]
                } else {
                    flash[i]
                },
        ),
{
    let frame = program_frame(offset, data);
    let page = padded_page(data);
    le32_round_trip(offset);
    le16_round_trip(FLASH_PAGE_SIZE as u16);
    assert(from_le32(frame.skip(1)) == from_le32(le32(offset)));
    assert(from_le16(frame.skip(5)) == from_le16(le16(FLASH_PAGE_SIZE as u16)));
    assert(page.len() == FLASH_PAGE_SIZE);
    assert forall|i: int| 0 <= i < page.len() implies frame[7 + i] == page[i] by {}
    assert(flash_after(flash, frame) =~= Seq::new(
        flash.len(),
        |i: int|
            if offset <= i < offset + FLASH_PAGE_SIZE {
                flash[i] & page[i - offset]
            } else {
                flash[i]
            },
    ));
}

/// `flash` with the sectors for a firmware of `len` bytes erased, from the `k`-th on.
spec fn with_erased(flash: Seq<u8>, len: nat, k: int) -> Seq<u8> {
    Seq::new(
        flash.len(),
        |i: int|
            if (first_sector() + k) * FLASH_SECTOR_SIZE <= i < (first_sector() + last_erased(len)
                + 1) * FLASH_SECTOR_SIZE {
                0xFFu8
            } else {
                flash[i]
            },
    )
}

/// `flash` with the pages of `image` and the page of its checksum programmed, from the `k`-th on.
spec fn with_programmed(flash: Seq<u8>, image: Seq<u8>, crc: u32, k: int) -> Seq<u8> {
    Seq::new(
        flash.len(),
        |i: int|
            if SLAVE_APPCODE_OFFSET + FLASH_PAGE_SIZE * k <= i < crc_offset(image.len())
                + FLASH_PAGE_SIZE {
                flash[i] & cell(image, crc, i)
            } else {
                flash[i]
            },
    )
}

/// Erasing the sectors for a firmware sets all their bits.
proof fn erases_effect(flash: Seq<u8>, len: nat, k: int)
    requires
        0 <= k <= last_erased(len) + 1,
        (first_sector() + last_erased(len)) * FLASH_SECTOR_SIZE < FLASH_SIZE,
    ensures
        flash_after_steps(flash, erases_from(len, k)) == with_erased(flash, len, k),
    decreases last_erased(len) + 1 - k,
{
    if k > last_erased(len) {
        assert(flash_after_steps(flash, erases_from(len, k)) =~= with_erased(flash, len, k));
    } else {
        let sector = first_sector() + k;
        let first = erase_steps(sector);
        let frame = erase_frame(sector as u16);
        let erased = flash_after(flash, frame);
        assert(first.drop_first() =~= ready_steps());
        assert(flash_after_steps(erased, ready_steps()) == erased) by {
            reveal_with_fuel(flash_after_steps, 3);
        }
        assert(flash_after_steps(flash, first) == erased);
        flash_after_concat(flash, first, erases_from(len, k + 1));
        erase_frame_effect(flash, sector as u16);
        erases_effect(erased, len, k + 1);
        assert(flash_after_steps(flash, erases_from(len, k)) =~= with_erased(flash, len, k));
    }
}

/// Programming one page and reading it back clears bits of that page.
proof fn page_effect(flash: Seq<u8>, offset: int, data: Seq<u8>)
    requires
        0 <= offset < FLASH_SIZE,
        offset % (FLASH_PAGE_SIZE as int) == 0,
        data.len() <= FLASH_PAGE_SIZE,
    ensures
        flash_after_steps(flash, program_page_steps(offset, data)) == flash_after(
            flash,
            program_frame(offset as u32, data),
        ),
{
    let frame = program_frame(offset as u32, data);
    let programmed = flash_after(flash, frame);
    let page = offset / (FLASH_PAGE_SIZE as int);
    let verify = verify_steps(page, data);
    let steps = program_page_steps(offset, data);
    assert(steps =~= seq![Step::Send(frame)] + (ready_steps() + verify));
    assert(steps.drop_first() =~= ready_steps() + verify);
    flash_after_concat(programmed, ready_steps(), verify);
    assert(flash_after_steps(programmed, ready_steps()) == programmed) by {
        reveal_with_fuel(flash_after_steps, 3);
    }
    assert(flash_after_steps(programmed, verify) == programmed) by {
        reveal_with_fuel(flash_after_steps, 3);
    }
}

/// Programming the pages of a firmware clears the bits that its bytes have not set.
proof fn pages_effect(flash: Seq<u8>, image: Seq<u8>, crc: u32, k: int)
    requires
        0 <= k <= page_count(image.len()) + 1,
        crc_offset(image.len()) < FLASH_SIZE,
    ensures
        flash_after_steps(flash, pages_from(SLAVE_APPCODE_OFFSET as int, image, crc, k))
            == with_programmed(flash, image, crc, k),
    decreases page_count(image.len()) + 1 - k,
{
    let steps = pages_from(SLAVE_APPCODE_OFFSET as int, image, crc, k);
    if k > page_count(image.len()) {
        assert(flash_after_steps(flash, steps) =~= with_programmed(flash, image, crc, k));
    } else {
        let offset = SLAVE_APPCODE_OFFSET + FLASH_PAGE_SIZE * k;
        let data = page_data(image, crc, k);
        let frame = program_frame(offset as u32, data);
        let programmed = flash_after(flash, frame);
        let first = program_page_steps(offset, data);
        let others = pages_from(SLAVE_APPCODE_OFFSET as int, image, crc, k + 1);
        page_effect(flash, offset, data);
        flash_after_concat(flash, first, others);
        program_frame_effect(flash, offset as u32, data);
        pages_effect(programmed, image, crc, k + 1);
        assert forall|i: int| offset <= i < offset + FLASH_PAGE_SIZE implies cell(image, crc, i)
            == padded_page(data)[i - offset] by {
            assert((i - SLAVE_APPCODE_OFFSET) / (FLASH_PAGE_SIZE as int) == k);
        }
        assert(flash_after_steps(flash, steps) =~= with_programmed(flash, image, crc, k));
    }
}

/// Whether the page with the checksum of a firmware of `len` bytes is in one of the sectors that
/// are erased for it.
pub open spec fn crc_page_is_erased(len: nat) -> bool {
    len % (FLASH_SECTOR_SIZE as nat) <= FLASH_SECTOR_SIZE - FLASH_PAGE_SIZE
}

/// Every page of a firmware that is programmed is in a sector that was erased; so is the page with
/// its checksum, unless the firmware ends in the last page of a sector.
pub proof fn programmed_pages_are_erased_first(len: nat, k: int)
    requires
        0 <= k < page_count(len) || k == page_count(len) && crc_page_is_erased(len),
    ensures
        first_sector() * FLASH_SECTOR_SIZE <= SLAVE_APPCODE_OFFSET + FLASH_PAGE_SIZE * k,
        SLAVE_APPCODE_OFFSET + FLASH_PAGE_SIZE * k + FLASH_PAGE_SIZE <= (first_sector()
            + last_erased(len) + 1) * FLASH_SECTOR_SIZE,
{
}

/// The cells of the firmware hold its bytes.
proof fn image_cell(image: Seq<u8>, crc: u32, i: int)
    requires
        0 <= i < image.len(),
    ensures
        cell(image, crc, SLAVE_APPCODE_OFFSET + i) == image[i],
{
    let k = i / (FLASH_PAGE_SIZE as int);
    let data = page_data(image, crc, k);
    assert(k < page_count(image.len()));
    assert(data[i % (FLASH_PAGE_SIZE as int)] == image[i]);
}

/// The first cells behind the firmware hold its checksum.
proof fn crc_cell(image: Seq<u8>, crc: u32, i: int)
    requires
        0 <= i < 4,
    ensures
        cell(image, crc, crc_offset(image.len()) + i) == le32(crc)[i],
{
    let at = FLASH_PAGE_SIZE * page_count(image.len()) + i;
    assert(at / (FLASH_PAGE_SIZE as int) == page_count(image.len()));
    assert(at % (FLASH_PAGE_SIZE as int) == i);
}

/// Programming gives the cells of a firmware its bytes, and leaves of those behind it the bits
/// that the checksum has too.
proof fn programmed_cells(flash: Seq<u8>, image: Seq<u8>, crc: u32)
    requires
        flash.len() == FLASH_SIZE,
        crc_offset(image.len()) < FLASH_SIZE,
    ensures
        ({
            let programmed = flash_after_steps(flash, program_slave_steps(image, crc));
            let at = crc_offset(image.len());
            &&& programmed.len() == FLASH_SIZE
            &&& forall|i: int|
                0 <= i < image.len() ==> #[trigger] programmed[SLAVE_APPCODE_OFFSET + i] == image[i]
            &&& forall|i: int|
                0 <= i < 4 ==> #[trigger] programmed[at + i] == if crc_page_is_erased(image.len()) {
                    le32(crc)[i]
                } else {
                    flash[at + i] & le32(crc)[i]
                }
        }),
{
    let erased = flash_after_steps(flash, erases_from(image.len(), 0));
    let program = program_steps(SLAVE_APPCODE_OFFSET as int, image, crc);
    let programmed = flash_after_steps(erased, program);
    let at = crc_offset(image.len());
    flash_after_concat(flash, erases_from(image.len(), 0), program);
    erases_effect(flash, image.len(), 0);
    pages_effect(erased, image, crc, 0);
    assert forall|i: int| 0 <= i < image.len() implies #[trigger] programmed[SLAVE_APPCODE_OFFSET
        + i] == image[i] by {
        let byte = image[i];
        image_cell(image, crc, i);
        assert(erased[SLAVE_APPCODE_OFFSET + i] == 0xFFu8);
        assert(0xFFu8 & byte == byte) by (bit_vector);
    }
    assert forall|i: int| 0 <= i < 4 implies #[trigger] programmed[at + i] == if crc_page_is_erased(
        image.len(),
    ) {
        le32(crc)[i]
    } else {
        flash[at + i] & le32(crc)[i]
    } by {
        let byte = le32(crc)[i];
        crc_cell(image, crc, i);
        assert(0xFFu8 & byte == byte) by (bit_vector);
    }
}

/// Programming a firmware puts it where the application starts, whatever the flash held before.
pub proof fn programmed_firmware_is_in_place(flash: Seq<u8>, image: Seq<u8>, crc: u32)
    requires
        flash.len() == FLASH_SIZE,
        crc_offset(image.len()) < FLASH_SIZE,
    ensures
        flash_after_steps(flash, program_slave_steps(image, crc)).subrange(
            SLAVE_APPCODE_OFFSET as int,
            SLAVE_APPCODE_OFFSET + image.len(),
        ) == image,
{
    programmed_cells(flash, image, crc);
    let programmed = flash_after_steps(flash, program_slave_steps(image, crc));
    let found = programmed.subrange(
        SLAVE_APPCODE_OFFSET as int,
        SLAVE_APPCODE_OFFSET + image.len(),
    );
    assert forall|i: int| 0 <= i < image.len() implies found[i] == image[i] by {
        assert(programmed[SLAVE_APPCODE_OFFSET + i] == found[i]);
    }
    assert(found =~= image);
}

/// Whether the cells for the checksum of a firmware of `len` bytes have all bits of `crc` set.
pub open spec fn crc_bits_are_set(flash: Seq<u8>, len: nat, crc: u32) -> bool {
    forall|i: int|
        0 <= i < 4 ==> (#[trigger] flash[crc_offset(len) + i] & le32(crc)[i]) == le32(crc)[i]
}

/// The four bytes that programming leaves for the checksum.
proof fn checksum_left(flash: Seq<u8>, image: Seq<u8>, crc: u32)
    requires
        flash.len() == FLASH_SIZE,
        crc_offset(image.len()) < FLASH_SIZE,
    ensures
        ({
            let at = crc_offset(image.len());
            let programmed = flash_after_steps(flash, program_slave_steps(image, crc));
            programmed.subrange(at, at + 4) == if crc_page_is_erased(image.len()) {
                le32(crc)
            } else {
                Seq::new(4, |i: int| flash[at + i] & le32(crc)[i])
            }
        }),
{
    programmed_cells(flash, image, crc);
    let at = crc_offset(image.len());
    let programmed = flash_after_steps(flash, program_slave_steps(image, crc));
    let stored = programmed.subrange(at, at + 4);
    let left = if crc_page_is_erased(image.len()) {
        le32(crc)
    } else {
        Seq::new(4, |i: int| flash[at + i] & le32(crc)[i])
    };
    assert forall|i: int| 0 <= i < 4 implies stored[i] == left[i] by {
        assert(programmed[at + i] == stored[i]);
    }
    assert(stored =~= left);
}

/// Programming a firmware puts its checksum where booting looks for it if and only if the page of the
/// checksum is erased along with the firmware, or its cells had all bits of the checksum set before.
pub proof fn programmed_checksum_is_found(flash: Seq<u8>, image: Seq<u8>, crc: u32)
    requires
        flash.len() == FLASH_SIZE,
        crc_offset(image.len()) < FLASH_SIZE,
    ensures
        from_le32(
            flash_after_steps(flash, program_slave_steps(image, crc)).subrange(
                crc_offset(image.len()),
                crc_offset(image.len()) + 4,
            ),
        ) == crc <==> crc_page_is_erased(image.len()) || crc_bits_are_set(flash, image.len(), crc),
{
    let at = crc_offset(image.len());
    let stored = flash_after_steps(flash, program_slave_steps(image, crc)).subrange(at, at + 4);
    checksum_left(flash, image, crc);
    le32_round_trip(crc);
    if from_le32(stored) == crc {
        from_le32_injective(stored, le32(crc));
        if !crc_page_is_erased(image.len()) {
            assert forall|i: int| 0 <= i < 4 implies (#[trigger] flash[crc_offset(image.len()) + i]
                & le32(crc)[i]) == le32(crc)[i] by {
                assert(stored[i] == le32(crc)[i]);
            }
        }
    } else if !crc_page_is_erased(image.len()) && crc_bits_are_set(flash, image.len(), crc) {
        assert forall|i: int| 0 <= i < 4 implies stored[i] == le32(crc)[i] by {
            assert(flash[at + i] == flash[crc_offset(image.len()) + i]);
        }
        assert(stored =~= le32(crc));
    }
}

/// The steps of waiting do nothing to the flash.
proof fn flash_after_quiet(flash: Seq<u8>, steps: Seq<Step>)
    ensures
        flash_after_steps(flash, quiet(steps)) == flash_after_steps(flash, steps),
    decreases steps.len(),
{
    if steps.len() > 0 {
        let head = quiet_step(steps[0]);
        let rest = steps.drop_first();
        let after = match steps[0] {
            Step::Send(frame) => flash_after(flash, frame),
            _ => flash,
        };
        assert(flash_after_steps(flash, head) == after) by {
            reveal_with_fuel(flash_after_steps, 2);
        }
        flash_after_concat(flash, head, quiet(rest));
        flash_after_quiet(after, rest);
    }
}

/// A boot that comes to a good end without finding the checksum in flash leaves the firmware where
/// the application starts, whatever the flash held before.
pub proof fn good_boot_installs_the_firmware(
    flash: Seq<u8>,
    conversation: Conversation,
    inputs: Inputs,
)
    requires
        flash.len() == FLASH_SIZE,
        conversation.steps == boot_steps(conversation.image),
        conversation.admits(inputs),
        conversation.run(inputs).steps.len() == 0,
        inputs[7].1 matches Seen::Received(stored) && from_le32(stored) != conversation.crc,
    ensures
        flash_after_steps(flash, conversation.carried_out(inputs)).subrange(
            SLAVE_APPCODE_OFFSET as int,
            SLAVE_APPCODE_OFFSET + conversation.image.len(),
        ) == conversation.image,
{
    let image = conversation.image;
    let crc = conversation.crc;
    good_boot_leaves_nothing_out(conversation, inputs);
    if crc_offset(image.len()) >= FLASH_SIZE {
        oversized_firmware_is_not_programmed(conversation, inputs);
    }
    let request = read_steps(crc_offset(image.len()) as u32, 4, Check::StoredCrc);
    let program = program_slave_steps(image, crc);
    let programmed = flash_after_steps(flash, program);
    assert(flash_after_steps(flash, wake_steps()) == flash) by {
        reveal_with_fuel(flash_after_steps, 7);
    }
    assert(flash_after_steps(flash, request) == flash) by {
        reveal_with_fuel(flash_after_steps, 3);
    }
    assert(flash_after_steps(programmed, start_steps()) == programmed) by {
        reveal_with_fuel(flash_after_steps, 4);
    }
    flash_after_concat(flash, wake_steps(), request);
    flash_after_concat(flash, wake_steps() + request, quiet(program));
    flash_after_quiet(flash, program);
    flash_after_concat(flash, wake_steps() + request + quiet(program), start_steps());
    programmed_firmware_is_in_place(flash, image, crc);
}

/// The bytes that the read frame `frame` asks for.
pub open spec fn read_from(flash: Seq<u8>, frame: Seq<u8>) -> Seq<u8> {
    let start = from_le32(frame.skip(1));
    flash.subrange(start, start + from_le16(frame.skip(5)))
}

/// Whether `step`, if it is a read frame and the second of `inputs` is its answer, is answered with
/// what the flash holds.
pub open spec fn answered_rightly(flash: Seq<u8>, step: Step, inputs: Inputs) -> bool {
    match step {
        Step::Send(frame) => if frame[0] == BootloaderCommand::Read.spec_code() && inputs.len()
            > 1 {
            match inputs[1].1 {
                Seen::Received(bytes) => bytes == read_from(flash, frame),
                _ => true,
            }
        } else {
            true
        },
        _ => true,
    }
}

/// Whether every read frame that goes out is answered with what the flash holds by then.
pub open spec fn answered_from_flash(
    conversation: Conversation,
    flash: Seq<u8>,
    inputs: Inputs,
) -> bool
    decreases inputs.len(),
{
    inputs.len() == 0 || {
        let step = conversation.steps[0];
        &&& answered_rightly(flash, step, inputs)
        &&& answered_from_flash(
            conversation.advance(inputs[0].0, inputs[0].1),
            match step {
                Step::Send(frame) => flash_after(flash, frame),
                _ => flash,
            },
            inputs.drop_first(),
        )
    }
}

/// Answers from flash go on being so.
proof fn answered_later(conversation: Conversation, flash: Seq<u8>, inputs: Inputs, k: int)
    requires
        0 <= k <= inputs.len(),
        answered_from_flash(conversation, flash, inputs),
    ensures
        answered_from_flash(
            conversation.run(inputs.take(k)),
            flash_after_steps(flash, conversation.carried_out(inputs.take(k))),
            inputs.skip(k),
        ),
    decreases k,
{
    if k == 0 {
        assert(inputs.skip(0) =~= inputs);
    } else {
        let step = conversation.steps[0];
        let next = conversation.advance(inputs[0].0, inputs[0].1);
        let rest = inputs.drop_first();
        let after = match step {
            Step::Send(frame) => flash_after(flash, frame),
            _ => flash,
        };
        answered_later(next, after, rest, k - 1);
        assert(inputs.take(k).drop_first() =~= rest.take(k - 1));
        assert(inputs.take(k)[0] == inputs[0]);
        assert(rest.skip(k - 1) =~= inputs.skip(k));
        assert(flash_after_steps(flash, quiet_step(step)) == after) by {
            reveal_with_fuel(flash_after_steps, 2);
        }
        flash_after_concat(flash, quiet_step(step), next.carried_out(rest.take(k - 1)));
    }
}

/// A read frame asks for what it says.
proof fn read_frame_reads(flash: Seq<u8>, offset: u32, len: u16)
    ensures
        read_from(flash, read_frame(offset, len)) == flash.subrange(offset as int, offset + len),
        read_frame(offset, len)[0] == BootloaderCommand::Read.spec_code(),
{
    let frame = read_frame(offset, len);
    le32_round_trip(offset);
    le16_round_trip(len);
    assert(from_le32(frame.skip(1)) == from_le32(le32(offset)));
    assert(from_le16(frame.skip(5)) == from_le16(le16(len)));
}

/// Programming pages ends with the page of the checksum; returns the steps in front of that.
proof fn checksum_page_comes_last(image: Seq<u8>, crc: u32, k: int) -> (front: Seq<Step>)
    requires
        0 <= k <= page_count(image.len()),
    ensures
        pages_from(SLAVE_APPCODE_OFFSET as int, image, crc, k) == front + program_page_steps(
            crc_offset(image.len()),
            le32(crc),
        ),
    decreases page_count(image.len()) - k,
{
    let offset = SLAVE_APPCODE_OFFSET + FLASH_PAGE_SIZE * k;
    let first = program_page_steps(offset, page_data(image, crc, k));
    let last = program_page_steps(crc_offset(image.len()), le32(crc));
    let others = pages_from(SLAVE_APPCODE_OFFSET as int, image, crc, k + 1);
    if k == page_count(image.len()) {
        assert(first + others =~= seq![] + last);
        seq![]
    } else {
        let front = checksum_page_comes_last(image, crc, k + 1);
        assert(first + (front + last) =~= first + front + last);
        first + front
    }
}

/// Whoever is about to read the page of the checksum back and comes to a good end has found the
/// checksum in flash.
proof fn checksum_is_read_back(conversation: Conversation, flash: Seq<u8>, inputs: Inputs)
    requires
        flash.len() == FLASH_SIZE,
        crc_offset(conversation.image.len()) < FLASH_SIZE,
        conversation.steps == verify_steps(
            crc_offset(conversation.image.len()) / (FLASH_PAGE_SIZE as int),
            le32(conversation.crc),
        ) + start_steps(),
        conversation.admits(inputs),
        conversation.run(inputs).steps.len() == 0,
        answered_from_flash(conversation, flash, inputs),
    ensures
        ({
            let at = crc_offset(conversation.image.len());
            let after = flash_after_steps(flash, conversation.carried_out(inputs));
            after.subrange(at, at + 4) == le32(conversation.crc)
        }),
{
    let at = crc_offset(conversation.image.len());
    let data = le32(conversation.crc);
    let page = at / (FLASH_PAGE_SIZE as int);
    let frame = read_frame(at as u32, FLASH_PAGE_SIZE as u16);
    let verify = verify_steps(page, data);
    assert(page * FLASH_PAGE_SIZE == at);
    assert(conversation.steps[0] == Step::Send(frame));
    read_frame_reads(flash, at as u32, FLASH_PAGE_SIZE as u16);
    let next = conversation.advance(inputs[0].0, inputs[0].1);
    let rest = inputs.drop_first();
    assert(next.admits(rest));
    assert(next.run(rest).steps.len() == 0);
    if !(inputs[0].1 is Done) {
        failure_lasts(next, rest);
    }
    assert(next.steps[0] == Step::Receive(FLASH_PAGE_SIZE as nat, Check::Page(data)));
    assert(rest.len() > 0);
    assert(rest[0] == inputs[1]);
    let last = next.advance(rest[0].0, rest[0].1);
    assert(next.expects(rest[0].1));
    assert(last.admits(rest.drop_first()));
    assert(last.run(rest.drop_first()).steps.len() == 0);
    if !(rest[0].1 is Received) {
        failure_lasts(last, rest.drop_first());
    }
    let bytes = rest[0].1->Received_0;
    if bytes.take(4) != data {
        failure_lasts(last, rest.drop_first());
    }
    assert(bytes == flash.subrange(at, at + FLASH_PAGE_SIZE));
    assert(flash.subrange(at, at + 4) =~= bytes.take(4));
    good_end_means_all_steps(conversation, inputs);
    flash_after_quiet(flash, conversation.steps);
    flash_after_concat(flash, verify, start_steps());
    assert(flash_after_steps(flash, verify) == flash) by {
        reveal_with_fuel(flash_after_steps, 3);
    }
    assert(flash_after_steps(flash, start_steps()) == flash) by {
        reveal_with_fuel(flash_after_steps, 4);
    }
}

/// No frame makes the flash larger or smaller.
proof fn flash_keeps_its_size(flash: Seq<u8>, steps: Seq<Step>)
    ensures
        flash_after_steps(flash, steps).len() == flash.len(),
    decreases steps.len(),
{
    if steps.len() > 0 {
        flash_keeps_its_size(
            match steps[0] {
                Step::Send(frame) => flash_after(flash, frame),
                _ => flash,
            },
            steps.drop_first(),
        );
    }
}

/// Programming that comes to a good end has found the checksum in flash.
proof fn programming_leaves_the_checksum(conversation: Conversation, flash: Seq<u8>, inputs: Inputs)
    requires
        flash.len() == FLASH_SIZE,
        crc_offset(conversation.image.len()) < FLASH_SIZE,
        conversation.steps == program_slave_steps(conversation.image, conversation.crc)
            + start_steps(),
        conversation.admits(inputs),
        conversation.run(inputs).steps.len() == 0,
        answered_from_flash(conversation, flash, inputs),
    ensures
        ({
            let at = crc_offset(conversation.image.len());
            let after = flash_after_steps(flash, conversation.carried_out(inputs));
            after.subrange(at, at + 4) == le32(conversation.crc)
        }),
{
    let image = conversation.image;
    let crc = conversation.crc;
    let at = crc_offset(image.len());
    let erases = erases_from(image.len(), 0);
    let pages = checksum_page_comes_last(image, crc, 0);
    let verify = verify_steps(at / (FLASH_PAGE_SIZE as int), le32(crc));
    let send = seq![Step::Send(program_frame(at as u32, le32(crc)))] + ready_steps();
    let front = erases + pages + send;
    let back = verify + start_steps();
    assert(program_page_steps(at, le32(crc)) == send + verify);
    assert(erases + (pages + (send + verify)) + start_steps() =~= front + back);
    program_has_no_crc_check(image, crc);
    assert(no_crc_check(front)) by {
        assert forall|i: int| 0 <= i < front.len() implies !(#[trigger] front[i] matches Step::Receive(
            _,
            Check::StoredCrc,
        )) by {
            assert(front[i] == conversation.steps[i]);
        }
    }
    let k = gets_behind(conversation, inputs, front, back);
    let middle = conversation.run(inputs.take(k));
    let before = flash_after_steps(flash, conversation.carried_out(inputs.take(k)));
    held_in_two_parts(conversation, inputs, k);
    answered_later(conversation, flash, inputs, k);
    flash_keeps_its_size(flash, conversation.carried_out(inputs.take(k)));
    checksum_is_read_back(middle, before, inputs.skip(k));
    flash_after_concat(
        flash,
        conversation.carried_out(inputs.take(k)),
        middle.carried_out(inputs.skip(k)),
    );
}

/// What a boot that comes to a good end has read of the checksum, and which steps it has gone
/// through before.
proof fn boot_reads_the_checksum(conversation: Conversation, flash: Seq<u8>, inputs: Inputs)
    requires
        crc_offset(conversation.image.len()) <= u32::MAX,
        conversation.steps == boot_steps(conversation.image),
        conversation.admits(inputs),
        conversation.run(inputs).steps.len() == 0,
        answered_from_flash(conversation, flash, inputs),
    ensures
        inputs.len() > 7,
        inputs[7].1 == Seen::Received(
            flash.subrange(
                crc_offset(conversation.image.len()),
                crc_offset(conversation.image.len()) + 4,
            ),
        ),
        conversation.run(inputs.take(7)).steps == seq![Step::Receive(4, Check::StoredCrc)]
            + start_steps(),
        flash_after_steps(flash, conversation.carried_out(inputs.take(7))) == flash,
{
    let at = crc_offset(conversation.image.len());
    let frame = read_frame(at as u32, 4);
    let request = seq![Step::Send(frame)];
    let wake = wake_steps();
    let reply = seq![Step::Receive(4, Check::StoredCrc)] + start_steps();
    good_boot_leaves_nothing_out(conversation, inputs);
    assert(conversation.steps =~= wake + (request + reply));
    goes_through(conversation, inputs, wake, request + reply);
    assert(flash_after_steps(flash, wake) == flash) by {
        reveal_with_fuel(flash_after_steps, 7);
    }
    answered_later(conversation, flash, inputs, 6);
    assert(inputs.skip(6)[1] == inputs[7]);
    read_frame_reads(flash, at as u32, 4);
    assert(conversation.steps =~= wake + request + reply);
    goes_through(conversation, inputs, wake + request, reply);
    flash_after_concat(flash, wake, request);
    assert(flash_after_steps(flash, request) == flash) by {
        reveal_with_fuel(flash_after_steps, 2);
    }
}

/// A boot that comes to a good end leaves the checksum of the firmware where booting looks for it.
proof fn boot_leaves_the_checksum(flash: Seq<u8>, conversation: Conversation, inputs: Inputs)
    requires
        flash.len() == FLASH_SIZE,
        crc_offset(conversation.image.len()) <= u32::MAX,
        conversation.steps == boot_steps(conversation.image),
        conversation.admits(inputs),
        conversation.run(inputs).steps.len() == 0,
        answered_from_flash(conversation, flash, inputs),
    ensures
        ({
            let at = crc_offset(conversation.image.len());
            let after = flash_after_steps(flash, conversation.carried_out(inputs));
            from_le32(after.subrange(at, at + 4)) == conversation.crc
        }),
{
    let image = conversation.image;
    let crc = conversation.crc;
    let at = crc_offset(image.len());
    boot_reads_the_checksum(conversation, flash, inputs);
    let stored = flash.subrange(at, at + 4);
    let middle = conversation.run(inputs.take(7));
    let later = inputs.skip(7);
    let next = middle.advance(later[0].0, later[0].1);
    let rest = later.drop_first();
    let start = conversation.carried_out(inputs.take(7));
    held_in_two_parts(conversation, inputs, 7);
    answered_later(conversation, flash, inputs, 7);
    flash_after_concat(flash, start, middle.carried_out(later));
    assert(later[0] == inputs[7]);
    assert(middle.steps.drop_first() =~= start_steps());
    let check = seq![middle.steps[0]];
    assert(flash_after_steps(flash, check) == flash) by {
        reveal_with_fuel(flash_after_steps, 2);
    }
    flash_after_concat(flash, check, next.carried_out(rest));
    if from_le32(stored) == crc {
        program_has_no_crc_check(image, crc);
        good_end_means_all_steps(next, rest);
        flash_after_quiet(flash, start_steps());
        assert(flash_after_steps(flash, start_steps()) == flash) by {
            reveal_with_fuel(flash_after_steps, 4);
        }
    } else {
        if at >= FLASH_SIZE {
            oversized_firmware_is_not_programmed(conversation, inputs);
        }
        programming_leaves_the_checksum(next, flash, rest);
        le32_round_trip(crc);
    }
}

/// A boot or reboot that comes to a good end, with its reads answered from flash, leaves the checksum
/// of the firmware where booting looks for it, whatever the firmware and whatever the flash held
/// before.
pub proof fn good_boot_leaves_the_checksum(
    flash: Seq<u8>,
    conversation: Conversation,
    inputs: Inputs,
)
    requires
        flash.len() == FLASH_SIZE,
        crc_offset(conversation.image.len()) <= u32::MAX,
        conversation.steps == boot_steps(conversation.image) || conversation.steps == reboot_steps(
            conversation.image,
        ),
        conversation.admits(inputs),
        conversation.run(inputs).steps.len() == 0,
        answered_from_flash(conversation, flash, inputs),
    ensures
        ({
            let at = crc_offset(conversation.image.len());
            let after = flash_after_steps(flash, conversation.carried_out(inputs));
            from_le32(after.subrange(at, at + 4)) == conversation.crc
        }),
{
    if conversation.steps == boot_steps(conversation.image) {
        boot_leaves_the_checksum(flash, conversation, inputs);
    } else {
        let off = seq![Step::Power(false), Step::Sleep(100)];
        goes_through(conversation, inputs, off, boot_steps(conversation.image));
        answered_later(conversation, flash, inputs, 2);
        assert(flash_after_steps(flash, off) == flash) by {
            reveal_with_fuel(flash_after_steps, 3);
        }
        let middle = conversation.run(inputs.take(2));
        boot_leaves_the_checksum(flash, middle, inputs.skip(2));
        flash_after_concat(flash, off, middle.carried_out(inputs.skip(2)));
    }
}

/// Whether `step` sends no frame that erases or programs.
pub open spec fn leaves_flash_alone(step: Step) -> bool {
    match step {
        Step::Send(frame) => frame[0] != BootloaderCommand::Erase.spec_code() && frame[0]
            != BootloaderCommand::Program.spec_code(),
        _ => true,
    }
}

/// The steps of rebooting, one by one.
proof fn reboot_step_by_step(image: Seq<u8>)
    ensures
        reboot_steps(image) == seq![
            Step::Power(false),
            Step::Sleep(100),
            Step::Power(true),
            Step::Sleep(500),
            Step::Drain,
            Step::DrainFor(100),
            Step::Send(bare_frame(BootloaderCommand::Activate)),
            Step::Receive(4, Check::Activation),
            Step::Send(read_frame(crc_offset(image.len()) as u32, 4)),
            Step::Receive(4, Check::StoredCrc),
            Step::Send(bare_frame(BootloaderCommand::GotoAppcode)),
            Step::Drain,
            Step::DrainFor(100),
        ],
        boot_steps(image) == reboot_steps(image).skip(2),
{
    assert(boot_steps(image) =~= reboot_steps(image).skip(2));
}

/// With the checksum in flash, what is left of a reboot goes straight on, as far as it gets.
proof fn goes_straight_on(conversation: Conversation, flash: Seq<u8>, inputs: Inputs, n: int)
    requires
        crc_offset(conversation.image.len()) <= u32::MAX,
        0 <= n <= 13,
        conversation.steps == reboot_steps(conversation.image).skip(n),
        conversation.admits(inputs),
        answered_from_flash(conversation, flash, inputs),
        ({
            let at = crc_offset(conversation.image.len());
            let stored = flash.subrange(at, at + 4);
            &&& from_le32(stored) == conversation.crc
            &&& n == 9 && inputs.len() > 0 && inputs[0].1 is Received ==> inputs[0].1
                == Seen::Received(stored)
        }),
    ensures
        inputs.len() <= conversation.steps.len(),
        conversation.carried_out(inputs) == conversation.steps.take(inputs.len() as int),
    decreases inputs.len(),
{
    let image = conversation.image;
    let steps = conversation.steps;
    let at = crc_offset(image.len());
    if inputs.len() == 0 {
        assert(steps.take(0) =~= seq![]);
    } else {
        let next = conversation.advance(inputs[0].0, inputs[0].1);
        let rest = inputs.drop_first();
        reboot_step_by_step(image);
        assert(steps[0] == reboot_steps(image)[n]);
        assert(next.admits(rest));
        if next.steps.len() > 0 && next.steps[0] is Fail {
            assert(rest.len() == 0);
            assert(next.carried_out(rest) =~= seq![]);
            assert(quiet_step(steps[0]) + next.carried_out(rest) =~= steps.take(1));
        } else {
            assert(steps.drop_first() =~= reboot_steps(image).skip(n + 1));
            assert(next.steps == steps.drop_first());
            let after = match steps[0] {
                Step::Send(frame) => flash_after(flash, frame),
                _ => flash,
            };
            assert(after == flash);
            if n == 8 {
                read_frame_reads(flash, at as u32, 4);
                assert(rest.len() > 0 ==> rest[0] == inputs[1]);
            }
            goes_straight_on(next, flash, rest, n + 1);
            assert(seq![steps[0]] + steps.drop_first().take(rest.len() as int) =~= steps.take(
                inputs.len() as int,
            ));
        }
    }
}

/// Booting or rebooting a board that was booted well before does not program it again, whatever the
/// firmware and however it goes: with its reads answered from flash, it goes straight on to start the
/// application, as far as it gets, and sends no frame that erases or programs.
pub proof fn programmed_board_is_not_programmed_again(
    flash: Seq<u8>,
    first: Conversation,
    inputs: Inputs,
    second: Conversation,
    later: Inputs,
)
    requires
        flash.len() == FLASH_SIZE,
        crc_offset(first.image.len()) <= u32::MAX,
        first.steps == boot_steps(first.image) || first.steps == reboot_steps(first.image),
        first.admits(inputs),
        first.run(inputs).steps.len() == 0,
        answered_from_flash(first, flash, inputs),
        second.image == first.image,
        second.crc == first.crc,
        second.steps == boot_steps(second.image) || second.steps == reboot_steps(second.image),
        second.admits(later),
        answered_from_flash(second, flash_after_steps(flash, first.carried_out(inputs)), later),
    ensures
        later.len() <= second.steps.len(),
        second.carried_out(later) == second.steps.take(later.len() as int),
        forall|i: int|
            0 <= i < second.carried_out(later).len() ==> leaves_flash_alone(
                #[trigger] second.carried_out(later)[i],
            ),
{
    let image = second.image;
    let after = flash_after_steps(flash, first.carried_out(inputs));
    let reboot = reboot_steps(image);
    good_boot_leaves_the_checksum(flash, first, inputs);
    assert(reboot.skip(0) =~= reboot);
    assert(reboot.skip(2) =~= boot_steps(image));
    if second.steps == reboot {
        goes_straight_on(second, after, later, 0);
    } else {
        goes_straight_on(second, after, later, 2);
    }
    reboot_step_by_step(image);
    assert forall|i: int| 0 <= i < second.carried_out(later).len() implies leaves_flash_alone(
        #[trigger] second.carried_out(later)[i],
    ) by {
        assert(second.carried_out(later)[i] == second.steps[i]);
    }
}

/// Frames that stay clear leave the flash in front of the application alone.
proof fn clear_steps_spare_the_boot_loader(flash: Seq<u8>, steps: Seq<Step>)
    requires
        flash.len() == FLASH_SIZE,
        all_stay_clear(steps),
    ensures
        flash_after_steps(flash, steps).take(SLAVE_APPCODE_OFFSET as int) == flash.take(
            SLAVE_APPCODE_OFFSET as int,
        ),
    decreases steps.len(),
{
    if steps.len() > 0 {
        let rest = steps.drop_first();
        let after = match steps[0] {
            Step::Send(frame) => flash_after(flash, frame),
            _ => flash,
        };
        assert(stays_clear(steps[0]));
        assert(after.take(SLAVE_APPCODE_OFFSET as int) =~= flash.take(SLAVE_APPCODE_OFFSET as int));
        assert forall|i: int| 0 <= i < rest.len() implies stays_clear(#[trigger] rest[i]) by {
            assert(rest[i] == steps[i + 1]);
        }
        clear_steps_spare_the_boot_loader(after, rest);
    }
}

/// No boot or reboot, however it goes, changes the flash in front of the application, where the boot
/// loader is.
pub proof fn boot_spares_the_boot_loader(
    flash: Seq<u8>,
    conversation: Conversation,
    inputs: Inputs,
)
    requires
        flash.len() == FLASH_SIZE,
        conversation.steps == boot_steps(conversation.image) || conversation.steps == reboot_steps(
            conversation.image,
        ),
        conversation.admits(inputs),
    ensures
        flash_after_steps(flash, conversation.carried_out(inputs)).take(
            SLAVE_APPCODE_OFFSET as int,
        ) == flash.take(SLAVE_APPCODE_OFFSET as int),
{
    if conversation.steps == boot_steps(conversation.image) {
        boot_stays_clear(conversation, inputs);
        clear_steps_spare_the_boot_loader(flash, conversation.carried_out(inputs));
    } else if inputs.len() >= 2 {
        let off = conversation.carried_out(inputs.take(2));
        let middle = conversation.run(inputs.take(2));
        let later = middle.carried_out(inputs.skip(2));
        reboot_is_a_boot_from_power_off(conversation, inputs);
        held_in_two_parts(conversation, inputs, 2);
        assert(flash_after_steps(flash, off) == flash) by {
            reveal_with_fuel(flash_after_steps, 3);
        }
        flash_after_concat(flash, off, later);
        boot_stays_clear(middle, inputs.skip(2));
        clear_steps_spare_the_boot_loader(flash, later);
    } else if inputs.len() == 1 {
        reboot_step_by_step(conversation.image);
        let next = conversation.advance(inputs[0].0, inputs[0].1);
        assert(next.carried_out(inputs.drop_first()) =~= seq![]);
        assert(conversation.carried_out(inputs) =~= seq![Step::Power(false)]);
        reveal_with_fuel(flash_after_steps, 2);
    }
}

} // verus!
