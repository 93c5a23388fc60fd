//! What holds of every conversation with the boot loader.
use super::frame::{
    activation_reply, bare_frame, erase_frame, program_frame, read_frame, BootloaderCommand, Error,
    FLASH_PAGE_SIZE, FLASH_SECTOR_SIZE, FLASH_SIZE, SLAVE_APPCODE_OFFSET,
};
use super::script::{
    boot_steps, crc_offset, erase_steps, erases_from, first_sector, last_erased, page_count,
    page_data, pages_from, program_page_steps, program_slave_steps, program_steps, read_steps,
    ready_steps, reboot_steps, start_steps, verify_steps, wake_steps, Check, Conversation, Order, Seen, Step,
    Told,
};
use crate::bytes::{from_le16, from_le32, le16, le16_round_trip, le32, le32_round_trip};
use crate::time::Instant;
use vstd::prelude::*;

verus! {

/// What came of one step after the other, and when.
pub type Inputs = Seq<(Instant, Seen)>;

impl Conversation {
    /// The conversation when all of `inputs` have come.
    pub open spec fn run(self, inputs: Inputs) -> Conversation
        decreases inputs.len(),
    {
        if inputs.len() == 0 {
            self
        } else {
            self.advance(inputs[0].0, inputs[0].1).run(inputs.drop_first())
        }
    }

    /// Whether each of `inputs` can come of the step under way then.
    pub open spec fn admits(self, inputs: Inputs) -> bool
        decreases inputs.len(),
    {
        inputs.len() == 0 || self.expects(inputs[0].1) && self.advance(
            inputs[0].0,
            inputs[0].1,
        ).admits(inputs.drop_first())
    }

    /// The steps that were under way as `inputs` came, without those of waiting.
    pub open spec fn carried_out(self, inputs: Inputs) -> Seq<Step>
        decreases inputs.len(),
    {
        if inputs.len() == 0 {
            seq![]
        } else {
            quiet_step(self.steps[0]) + self.advance(inputs[0].0, inputs[0].1).carried_out(
                inputs.drop_first(),
            )
        }
    }
}

/// `step`, unless it is one of waiting.
pub open spec fn quiet_step(step: Step) -> Seq<Step> {
    if step is Ask || step is Answer {
        seq![]
    } else {
        seq![step]
    }
}

/// `steps` without those of waiting.
pub open spec fn quiet(steps: Seq<Step>) -> Seq<Step>
    decreases steps.len(),
{
    if steps.len() == 0 {
        seq![]
    } else {
        quiet_step(steps[0]) + quiet(steps.drop_first())
    }
}

pub(super) proof fn quiet_concat(a: Seq<Step>, b: Seq<Step>)
    ensures
        quiet(a + b) == quiet(a) + quiet(b),
    decreases a.len(),
{
    if a.len() == 0 {
        assert(a + b =~= b);
        assert(quiet(a) + quiet(b) =~= quiet(b));
    } else {
        quiet_concat(a.drop_first(), b);
        assert((a + b).drop_first() =~= a.drop_first() + b);
        assert(quiet_step(a[0]) + (quiet(a.drop_first()) + quiet(b)) =~= quiet_step(a[0]) + quiet(
            a.drop_first(),
        ) + quiet(b));
    }
}

/// Whether none of `steps` decides on programming.
pub open spec fn no_crc_check(steps: Seq<Step>) -> bool {
    forall|i: int|
        0 <= i < steps.len() ==> !(#[trigger] steps[i] matches Step::Receive(_, Check::StoredCrc))
}

/// Once a conversation has failed it stays so.
pub(super) proof fn failure_lasts(conversation: Conversation, inputs: Inputs)
    requires
        conversation.steps.len() > 0,
        conversation.steps[0] is Fail,
        conversation.admits(inputs),
    ensures
        conversation.run(inputs).steps.len() > 0,
{
}

/// A conversation without a decision on programming that comes to a good end has gone through all
/// its steps, in order.
pub proof fn good_end_means_all_steps(conversation: Conversation, inputs: Inputs)
    requires
        no_crc_check(conversation.steps),
        conversation.admits(inputs),
        conversation.run(inputs).steps.len() == 0,
    ensures
        conversation.carried_out(inputs) == quiet(conversation.steps),
    decreases inputs.len(),
{
    if inputs.len() > 0 {
        let (now, seen) = inputs[0];
        let rest = conversation.steps.drop_first();
        let next = conversation.advance(now, seen);
        if next.steps.len() > 0 && next.steps[0] is Fail {
            failure_lasts(next, inputs.drop_first());
        } else {
            assert(next.steps == rest || (conversation.steps[0] is Answer && next.steps
                == ready_steps() + rest));
            assert(no_crc_check(next.steps)) by {
                assert forall|i: int| 0 <= i < rest.len() implies !(#[trigger] rest[i] matches Step::Receive(
                    _,
                    Check::StoredCrc,
                )) by {
                    assert(rest[i] == conversation.steps[i + 1]);
                }
            }
            good_end_means_all_steps(next, inputs.drop_first());
            if next.steps != rest {
                quiet_concat(ready_steps(), rest);
                assert(quiet(ready_steps()) =~= seq![]) by {
                    reveal_with_fuel(quiet, 3);
                }
                assert(quiet(next.steps) =~= quiet(rest));
            }
        }
    }
}

/// Whether `step` is neither one of waiting nor a decision on programming nor a failure.
pub open spec fn straight(step: Step) -> bool {
    match step {
        Step::Ask | Step::Answer | Step::Fail(_) => false,
        Step::Receive(_, Check::StoredCrc) => false,
        _ => true,
    }
}

/// A conversation that comes to a good end goes through the steps that it starts with, one input
/// each.
pub(super) proof fn goes_through(conversation: Conversation, inputs: Inputs, front: Seq<Step>, back: Seq<Step>)
    requires
        conversation.steps == front + back,
        forall|i: int| 0 <= i < front.len() ==> straight(#[trigger] front[i]),
        conversation.admits(inputs),
        conversation.run(inputs).steps.len() == 0,
    ensures
        inputs.len() >= front.len(),
        ({
            let later = inputs.skip(front.len() as int);
            let middle = conversation.run(inputs.take(front.len() as int));
            &&& middle.steps == back
            &&& middle.image == conversation.image
            &&& middle.crc == conversation.crc
            &&& middle.admits(later)
            &&& middle.run(later).steps.len() == 0
            &&& conversation.carried_out(inputs.take(front.len() as int)) == front
            &&& conversation.carried_out(inputs) == front + middle.carried_out(later)
        }),
    decreases front.len(),
{
    let n = front.len() as int;
    if n == 0 {
        assert(front + back =~= back);
        assert(inputs.skip(0) =~= inputs);
        assert(front + conversation.carried_out(inputs) =~= conversation.carried_out(inputs));
    } else {
        assert(conversation.steps[0] == front[0]);
        assert(straight(front[0]));
        assert(conversation.steps.len() > 0);
        assert(inputs.len() > 0);
        let (now, seen) = inputs[0];
        let next = conversation.advance(now, seen);
        if next.steps.len() > 0 && next.steps[0] is Fail && next.steps
            != conversation.steps.drop_first() {
            failure_lasts(next, inputs.drop_first());
        } else {
            let front1 = front.drop_first();
            let inputs1 = inputs.drop_first();
            assert(next.steps =~= front1 + back);
            assert forall|i: int| 0 <= i < front1.len() implies straight(#[trigger] front1[i]) by {
                assert(front1[i] == front[i + 1]);
            }
            goes_through(next, inputs1, front1, back);
            assert(inputs1.skip(n - 1) =~= inputs.skip(n));
            assert(inputs.take(n).drop_first() =~= inputs1.take(n - 1));
            assert(inputs.take(n)[0] == inputs[0]);
            let middle = next.run(inputs1.take(n - 1));
            assert(middle == conversation.run(inputs.take(n)));
            assert(seq![front[0]] + front1 =~= front);
            assert(seq![front[0]] + (front1 + middle.carried_out(inputs.skip(n))) =~= front
                + middle.carried_out(inputs.skip(n)));
        }
    }
}

proof fn no_crc_check_concat(a: Seq<Step>, b: Seq<Step>)
    requires
        no_crc_check(a),
        no_crc_check(b),
    ensures
        no_crc_check(a + b),
{
    let both = a + b;
    assert forall|i: int| 0 <= i < both.len() implies !(#[trigger] both[i] matches Step::Receive(
        _,
        Check::StoredCrc,
    )) by {
        if i < a.len() {
            assert(both[i] == a[i]);
        } else {
            assert(both[i] == b[i - a.len()]);
        }
    }
}

proof fn erases_have_no_crc_check(len: nat, k: int)
    ensures
        no_crc_check(erases_from(len, k)),
    decreases last_erased(len) + 1 - k,
{
    if k <= last_erased(len) {
        erases_have_no_crc_check(len, k + 1);
        no_crc_check_concat(erase_steps(first_sector() + k), erases_from(len, k + 1));
    }
}

proof fn pages_have_no_crc_check(offset: int, data: Seq<u8>, crc: u32, k: int)
    ensures
        no_crc_check(pages_from(offset, data, crc, k)),
    decreases page_count(data.len()) + 1 - k,
{
    if k <= page_count(data.len()) {
        pages_have_no_crc_check(offset, data, crc, k + 1);
        no_crc_check_concat(
            program_page_steps(offset + FLASH_PAGE_SIZE * k, page_data(data, crc, k)),
            pages_from(offset, data, crc, k + 1),
        );
    }
}

pub(super) proof fn program_has_no_crc_check(image: Seq<u8>, crc: u32)
    ensures
        no_crc_check(start_steps()),
        no_crc_check(program_slave_steps(image, crc) + start_steps()),
{
    let program = program_steps(SLAVE_APPCODE_OFFSET as int, image, crc);
    erases_have_no_crc_check(image.len(), 0);
    pages_have_no_crc_check(SLAVE_APPCODE_OFFSET as int, image, crc, 0);
    no_crc_check_concat(erases_from(image.len(), 0), program);
    no_crc_check_concat(program_slave_steps(image, crc), start_steps());
}

/// A boot that comes to a good end gets to the checksum that stands in flash, and that decides on
/// what it does next.
proof fn gets_to_the_checksum(conversation: Conversation, inputs: Inputs)
    requires
        conversation.steps == boot_steps(conversation.image),
        conversation.admits(inputs),
        conversation.run(inputs).steps.len() == 0,
    ensures
        inputs.len() > 7,
        inputs[7].1 is Received,
        ({
            let image = conversation.image;
            let crc = conversation.crc;
            let next = conversation.run(inputs.take(8));
            let rest = inputs.skip(8);
            &&& next.steps == if from_le32(inputs[7].1->Received_0) == crc {
                start_steps()
            } else {
                program_slave_steps(image, crc) + start_steps()
            }
            &&& next.admits(rest)
            &&& next.run(rest).steps.len() == 0
            &&& conversation.carried_out(inputs) == wake_steps() + read_steps(
                crc_offset(image.len()) as u32,
                4,
                Check::StoredCrc,
            ) + next.carried_out(rest)
        }),
{
    let image = conversation.image;
    let request = Step::Send(read_frame(crc_offset(image.len()) as u32, 4));
    let check = Step::Receive(4, Check::StoredCrc);
    let front = wake_steps().push(request);
    let back = seq![check] + start_steps();
    assert(boot_steps(image) =~= front + back);
    goes_through(conversation, inputs, front, back);
    let middle = conversation.run(inputs.take(7));
    let later = inputs.skip(7);
    assert(middle.steps[0] == check);
    assert(later.len() > 0);
    assert(later[0] == inputs[7]);
    let next = middle.advance(later[0].0, later[0].1);
    let rest = inputs.skip(8);
    assert(later.drop_first() =~= rest);
    if !(later[0].1 is Received) {
        failure_lasts(next, rest);
    }
    assert(middle.steps.drop_first() =~= start_steps());
    held_in_two_parts(conversation, inputs.take(8), 7);
    assert(inputs.take(8).take(7) =~= inputs.take(7));
    assert(inputs.take(8).skip(7) =~= seq![inputs[7]]);
    assert(seq![inputs[7]].drop_first() =~= seq![]);
    reveal_with_fuel(Conversation::run, 2);
    assert(conversation.run(inputs.take(8)) == next);
    assert(middle.carried_out(later) == seq![check] + next.carried_out(rest));
    assert(front + (seq![check] + next.carried_out(rest)) =~= wake_steps() + seq![request, check]
        + next.carried_out(rest));
}

/// A boot that comes to a good end has woken the boot loader and read the checksum that stands in
/// flash. If that is the firmware's, it has then started the application; if not, it has first
/// erased, programmed and read back everything that the firmware needs.
pub proof fn good_boot_leaves_nothing_out(conversation: Conversation, inputs: Inputs)
    requires
        conversation.steps == boot_steps(conversation.image),
        conversation.admits(inputs),
        conversation.run(inputs).steps.len() == 0,
    ensures
        inputs.len() > 7,
        inputs[7].1 matches Seen::Received(stored) && conversation.carried_out(inputs)
            == wake_steps() + read_steps(
            crc_offset(conversation.image.len()) as u32,
            4,
            Check::StoredCrc,
        ) + (if from_le32(stored) == conversation.crc {
            seq![]
        } else {
            quiet(program_slave_steps(conversation.image, conversation.crc))
        }) + start_steps(),
{
    let image = conversation.image;
    let crc = conversation.crc;
    let program = program_slave_steps(image, crc);
    let next = conversation.run(inputs.take(8));
    let rest = inputs.skip(8);
    gets_to_the_checksum(conversation, inputs);
    program_has_no_crc_check(image, crc);
    good_end_means_all_steps(next, rest);
    quiet_concat(program, start_steps());
    assert(quiet(start_steps()) =~= start_steps()) by {
        reveal_with_fuel(quiet, 4);
    }
    let read = wake_steps() + read_steps(crc_offset(image.len()) as u32, 4, Check::StoredCrc);
    assert(read + (quiet(program) + start_steps()) =~= read + quiet(program) + start_steps());
    assert(read + start_steps() =~= read + seq![] + start_steps());
}

/// A transfer that is late or fails ends the conversation with that error, and nothing is sent any
/// more.
pub proof fn failed_transfer_ends_it(conversation: Conversation, now: Instant, seen: Seen)
    requires
        conversation.expects(seen),
        seen is TimedOut || seen is Failed,
    ensures
        conversation.advance(now, seen).order(now) == Order::Finish(
            Err(
                if seen is TimedOut {
                    Error::Timeout
                } else {
                    Error::UnexpectedEof
                },
            ),
        ),
        forall|later: Seen| !conversation.advance(now, seen).expects(later),
{
}

/// A boot loader that greets wrongly, or reads a page back otherwise than it was programmed, ends the
/// conversation with that error, and nothing is sent any more.
pub proof fn wrong_reply_ends_it(conversation: Conversation, now: Instant, bytes: Seq<u8>)
    requires
        conversation.expects(Seen::Received(bytes)),
        match conversation.steps[0] {
            Step::Receive(_, Check::Activation) => bytes != activation_reply(),
            Step::Receive(_, Check::Page(data)) => bytes.take(data.len() as int) != data,
            _ => false,
        },
    ensures
        conversation.advance(now, Seen::Received(bytes)).order(now) == Order::Finish(
            Err(
                match conversation.steps[0] {
                    Step::Receive(_, Check::Activation) => Error::Activation,
                    _ => Error::Verification,
                },
            ),
        ),
        forall|later: Seen| !conversation.advance(now, Seen::Received(bytes)).expects(later),
{
}

/// Waiting for the boot loader ends in time: asking again does not put off the end of the wait, and
/// each question and each answer has until then.
pub proof fn asking_again_gains_no_time(conversation: Conversation, now: Instant, seen: Seen)
    requires
        conversation.expects(seen),
        conversation.steps[0] is Answer || (conversation.steps.len() > 1
            && conversation.steps[0] is Ask && conversation.steps[1] is Answer),
    ensures
        conversation.advance(now, seen).wait_until == conversation.wait_until,
        conversation.order(now) == match conversation.steps[0] {
            Step::Ask => Order::Write(
                bare_frame(BootloaderCommand::ReadyBusy),
                conversation.wait_until,
            ),
            _ => Order::Read(1, conversation.wait_until),
        },
{
}

/// Waiting that follows a frame has the whole timeout from when the frame was out.
pub proof fn wait_has_the_whole_timeout(conversation: Conversation, now: Instant)
    requires
        conversation.steps.len() > 1,
        conversation.steps[0] is Send,
        conversation.steps[1] is Ask,
    ensures
        conversation.advance(now, Seen::Done).wait_until == now.plus(conversation.timeout),
{
}

/// Whether any of `steps` gives up.
pub open spec fn has_failure(steps: Seq<Step>) -> bool {
    exists|i: int| 0 <= i < steps.len() && #[trigger] steps[i] is Fail
}

proof fn has_failure_concat(a: Seq<Step>, b: Seq<Step>)
    ensures
        has_failure(a + b) == (has_failure(a) || has_failure(b)),
{
    if has_failure(a) {
        let i = choose|i: int| 0 <= i < a.len() && #[trigger] a[i] is Fail;
        assert((a + b)[i] is Fail);
    }
    if has_failure(b) {
        let i = choose|i: int| 0 <= i < b.len() && #[trigger] b[i] is Fail;
        assert((a + b)[a.len() + i] is Fail);
    }
    if has_failure(a + b) {
        let i = choose|i: int| 0 <= i < (a + b).len() && #[trigger] (a + b)[i] is Fail;
        if i < a.len() {
            assert(a[i] is Fail);
        } else {
            assert(b[i - a.len()] is Fail);
        }
    }
}

/// A conversation with a step that gives up never comes to a good end.
proof fn failure_is_met(conversation: Conversation, inputs: Inputs)
    requires
        no_crc_check(conversation.steps),
        has_failure(conversation.steps),
        conversation.admits(inputs),
    ensures
        conversation.run(inputs).steps.len() > 0,
    decreases inputs.len(),
{
    if inputs.len() > 0 {
        let (now, seen) = inputs[0];
        let rest = conversation.steps.drop_first();
        let next = conversation.advance(now, seen);
        let i = choose|i: int|
            0 <= i < conversation.steps.len() && #[trigger] conversation.steps[i] is Fail;
        assert(rest[i - 1] is Fail);
        assert(has_failure(rest));
        if next.steps.len() > 0 && next.steps[0] is Fail {
            failure_lasts(next, inputs.drop_first());
        } else {
            assert(next.steps == rest || next.steps == ready_steps() + rest);
            has_failure_concat(ready_steps(), rest);
            assert forall|j: int| 0 <= j < rest.len() implies !(#[trigger] rest[j] matches Step::Receive(
                _,
                Check::StoredCrc,
            )) by {
                assert(rest[j] == conversation.steps[j + 1]);
            }
            no_crc_check_concat(ready_steps(), rest);
            failure_is_met(next, inputs.drop_first());
        }
    }
}

pub(super) proof fn erases_fail(len: nat, k: int)
    requires
        0 <= k <= last_erased(len) + 1,
    ensures
        has_failure(erases_from(len, k)) <==> k <= last_erased(len) && (first_sector() + last_erased(
            len,
        )) * FLASH_SECTOR_SIZE >= FLASH_SIZE,
    decreases last_erased(len) + 1 - k,
{
    if k <= last_erased(len) {
        let first = erase_steps(first_sector() + k);
        erases_fail(len, k + 1);
        has_failure_concat(first, erases_from(len, k + 1));
        assert(has_failure(first) <==> (first_sector() + k) * FLASH_SECTOR_SIZE >= FLASH_SIZE) by {
            if (first_sector() + k) * FLASH_SECTOR_SIZE >= FLASH_SIZE {
                assert(first[0] is Fail);
            }
        }
    }
}

proof fn page_fails(offset: int, data: Seq<u8>)
    requires
        0 <= offset,
        offset % (FLASH_PAGE_SIZE as int) == 0,
        data.len() <= FLASH_PAGE_SIZE,
    ensures
        has_failure(program_page_steps(offset, data)) <==> offset >= FLASH_SIZE,
{
    let steps = program_page_steps(offset, data);
    if offset >= FLASH_SIZE {
        assert(steps[0] is Fail);
    } else {
        let verify = verify_steps(offset / (FLASH_PAGE_SIZE as int), data);
        let frame = seq![Step::Send(program_frame(offset as u32, data))];
        has_failure_concat(frame + ready_steps(), verify);
        has_failure_concat(frame, ready_steps());
    }
}

proof fn pages_fail(image: Seq<u8>, crc: u32, k: int)
    requires
        0 <= k <= page_count(image.len()) + 1,
    ensures
        has_failure(pages_from(SLAVE_APPCODE_OFFSET as int, image, crc, k)) <==> k <= page_count(
            image.len(),
        ) && crc_offset(image.len()) >= FLASH_SIZE,
    decreases page_count(image.len()) + 1 - k,
{
    if k <= page_count(image.len()) {
        let offset = SLAVE_APPCODE_OFFSET + FLASH_PAGE_SIZE * k;
        let data = page_data(image, crc, k);
        assert(data.len() <= FLASH_PAGE_SIZE);
        pages_fail(image, crc, k + 1);
        has_failure_concat(
            program_page_steps(offset, data),
            pages_from(SLAVE_APPCODE_OFFSET as int, image, crc, k + 1),
        );
        page_fails(offset, data);
    } else {
        assert(pages_from(SLAVE_APPCODE_OFFSET as int, image, crc, k).len() == 0);
    }
}

/// Programming has to give up if and only if the checksum would not be within flash.
pub proof fn firmware_fits_or_is_refused(image: Seq<u8>, crc: u32)
    ensures
        has_failure(program_slave_steps(image, crc)) <==> crc_offset(image.len()) >= FLASH_SIZE,
{
    let program = program_steps(SLAVE_APPCODE_OFFSET as int, image, crc);
    has_failure_concat(erases_from(image.len(), 0), program);
    erases_fail(image.len(), 0);
    pages_fail(image, crc, 0);
    if SLAVE_APPCODE_OFFSET + image.len() > FLASH_SIZE {
        assert(program[0] is Fail);
    }
}

/// Booting with a firmware that is too large for the flash comes to a good end only if its
/// checksum is found all the same.
pub proof fn oversized_firmware_is_not_programmed(conversation: Conversation, inputs: Inputs)
    requires
        conversation.steps == boot_steps(conversation.image),
        crc_offset(conversation.image.len()) >= FLASH_SIZE,
        conversation.admits(inputs),
        conversation.run(inputs).steps.len() == 0,
    ensures
        inputs.len() > 7,
        inputs[7].1 matches Seen::Received(stored) && from_le32(stored) == conversation.crc,
{
    let image = conversation.image;
    let crc = conversation.crc;
    gets_to_the_checksum(conversation, inputs);
    if from_le32(inputs[7].1->Received_0) != crc {
        program_has_no_crc_check(image, crc);
        firmware_fits_or_is_refused(image, crc);
        has_failure_concat(program_slave_steps(image, crc), start_steps());
        failure_is_met(conversation.run(inputs.take(8)), inputs.skip(8));
    }
}

/// A conversation can be held in two parts.
pub(super) proof fn held_in_two_parts(conversation: Conversation, inputs: Inputs, k: int)
    requires
        0 <= k <= inputs.len(),
    ensures
        ({
            let middle = conversation.run(inputs.take(k));
            let later = inputs.skip(k);
            &&& conversation.run(inputs) == middle.run(later)
            &&& conversation.admits(inputs) ==> conversation.admits(inputs.take(k))
                && middle.admits(later)
            &&& conversation.carried_out(inputs) == conversation.carried_out(inputs.take(k))
                + middle.carried_out(later)
            &&& middle.image == conversation.image
            &&& middle.crc == conversation.crc
        }),
    decreases k,
{
    if k == 0 {
        assert(inputs.skip(0) =~= inputs);
        assert(conversation.carried_out(inputs.take(0)) + conversation.carried_out(inputs)
            =~= conversation.carried_out(inputs));
    } else {
        let next = conversation.advance(inputs[0].0, inputs[0].1);
        let rest = inputs.drop_first();
        let first = quiet_step(conversation.steps[0]);
        held_in_two_parts(next, rest, k - 1);
        assert(inputs.take(k).drop_first() =~= rest.take(k - 1));
        assert(inputs.take(k)[0] == inputs[0]);
        assert(rest.skip(k - 1) =~= inputs.skip(k));
        let middle = next.run(rest.take(k - 1));
        assert(first + (next.carried_out(rest.take(k - 1)) + middle.carried_out(inputs.skip(k)))
            =~= first + next.carried_out(rest.take(k - 1)) + middle.carried_out(inputs.skip(k)));
    }
}

/// A conversation that comes to a good end gets behind the steps that it starts with; returns after
/// how many inputs.
pub(super) proof fn gets_behind(
    conversation: Conversation,
    inputs: Inputs,
    front: Seq<Step>,
    back: Seq<Step>,
) -> (k: int)
    requires
        conversation.steps == front + back,
        no_crc_check(front),
        conversation.admits(inputs),
        conversation.run(inputs).steps.len() == 0,
    ensures
        0 <= k <= inputs.len(),
        conversation.run(inputs.take(k)).steps == back,
    decreases inputs.len(),
{
    if front.len() == 0 {
        assert(front + back =~= back);
        0
    } else {
        assert(conversation.steps[0] == front[0]);
        let (now, seen) = inputs[0];
        let next = conversation.advance(now, seen);
        let rest = front.drop_first();
        let later = inputs.drop_first();
        assert(conversation.steps.drop_first() =~= rest + back);
        assert forall|i: int| 0 <= i < rest.len() implies !(#[trigger] rest[i] matches Step::Receive(
            _,
            Check::StoredCrc,
        )) by {
            assert(rest[i] == front[i + 1]);
        }
        let k1 = if next.steps == rest + back {
            gets_behind(next, later, rest, back)
        } else if next.steps.len() > 0 && next.steps[0] is Fail {
            failure_lasts(next, later);
            0
        } else {
            assert(next.steps =~= ready_steps() + rest + back);
            no_crc_check_concat(ready_steps(), rest);
            gets_behind(next, later, ready_steps() + rest, back)
        };
        assert(inputs.take(k1 + 1).drop_first() =~= later.take(k1));
        assert(inputs.take(k1 + 1)[0] == inputs[0]);
        k1 + 1
    }
}

/// Whether `step` neither switches the second board off nor erases or programs anything in front of
/// the application or behind the end of the flash.
pub open spec fn stays_clear(step: Step) -> bool {
    match step {
        Step::Power(on) => on,
        Step::Send(frame) => {
            &&& frame[0] == 0x30 ==> 0x8000 <= from_le16(frame.skip(1)) * 4096 && (from_le16(
                frame.skip(1),
            ) + 1) * 4096 <= 0x40_0000
            &&& frame[0] == 0x20 ==> 0x8000 <= from_le32(frame.skip(1)) <= 0x40_0000 - 256
        },
        _ => true,
    }
}

/// Whether each of `steps` stays clear.
pub open spec fn all_stay_clear(steps: Seq<Step>) -> bool {
    forall|i: int| 0 <= i < steps.len() ==> stays_clear(#[trigger] steps[i])
}

proof fn all_stay_clear_concat(a: Seq<Step>, b: Seq<Step>)
    requires
        all_stay_clear(a),
        all_stay_clear(b),
    ensures
        all_stay_clear(a + b),
{
    let both = a + b;
    assert forall|i: int| 0 <= i < both.len() implies stays_clear(#[trigger] both[i]) by {
        if i < a.len() {
            assert(both[i] == a[i]);
        } else {
            assert(both[i] == b[i - a.len()]);
        }
    }
}

proof fn erases_stay_clear(len: nat, k: int)
    requires
        0 <= k,
    ensures
        all_stay_clear(erases_from(len, k)),
    decreases last_erased(len) + 1 - k,
{
    if k <= last_erased(len) {
        let sector = first_sector() + k;
        erases_stay_clear(len, k + 1);
        if sector * FLASH_SECTOR_SIZE < FLASH_SIZE {
            assert(erase_frame(sector as u16).skip(1) =~= le16(sector as u16));
            le16_round_trip(sector as u16);
        }
        assert(all_stay_clear(erase_steps(sector)));
        all_stay_clear_concat(erase_steps(sector), erases_from(len, k + 1));
    }
}

proof fn pages_stay_clear(image: Seq<u8>, crc: u32, k: int)
    requires
        0 <= k,
    ensures
        all_stay_clear(pages_from(SLAVE_APPCODE_OFFSET as int, image, crc, k)),
    decreases page_count(image.len()) + 1 - k,
{
    if k <= page_count(image.len()) {
        let offset = SLAVE_APPCODE_OFFSET + FLASH_PAGE_SIZE * k;
        let data = page_data(image, crc, k);
        let first = program_page_steps(offset, data);
        pages_stay_clear(image, crc, k + 1);
        if offset < FLASH_SIZE {
            let frame = program_frame(offset as u32, data);
            assert(from_le32(frame.skip(1)) == from_le32(le32(offset as u32)));
            le32_round_trip(offset as u32);
            assert(all_stay_clear(seq![Step::Send(frame)]));
            all_stay_clear_concat(seq![Step::Send(frame)], ready_steps());
            all_stay_clear_concat(
                seq![Step::Send(frame)] + ready_steps(),
                verify_steps(offset / (FLASH_PAGE_SIZE as int), data),
            );
        }
        all_stay_clear_concat(
            first,
            pages_from(SLAVE_APPCODE_OFFSET as int, image, crc, k + 1),
        );
    }
}

/// No step of programming a firmware erases or programs anything in front of the application or
/// behind the end of the flash, however large the firmware.
pub proof fn programming_spares_the_boot_loader(image: Seq<u8>, crc: u32)
    ensures
        all_stay_clear(program_slave_steps(image, crc)),
{
    erases_stay_clear(image.len(), 0);
    pages_stay_clear(image, crc, 0);
    all_stay_clear_concat(
        erases_from(image.len(), 0),
        program_steps(SLAVE_APPCODE_OFFSET as int, image, crc),
    );
}

/// A conversation whose steps stay clear goes through such steps only.
proof fn run_stays_clear(conversation: Conversation, inputs: Inputs)
    requires
        all_stay_clear(conversation.steps),
        conversation.admits(inputs),
    ensures
        all_stay_clear(conversation.carried_out(inputs)),
    decreases inputs.len(),
{
    if inputs.len() > 0 {
        let (now, seen) = inputs[0];
        let next = conversation.advance(now, seen);
        let rest = conversation.steps.drop_first();
        let program = program_slave_steps(conversation.image, conversation.crc);
        assert forall|i: int| 0 <= i < rest.len() implies stays_clear(#[trigger] rest[i]) by {
            assert(rest[i] == conversation.steps[i + 1]);
        }
        programming_spares_the_boot_loader(conversation.image, conversation.crc);
        all_stay_clear_concat(program, rest);
        all_stay_clear_concat(ready_steps(), rest);
        assert(all_stay_clear(next.steps));
        run_stays_clear(next, inputs.drop_first());
        all_stay_clear_concat(
            quiet_step(conversation.steps[0]),
            next.carried_out(inputs.drop_first()),
        );
    }
}

/// No boot, however it goes and however large the firmware, switches the second board off, or erases
/// or programs anything in front of the application or behind the end of the flash.
pub proof fn boot_stays_clear(conversation: Conversation, inputs: Inputs)
    requires
        conversation.steps == boot_steps(conversation.image),
        conversation.admits(inputs),
    ensures
        all_stay_clear(conversation.carried_out(inputs)),
{
    assert(all_stay_clear(conversation.steps));
    run_stays_clear(conversation, inputs);
}

/// Whether the second board has power when `steps` have been carried out, if it had it as `powered`
/// says before.
pub open spec fn power_after(powered: bool, steps: Seq<Step>) -> bool
    decreases steps.len(),
{
    if steps.len() == 0 {
        powered
    } else {
        match steps.last() {
            Step::Power(on) => on,
            _ => power_after(powered, steps.drop_last()),
        }
    }
}

proof fn power_stays_on(powered: bool, steps: Seq<Step>)
    requires
        all_stay_clear(steps),
        powered || steps.len() > 0 && steps[0] is Power,
    ensures
        power_after(powered, steps),
    decreases steps.len(),
{
    if steps.len() > 0 {
        let fewer = steps.drop_last();
        assert(stays_clear(steps.last()));
        if steps.last() !is Power {
            assert(all_stay_clear(fewer)) by {
                assert forall|i: int| 0 <= i < fewer.len() implies stays_clear(
                    #[trigger] fewer[i],
                ) by {
                    assert(fewer[i] == steps[i]);
                }
            }
            power_stays_on(powered, fewer);
        }
    }
}

/// A boot that has begun leaves the second board switched on, however it goes. Booting it again
/// then does nothing: only a reboot tries again.
pub proof fn boot_leaves_the_power_on(
    conversation: Conversation,
    inputs: Inputs,
    powered: bool,
    now: Instant,
)
    requires
        conversation.steps == boot_steps(conversation.image),
        conversation.admits(inputs),
        inputs.len() > 0,
    ensures
        power_after(powered, conversation.carried_out(inputs)),
        conversation.run(inputs).begun(now, seq![]).order(now) == Order::Finish(Ok(Told::Nothing)),
{
    boot_stays_clear(conversation, inputs);
    power_stays_on(powered, conversation.carried_out(inputs));
}

/// A reboot switches the second board off before anything else, and then boots it.
pub proof fn reboot_is_a_boot_from_power_off(conversation: Conversation, inputs: Inputs)
    requires
        conversation.steps == reboot_steps(conversation.image),
        conversation.admits(inputs),
        inputs.len() >= 2,
    ensures
        conversation.carried_out(inputs.take(2)) == seq![Step::Power(false), Step::Sleep(100)],
        conversation.run(inputs.take(2)).steps == boot_steps(conversation.image),
        conversation.run(inputs.take(2)).admits(inputs.skip(2)),
        conversation.carried_out(inputs) == conversation.carried_out(inputs.take(2))
            + conversation.run(inputs.take(2)).carried_out(inputs.skip(2)),
{
    let boot = boot_steps(conversation.image);
    let steps = conversation.steps;
    let first = conversation.advance(inputs[0].0, inputs[0].1);
    let start = inputs.take(2);
    assert(steps[0] == Step::Power(false));
    assert(steps.drop_first() =~= seq![Step::Sleep(100)] + boot);
    assert(steps.drop_first().drop_first() =~= boot);
    held_in_two_parts(conversation, inputs, 2);
    assert(first.admits(start.drop_first()));
    assert(start.drop_first()[0] == inputs[1]);
    assert(start.drop_first().drop_first() =~= seq![]);
    reveal_with_fuel(Conversation::run, 3);
    reveal_with_fuel(Conversation::carried_out, 3);
    assert(conversation.carried_out(start) =~= seq![Step::Power(false), Step::Sleep(100)]);
}

} // verus!
