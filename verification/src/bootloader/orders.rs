//! What the second board gets to see of a conversation, and what its replies bring about.
use super::frame::{
    bare_frame, bare_frame_is_one_byte, erase_frame, erase_frame_is_laid_out_so, program_frame,
    program_frame_is_laid_out_so, read_frame, read_frame_is_laid_out_so, BootloaderCommand, Error,
    FLASH_PAGE_SIZE, FLASH_SECTOR_SIZE, FLASH_SIZE, SLAVE_APPCODE_OFFSET,
};
use super::laws::{
    erases_fail, has_failure, no_crc_check, program_has_no_crc_check, quiet, quiet_concat,
    quiet_step, straight, Inputs,
};
use super::script::{
    boot_steps, crc_offset, erase_steps, erases_from, first_sector, last_erased, page_count,
    page_data, pages_from, program_page_steps, program_slave_steps, program_steps, read_steps,
    ready_steps, reboot_steps, start_steps, verify_steps, wake_steps, Check, Conversation, Order,
    Seen, Step, Told,
};
use super::{image_fits, query_steps, Action, Event, Reply};
use crate::time::Instant;
use vstd::prelude::*;

verus! {

/// Each step is carried out as it says. A frame has the whole timeout to go out, and so has a reply to
/// come in; a question and its answer have what is left of the wait.
pub proof fn step_is_ordered_as_it_says(conversation: Conversation, now: Instant)
    requires
        conversation.steps.len() > 0,
        now.ticks + conversation.timeout.ticks <= u64::MAX,
    ensures
        match conversation.steps[0] {
            Step::Power(on) => conversation.order(now) == Order::SetPower(on),
            Step::Sleep(millis) => conversation.order(now) == Order::Sleep(millis),
            Step::Drain => conversation.order(now) == Order::Drain,
            Step::DrainFor(millis) => conversation.order(now) == Order::DrainFor(millis),
            Step::Send(frame) => conversation.order(now) matches Order::Write(bytes, until) && bytes
                == frame && until.ticks == now.ticks + conversation.timeout.ticks,
            Step::Receive(len, _) => conversation.order(now) matches Order::Read(n, until) && n
                == len && until.ticks == now.ticks + conversation.timeout.ticks,
            Step::Ask => conversation.order(now) == Order::Write(
                seq![0x01u8],
                conversation.wait_until,
            ),
            Step::Answer => conversation.order(now) == Order::Read(1, conversation.wait_until),
            Step::Fail(error) => conversation.order(now) == Order::Finish(Err(error)),
        },
{
    bare_frame_is_one_byte(BootloaderCommand::ReadyBusy);
    assert(bare_frame(BootloaderCommand::ReadyBusy) =~= seq![0x01u8]);
}

/// With no step left, the conversation has come to a good end, and hands out what it was told.
pub proof fn last_step_is_followed_by_the_result(conversation: Conversation, now: Instant)
    requires
        conversation.steps.len() == 0,
    ensures
        conversation.order(now) == Order::Finish(Ok(conversation.told)),
{
}

/// Something that is only done is done, something that is sent is sent, late or failed, and
/// something that is received comes in whole, late or not at all; nothing else can come of a step,
/// and nothing of a conversation that is over.
pub proof fn every_outcome_is_taken(conversation: Conversation, bytes: Seq<u8>)
    ensures
        conversation.steps.len() == 0 ==> forall|seen: Seen| !conversation.expects(seen),
        conversation.steps.len() > 0 ==> match conversation.steps[0] {
            Step::Power(_) | Step::Sleep(_) | Step::Drain | Step::DrainFor(_) => {
                &&& conversation.expects(Seen::Done)
                &&& !conversation.expects(Seen::Received(bytes))
                &&& !conversation.expects(Seen::TimedOut)
                &&& !conversation.expects(Seen::Failed)
            },
            Step::Send(_) | Step::Ask => {
                &&& conversation.expects(Seen::Done)
                &&& !conversation.expects(Seen::Received(bytes))
                &&& conversation.expects(Seen::TimedOut)
                &&& conversation.expects(Seen::Failed)
            },
            Step::Receive(len, _) => {
                &&& !conversation.expects(Seen::Done)
                &&& conversation.expects(Seen::Received(bytes)) <==> bytes.len() == len
                &&& conversation.expects(Seen::TimedOut)
                &&& conversation.expects(Seen::Failed)
            },
            Step::Answer => {
                &&& !conversation.expects(Seen::Done)
                &&& conversation.expects(Seen::Received(bytes)) <==> bytes.len() == 1
                &&& conversation.expects(Seen::TimedOut)
                &&& conversation.expects(Seen::Failed)
            },
            Step::Fail(_) => {
                &&& !conversation.expects(Seen::Done)
                &&& !conversation.expects(Seen::Received(bytes))
                &&& !conversation.expects(Seen::TimedOut)
                &&& !conversation.expects(Seen::Failed)
            },
        },
{
}

/// Whatever comes of a step, the firmware, its checksum and the timeout stay what they are.
pub proof fn partner_stays_the_same(conversation: Conversation, now: Instant, seen: Seen)
    ensures
        conversation.advance(now, seen).image == conversation.image,
        conversation.advance(now, seen).crc == conversation.crc,
        conversation.advance(now, seen).timeout == conversation.timeout,
{
}

/// A step that was carried out is followed by the one behind it, and tells nothing.
pub proof fn done_step_is_left_behind(conversation: Conversation, now: Instant)
    requires
        conversation.expects(Seen::Done),
    ensures
        conversation.advance(now, Seen::Done).steps == conversation.steps.drop_first(),
        conversation.advance(now, Seen::Done).told == conversation.told,
{
}

/// A boot loader that is still busy is asked again, whatever is to be done behind the wait: the next
/// order is the question, with the deadline that the wait had, then its answer, and only then come
/// the steps that were left.
pub proof fn busy_boot_loader_is_asked_again(
    conversation: Conversation,
    now: Instant,
    later: Instant,
    bytes: Seq<u8>,
)
    requires
        conversation.steps.len() > 0,
        conversation.steps[0] is Answer,
        bytes.len() == 1,
        bytes[0] == 0,
    ensures
        ({
            let again = conversation.advance(now, Seen::Received(bytes));
            let asked = again.advance(later, Seen::Done);
            &&& again.order(now) == Order::Write(seq![0x01u8], conversation.wait_until)
            &&& asked.order(later) == Order::Read(1, conversation.wait_until)
            &&& asked.steps == conversation.steps
            &&& asked.told == conversation.told
        }),
{
    let again = conversation.advance(now, Seen::Received(bytes));
    assert(bare_frame(BootloaderCommand::ReadyBusy) =~= seq![0x01u8]);
    assert(again.steps[0] == Step::Ask);
    assert(again.steps.drop_first() =~= conversation.steps);
}

/// A boot loader that is ready, which is any answer but zero, lets the conversation go on behind the
/// wait.
pub proof fn ready_boot_loader_is_let_go_on(conversation: Conversation, now: Instant, bytes: Seq<u8>)
    requires
        conversation.steps.len() > 0,
        conversation.steps[0] is Answer,
        bytes.len() == 1,
        bytes[0] != 0,
    ensures
        conversation.advance(now, Seen::Received(bytes)).steps == conversation.steps.drop_first(),
        conversation.advance(now, Seen::Received(bytes)).told == conversation.told,
{
}

/// A wait has the whole timeout from when it starts, which is when the step in front of it is done;
/// any other step leaves the end of the wait alone.
pub proof fn wait_ends_one_timeout_after_it_starts(conversation: Conversation, now: Instant)
    requires
        conversation.expects(Seen::Done),
        now.ticks + conversation.timeout.ticks <= u64::MAX,
    ensures
        ({
            let next = conversation.advance(now, Seen::Done);
            if conversation.steps.len() > 1 && conversation.steps[1] is Ask {
                next.wait_until.ticks == now.ticks + conversation.timeout.ticks
            } else {
                next.wait_until == conversation.wait_until
            }
        }),
{
}

/// The greeting lets the conversation go on exactly if it is `pbt3`; else it ends with that error.
pub proof fn greeting_decides(conversation: Conversation, now: Instant, bytes: Seq<u8>)
    requires
        conversation.steps.len() > 0,
        conversation.steps[0] matches Step::Receive(_, Check::Activation),
        bytes.len() == 4,
    ensures
        ({
            let next = conversation.advance(now, Seen::Received(bytes));
            if bytes[0] == 0x70 && bytes[1] == 0x62 && bytes[2] == 0x74 && bytes[3] == 0x33 {
                next.steps == conversation.steps.drop_first()
            } else {
                next.order(now) == Order::Finish(Err(Error::Activation))
            }
        }),
{
    if bytes[0] == 0x70 && bytes[1] == 0x62 && bytes[2] == 0x74 && bytes[3] == 0x33 {
        assert(bytes =~= seq![0x70u8, 0x62u8, 0x74u8, 0x33u8]);
    }
}

/// A page that is read back lets the conversation go on exactly if it starts with what was
/// programmed; else it ends with that error.
pub proof fn page_read_back_decides(
    conversation: Conversation,
    now: Instant,
    data: Seq<u8>,
    bytes: Seq<u8>,
)
    requires
        conversation.steps.len() > 0,
        conversation.steps[0] == Step::Receive(256, Check::Page(data)),
        bytes.len() == 256,
        data.len() <= 256,
    ensures
        ({
            let next = conversation.advance(now, Seen::Received(bytes));
            if forall|b: int| 0 <= b < data.len() ==> #[trigger] bytes[b] == data[b] {
                next.steps == conversation.steps.drop_first()
            } else {
                next.order(now) == Order::Finish(Err(Error::Verification))
            }
        }),
{
    let start = bytes.take(data.len() as int);
    if forall|b: int| 0 <= b < data.len() ==> #[trigger] bytes[b] == data[b] {
        assert(start =~= data);
    } else if start == data {
        let b = choose|b: int| 0 <= b < data.len() && #[trigger] bytes[b] != data[b];
        assert(start[b] == bytes[b]);
    }
}

/// The checksum in flash, lowest byte first, lets the conversation go on exactly if it is the
/// firmware's; else the firmware is programmed first.
pub proof fn stored_checksum_decides(conversation: Conversation, now: Instant, bytes: Seq<u8>)
    requires
        conversation.steps.len() > 0,
        conversation.steps[0] == Step::Receive(4, Check::StoredCrc),
        bytes.len() == 4,
    ensures
        ({
            let next = conversation.advance(now, Seen::Received(bytes));
            let stored = bytes[0] + 0x100 * bytes[1] + 0x1_0000 * bytes[2] + 0x100_0000 * bytes[3];
            next.steps == if stored == conversation.crc {
                conversation.steps.drop_first()
            } else {
                program_slave_steps(conversation.image, conversation.crc)
                    + conversation.steps.drop_first()
            }
        }),
{
}

/// Nothing that comes in while booting is handed out at the end.
pub proof fn booting_hands_nothing_out(conversation: Conversation, now: Instant, seen: Seen)
    requires
        conversation.expects(seen),
        !(conversation.steps[0] matches Step::Receive(_, Check::ReadyFlag)),
        !(conversation.steps[0] matches Step::Receive(_, Check::HandOut)),
    ensures
        conversation.advance(now, seen).told == conversation.told,
{
}

/// A conversation begins with nothing told, and, if it begins with a wait, with the whole timeout for
/// that. One without steps is over at once.
pub proof fn conversation_begins_afresh(conversation: Conversation, now: Instant, steps: Seq<Step>)
    requires
        now.ticks + conversation.timeout.ticks <= u64::MAX,
    ensures
        ({
            let begun = conversation.begun(now, steps);
            &&& begun.steps == steps
            &&& begun.told == Told::Nothing
            &&& begun.image == conversation.image
            &&& begun.crc == conversation.crc
            &&& begun.timeout == conversation.timeout
            &&& steps.len() > 0 && steps[0] is Ask ==> begun.wait_until.ticks == now.ticks
                + conversation.timeout.ticks
            &&& steps.len() == 0 ==> begun.order(now) == Order::Finish(Ok(Told::Nothing))
        }),
{
}

/// Reading flash asks for so many bytes from that offset on, takes so many, and hands them out; it
/// asks for nothing if that is none or more than 4096.
pub proof fn read_hands_out_what_comes_in(
    conversation: Conversation,
    offset: u32,
    len: nat,
    times: (Instant, Instant, Instant),
    bytes: Seq<u8>,
)
    requires
        times.0.ticks + conversation.timeout.ticks <= u64::MAX,
        times.1.ticks + conversation.timeout.ticks <= u64::MAX,
        bytes.len() == len,
    ensures
        ({
            let begun = conversation.begun(times.0, read_steps(offset, len, Check::HandOut));
            let asked = begun.advance(times.1, Seen::Done);
            let read = asked.advance(times.2, Seen::Received(bytes));
            if len == 0 || len > 4096 {
                begun.order(times.0) == Order::Finish(Err(Error::InvalidLength))
            } else {
                &&& begun.order(times.0) matches Order::Write(frame, until)
                &&& frame.len() == 7
                &&& frame[0] == 0x10
                &&& frame[1] + 0x100 * frame[2] + 0x1_0000 * frame[3] + 0x100_0000 * frame[4]
                    == offset
                &&& frame[5] + 0x100 * frame[6] == len
                &&& until.ticks == times.0.ticks + conversation.timeout.ticks
                &&& asked.order(times.1) matches Order::Read(n, until)
                &&& n == len
                &&& until.ticks == times.1.ticks + conversation.timeout.ticks
                &&& read.order(times.2) == Order::Finish(Ok(Told::Data(bytes)))
            }
        }),
{
    if 0 < len <= 4096 {
        read_frame_is_laid_out_so(offset, len as u16);
    }
}

/// Asking once whether the boot loader is ready sends the question, takes one byte, and hands out
/// whether that is not zero.
pub proof fn readiness_is_handed_out(
    conversation: Conversation,
    times: (Instant, Instant, Instant),
    bytes: Seq<u8>,
)
    requires
        bytes.len() == 1,
    ensures
        ({
            let begun = conversation.begun(times.0, query_steps());
            let asked = begun.advance(times.1, Seen::Done);
            let answered = asked.advance(times.2, Seen::Received(bytes));
            &&& begun.order(times.0) matches Order::Write(frame, _)
            &&& frame == seq![0x01u8]
            &&& asked.order(times.1) matches Order::Read(n, _)
            &&& n == 1
            &&& answered.order(times.2) == Order::Finish(Ok(Told::Ready(bytes[0] != 0)))
        }),
{
    assert(bare_frame(BootloaderCommand::ReadyBusy) =~= seq![0x01u8]);
}

/// Waiting for the boot loader sends the question, takes one byte, both within one timeout, and is
/// over, with nothing handed out, exactly if that is not zero.
pub proof fn waiting_is_over_when_ready(
    conversation: Conversation,
    times: (Instant, Instant, Instant),
    bytes: Seq<u8>,
)
    requires
        times.0.ticks + conversation.timeout.ticks <= u64::MAX,
        bytes.len() == 1,
    ensures
        ({
            let begun = conversation.begun(times.0, ready_steps());
            let asked = begun.advance(times.1, Seen::Done);
            let answered = asked.advance(times.2, Seen::Received(bytes));
            &&& begun.order(times.0) matches Order::Write(frame, until)
            &&& frame == seq![0x01u8]
            &&& until.ticks == times.0.ticks + conversation.timeout.ticks
            &&& asked.order(times.1) == Order::Read(1, until)
            &&& answered.order(times.2) == if bytes[0] != 0 {
                Order::Finish(Ok(Told::Nothing))
            } else {
                Order::Write(seq![0x01u8], until)
            }
        }),
{
    assert(bare_frame(BootloaderCommand::ReadyBusy) =~= seq![0x01u8]);
    let begun = conversation.begun(times.0, ready_steps());
    let asked = begun.advance(times.1, Seen::Done);
    assert(asked.steps =~= seq![Step::Answer]);
}

/// Whether the boot loader may still be at work on an erase or program frame when `seen` has come of
/// `order`, if it was as `busy` says before. It is from when such a frame goes out until it answers
/// with something else than zero.
pub open spec fn busy_after(busy: bool, order: Order, seen: Seen) -> bool {
    match (order, seen) {
        (Order::Write(frame, _), _) => busy || frame[0] == 0x20 || frame[0] == 0x30,
        (Order::Read(_, _), Seen::Received(bytes)) => busy && bytes[0] == 0,
        _ => busy,
    }
}

/// Whether, all through `inputs` and behind them, a boot loader that may still be at work gets no
/// frame but the question whether it is ready, and the conversation does not come to a good end.
pub open spec fn leaves_busy_alone(conversation: Conversation, inputs: Inputs, busy: bool) -> bool
    decreases inputs.len(),
{
    let order = conversation.order(Instant { ticks: 0 });
    &&& busy ==> match order {
        Order::Write(frame, _) => frame == seq![0x01u8],
        Order::Read(len, _) => len == 1,
        Order::Finish(result) => result is Err,
        _ => false,
    }
    &&& inputs.len() > 0 ==> leaves_busy_alone(
        conversation.advance(inputs[0].0, inputs[0].1),
        inputs.drop_first(),
        busy_after(busy, order, inputs[0].1),
    )
}

/// Whether `frame` erases or programs.
spec fn works_on_flash(frame: Seq<u8>) -> bool {
    frame[0] == 0x20 || frame[0] == 0x30
}

/// Whether step `i` of `steps`, if it works on flash or asks, is followed by the rest of a wait.
spec fn paced_at(steps: Seq<Step>, i: int) -> bool {
    match steps[i] {
        Step::Send(frame) => works_on_flash(frame) ==> i + 2 < steps.len() && steps[i + 1] is Ask
            && steps[i + 2] is Answer,
        Step::Ask => i + 1 < steps.len() && steps[i + 1] is Answer,
        _ => true,
    }
}

spec fn paced(steps: Seq<Step>) -> bool {
    forall|i: int| 0 <= i < steps.len() ==> #[trigger] paced_at(steps, i)
}

proof fn paced_concat(a: Seq<Step>, b: Seq<Step>)
    requires
        paced(a),
        paced(b),
    ensures
        paced(a + b),
{
    let both = a + b;
    assert forall|i: int| 0 <= i < both.len() implies #[trigger] paced_at(both, i) by {
        if i < a.len() {
            assert(paced_at(a, i));
        } else {
            assert(paced_at(b, i - a.len()));
        }
    }
}

proof fn paced_behind(steps: Seq<Step>)
    requires
        steps.len() > 0,
        paced(steps),
    ensures
        paced(steps.drop_first()),
{
    let rest = steps.drop_first();
    assert forall|i: int| 0 <= i < rest.len() implies #[trigger] paced_at(rest, i) by {
        assert(paced_at(steps, i + 1));
    }
}

proof fn erases_are_paced(len: nat, k: int)
    requires
        0 <= k,
    ensures
        paced(erases_from(len, k)),
    decreases last_erased(len) + 1 - k,
{
    if k <= last_erased(len) {
        erases_are_paced(len, k + 1);
        paced_concat(erase_steps(first_sector() + k), erases_from(len, k + 1));
    }
}

proof fn page_is_paced(offset: int, data: Seq<u8>)
    ensures
        paced(program_page_steps(offset, data)),
{
    let page = offset / (FLASH_PAGE_SIZE as int);
    read_frame_is_laid_out_so((page * FLASH_PAGE_SIZE) as u32, FLASH_PAGE_SIZE as u16);
    assert(paced(verify_steps(page, data)));
    let frame = program_frame(offset as u32, data);
    assert(paced(seq![Step::Send(frame)] + ready_steps()));
    paced_concat(seq![Step::Send(frame)] + ready_steps(), verify_steps(page, data));
}

proof fn pages_are_paced(image: Seq<u8>, crc: u32, k: int)
    requires
        0 <= k,
    ensures
        paced(pages_from(SLAVE_APPCODE_OFFSET as int, image, crc, k)),
    decreases page_count(image.len()) + 1 - k,
{
    if k <= page_count(image.len()) {
        let offset = SLAVE_APPCODE_OFFSET + FLASH_PAGE_SIZE * k;
        pages_are_paced(image, crc, k + 1);
        page_is_paced(offset, page_data(image, crc, k));
        paced_concat(
            program_page_steps(offset, page_data(image, crc, k)),
            pages_from(SLAVE_APPCODE_OFFSET as int, image, crc, k + 1),
        );
    }
}

proof fn programming_is_paced(image: Seq<u8>, crc: u32)
    ensures
        paced(program_slave_steps(image, crc)),
{
    erases_are_paced(image.len(), 0);
    pages_are_paced(image, crc, 0);
    paced_concat(
        erases_from(image.len(), 0),
        program_steps(SLAVE_APPCODE_OFFSET as int, image, crc),
    );
}

proof fn paced_conversation_leaves_busy_alone(
    conversation: Conversation,
    inputs: Inputs,
    busy: bool,
)
    requires
        paced(conversation.steps),
        conversation.admits(inputs),
        busy ==> conversation.steps.len() > 0 && (conversation.steps[0] is Ask
            || conversation.steps[0] is Answer || conversation.steps[0] is Fail),
    ensures
        leaves_busy_alone(conversation, inputs, busy),
    decreases inputs.len(),
{
    let order = conversation.order(Instant { ticks: 0 });
    assert(bare_frame(BootloaderCommand::ReadyBusy) =~= seq![0x01u8]);
    if inputs.len() > 0 {
        let (now, seen) = inputs[0];
        let next = conversation.advance(now, seen);
        let rest = conversation.steps.drop_first();
        assert(paced_at(conversation.steps, 0));
        paced_behind(conversation.steps);
        programming_is_paced(conversation.image, conversation.crc);
        paced_concat(program_slave_steps(conversation.image, conversation.crc), rest);
        assert(paced(ready_steps()));
        paced_concat(ready_steps(), rest);
        assert(paced(next.steps));
        paced_conversation_leaves_busy_alone(
            next,
            inputs.drop_first(),
            busy_after(busy, order, seen),
        );
    }
}

/// In every boot and reboot, however it goes, each erase and each program frame is followed by asking
/// until the boot loader answers that it is ready, before any other frame goes out.
pub proof fn boot_leaves_a_busy_boot_loader_alone(conversation: Conversation, inputs: Inputs)
    requires
        conversation.steps == boot_steps(conversation.image) || conversation.steps == reboot_steps(
            conversation.image,
        ),
        conversation.admits(inputs),
    ensures
        leaves_busy_alone(conversation, inputs, false),
{
    assert(paced(boot_steps(conversation.image))) by {
        read_frame_is_laid_out_so(crc_offset(conversation.image.len()) as u32, 4);
    }
    let off = seq![Step::Power(false), Step::Sleep(100)];
    assert(paced(off));
    paced_concat(off, boot_steps(conversation.image));
    paced_conversation_leaves_busy_alone(conversation, inputs, false);
}

/// A conversation without a decision on programming goes through its steps in order, as far as it
/// gets.
proof fn goes_by_its_steps(conversation: Conversation, inputs: Inputs)
    requires
        no_crc_check(conversation.steps),
        conversation.admits(inputs),
    ensures
        conversation.carried_out(inputs).len() <= quiet(conversation.steps).len(),
        conversation.carried_out(inputs) == quiet(conversation.steps).take(
            conversation.carried_out(inputs).len() as int,
        ),
    decreases inputs.len(),
{
    let done = conversation.carried_out(inputs);
    if inputs.len() == 0 {
        assert(done =~= quiet(conversation.steps).take(0));
    } else {
        let (now, seen) = inputs[0];
        let next = conversation.advance(now, seen);
        let rest = conversation.steps.drop_first();
        let later = inputs.drop_first();
        let first = quiet_step(conversation.steps[0]);
        if next.steps.len() > 0 && next.steps[0] is Fail {
            assert(next.admits(later));
            assert(later.len() == 0);
            assert(next.carried_out(later) =~= seq![]);
            assert(done =~= first);
            assert(done =~= quiet(conversation.steps).take(done.len() as int));
        } else {
            assert(next.steps == rest || next.steps == ready_steps() + rest);
            assert forall|i: int| 0 <= i < rest.len() implies !(#[trigger] rest[i] matches Step::Receive(
                _,
                Check::StoredCrc,
            )) by {
                assert(rest[i] == conversation.steps[i + 1]);
            }
            assert(no_crc_check(next.steps));
            goes_by_its_steps(next, later);
            quiet_concat(ready_steps(), rest);
            assert(quiet(ready_steps()) =~= seq![]) by {
                reveal_with_fuel(quiet, 3);
            }
            assert(quiet(ready_steps()) + quiet(rest) =~= quiet(rest));
            assert(done =~= quiet(conversation.steps).take(done.len() as int));
        }
    }
}

/// A conversation goes through the plain steps that it starts with in order, as far as it gets.
proof fn goes_by_its_front(
    conversation: Conversation,
    inputs: Inputs,
    front: Seq<Step>,
    back: Seq<Step>,
)
    requires
        conversation.steps == front + back,
        forall|i: int| 0 <= i < front.len() ==> straight(#[trigger] front[i]),
        conversation.admits(inputs),
    ensures
        inputs.len() <= front.len() ==> conversation.carried_out(inputs) == front.take(
            inputs.len() as int,
        ),
        inputs.len() > front.len() ==> {
            let middle = conversation.run(inputs.take(front.len() as int));
            let later = inputs.skip(front.len() as int);
            &&& middle.steps == back
            &&& middle.image == conversation.image
            &&& middle.crc == conversation.crc
            &&& middle.admits(later)
            &&& conversation.carried_out(inputs) == front + middle.carried_out(later)
        },
    decreases front.len(),
{
    let n = front.len() as int;
    if n == 0 {
        assert(front + back =~= back);
        assert(inputs.skip(0) =~= inputs);
        assert(front + conversation.carried_out(inputs) =~= conversation.carried_out(inputs));
        assert(front.take(0) =~= seq![]);
    } else if inputs.len() == 0 {
        assert(front.take(0) =~= seq![]);
    } else {
        let (now, seen) = inputs[0];
        let next = conversation.advance(now, seen);
        let front1 = front.drop_first();
        let inputs1 = inputs.drop_first();
        assert(conversation.steps[0] == front[0]);
        assert(straight(front[0]));
        assert(conversation.steps.drop_first() =~= front1 + back);
        if next.steps == front1 + back {
            assert forall|i: int| 0 <= i < front1.len() implies straight(#[trigger] front1[i]) by {
                assert(front1[i] == front[i + 1]);
            }
            goes_by_its_front(next, inputs1, front1, back);
            if inputs.len() <= n {
                assert(seq![front[0]] + front1.take(inputs1.len() as int) =~= front.take(
                    inputs.len() as int,
                ));
            } else {
                assert(inputs1.skip(n - 1) =~= inputs.skip(n));
                assert(inputs.take(n).drop_first() =~= inputs1.take(n - 1));
                assert(inputs.take(n)[0] == inputs[0]);
                let middle = next.run(inputs1.take(n - 1));
                assert(seq![front[0]] + (front1 + middle.carried_out(inputs.skip(n))) =~= front
                    + middle.carried_out(inputs.skip(n)));
            }
        } else {
            assert(next.steps[0] is Fail);
            assert(next.admits(inputs1));
            assert(inputs1.len() == 0);
            assert(next.carried_out(inputs1) =~= seq![]);
            assert(seq![front[0]] + next.carried_out(inputs1) =~= front.take(1));
        }
    }
}

proof fn quiet_erases(len: nat, k: int)
    requires
        0 <= k <= last_erased(len) + 1,
        (first_sector() + last_erased(len)) * FLASH_SECTOR_SIZE < FLASH_SIZE,
    ensures
        quiet(erases_from(len, k)) == Seq::new(
            (last_erased(len) + 1 - k) as nat,
            |s: int| Step::Send(erase_frame((first_sector() + k + s) as u16)),
        ),
    decreases last_erased(len) + 1 - k,
{
    if k <= last_erased(len) {
        let frame = Step::Send(erase_frame((first_sector() + k) as u16));
        let first = erase_steps(first_sector() + k);
        quiet_erases(len, k + 1);
        quiet_concat(first, erases_from(len, k + 1));
        assert(first.drop_first() =~= ready_steps());
        assert(quiet(ready_steps()) =~= seq![]) by {
            reveal_with_fuel(quiet, 3);
        }
        assert(quiet(first) =~= seq![frame]);
    }
    assert(quiet(erases_from(len, k)) =~= Seq::new(
        (last_erased(len) + 1 - k) as nat,
        |s: int| Step::Send(erase_frame((first_sector() + k + s) as u16)),
    ));
}

/// The step `j` of programming pages from number `k` on, without those of waiting: three for each
/// page.
spec fn page_step(image: Seq<u8>, crc: u32, k: int, j: int) -> Step {
    let page = k + j / 3;
    let offset = SLAVE_APPCODE_OFFSET + FLASH_PAGE_SIZE * page;
    let data = page_data(image, crc, page);
    if j % 3 == 0 {
        Step::Send(program_frame(offset as u32, data))
    } else if j % 3 == 1 {
        Step::Send(read_frame(offset as u32, FLASH_PAGE_SIZE as u16))
    } else {
        Step::Receive(FLASH_PAGE_SIZE as nat, Check::Page(data))
    }
}

proof fn quiet_page(offset: int, data: Seq<u8>)
    requires
        0 <= offset < FLASH_SIZE,
        offset % (FLASH_PAGE_SIZE as int) == 0,
        data.len() <= FLASH_PAGE_SIZE,
    ensures
        quiet(program_page_steps(offset, data)) == seq![
            Step::Send(program_frame(offset as u32, data)),
            Step::Send(read_frame(offset as u32, FLASH_PAGE_SIZE as u16)),
            Step::Receive(FLASH_PAGE_SIZE as nat, Check::Page(data)),
        ],
{
    let page = offset / (FLASH_PAGE_SIZE as int);
    let verify = verify_steps(page, data);
    let send = seq![Step::Send(program_frame(offset as u32, data))];
    assert(page * FLASH_PAGE_SIZE == offset);
    quiet_concat(send + ready_steps(), verify);
    quiet_concat(send, ready_steps());
    assert(quiet(ready_steps()) =~= seq![]) by {
        reveal_with_fuel(quiet, 3);
    }
    assert(quiet(send) =~= send) by {
        reveal_with_fuel(quiet, 2);
    }
    assert(quiet(verify) =~= verify) by {
        reveal_with_fuel(quiet, 3);
    }
    assert(quiet(program_page_steps(offset, data)) =~= send + verify);
}

proof fn quiet_pages(image: Seq<u8>, crc: u32, k: int)
    requires
        0 <= k <= page_count(image.len()) + 1,
        crc_offset(image.len()) < FLASH_SIZE,
    ensures
        quiet(pages_from(SLAVE_APPCODE_OFFSET as int, image, crc, k)) == Seq::new(
            (3 * (page_count(image.len()) + 1 - k)) as nat,
            |j: int| page_step(image, crc, k, j),
        ),
    decreases page_count(image.len()) + 1 - k,
{
    let steps = pages_from(SLAVE_APPCODE_OFFSET as int, image, crc, k);
    let listed = Seq::new(
        (3 * (page_count(image.len()) + 1 - k)) as nat,
        |j: int| page_step(image, crc, k, j),
    );
    if k <= page_count(image.len()) {
        let offset = SLAVE_APPCODE_OFFSET + FLASH_PAGE_SIZE * k;
        let data = page_data(image, crc, k);
        let first = program_page_steps(offset, data);
        let others = pages_from(SLAVE_APPCODE_OFFSET as int, image, crc, k + 1);
        assert(data.len() <= FLASH_PAGE_SIZE);
        quiet_pages(image, crc, k + 1);
        quiet_concat(first, others);
        quiet_page(offset, data);
        assert forall|j: int| 0 <= j < listed.len() implies quiet(steps)[j] == #[trigger] listed[j]
            by {
            if j >= 3 {
                assert((j - 3) / 3 == j / 3 - 1);
                assert((j - 3) % 3 == j % 3);
                assert(quiet(others)[j - 3] == page_step(image, crc, k + 1, j - 3));
            }
        }
        assert(quiet(steps) =~= listed);
    } else {
        assert(quiet(steps) =~= listed);
    }
}

/// The steps of a boot that has found another checksum than the firmware's, without those of waiting.
spec fn programming_step(image: Seq<u8>, crc: u32, j: int) -> Step {
    let sectors = last_erased(image.len()) + 1;
    let pages = 3 * (page_count(image.len()) + 1);
    if j < sectors {
        Step::Send(erase_frame((first_sector() + j) as u16))
    } else if j < sectors + pages {
        page_step(image, crc, 0, j - sectors)
    } else {
        start_steps()[j - sectors - pages]
    }
}

proof fn quiet_programming(image: Seq<u8>, crc: u32)
    requires
        crc_offset(image.len()) < FLASH_SIZE,
    ensures
        quiet(start_steps()) == start_steps(),
        quiet(program_slave_steps(image, crc) + start_steps()) == Seq::new(
            (last_erased(image.len()) + 1 + 3 * (page_count(image.len()) + 1) + 3) as nat,
            |j: int| programming_step(image, crc, j),
        ),
{
    let erases = erases_from(image.len(), 0);
    let pages = program_steps(SLAVE_APPCODE_OFFSET as int, image, crc);
    quiet_concat(erases + pages, start_steps());
    quiet_concat(erases, pages);
    quiet_erases(image.len(), 0);
    quiet_pages(image, crc, 0);
    assert(quiet(start_steps()) =~= start_steps()) by {
        reveal_with_fuel(quiet, 4);
    }
    assert(quiet(program_slave_steps(image, crc) + start_steps()) =~= Seq::new(
        (last_erased(image.len()) + 1 + 3 * (page_count(image.len()) + 1) + 3) as nat,
        |j: int| programming_step(image, crc, j),
    ));
}

/// What a boot has gone through, as far as it got.
proof fn boot_goes_by_the_list(conversation: Conversation, inputs: Inputs)
    requires
        conversation.steps == boot_steps(conversation.image),
        conversation.admits(inputs),
    ensures
        ({
            let image = conversation.image;
            let crc = conversation.crc;
            let done = conversation.carried_out(inputs);
            let front = wake_steps() + read_steps(
                crc_offset(image.len()) as u32,
                4,
                Check::StoredCrc,
            );
            &&& front.len() == 8
            &&& done.len() <= 8 ==> done == front.take(done.len() as int)
            &&& done.len() > 8 ==> {
                let stored = inputs[7].1->Received_0;
                let after = if stored[0] + 0x100 * stored[1] + 0x1_0000 * stored[2] + 0x100_0000
                    * stored[3] == crc {
                    quiet(start_steps())
                } else {
                    quiet(program_slave_steps(image, crc) + start_steps())
                };
                &&& inputs.len() > 8
                &&& inputs[7].1 is Received
                &&& stored.len() == 4
                &&& done.len() <= 8 + after.len()
                &&& done == front + after.take(done.len() - 8)
            }
        }),
{
    let image = conversation.image;
    let crc = conversation.crc;
    let done = conversation.carried_out(inputs);
    let request = Step::Send(read_frame(crc_offset(image.len()) as u32, 4));
    let check = Step::Receive(4, Check::StoredCrc);
    let plain = wake_steps().push(request);
    let back = seq![check] + start_steps();
    let front = wake_steps() + read_steps(crc_offset(image.len()) as u32, 4, Check::StoredCrc);
    assert(front =~= plain.push(check));
    assert(boot_steps(image) =~= plain + back);
    goes_by_its_front(conversation, inputs, plain, back);
    if inputs.len() <= 7 {
        assert(plain.take(inputs.len() as int) =~= front.take(inputs.len() as int));
    } else {
        let middle = conversation.run(inputs.take(7));
        let later = inputs.skip(7);
        assert(later[0] == inputs[7]);
        assert(middle.steps[0] == check);
        assert(middle.expects(later[0].1));
        let next = middle.advance(later[0].0, later[0].1);
        let rest = later.drop_first();
        assert(next.admits(rest));
        assert(middle.carried_out(later) =~= seq![check] + next.carried_out(rest));
        assert(middle.steps.drop_first() =~= start_steps());
        if later[0].1 is Received {
            program_has_no_crc_check(image, crc);
            goes_by_its_steps(next, rest);
            if next.carried_out(rest).len() == 0 {
                assert(done =~= front.take(8));
            } else {
                assert(rest.len() > 0);
                assert(done =~= front + quiet(next.steps).take(done.len() - 8));
            }
        } else {
            assert(next.steps[0] is Fail);
            assert(rest.len() == 0);
            assert(next.carried_out(rest) =~= seq![]);
            assert(done =~= front.take(8));
        }
    }
}

/// A boot switches the second board on, lets it come up for half a second, throws away what that puts
/// on the line, wakes the boot loader, and reads four bytes of flash: from the start of the first page
/// behind the firmware on.
pub proof fn boot_wakes_the_board_so(conversation: Conversation, inputs: Inputs)
    requires
        conversation.steps == boot_steps(conversation.image),
        conversation.admits(inputs),
        0x8000 + conversation.image.len() + 256 <= u32::MAX,
    ensures
        ({
            let done = conversation.carried_out(inputs);
            let len = conversation.image.len();
            &&& done.len() > 0 ==> done[0] == Step::Power(true)
            &&& done.len() > 1 ==> done[1] == Step::Sleep(500)
            &&& done.len() > 2 ==> done[2] == Step::Drain
            &&& done.len() > 3 ==> done[3] == Step::DrainFor(100)
            &&& done.len() > 4 ==> done[4] == Step::Send(seq![0xA5u8])
            &&& done.len() > 5 ==> done[5] == Step::Receive(4, Check::Activation)
            &&& done.len() > 6 ==> {
                let frame = done[6]->Send_0;
                let offset = frame[1] + 0x100 * frame[2] + 0x1_0000 * frame[3] + 0x100_0000
                    * frame[4];
                &&& done[6] is Send
                &&& frame.len() == 7
                &&& frame[0] == 0x10
                &&& offset % 256 == 0
                &&& 0x8000 + len <= offset < 0x8000 + len + 256
                &&& frame[5] == 4
                &&& frame[6] == 0
            }
            &&& done.len() > 7 ==> done[7] == Step::Receive(4, Check::StoredCrc)
        }),
{
    boot_goes_by_the_list(conversation, inputs);
    let done = conversation.carried_out(inputs);
    let offset = crc_offset(conversation.image.len());
    read_frame_is_laid_out_so(offset as u32, 4);
    assert(bare_frame(BootloaderCommand::Activate) =~= seq![0xA5u8]);
    let front = wake_steps() + read_steps(offset as u32, 4, Check::StoredCrc);
    assert forall|i: int| 0 <= i < 8 && i < done.len() implies done[i] == #[trigger] front[i] by {}
}

/// A boot that finds the firmware's checksum in flash sends the command to start the application and
/// throws away what that puts on the line, and nothing else: it sends no frame besides.
pub proof fn boot_with_the_checksum_starts_the_application(
    conversation: Conversation,
    inputs: Inputs,
)
    requires
        conversation.steps == boot_steps(conversation.image),
        conversation.admits(inputs),
        inputs.len() > 7,
        inputs[7].1 matches Seen::Received(stored) && stored[0] + 0x100 * stored[1] + 0x1_0000
            * stored[2] + 0x100_0000 * stored[3] == conversation.crc,
    ensures
        ({
            let done = conversation.carried_out(inputs);
            &&& done.len() <= 11
            &&& done.len() > 8 ==> done[8] == Step::Send(seq![0x40u8])
            &&& done.len() > 9 ==> done[9] == Step::Drain
            &&& done.len() > 10 ==> done[10] == Step::DrainFor(100)
        }),
{
    boot_goes_by_the_list(conversation, inputs);
    assert(quiet(start_steps()) =~= start_steps()) by {
        reveal_with_fuel(quiet, 4);
    }
    assert(bare_frame(BootloaderCommand::GotoAppcode) =~= seq![0x40u8]);
}

/// A boot that finds another checksum in flash than the firmware's erases every sector from the
/// eighth on, as many as the firmware reaches into and one more if it ends with a sector, in order
/// and each once, before it programs anything. Then it programs the firmware, page by page from
/// 32 KiB on, and its checksum at the start of the page behind, reads each page back in turn, and
/// has it compared with what it was to hold. Then it starts the application, and nothing else.
pub proof fn boot_without_the_checksum_programs_the_firmware(
    conversation: Conversation,
    inputs: Inputs,
    i: int,
)
    requires
        conversation.steps == boot_steps(conversation.image),
        conversation.admits(inputs),
        0x8000 + 256 * ((conversation.image.len() + 255) / 256 + 1) <= 0x40_0000,
        8 <= i < conversation.carried_out(inputs).len(),
        inputs[7].1 matches Seen::Received(stored) && stored[0] + 0x100 * stored[1] + 0x1_0000
            * stored[2] + 0x100_0000 * stored[3] != conversation.crc,
    ensures
        ({
            let image = conversation.image;
            let crc = conversation.crc;
            let step = conversation.carried_out(inputs)[i];
            let frame = step->Send_0;
            let sectors = image.len() as int / 4096 + 1;
            let pages = (image.len() + 255) as int / 256 + 1;
            let j = i - 8 - sectors;
            let page = j / 3;
            let offset = 0x8000 + 256 * page;
            let size = if page == pages - 1 {
                4
            } else if 256 * (page + 1) <= image.len() {
                256
            } else {
                image.len() - 256 * page
            };
            if i < 8 + sectors {
                &&& step is Send
                &&& frame.len() == 3
                &&& frame[0] == 0x30
                &&& frame[1] + 0x100 * frame[2] == 8 + (i - 8)
            } else if j < 3 * pages {
                if j % 3 == 0 {
                    &&& step is Send
                    &&& frame.len() == 263
                    &&& frame[0] == 0x20
                    &&& frame[1] + 0x100 * frame[2] + 0x1_0000 * frame[3] + 0x100_0000 * frame[4]
                        == offset
                    &&& frame[5] == 0
                    &&& frame[6] == 1
                    &&& forall|b: int|
                        0 <= b < 256 ==> #[trigger] frame[7 + b] == if b >= size {
                            0xFFu8
                        } else if page < pages - 1 {
                            image[256 * page + b]
                        } else {
                            checksum_byte(crc, b)
                        }
                } else if j % 3 == 1 {
                    &&& step is Send
                    &&& frame.len() == 7
                    &&& frame[0] == 0x10
                    &&& frame[1] + 0x100 * frame[2] + 0x1_0000 * frame[3] + 0x100_0000 * frame[4]
                        == offset
                    &&& frame[5] == 0
                    &&& frame[6] == 1
                } else {
                    &&& step matches Step::Receive(n, Check::Page(data))
                    &&& n == 256
                    &&& data.len() == size
                    &&& forall|b: int|
                        0 <= b < size ==> #[trigger] data[b] == if page < pages - 1 {
                            image[256 * page + b]
                        } else {
                            checksum_byte(crc, b)
                        }
                }
            } else {
                &&& j < 3 * pages + 3
                &&& j == 3 * pages ==> step == Step::Send(seq![0x40u8])
                &&& j == 3 * pages + 1 ==> step == Step::Drain
                &&& j == 3 * pages + 2 ==> step == Step::DrainFor(100)
            }
        }),
{
    let image = conversation.image;
    let crc = conversation.crc;
    let sectors = image.len() as int / 4096 + 1;
    let pages = (image.len() + 255) as int / 256 + 1;
    let j = i - 8 - sectors;
    let page = j / 3;
    let offset = 0x8000 + 256 * page;
    boot_goes_by_the_list(conversation, inputs);
    quiet_programming(image, crc);
    assert(page_count(image.len()) == pages - 1);
    assert(conversation.carried_out(inputs)[i] == programming_step(image, crc, i - 8));
    if i < 8 + sectors {
        erase_frame_is_laid_out_so((first_sector() + (i - 8)) as u16);
    } else if j < 3 * pages {
        let data = page_data(image, crc, page);
        assert(0 <= page < pages);
        read_frame_is_laid_out_so(offset as u32, 256);
        program_frame_is_laid_out_so(offset as u32, data);
    } else {
        assert(bare_frame(BootloaderCommand::GotoAppcode) =~= seq![0x40u8]);
    }
}

/// Byte `b` of the checksum `crc`, counted from the lowest.
pub open spec fn checksum_byte(crc: u32, b: int) -> u8 {
    if b == 0 {
        (crc % 256) as u8
    } else if b == 1 {
        (crc / 0x100 % 256) as u8
    } else if b == 2 {
        (crc / 0x1_0000 % 256) as u8
    } else {
        (crc / 0x100_0000) as u8
    }
}

/// A reboot begins by switching the second board off for a tenth of a second.
pub proof fn reboot_begins_with_power_off(
    conversation: Conversation,
    now: Instant,
    later: Instant,
)
    requires
        conversation.steps == reboot_steps(conversation.image),
    ensures
        conversation.order(now) == Order::SetPower(false),
        conversation.advance(now, Seen::Done).order(later) == Order::Sleep(100),
        conversation.advance(now, Seen::Done).advance(later, Seen::Done).steps == boot_steps(
            conversation.image,
        ),
{
    let first = conversation.advance(now, Seen::Done);
    assert(first.steps =~= seq![Step::Sleep(100)] + boot_steps(conversation.image));
    assert(first.advance(later, Seen::Done).steps =~= boot_steps(conversation.image));
}

proof fn erases_give_up_so(len: nat, k: int, i: int)
    requires
        0 <= i < erases_from(len, k).len(),
        erases_from(len, k)[i] is Fail,
    ensures
        erases_from(len, k)[i] == Step::Fail(Error::InvalidOffset),
    decreases last_erased(len) + 1 - k,
{
    let first = erase_steps(first_sector() + k);
    if i >= first.len() {
        assert(erases_from(len, k)[i] == erases_from(len, k + 1)[i - first.len()]);
        erases_give_up_so(len, k + 1, i - first.len());
    } else {
        assert(erases_from(len, k)[i] == first[i]);
    }
}

proof fn pages_give_up_so(image: Seq<u8>, crc: u32, k: int, i: int)
    requires
        0 <= k,
        0 <= i < pages_from(SLAVE_APPCODE_OFFSET as int, image, crc, k).len(),
        pages_from(SLAVE_APPCODE_OFFSET as int, image, crc, k)[i] is Fail,
    ensures
        pages_from(SLAVE_APPCODE_OFFSET as int, image, crc, k)[i] == Step::Fail(
            Error::InvalidLength,
        ),
    decreases page_count(image.len()) + 1 - k,
{
    let offset = SLAVE_APPCODE_OFFSET + FLASH_PAGE_SIZE * k;
    let first = program_page_steps(offset, page_data(image, crc, k));
    let steps = pages_from(SLAVE_APPCODE_OFFSET as int, image, crc, k);
    let others = pages_from(SLAVE_APPCODE_OFFSET as int, image, crc, k + 1);
    if i >= first.len() {
        assert(steps[i] == others[i - first.len()]);
        pages_give_up_so(image, crc, k + 1, i - first.len());
    } else {
        assert(steps[i] == first[i]);
    }
}

/// Programming a firmware that is too large gives up for one of two reasons: while erasing, if its
/// sectors do not fit the flash, because of the offset; else, when its checksum would come behind the
/// end of the flash, because of the length.
pub proof fn oversized_firmware_is_refused_so(image: Seq<u8>, crc: u32, i: int)
    requires
        0 <= i < program_slave_steps(image, crc).len(),
        program_slave_steps(image, crc)[i] is Fail,
        forall|j: int| 0 <= j < i ==> !(#[trigger] program_slave_steps(image, crc)[j] is Fail),
    ensures
        program_slave_steps(image, crc)[i] == Step::Fail(
            if 0x8000 + 4096 * (image.len() as int / 4096 + 1) > 0x40_0000 {
                Error::InvalidOffset
            } else {
                Error::InvalidLength
            },
        ),
{
    let erases = erases_from(image.len(), 0);
    let pages = program_steps(SLAVE_APPCODE_OFFSET as int, image, crc);
    let steps = program_slave_steps(image, crc);
    erases_fail(image.len(), 0);
    if 0x8000 + 4096 * (image.len() as int / 4096 + 1) > 0x40_0000 {
        assert(has_failure(erases));
        let j = choose|j: int| 0 <= j < erases.len() && #[trigger] erases[j] is Fail;
        assert(steps[j] == erases[j]);
        assert(steps[i] == erases[i]);
        erases_give_up_so(image.len(), 0, i);
    } else {
        assert(!has_failure(erases));
        if i < erases.len() {
            assert(steps[i] == erases[i]);
        }
        assert(steps[i] == pages[i - erases.len()]);
        pages_give_up_so(image, crc, 0, i - erases.len());
    }
}

/// Bytes that were asked for to be handed out are handed out as they are, and a ready flag as whether
/// it is not zero; the conversation goes on behind them.
pub proof fn received_bytes_are_handed_out(conversation: Conversation, now: Instant, bytes: Seq<u8>)
    requires
        conversation.expects(Seen::Received(bytes)),
        conversation.steps[0] matches Step::Receive(_, check) && (check is HandOut
            || check is ReadyFlag && bytes.len() == 1),
    ensures
        conversation.advance(now, Seen::Received(bytes)).steps == conversation.steps.drop_first(),
        conversation.advance(now, Seen::Received(bytes)).told == match conversation.steps[0] {
            Step::Receive(_, Check::HandOut) => Told::Data(bytes),
            _ => Told::Ready(bytes[0] != 0),
        },
{
}

/// A step that is late or fails leaves no other step than to give up with that error.
pub proof fn lost_step_leaves_nothing_to_do(conversation: Conversation, now: Instant)
    ensures
        conversation.advance(now, Seen::TimedOut).steps == seq![Step::Fail(Error::Timeout)],
        conversation.advance(now, Seen::Failed).steps == seq![Step::Fail(Error::UnexpectedEof)],
{
}

/// What is ordered is what the action says, word for word.
pub proof fn action_is_seen_as_it_is(action: Action)
    ensures
        match action {
            Action::SetPower(on) => action@ == Order::SetPower(on),
            Action::Sleep(millis) => action@ == Order::Sleep(millis),
            Action::Drain => action@ == Order::Drain,
            Action::DrainFor(millis) => action@ == Order::DrainFor(millis),
            Action::Write(bytes, until) => action@ == Order::Write(bytes@, until),
            Action::Read(len, until) => action@ == Order::Read(len as nat, until),
            Action::Finish(Err(error)) => action@ == Order::Finish(Err(error)),
            Action::Finish(Ok(Reply::Nothing)) => action@ == Order::Finish(Ok(Told::Nothing)),
            Action::Finish(Ok(Reply::Ready(ready))) => action@ == Order::Finish(
                Ok(Told::Ready(ready)),
            ),
            Action::Finish(Ok(Reply::Data(bytes))) => action@ == Order::Finish(
                Ok(Told::Data(bytes@)),
            ),
        },
{
}

/// What has come is what the event says, word for word.
pub proof fn event_is_seen_as_it_is(event: Event)
    ensures
        match event {
            Event::Done => event@ == Seen::Done,
            Event::Received(bytes) => event@ == Seen::Received(bytes@),
            Event::TimedOut => event@ == Seen::TimedOut,
            Event::Failed => event@ == Seen::Failed,
        },
{
}

/// A firmware can be booted if the offset of the page behind it can be counted with 32 bits, and only
/// then.
pub proof fn firmware_of_any_countable_size_can_be_booted(len: nat)
    ensures
        image_fits(len) <==> 0x8000 + 256 * ((len + 255) / 256) <= 0xFFFF_FFFF,
{
}

} // verus!
