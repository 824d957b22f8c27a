//! Settings on hardware that reports what was written to it.
//!
//! [`FakeView`] is that hardware as a model: it answers every getter that has
//! state, and pairs each setter with the getter that must then report the new
//! value. A run of events that came out as the model has it is one on such
//! hardware, and there every setter gives back what was asked for.

use vstd::prelude::*;

use crate::device::settings::{DpiAnswers, Sent};
use crate::device::status::{is_direct, LightAnswers};
use crate::device::steps::{answered, asking, follows, steps_to, taking, Answer, Outcome, Step};
use crate::device::{Device, DeviceView};
use crate::error::ErrorView;
use crate::protocol::{self as p, cmd};
use crate::text::{hex_byte, lemma_position_names, position_of};
use crate::transport::fake::{getter_of, lemma_recorded, request_args, Fake, FakeView};
use crate::transport::Event;

verus! {

// -- runs ---------------------------------------------------------------------

/// A run that came out as the model has it did so in each of its parts.
pub proof fn lemma_parts(fake: FakeView, first: Seq<Event>, second: Seq<Event>)
    ensures
        fake.plays_run(first + second) <==> fake.plays_run(first) && fake.after_run(
            first,
        ).plays_run(second),
        fake.after_run(first + second) == fake.after_run(first).after_run(second),
    decreases first.len(),
{
    if first.len() == 0 {
        assert(first + second =~= second);
    } else {
        assert((first + second).skip(1) =~= first.skip(1) + second);
        lemma_parts(fake.after_event(first[0]), first.skip(1), second);
    }
}

/// The first argument of a request, which selects what a getter reads.
pub open spec fn selector(args: Seq<u8>) -> u8 {
    if args.len() > 0 {
        args[0]
    } else {
        0
    }
}

/// A getter is answered: it has state and is not silent.
pub open spec fn is_answered(fake: FakeView, command: u8, arg: u8) -> bool {
    &&& getter_of(command) is None
    &&& !fake.silent.contains(command)
    &&& fake.state.dom().contains((command, arg))
}

/// The value bytes that a getter is answered with.
pub open spec fn answer_value(value: Seq<u8>) -> Seq<u8> {
    Seq::new(
        8,
        |i: int|
            if i < value.len() {
                value[i]
            } else {
                0
            },
    )
}

/// Asking a getter leaves the state and who is silent alone, whatever comes
/// back.
proof fn lemma_asking_keeps(
    fake: FakeView,
    run: Seq<Event>,
    command: u8,
    profile: u8,
    args: Seq<u8>,
    attempts: nat,
    wait: u64,
    outcome: Outcome,
)
    requires
        asking(run, p::request_payload(command, profile, args), command, attempts, wait, outcome),
        args.len() <= 8,
        getter_of(command) is None,
        fake.plays_run(run),
    ensures
        fake.after_run(run).state == fake.state,
        fake.after_run(run).silent == fake.silent,
    decreases attempts,
{
    let request = p::request_payload(command, profile, args);
    reveal_with_fuel(FakeView::after_run, 4);
    reveal_with_fuel(FakeView::plays_run, 4);
    if attempts > 0 {
        assert(request_args(request) =~= args);
        let asked = fake.after_event(run[0]);
        assert(asked.state == fake.state);
        if run.len() == 1 {
            assert(run.skip(1) =~= Seq::empty());
        } else {
            let rest = run.skip(3);
            assert(run.skip(1)[0] == run[1]);
            assert(run.skip(1).skip(1)[0] == run[2]);
            assert(run.skip(1).skip(1).skip(1) =~= rest);
            let waited = asked.after_event(run[1]);
            if run.len() > 3 {
                lemma_asking_keeps(
                    waited,
                    rest,
                    command,
                    profile,
                    args,
                    (attempts - 1) as nat,
                    60,
                    outcome,
                );
            } else {
                assert(rest =~= Seq::empty());
            }
        }
    }
}

/// Asking a getter that is answered gives its value at the first attempt.
pub proof fn lemma_asked(
    fake: FakeView,
    run: Seq<Event>,
    command: u8,
    profile: u8,
    args: Seq<u8>,
    attempts: nat,
    outcome: Outcome,
)
    requires
        taking(run, Step::Asked { command, profile, args, attempts, outcome }),
        args.len() <= 8,
        attempts > 0,
        fake.plays_run(run),
        is_answered(fake, command, selector(args)),
    ensures
        outcome == Outcome::Ok(Some(answer_value(fake.state[(command, selector(args))]))),
{
    let request = p::request_payload(command, profile, args);
    reveal_with_fuel(FakeView::plays_run, 4);
    assert(request_args(request) =~= args);
    let asked = fake.after_event(run[0]);
    assert(asked.pending == Some((command, selector(args))));
    assert(run.skip(1)[0] == run[1]);
    let waited = asked.after_event(run[1]);
    assert(run.skip(1).skip(1)[0] == run[2]);
    assert(waited.plays(run[2]));
    let value = fake.state[(command, selector(args))];
    let reply = waited.reply(p::REPORT_ID, p::PAYLOAD_LEN as nat);
    assert(waited.answer() == Some((command, value)));
    assert(p::answers(reply, command));
    assert(reply.skip(8) =~= answer_value(value));
}

/// Asking a getter that is not answered gives nothing, however often it is
/// asked.
pub proof fn lemma_not_answered(
    fake: FakeView,
    run: Seq<Event>,
    command: u8,
    profile: u8,
    args: Seq<u8>,
    attempts: nat,
    wait: u64,
    outcome: Outcome,
)
    requires
        asking(run, p::request_payload(command, profile, args), command, attempts, wait, outcome),
        args.len() <= 8,
        command != 0,
        getter_of(command) is None,
        fake.plays_run(run),
        !is_answered(fake, command, selector(args)),
    ensures
        outcome == Outcome::Ok(None),
    decreases attempts,
{
    let request = p::request_payload(command, profile, args);
    reveal_with_fuel(FakeView::plays_run, 4);
    if attempts > 0 {
        assert(request_args(request) =~= args);
        let asked = fake.after_event(run[0]);
        assert(asked.pending == Some((command, selector(args))));
        assert(run.skip(1)[0] == run[1]);
        let waited = asked.after_event(run[1]);
        assert(run.skip(1).skip(1)[0] == run[2]);
        assert(waited.plays(run[2]));
        assert(waited.answer() is None);
        let reply = waited.reply(p::REPORT_ID, p::PAYLOAD_LEN as nat);
        assert(reply[1] == 0);
        assert(!p::answers(reply, command));
        let rest = run.skip(3);
        assert(run.skip(1).skip(1).skip(1) =~= rest);
        lemma_not_answered(
            waited,
            rest,
            command,
            profile,
            args,
            (attempts - 1) as nat,
            60,
            outcome,
        );
    }
}

/// What asking a getter of the hardware comes to: its value, or nothing where it
/// is not answered.
pub open spec fn outcome_of(fake: FakeView, command: u8, args: Seq<u8>) -> Outcome {
    if is_answered(fake, command, selector(args)) {
        Outcome::Ok(Some(answer_value(fake.state[(command, selector(args))])))
    } else {
        Outcome::Ok(None)
    }
}

/// Sending a request always succeeds, and leaves the state that its pairing
/// says.
pub proof fn lemma_told(
    fake: FakeView,
    run: Seq<Event>,
    command: u8,
    profile: u8,
    args: Seq<u8>,
    sent: Sent,
)
    requires
        taking(run, Step::Told { command, profile, args, sent }),
        1 <= args.len() <= 8,
        fake.plays_run(run),
    ensures
        sent is Ok,
        fake.after_run(run).state == fake.state_after(command, args),
        fake.after_run(run).silent == fake.silent,
{
    let request = p::request_payload(command, profile, args);
    assert(request_args(request) =~= args);
    assert(run.skip(1) =~= Seq::empty());
    reveal_with_fuel(FakeView::after_run, 2);
}

// -- steps --------------------------------------------------------------------

/// A step that a setter takes: a write with arguments, a question to a getter,
/// or a pause.
pub open spec fn is_plain(step: Step) -> bool {
    match step {
        Step::Told { args, .. } => 1 <= args.len() <= 8,
        Step::Asked { command, args, attempts, .. } => args.len() <= 8 && attempts > 0
            && getter_of(command) is None,
        Step::Controlled { .. } => false,
        Step::Paused => true,
    }
}

/// The state once the first steps have been taken: what was written is paired
/// with its getter.
pub open spec fn state_before(fake: FakeView, steps: Seq<Step>, i: nat) -> FakeView
    decreases i,
{
    if i == 0 {
        fake
    } else {
        let earlier = state_before(fake, steps, (i - 1) as nat);
        match steps[i - 1] {
            Step::Told { command, args, .. } => FakeView {
                state: earlier.state_after(command, args),
                ..earlier
            },
            _ => earlier,
        }
    }
}

/// A step came out as the state before it says: a write went out, a getter that
/// is answered gave its value, and one that is not gave nothing. No getter has the
/// number 0, which a blank report starts with.
pub open spec fn came_out(fake: FakeView, steps: Seq<Step>, i: int) -> bool {
    let now = state_before(fake, steps, i as nat);
    match steps[i] {
        Step::Told { sent, .. } => sent is Ok,
        Step::Asked { command, args, outcome, .. } => is_answered(now, command, selector(args))
            || command != 0 ==> outcome == outcome_of(now, command, args),
        _ => true,
    }
}

proof fn lemma_same_front(fake: FakeView, steps: Seq<Step>, i: nat)
    requires
        i < steps.len(),
    ensures
        state_before(fake, steps.drop_last(), i) == state_before(fake, steps, i),
    decreases i,
{
    if i > 0 {
        lemma_same_front(fake, steps, (i - 1) as nat);
        assert(steps.drop_last()[i - 1] == steps[i - 1]);
    }
}

/// What is not written to stays as it is.
pub proof fn lemma_state_stays(fake: FakeView, steps: Seq<Step>, from: nat, to: nat)
    requires
        from <= to <= steps.len(),
        forall|i: int| from <= i < to ==> !(#[trigger] steps[i] is Told),
    ensures
        state_before(fake, steps, to) == state_before(fake, steps, from),
    decreases to - from,
{
    if from < to {
        lemma_state_stays(fake, steps, from, (to - 1) as nat);
        assert(!(steps[to - 1] is Told));
    }
}

/// On a run that came out as the model has it, every step of an operation did.
pub proof fn lemma_steps_come_out(
    fake: FakeView,
    before: Seq<Event>,
    after: Seq<Event>,
    steps: Seq<Step>,
)
    requires
        follows(before, after, steps),
        fake.plays_run(after.skip(before.len() as int)),
        forall|i: int| 0 <= i < steps.len() ==> is_plain(#[trigger] steps[i]),
    ensures
        forall|i: int| 0 <= i < steps.len() ==> #[trigger] came_out(fake, steps, i),
        after.len() >= before.len(),
        after == before + after.skip(before.len() as int),
        fake.after_run(after.skip(before.len() as int)).state == state_before(
            fake,
            steps,
            steps.len(),
        ).state,
        fake.after_run(after.skip(before.len() as int)).silent == fake.silent,
        state_before(fake, steps, steps.len()).silent == fake.silent,
    decreases steps.len(),
{
    reveal(follows);
    reveal(steps_to);
    let run = after.skip(before.len() as int);
    if steps.len() == 0 {
        assert(run =~= Seq::empty());
        assert(after =~= before + run);
    } else {
        let front = steps.drop_last();
        let last = steps.last();
        let middle = choose|middle: Seq<Event>|
            {
                &&& follows(before, middle, front)
                &&& #[trigger] steps_to(middle, after, last)
            };
        let end = choose|run: Seq<Event>| after == middle + run && #[trigger] taking(run, last);
        let first = middle.skip(before.len() as int);
        lemma_grows(before, middle, front);
        assert(middle =~= before + first);
        assert(run =~= first + end);
        lemma_parts(fake, first, end);
        assert forall|i: int| 0 <= i < front.len() implies is_plain(#[trigger] front[i]) by {
            assert(front[i] == steps[i]);
        }
        lemma_steps_come_out(fake, before, middle, front);
        let n = (steps.len() - 1) as nat;
        lemma_same_front(fake, steps, n);
        let now = fake.after_run(first);
        let modelled = state_before(fake, steps, n);
        assert(is_plain(steps[n as int]));
        match last {
            Step::Told { command, profile, args, sent } => {
                lemma_told(now, end, command, profile, args, sent);
            },
            Step::Asked { command, profile, args, attempts, outcome } => {
                lemma_asking_keeps(now, end, command, profile, args, attempts, 30, outcome);
                if is_answered(modelled, command, selector(args)) {
                    lemma_asked(now, end, command, profile, args, attempts, outcome);
                } else if command != 0 {
                    lemma_not_answered(now, end, command, profile, args, attempts, 30, outcome);
                }
            },
            _ => {
                assert(end.skip(1) =~= Seq::empty());
                reveal_with_fuel(FakeView::after_run, 2);
            },
        }
        assert forall|i: int| 0 <= i < steps.len() implies #[trigger] came_out(
            fake,
            steps,
            i,
        ) by {
            lemma_same_front(fake, steps, i as nat);
            if i < front.len() {
                assert(came_out(fake, front, i));
                assert(front[i] == steps[i]);
            }
        }
        assert(after =~= before + run);
    }
}

/// A trace only grows.
pub proof fn lemma_grows(before: Seq<Event>, after: Seq<Event>, steps: Seq<Step>)
    requires
        follows(before, after, steps),
    ensures
        after.len() >= before.len(),
        after.take(before.len() as int) == before,
    decreases steps.len(),
{
    reveal(follows);
    reveal(steps_to);
    if steps.len() == 0 {
        assert(after.take(before.len() as int) =~= before);
    } else {
        let middle = choose|middle: Seq<Event>|
            {
                &&& follows(before, middle, steps.drop_last())
                &&& #[trigger] steps_to(middle, after, steps.last())
            };
        lemma_grows(before, middle, steps.drop_last());
        assert(after.take(before.len() as int) =~= middle.take(before.len() as int));
    }
}

/// Whatever a device does over a stand-in comes out as the stand-in has it, so
/// that all of the below holds of it.
pub proof fn lemma_over_a_stand_in(before: Device<Fake>, after: Device<Fake>, steps: Seq<Step>)
    requires
        before.inner().is_recorded(),
        after.inner().is_recorded(),
        follows(before.trace(), after.trace(), steps),
    ensures
        before.inner()@.plays_run(after.trace().skip(before.trace().len() as int)),
        after.inner()@ == before.inner()@.after_run(
            after.trace().skip(before.trace().len() as int),
        ),
{
    let run = after.trace().skip(before.trace().len() as int);
    lemma_recorded(before.inner());
    lemma_recorded(after.inner());
    lemma_grows(before.trace(), after.trace(), steps);
    assert(after.trace() =~= before.trace() + run);
    lemma_parts(FakeView::blank(), before.trace(), run);
}

/// Steps that are taken one after the other are taken over one part of the run
/// after the other.
pub proof fn lemma_over_two(
    fake: FakeView,
    before: Seq<Event>,
    after: Seq<Event>,
    first: Seq<Step>,
    second: Seq<Step>,
) -> (middle: Seq<Event>)
    requires
        follows(before, after, first + second),
        fake.plays_run(after.skip(before.len() as int)),
    ensures
        follows(before, middle, first),
        follows(middle, after, second),
        fake.plays_run(middle.skip(before.len() as int)),
        left_behind(fake, before, middle).plays_run(after.skip(middle.len() as int)),
        left_behind(fake, before, after) == left_behind(
            left_behind(fake, before, middle),
            middle,
            after,
        ),
{
    let middle = lemma_split(before, after, first, second);
    lemma_grows(before, middle, first);
    lemma_grows(middle, after, second);
    let one = middle.skip(before.len() as int);
    let two = after.skip(middle.len() as int);
    assert(middle =~= before + one);
    assert(after =~= middle + two);
    assert(after.skip(before.len() as int) =~= one + two);
    lemma_parts(fake, one, two);
    middle
}

proof fn lemma_split(
    before: Seq<Event>,
    after: Seq<Event>,
    first: Seq<Step>,
    second: Seq<Step>,
) -> (middle: Seq<Event>)
    requires
        follows(before, after, first + second),
    ensures
        follows(before, middle, first),
        follows(middle, after, second),
    decreases second.len(),
{
    reveal(follows);
    if second.len() == 0 {
        assert(first + second =~= first);
        after
    } else {
        let steps = first + second;
        assert(steps.drop_last() =~= first + second.drop_last());
        assert(steps.last() == second.last());
        let late = choose|late: Seq<Event>|
            {
                &&& follows(before, late, steps.drop_last())
                &&& #[trigger] steps_to(late, after, steps.last())
            };
        let middle = lemma_split(before, late, first, second.drop_last());
        assert(follows(middle, late, second.drop_last()) && steps_to(late, after, second.last()));
        middle
    }
}

/// The hardware once a run is over.
pub open spec fn left_behind(fake: FakeView, before: Seq<Event>, after: Seq<Event>) -> FakeView {
    fake.after_run(after.skip(before.len() as int))
}

// -- setters ------------------------------------------------------------------

/// A report rate that can be set is the one that comes back, and nothing else on
/// the hardware changes.
pub proof fn lemma_polling_lands(
    fake: FakeView,
    before: Seq<Event>,
    after: Seq<Event>,
    device: DeviceView,
    rate: u32,
    sent: Sent,
    confirmed: Answer,
)
    requires
        follows(before, after, device.polling_course(rate, sent, confirmed).steps),
        fake.plays_run(after.skip(before.len() as int)),
        !fake.silent.contains(cmd::POLLING_RATE),
        p::polling_code(rate) is Some,
    ensures
        left_behind(fake, before, after).silent == fake.silent,
        device.polling_course(rate, sent, confirmed).result == Ok::<u32, ErrorView>(rate),
        left_behind(fake, before, after).state == fake.state.insert(
            (cmd::POLLING_RATE, 0),
            seq![
                if rate == 1000 {
                    1u8
                } else if rate == 2000 {
                    2
                } else if rate == 4000 {
                    3
                } else {
                    4
                },
            ],
        ),
{
    let code = p::polling_code(rate)->0;
    let steps = device.polling_course(rate, sent, confirmed).steps;
    lemma_steps_come_out(fake, before, after, steps);
    assert(came_out(fake, steps, 0));
    reveal_with_fuel(state_before, 4);
    assert(came_out(fake, steps, 2));
    assert(answer_value(seq![code])[0] == code);
    p::lemma_polling_round_trip(rate, code);
}

/// Motion sync comes back as it was switched, and nothing else on the hardware
/// changes.
pub proof fn lemma_motion_sync_lands(
    fake: FakeView,
    before: Seq<Event>,
    after: Seq<Event>,
    device: DeviceView,
    enabled: bool,
    sent: Sent,
    confirmed: Answer,
)
    requires
        follows(before, after, device.motion_sync_course(enabled, sent, confirmed).steps),
        fake.plays_run(after.skip(before.len() as int)),
        !fake.silent.contains(cmd::MOTION_SYNC),
    ensures
        left_behind(fake, before, after).silent == fake.silent,
        device.motion_sync_course(enabled, sent, confirmed).result == Ok::<bool, ErrorView>(
            enabled,
        ),
        left_behind(fake, before, after).state == fake.state.insert(
            (cmd::MOTION_SYNC, 0),
            seq![
                if enabled {
                    1u8
                } else {
                    0u8
                },
            ],
        ),
{
    let steps = device.motion_sync_course(enabled, sent, confirmed).steps;
    lemma_steps_come_out(fake, before, after, steps);
    assert(came_out(fake, steps, 0));
    reveal_with_fuel(state_before, 4);
    assert(came_out(fake, steps, 2));
}

/// A lift-off distance that there is comes back as it was set, and nothing else on
/// the hardware changes.
pub proof fn lemma_lift_off_lands(
    fake: FakeView,
    before: Seq<Event>,
    after: Seq<Event>,
    device: DeviceView,
    name: Seq<char>,
    sent: Sent,
    confirmed: Answer,
)
    requires
        follows(before, after, device.lift_off_course(name, sent, confirmed).steps),
        fake.plays_run(after.skip(before.len() as int)),
        !fake.silent.contains(cmd::LIFT_OFF),
        position_of(p::LOD_VALUES@, name) is Some,
    ensures
        left_behind(fake, before, after).silent == fake.silent,
        device.lift_off_course(name, sent, confirmed).result == Ok::<Seq<char>, ErrorView>(name),
        exists|index: u8|
            {
                &&& index < 3
                &&& p::LOD_VALUES@[index as int]@ == name
                &&& left_behind(fake, before, after).state == #[trigger] fake.state.insert(
                    (cmd::LIFT_OFF, 0),
                    seq![index],
                )
            },
{
    lemma_position_names(p::LOD_VALUES@, name);
    let steps = device.lift_off_course(name, sent, confirmed).steps;
    lemma_steps_come_out(fake, before, after, steps);
    assert(came_out(fake, steps, 0));
    reveal_with_fuel(state_before, 4);
    assert(came_out(fake, steps, 2));
    let index = position_of(p::LOD_VALUES@, name)->0 as u8;
    assert(left_behind(fake, before, after).state == fake.state.insert(
        (cmd::LIFT_OFF, 0),
        seq![index],
    ));
}

/// Which mouse is paired can be found out.
pub open spec fn pairing_answers(fake: FakeView, device: DeviceView) -> bool {
    device.effective_pid is None && device.is_receiver() ==> is_answered(
        fake,
        cmd::PAIRED_PRODUCT_ID,
        0,
    )
}

/// The product id of the mouse itself, as the model has it.
pub open spec fn paired_pid(fake: FakeView, device: DeviceView) -> u16 {
    match device.effective_pid {
        Some(pid) => pid,
        None => if device.is_receiver() {
            let value = answer_value(fake.state[(cmd::PAIRED_PRODUCT_ID, 0)]);
            (value[1] * 256 + value[0]) as u16
        } else {
            device.product_id
        },
    }
}

/// A DPI that the sensor takes comes back as it was set, on the stage that was
/// named or, where none was, on the one that the hardware holds to be active. No
/// other stage changes, nor anything else.
pub proof fn lemma_dpi_lands(
    fake: FakeView,
    before: Seq<Event>,
    after: Seq<Event>,
    device: DeviceView,
    dpi: u32,
    stage: Option<usize>,
    a: DpiAnswers,
)
    requires
        follows(before, after, device.dpi_course(dpi, stage, a).steps),
        fake.plays_run(after.skip(before.len() as int)),
        !fake.silent.contains(cmd::DPI),
        pairing_answers(fake, device),
        stage is None ==> is_answered(fake, cmd::ACTIVE_DPI_STAGE, 0),
        p::valid_dpi(dpi, is_direct(paired_pid(fake, device))),
    ensures
        left_behind(fake, before, after).silent == fake.silent,
        device.dpi_course(dpi, stage, a).result matches Ok(tenths) && tenths == dpi * 10,
        ({
            let active = match stage {
                Some(stage) => (stage % 256) as u8,
                None => answer_value(fake.state[(cmd::ACTIVE_DPI_STAGE, 0)])[0],
            };
            let code = if is_direct(paired_pid(fake, device)) {
                dpi as int
            } else {
                dpi / 50 - 1
            };
            left_behind(fake, before, after).state == fake.state.insert(
                (cmd::DPI, active),
                seq![(code % 256) as u8, (code / 256) as u8, 0u8],
            )
        }),
{
    let steps = device.dpi_course(dpi, stage, a).steps;
    let first = match stage {
        Some(_) => Seq::<Step>::empty(),
        None => device.read_steps(cmd::ACTIVE_DPI_STAGE, Seq::empty(), 4, a.stage),
    };
    let direct = is_direct(paired_pid(fake, device));
    let bytes = p::dpi_bytes(dpi, direct);
    let pairing = device.pairing_steps(a.paired);
    lemma_steps_come_out(fake, before, after, steps);
    if stage is None {
        assert(steps[0] == first[0]);
        assert(came_out(fake, steps, 0));
        assert(first.len() == 1);
        lemma_state_stays(fake, steps, 0, 1);
    }
    if pairing.len() > 0 {
        assert(steps[first.len() as int] == pairing[0]);
        assert(came_out(fake, steps, first.len() as int));
        assert(pairing.len() == 1);
    }
    assert(device.direct_result(a.paired) == Ok::<bool, ErrorView>(direct));
    let told = (first.len() + pairing.len()) as int;
    assert(steps[told] is Told);
    lemma_state_stays(fake, steps, 0, told as nat);
    assert(came_out(fake, steps, told));
    let args = steps[told]->Told_args;
    assert(args.skip(1) =~= bytes);
    lemma_state_stays(fake, steps, (told + 1) as nat, (told + 2) as nat);
    assert(came_out(fake, steps, told + 2));
    let value = answer_value(bytes);
    assert(value[0] == bytes[0] && value[1] == bytes[1] && value[2] == bytes[2]);
    p::lemma_dpi_round_trip(dpi, direct);
}

/// A brightness that there is comes back as it was set, where the hardware has
/// one, and nothing else on the hardware changes.
pub proof fn lemma_brightness_lands(
    fake: FakeView,
    before: Seq<Event>,
    after: Seq<Event>,
    device: DeviceView,
    percent: u8,
    paired: Answer,
    sent: Sent,
    confirmed: Outcome,
)
    requires
        follows(before, after, device.brightness_course(percent, paired, sent, confirmed).steps),
        fake.plays_run(after.skip(before.len() as int)),
        !fake.silent.contains(cmd::LIGHTING_BRIGHTNESS),
        pairing_answers(fake, device),
        is_direct(paired_pid(fake, device)),
        p::BRIGHTNESS_LEVELS@.contains(percent),
    ensures
        left_behind(fake, before, after).silent == fake.silent,
        device.brightness_course(percent, paired, sent, confirmed).result == Ok::<
            Option<u8>,
            ErrorView,
        >(Some(percent)),
        left_behind(fake, before, after).state == fake.state.insert(
            (cmd::LIGHTING_BRIGHTNESS, 0),
            seq![(percent / 25) as u8],
        ),
{
    let steps = device.brightness_course(percent, paired, sent, confirmed).steps;
    let told = device.pairing_steps(paired).len() as int;
    lemma_steps_come_out(fake, before, after, steps);
    assert(came_out(fake, steps, 0));
    lemma_state_stays(fake, steps, 0, told as nat);
    assert(came_out(fake, steps, told));
    lemma_state_stays(fake, steps, (told + 1) as nat, (told + 2) as nat);
    assert(came_out(fake, steps, told + 2));
}

/// A brightness is refused where the hardware has none, and nothing on the hardware
/// changes.
pub proof fn lemma_no_brightness(
    fake: FakeView,
    before: Seq<Event>,
    after: Seq<Event>,
    device: DeviceView,
    percent: u8,
    paired: Answer,
    sent: Sent,
    confirmed: Outcome,
)
    requires
        follows(before, after, device.brightness_course(percent, paired, sent, confirmed).steps),
        fake.plays_run(after.skip(before.len() as int)),
        pairing_answers(fake, device),
        !is_direct(paired_pid(fake, device)),
    ensures
        device.brightness_course(percent, paired, sent, confirmed).result matches Err(
            ErrorView::Unsupported(_),
        ),
        left_behind(fake, before, after).state == fake.state,
        left_behind(fake, before, after).silent == fake.silent,
{
    let steps = device.brightness_course(percent, paired, sent, confirmed).steps;
    lemma_steps_come_out(fake, before, after, steps);
    if steps.len() > 0 {
        assert(came_out(fake, steps, 0));
    }
    lemma_state_stays(fake, steps, 0, steps.len());
}

/// The light answers for all that is read of it.
pub open spec fn light_answers(fake: FakeView) -> bool {
    &&& is_answered(fake, cmd::LIGHTING_STATE, 0)
    &&& is_answered(fake, cmd::LIGHTING_MODE, 0)
    &&& is_answered(fake, cmd::LIGHTING_COLOR, 0)
}

proof fn lemma_light_asks(device: DeviceView, light: LightAnswers)
    ensures
        forall|i: int|
            0 <= i < device.light_steps(light).len() ==> (#[trigger] device.light_steps(
                light,
            )[i]) is Asked,
{
}

/// A light that answers is read as the model has it.
proof fn lemma_light_read(
    fake: FakeView,
    device: DeviceView,
    steps: Seq<Step>,
    at: int,
    light: LightAnswers,
)
    requires
        0 < at <= steps.len(),
        steps[at - 1] is Paused,
        steps.skip(at) == device.light_steps(light),
        forall|i: int| 0 <= i < steps.len() ==> #[trigger] came_out(fake, steps, i),
        light_answers(state_before(fake, steps, (at - 1) as nat)),
        pairing_answers(state_before(fake, steps, (at - 1) as nat), device),
    ensures
        ({
            let state = state_before(fake, steps, (at - 1) as nat).state;
            &&& answered(light.state) == Some(answer_value(state[(cmd::LIGHTING_STATE, 0)]))
            &&& answered(light.mode) == Some(answer_value(state[(cmd::LIGHTING_MODE, 0)]))
            &&& answered(light.colour) == Some(answer_value(state[(cmd::LIGHTING_COLOR, 0)]))
            &&& device.direct_result(light.paired) is Ok
        }),
{
    let reading = device.light_steps(light);
    lemma_state_stays(fake, steps, (at - 1) as nat, at as nat);
    assert(reading.len() == steps.len() - at);
    assert(reading[0] == steps.skip(at)[0]);
    assert(came_out(fake, steps, at));
    assert(answered(light.state) is Some);
    assert forall|i: int| at - 1 <= i < steps.len() implies !(#[trigger] steps[i] is Told) by {
        if i >= at {
            assert(reading[i - at] == steps.skip(at)[i - at]);
        }
    }
    lemma_state_stays(fake, steps, (at - 1) as nat, (at + 1) as nat);
    lemma_state_stays(fake, steps, (at - 1) as nat, (at + 3) as nat);
    lemma_state_stays(fake, steps, (at - 1) as nat, (at + 4) as nat);
    assert(reading[1] == steps.skip(at)[1]);
    assert(came_out(fake, steps, at + 1));
    assert(reading[3] == steps.skip(at)[3]);
    assert(came_out(fake, steps, at + 3));
    if device.effective_pid is None && device.is_receiver() {
        assert(reading[4] == steps.skip(at)[4]);
        assert(came_out(fake, steps, at + 4));
    }
}

/// A light mode that there is comes back as it was set: `Off` switches the light
/// off, any other switches it on and selects the mode, and nothing else on the
/// hardware changes.
pub proof fn lemma_light_mode_lands(
    fake: FakeView,
    before: Seq<Event>,
    after: Seq<Event>,
    device: DeviceView,
    mode: Seq<char>,
    state_sent: Sent,
    mode_sent: Sent,
    light: LightAnswers,
)
    requires
        follows(before, after, device.light_mode_course(mode, state_sent, mode_sent, light).steps),
        fake.plays_run(after.skip(before.len() as int)),
        light_answers(fake),
        pairing_answers(fake, device),
        position_of(p::LIGHT_MODES@, mode) is Some,
    ensures
        left_behind(fake, before, after).silent == fake.silent,
        device.light_mode_course(mode, state_sent, mode_sent, light).result == Ok::<
            Option<Seq<char>>,
            ErrorView,
        >(Some(mode)),
        mode == p::LIGHT_MODES@[0]@ ==> left_behind(fake, before, after).state
            == fake.state.insert((cmd::LIGHTING_STATE, 0), seq![0u8]),
        mode != p::LIGHT_MODES@[0]@ ==> exists|index: u8|
            {
                &&& 1 <= index < 4
                &&& p::LIGHT_MODES@[index as int]@ == mode
                &&& left_behind(fake, before, after).state == #[trigger] fake.state.insert(
                    (cmd::LIGHTING_STATE, 0),
                    seq![1u8],
                ).insert((cmd::LIGHTING_MODE, 0), seq![index])
            },
{
    lemma_position_names(p::LIGHT_MODES@, mode);
    let index = position_of(p::LIGHT_MODES@, mode)->0;
    let steps = device.light_mode_course(mode, state_sent, mode_sent, light).steps;
    lemma_steps_come_out(fake, before, after, steps);
    reveal_with_fuel(state_before, 3);
    assert(came_out(fake, steps, 0));
    let asked: int = if index == 0 {
        2
    } else {
        3
    };
    assert(index > 0 ==> came_out(fake, steps, 1));
    assert(steps.skip(asked) =~= device.light_steps(light));
    lemma_light_read(fake, device, steps, asked, light);
    lemma_light_asks(device, light);
    assert forall|i: int| asked - 1 <= i < steps.len() implies !(#[trigger] steps[i] is Told) by {
        if i >= asked {
            assert(steps[i] == steps.skip(asked)[i - asked]);
        }
    }
    lemma_state_stays(fake, steps, (asked - 1) as nat, steps.len());
    if index > 0 {
        let chosen = index as u8;
        assert(left_behind(fake, before, after).state == fake.state.insert(
            (cmd::LIGHTING_STATE, 0),
            seq![1u8],
        ).insert((cmd::LIGHTING_MODE, 0), seq![chosen]));
    }
}

/// A colour that can be written down comes back as it was set, and nothing else on
/// the hardware changes.
pub proof fn lemma_colour_lands(
    fake: FakeView,
    before: Seq<Event>,
    after: Seq<Event>,
    device: DeviceView,
    colour: Seq<char>,
    sent: Sent,
    light: LightAnswers,
)
    requires
        follows(before, after, device.colour_course(colour, sent, light).steps),
        fake.plays_run(after.skip(before.len() as int)),
        light_answers(fake),
        pairing_answers(fake, device),
        p::colour_value(colour) is Some,
    ensures
        left_behind(fake, before, after).silent == fake.silent,
        device.colour_course(colour, sent, light).result matches Ok(Some(shown))
            && p::colour_value(shown) == p::colour_value(colour),
        device.colour_course(colour, sent, light).result == Ok::<Option<Seq<char>>, ErrorView>(
            Some(
                "#"@ + hex_byte(p::colour_value(colour)->0[0]) + hex_byte(
                    p::colour_value(colour)->0[1],
                ) + hex_byte(p::colour_value(colour)->0[2]),
            ),
        ),
        left_behind(fake, before, after).state == fake.state.insert(
            (cmd::LIGHTING_COLOR, 0),
            p::colour_value(colour)->0,
        ),
{
    let rgb = p::colour_value(colour)->0;
    let steps = device.colour_course(colour, sent, light).steps;
    lemma_steps_come_out(fake, before, after, steps);
    reveal_with_fuel(state_before, 2);
    assert(came_out(fake, steps, 0));
    assert(steps.skip(2) =~= device.light_steps(light));
    lemma_light_read(fake, device, steps, 2, light);
    lemma_light_asks(device, light);
    assert forall|i: int| 1 <= i < steps.len() implies !(#[trigger] steps[i] is Told) by {
        if i >= 2 {
            assert(steps[i] == steps.skip(2)[i - 2]);
        }
    }
    lemma_state_stays(fake, steps, 1, steps.len());
    let value = answer_value(rgb);
    assert(seq![value[0], value[1], value[2]] =~= rgb);
    p::lemma_colour_round_trip(rgb[0], rgb[1], rgb[2]);
}

} // verus!
