//! What a device does over its channel, step by step.
//!
//! A [`Step`] is one thing a device does; [`follows`] says that a channel's
//! trace grew by exactly the events of a list of steps. The contracts of
//! [`crate::device::Device`] are lists of steps, each with what came of it.

use vstd::prelude::*;

use crate::error::{Error, ErrorView};
use crate::protocol::{
    answers, control_bytes, request_payload, CONTROL_REPORT_ID, PAYLOAD_LEN, REPORT_ID,
};
use crate::transport::Event;

verus! {

/// What asking a command comes to: the value bytes of the reply, no reply at
/// all, or a failure of the channel.
pub type Outcome = Result<Option<Seq<u8>>, ErrorView>;

/// What asking came to, as contracts see it.
pub open spec fn outcome_view(result: Result<Option<Vec<u8>>, Error>) -> Outcome {
    match result {
        Ok(Some(value)) => Ok(Some(value@)),
        Ok(None) => Ok(None),
        Err(error) => Err(error@),
    }
}

/// What reading a command that must be answered comes to: the outcome of asking
/// it, and -- where nobody answered a receiver's command -- the outcome of asking
/// the receiver whether the mouse is on the air.
pub struct Answer {
    pub outcome: Outcome,
    pub online: Outcome,
}

/// The value bytes of an outcome, where there are any.
pub open spec fn answered(outcome: Outcome) -> Option<Seq<u8>> {
    match outcome {
        Ok(Some(value)) => Some(value),
        _ => None,
    }
}

/// One thing a device does over its channel.
pub enum Step {
    /// A command is asked until it is answered, at most `attempts` times.
    Asked { command: u8, profile: u8, args: Seq<u8>, attempts: nat, outcome: Outcome },
    /// A command is sent, and no reply is waited for.
    Told { command: u8, profile: u8, args: Seq<u8>, sent: Result<(), ErrorView> },
    /// The control report is sent.
    Controlled { resume: bool, sent: Result<(), ErrorView> },
    /// The device is given time to settle.
    Paused,
}

/// Why arguments are refused before anything is sent.
pub open spec fn too_many_arguments() -> ErrorView {
    ErrorView::Protocol("at most eight argument bytes"@)
}

/// `run` is what the channel records while a request is sent up to `attempts`
/// times, each time waiting and fetching a report, until a report answers
/// `command`; `outcome` is what that comes to. The first wait is `wait`
/// milliseconds, every later one 60.
pub open spec fn asking(
    run: Seq<Event>,
    request: Seq<u8>,
    command: u8,
    attempts: nat,
    wait: u64,
    outcome: Outcome,
) -> bool
    decreases attempts,
{
    if attempts == 0 {
        run.len() == 0 && outcome == Outcome::Ok(None)
    } else {
        &&& run.len() >= 1
        &&& run[0] matches Event::Written { report_id, payload, sent }
        &&& report_id == REPORT_ID
        &&& payload == request
        &&& match sent {
            Err(error) => run.len() == 1 && outcome == Outcome::Err(error),
            Ok(_) => {
                &&& run.len() >= 3
                &&& run[1] == Event::Slept { millis: wait }
                &&& run[2] matches Event::Fetched { report_id, length, reply }
                &&& report_id == REPORT_ID
                &&& length == PAYLOAD_LEN
                &&& match reply {
                    Err(error) => run.len() == 3 && outcome == Outcome::Err(error),
                    Ok(buf) => if answers(buf, command) {
                        run.len() == 3 && outcome == Outcome::Ok(Some(buf.skip(8)))
                    } else {
                        asking(run.skip(3), request, command, (attempts - 1) as nat, 60, outcome)
                    },
                }
            },
        }
    }
}

/// `run` is what the channel records while `step` is taken.
pub open spec fn taking(run: Seq<Event>, step: Step) -> bool {
    match step {
        Step::Asked { command, profile, args, attempts, outcome } => if args.len() > 8 {
            run.len() == 0 && outcome == Outcome::Err(too_many_arguments())
        } else {
            asking(run, request_payload(command, profile, args), command, attempts, 30, outcome)
        },
        Step::Told { command, profile, args, sent } => if args.len() > 8 {
            run.len() == 0 && sent == Err::<(), ErrorView>(too_many_arguments())
        } else {
            run == seq![
                Event::Written {
                    report_id: REPORT_ID,
                    payload: request_payload(command, profile, args),
                    sent,
                },
            ]
        },
        Step::Controlled { resume, sent } => {
            let written = Event::Written {
                report_id: CONTROL_REPORT_ID,
                payload: control_bytes(resume),
                sent,
            };
            if sent is Ok {
                run == seq![written, Event::Slept { millis: 30 }]
            } else {
                run == seq![written]
            }
        },
        Step::Paused => run == seq![Event::Slept { millis: 30 }],
    }
}

/// The trace grows from `before` to `after` by taking one step.
#[verifier::opaque]
pub open spec fn steps_to(before: Seq<Event>, after: Seq<Event>, step: Step) -> bool {
    exists|run: Seq<Event>| after == before + run && #[trigger] taking(run, step)
}

/// The trace grows from `before` to `after` by taking these steps, in order,
/// and nothing else.
#[verifier::opaque]
pub open spec fn follows(before: Seq<Event>, after: Seq<Event>, steps: Seq<Step>) -> bool
    decreases steps.len(),
{
    if steps.len() == 0 {
        before == after
    } else {
        exists|middle: Seq<Event>|
            {
                &&& follows(before, middle, steps.drop_last())
                &&& #[trigger] steps_to(middle, after, steps.last())
            }
    }
}

/// Taking no step leaves the trace as it is.
pub proof fn lemma_follows_nothing(trace: Seq<Event>)
    ensures
        follows(trace, trace, Seq::empty()),
{
    reveal_with_fuel(follows, 1);
}

/// A run of events that is a step makes the trace grow by that step.
pub proof fn lemma_steps_to(before: Seq<Event>, run: Seq<Event>, step: Step)
    requires
        taking(run, step),
    ensures
        steps_to(before, before + run, step),
{
    reveal(steps_to);
}

/// One more step on top of steps already taken.
pub proof fn lemma_follows_one_more(
    before: Seq<Event>,
    middle: Seq<Event>,
    after: Seq<Event>,
    steps: Seq<Step>,
    step: Step,
)
    requires
        follows(before, middle, steps),
        steps_to(middle, after, step),
    ensures
        follows(before, after, steps.push(step)),
{
    reveal_with_fuel(follows, 1);
    assert(steps.push(step).drop_last() =~= steps);
    assert(steps.push(step).last() == step);
}

/// Steps taken after other steps are one longer list of steps.
pub proof fn lemma_follows_then(
    before: Seq<Event>,
    middle: Seq<Event>,
    after: Seq<Event>,
    first: Seq<Step>,
    second: Seq<Step>,
)
    requires
        follows(before, middle, first),
        follows(middle, after, second),
    ensures
        follows(before, after, first + second),
    decreases second.len(),
{
    reveal_with_fuel(follows, 1);
    if second.len() == 0 {
        assert(first + second =~= first);
    } else {
        let last = choose|m: Seq<Event>|
            follows(middle, m, second.drop_last()) && #[trigger] steps_to(m, after, second.last());
        lemma_follows_then(before, middle, last, first, second.drop_last());
        lemma_follows_one_more(before, last, after, first + second.drop_last(), second.last());
        assert((first + second.drop_last()).push(second.last()) =~= first + second);
    }
}

// -- laws ---------------------------------------------------------------------

/// How many milliseconds were waited in a run.
pub open spec fn waited(run: Seq<Event>) -> nat
    decreases run.len(),
{
    if run.len() == 0 {
        0
    } else {
        waited(run.drop_last()) + match run.last() {
            Event::Slept { millis } => millis as nat,
            _ => 0,
        }
    }
}

proof fn lemma_waited_joins(first: Seq<Event>, second: Seq<Event>)
    ensures
        waited(first + second) == waited(first) + waited(second),
    decreases second.len(),
{
    if second.len() == 0 {
        assert(first + second =~= first);
    } else {
        lemma_waited_joins(first, second.drop_last());
        assert((first + second).drop_last() =~= first + second.drop_last());
    }
}

/// Asking stays within its budget: three events per attempt, 30 milliseconds for
/// the first and 60 for every later one, and it waits all of that only where no
/// attempt was answered.
pub proof fn lemma_asking_budget(
    run: Seq<Event>,
    request: Seq<u8>,
    command: u8,
    attempts: nat,
    wait: u64,
    outcome: Outcome,
)
    requires
        asking(run, request, command, attempts, wait, outcome),
        attempts > 0,
    ensures
        run.len() <= 3 * attempts,
        waited(run) <= wait + 60 * (attempts - 1),
        outcome == Outcome::Ok(None) ==> waited(run) == wait + 60 * (attempts - 1),
    decreases attempts,
{
    reveal_with_fuel(waited, 4);
    reveal_with_fuel(asking, 2);
    if run.len() == 1 {
        assert(run.drop_last() =~= Seq::empty());
    } else {
        let head = run.take(3);
        let rest = run.skip(3);
        assert(run =~= head + rest);
        lemma_waited_joins(head, rest);
        assert(head.drop_last().drop_last().drop_last() =~= Seq::empty());
        assert(head.drop_last().last() == run[1]);
        assert(head.drop_last().drop_last().last() == run[0]);
        assert(waited(head) == wait);
        if run.len() > 3 {
            if attempts > 1 {
                lemma_asking_budget(rest, request, command, (attempts - 1) as nat, 60, outcome);
            }
        } else {
            assert(rest =~= Seq::empty());
        }
    }
}

/// A fetched report, byte by byte, answers a command: it is long enough to hold a
/// value, and its second byte is the command.
pub open spec fn is_reply_to(event: Event, command: u8) -> bool {
    event matches Event::Fetched { reply: Ok(buf), .. } && buf.len() > 8 && buf[1] == command
}

/// A question is answered by the first report fetched that replies to it, and its
/// value is what stands from byte 8 on; nothing is fetched after that. It comes to
/// nothing only where every attempt was made and none was answered, and a failure
/// of the channel ends it at once.
pub proof fn lemma_asking_ends(
    run: Seq<Event>,
    request: Seq<u8>,
    command: u8,
    attempts: nat,
    wait: u64,
    outcome: Outcome,
)
    requires
        asking(run, request, command, attempts, wait, outcome),
    ensures
        match outcome {
            Ok(Some(value)) => {
                &&& run.len() > 0
                &&& is_reply_to(run.last(), command)
                &&& run.last() matches Event::Fetched { reply: Ok(buf), .. }
                &&& value == buf.skip(8)
                &&& forall|i: int|
                    0 <= i < run.len() - 1 ==> !is_reply_to(#[trigger] run[i], command)
            },
            Ok(None) => {
                &&& run.len() == 3 * attempts
                &&& forall|i: int| 0 <= i < run.len() ==> !is_reply_to(#[trigger] run[i], command)
            },
            Err(error) => {
                &&& run.len() > 0
                &&& match run.last() {
                    Event::Written { sent, .. } => sent == Err::<(), ErrorView>(error),
                    Event::Fetched { reply, .. } => reply == Err::<Seq<u8>, ErrorView>(error),
                    _ => false,
                }
            },
        },
    decreases attempts,
{
    if attempts > 0 && run.len() > 3 {
        let rest = run.skip(3);
        lemma_asking_ends(rest, request, command, (attempts - 1) as nat, 60, outcome);
        assert(rest.len() > 0 ==> rest.last() == run.last());
        assert(!is_reply_to(run[0], command));
        assert(!is_reply_to(run[1], command));
        assert(!is_reply_to(run[2], command));
        if let Ok(answer) = outcome {
            let unanswered = if answer is Some {
                run.len() - 1
            } else {
                run.len() as int
            };
            assert forall|i: int| 0 <= i < unanswered implies !is_reply_to(
                #[trigger] run[i],
                command,
            ) by {
                if i >= 3 {
                    assert(rest[i - 3] == run[i]);
                }
            }
        }
    } else if attempts > 0 && run.len() == 3 {
        assert(run.skip(3) =~= Seq::empty());
        if run[2] matches Event::Fetched { reply: Ok(buf), .. } && !answers(buf, command) {
            lemma_asking_ends(run.skip(3), request, command, (attempts - 1) as nat, 60, outcome);
        }
    }
}

/// Each attempt of a question writes the request, waits, and fetches a report of
/// fifteen bytes: 30 milliseconds the first time, 60 every later time.
pub proof fn lemma_asking_attempts(
    run: Seq<Event>,
    request: Seq<u8>,
    command: u8,
    attempts: nat,
    outcome: Outcome,
    i: int,
)
    requires
        asking(run, request, command, attempts, 30, outcome),
        0 <= i < run.len(),
    ensures
        i % 3 == 0 ==> (run[i] matches Event::Written { report_id, payload, .. } && report_id == 6
            && payload == request),
        i == 1 ==> run[i] == (Event::Slept { millis: 30 }),
        i % 3 == 1 && i > 1 ==> run[i] == (Event::Slept { millis: 60 }),
        i % 3 == 2 ==> (run[i] matches Event::Fetched { report_id, length, .. } && report_id == 6
            && length == 15),
{
    lemma_attempts_from(run, request, command, attempts, 30, outcome, i);
}

proof fn lemma_attempts_from(
    run: Seq<Event>,
    request: Seq<u8>,
    command: u8,
    attempts: nat,
    wait: u64,
    outcome: Outcome,
    i: int,
)
    requires
        asking(run, request, command, attempts, wait, outcome),
        0 <= i < run.len(),
    ensures
        i % 3 == 0 ==> (run[i] matches Event::Written { report_id, payload, .. } && report_id == 6
            && payload == request),
        i == 1 ==> run[i] == (Event::Slept { millis: wait }),
        i % 3 == 1 && i > 1 ==> run[i] == (Event::Slept { millis: 60 }),
        i % 3 == 2 ==> (run[i] matches Event::Fetched { report_id, length, .. } && report_id == 6
            && length == 15),
    decreases attempts,
{
    if i >= 3 {
        assert(run.skip(3)[i - 3] == run[i]);
        lemma_attempts_from(
            run.skip(3),
            request,
            command,
            (attempts - 1) as nat,
            60,
            outcome,
            i - 3,
        );
    }
}

/// A step that takes the device time is given it: 30 milliseconds after a control
/// report that went out and wherever a pause is due, and none after a report that
/// did not go out or that is only told. Each sends at most one report.
pub proof fn lemma_settling(run: Seq<Event>, step: Step)
    requires
        taking(run, step),
        !(step is Asked),
    ensures
        waited(run) == match step {
            Step::Controlled { sent, .. } => if sent is Ok {
                30nat
            } else {
                0
            },
            Step::Paused => 30,
            _ => 0,
        },
        step is Paused ==> run.len() == 1,
        step matches Step::Controlled { resume, sent } ==> run[0] == (Event::Written {
            report_id: 3,
            payload: control_bytes(resume),
            sent,
        }) && run.len() == (if sent is Ok {
            2nat
        } else {
            1
        }),
{
    reveal_with_fuel(waited, 3);
    if run.len() == 1 {
        assert(run.drop_last() =~= Seq::empty());
    } else if run.len() == 2 {
        assert(run.drop_last().drop_last() =~= Seq::empty());
        assert(run.drop_last().last() == run[0]);
    }
}

} // verus!
