//! What comes of a setting that is refused, does not go out or is not confirmed.

use vstd::prelude::*;

use crate::device::laws::off_the_air;
use crate::device::settings::{DpiAnswers, Sent};
use crate::device::status::LightAnswers;
use crate::device::steps::{Answer, Outcome, Step};
use crate::device::{Course, DeviceView};
use crate::error::ErrorView;
use crate::protocol as p;
use crate::text::{decimal, position_of};

verus! {

// -- refused ------------------------------------------------------------------

/// Nothing is done, and the refusal says what was asked for.
pub open spec fn is_refused<R>(
    course: Course<R>,
    device: DeviceView,
    why: Seq<char>,
    value: Seq<char>,
) -> bool {
    &&& course.steps.len() == 0
    &&& course.device == device
    &&& course.result matches Err(ErrorView::Protocol(text)) && text == why + value
}

/// A setting that there is none of is refused before anything is sent.
pub proof fn lemma_refused_settings(
    device: DeviceView,
    text: Seq<char>,
    rate: u32,
    sent: Sent,
    other: Sent,
    confirmed: Answer,
    light: LightAnswers,
)
    ensures
        rate != 1000 && rate != 2000 && rate != 4000 && rate != 8000 ==> is_refused(
            device.polling_course(rate, sent, confirmed),
            device,
            "unsupported report rate "@,
            decimal(rate as nat),
        ),
        position_of(p::LOD_VALUES@, text) is None ==> is_refused(
            device.lift_off_course(text, sent, confirmed),
            device,
            "unknown lift-off distance "@,
            text,
        ),
        position_of(p::LIGHT_MODES@, text) is None ==> is_refused(
            device.light_mode_course(text, sent, other, light),
            device,
            "unknown light mode "@,
            text,
        ),
        p::colour_value(text) is None ==> is_refused(
            device.colour_course(text, sent, light),
            device,
            "colour must be six hex digits"@,
            Seq::empty(),
        ),
{
    assert("colour must be six hex digits"@ + Seq::<char>::empty()
        =~= "colour must be six hex digits"@);
}

// -- not sent -----------------------------------------------------------------

/// The write that failed is the last thing that was done, and its error is what
/// comes back.
pub open spec fn stops_at<R>(course: Course<R>, error: ErrorView) -> bool {
    &&& course.result == Err::<R, ErrorView>(error)
    &&& course.steps.len() > 0
    &&& course.steps.last() matches Step::Told { sent, .. } && sent == Err::<(), ErrorView>(error)
}

/// A setting that did not go out is not read back.
pub proof fn lemma_not_sent(
    device: DeviceView,
    error: ErrorView,
    text: Seq<char>,
    rate: u32,
    on: bool,
    percent: u8,
    paired: Answer,
    confirmed: Answer,
    light: LightAnswers,
)
    ensures
        p::polling_code(rate) is Some ==> stops_at(
            device.polling_course(rate, Err(error), confirmed),
            error,
        ),
        stops_at(device.motion_sync_course(on, Err(error), confirmed), error),
        position_of(p::LOD_VALUES@, text) is Some ==> stops_at(
            device.lift_off_course(text, Err(error), confirmed),
            error,
        ),
        device.direct_result(paired) == Ok::<bool, ErrorView>(true) ==> stops_at(
            device.brightness_course(percent, paired, Err(error), confirmed.outcome),
            error,
        ),
        position_of(p::LIGHT_MODES@, text) is Some ==> stops_at(
            device.light_mode_course(text, Err(error), Ok(()), light),
            error,
        ),
        position_of(p::LIGHT_MODES@, text) matches Some(index) && index > 0 ==> stops_at(
            device.light_mode_course(text, Ok(()), Err(error), light),
            error,
        ),
        p::colour_value(text) is Some ==> stops_at(
            device.colour_course(text, Err(error), light),
            error,
        ),
{
}

/// A DPI that did not go out is not read back.
pub proof fn lemma_dpi_not_sent(
    device: DeviceView,
    error: ErrorView,
    dpi: u32,
    stage: usize,
    a: DpiAnswers,
    direct: bool,
)
    requires
        a.sent == Err::<(), ErrorView>(error),
        device.direct_result(a.paired) == Ok::<bool, ErrorView>(direct),
        p::valid_dpi(dpi, direct),
    ensures
        stops_at(device.dpi_course(dpi, Some(stage), a), error),
{
}

// -- not confirmed ------------------------------------------------------------

/// What comes of a question that has no answer.
pub open spec fn no_answer(device: DeviceView, command: u8, answer: Answer) -> ErrorView {
    match answer.outcome {
        Err(error) => error,
        Ok(_) => if device.is_receiver() && off_the_air(answer.online) {
            ErrorView::Offline
        } else {
            ErrorView::Timeout(command)
        },
    }
}

/// The setting's getter was asked last but for the receiver, four times.
pub open spec fn asked_back<R>(course: Course<R>, getter: u8, answer: Answer) -> bool {
    exists|i: int|
        0 <= i < course.steps.len() && (#[trigger] course.steps[i] matches Step::Asked {
            command,
            attempts,
            outcome,
            ..
        } && command == getter && attempts == 4 && outcome == answer.outcome)
}

/// A setting that went out and is not read back has failed: with the channel's
/// error, because the mouse is asleep, or because its getter timed out. The getter
/// is asked four times over before that.
pub proof fn lemma_not_confirmed(
    device: DeviceView,
    text: Seq<char>,
    rate: u32,
    on: bool,
    confirmed: Answer,
)
    requires
        !(confirmed.outcome matches Ok(Some(_))),
    ensures
        p::polling_code(rate) is Some ==> {
            let course = device.polling_course(rate, Ok(()), confirmed);
            asked_back(course, 6, confirmed) && course.result == Err::<u32, ErrorView>(
                no_answer(device, 6, confirmed),
            )
        },
        ({
            let course = device.motion_sync_course(on, Ok(()), confirmed);
            asked_back(course, 14, confirmed) && course.result == Err::<bool, ErrorView>(
                no_answer(device, 14, confirmed),
            )
        }),
        position_of(p::LOD_VALUES@, text) is Some ==> {
            let course = device.lift_off_course(text, Ok(()), confirmed);
            asked_back(course, 8, confirmed) && course.result == Err::<Seq<char>, ErrorView>(
                no_answer(device, 8, confirmed),
            )
        },
{
    let rated = device.polling_course(rate, Ok(()), confirmed);
    let synced = device.motion_sync_course(on, Ok(()), confirmed);
    let lifted = device.lift_off_course(text, Ok(()), confirmed);
    if p::polling_code(rate) is Some {
        assert(rated.steps[2] is Asked);
    }
    assert(synced.steps[2] is Asked);
    if position_of(p::LOD_VALUES@, text) is Some {
        assert(lifted.steps[2] is Asked);
    }
}

/// A DPI that went out and is not read back has failed, like any other setting.
pub proof fn lemma_dpi_not_confirmed(
    device: DeviceView,
    dpi: u32,
    stage: usize,
    a: DpiAnswers,
    direct: bool,
)
    requires
        a.sent is Ok,
        device.direct_result(a.paired) == Ok::<bool, ErrorView>(direct),
        p::valid_dpi(dpi, direct),
        !(a.confirmed.outcome matches Ok(Some(_))),
    ensures
        ({
            let course = device.dpi_course(dpi, Some(stage), a);
            asked_back(course, 4, a.confirmed) && course.result == Err::<u32, ErrorView>(
                no_answer(device, 4, a.confirmed),
            )
        }),
{
    let steps = device.dpi_course(dpi, Some(stage), a).steps;
    let asked = device.pairing_steps(a.paired).len() + 2;
    assert(steps[asked as int] is Asked);
}

/// Where a lift-off distance reads back as none there is, it timed out.
pub proof fn lemma_odd_lift_off(
    device: DeviceView,
    text: Seq<char>,
    sent: Sent,
    value: Seq<u8>,
    online: Outcome,
)
    requires
        position_of(p::LOD_VALUES@, text) is Some,
        sent is Ok,
        value.len() > 0,
    ensures
        device.lift_off_course(
            text,
            sent,
            Answer { outcome: Ok(Some(value)), online },
        ).result is Err <==> value[0] >= 3,
        value[0] >= 3 ==> device.lift_off_course(
            text,
            sent,
            Answer { outcome: Ok(Some(value)), online },
        ).result == Err::<Seq<char>, ErrorView>(ErrorView::Timeout(8)),
{
}

/// A brightness that went out and is not read back is not confirmed, which is no
/// error; it is asked back once.
pub proof fn lemma_brightness_not_confirmed(
    device: DeviceView,
    percent: u8,
    paired: Answer,
    confirmed: Outcome,
)
    requires
        device.direct_result(paired) == Ok::<bool, ErrorView>(true),
        !(confirmed matches Ok(Some(_))),
    ensures
        ({
            let course = device.brightness_course(percent, paired, Ok(()), confirmed);
            &&& course.result == Ok::<Option<u8>, ErrorView>(None)
            &&& course.steps.last() matches Step::Asked { command, attempts, .. } && command == 48
                && attempts == 1
        }),
{
}

/// A receiver without a light does not confirm a mode or a colour.
pub proof fn lemma_light_not_confirmed(
    device: DeviceView,
    text: Seq<char>,
    light: LightAnswers,
)
    requires
        !(light.state matches Ok(Some(_))),
    ensures
        position_of(p::LIGHT_MODES@, text) is Some ==> device.light_mode_course(
            text,
            Ok(()),
            Ok(()),
            light,
        ).result == Ok::<Option<Seq<char>>, ErrorView>(None),
        p::colour_value(text) is Some ==> device.colour_course(text, Ok(()), light).result == Ok::<
            Option<Seq<char>>,
            ErrorView,
        >(None),
{
}

} // verus!
