//! What holds of the command layer as a whole.

use vstd::prelude::*;

use crate::device::settings::{no_brightness, DpiAnswers, Sent};
use crate::device::status::{
    active_profile, battery_level, is_direct, light_mode, stage_total, stages_read, switch, Answers,
    LightAnswers,
};
use crate::device::steps::{answered, Answer, Outcome, Step};
use crate::device::DeviceView;
use crate::error::ErrorView;
use crate::protocol::{self as p, cmd};
use crate::text::position_of;

verus! {

// -- reading ------------------------------------------------------------------

/// The receiver says that the mouse is not on the air.
pub open spec fn off_the_air(online: Outcome) -> bool {
    match answered(online) {
        Some(value) => value[0] == 0,
        None => false,
    }
}

/// A mouse is called asleep exactly where a receiver's command stayed
/// unanswered and the receiver, asked once, said that the mouse is not on the
/// air; every other command that stays unanswered is a timeout.
pub proof fn lemma_asleep(device: DeviceView, command: u8, answer: Answer)
    requires
        answer.outcome is Ok,
    ensures
        match device.read_result(command, answer) {
            Ok(value) => answered(answer.outcome) == Some(value),
            Err(ErrorView::Offline) => answered(answer.outcome) is None && device.is_receiver()
                && off_the_air(answer.online),
            Err(error) => answered(answer.outcome) is None && error == ErrorView::Timeout(command)
                && !(device.is_receiver() && off_the_air(answer.online)),
        },
{
}

/// A battery that does not answer is no reading, and one that does is never
/// past full.
pub proof fn lemma_battery(outcome: Outcome)
    ensures
        battery_level(outcome) is None <==> answered(outcome) is None,
        battery_level(outcome) matches Some(level) ==> level <= 100,
        switch(outcome) is None <==> answered(outcome) is None,
{
}

/// A command that is not scoped to a profile is asked with profile 0, whatever
/// the device's profile.
pub proof fn lemma_profile_scope(device: DeviceView, command: u8)
    ensures
        device.asking_profile(command) == device.profile || device.asking_profile(command) == 0,
        !p::PROFILE_COMMANDS@.contains(command) ==> device.asking_profile(command) == 0,
{
}

/// A pass over a Ten behind its receiver, once the paired mouse is known and
/// where everything answers, is twenty-one questions and nothing else.
pub proof fn lemma_status_round_trips(device: DeviceView, a: Answers)
    requires
        device.is_receiver(),
        device.effective_pid matches Some(pid) && !is_direct(pid),
        a.profile.outcome matches Ok(Some(_)),
        a.stage.outcome matches Ok(Some(stage)) && stage[0] < 4,
        a.dpi.outcome matches Ok(Some(_)),
        a.polling.outcome matches Ok(Some(_)),
        stage_total(a.stage_count) == 4,
        forall|i: int| 0 <= i < 4 ==> answered(#[trigger] a.stages[i]) is Some,
        answered(a.light.state) is Some,
    ensures
        device.status_course(a).result is Ok,
        device.status_course(a).steps.len() == 21,
        forall|i: int|
            0 <= i < 21 ==> (#[trigger] device.status_course(a).steps[i]) is Asked,
{
    let active = a.stage.outcome->Ok_0->0[0] as nat;
    let now = a.dpi.outcome->Ok_0->0;
    let d = DeviceView {
        profile: active_profile(a.profile.outcome->Ok_0->0),
        ..device
    };
    reveal_with_fuel(DeviceView::stage_steps, 5);
    reveal_with_fuel(stages_read, 5);
    assert(stages_read(active, now, a.stages, 1) == 1);
    assert(stages_read(active, now, a.stages, 2) == 2);
    assert(stages_read(active, now, a.stages, 3) == 3);
    let stage_steps = d.stage_steps(active, now, a.stages, 4);
    assert(stage_steps.len() == 3);
    assert(forall|i: int| 0 <= i < 3 ==> (#[trigger] stage_steps[i]) is Asked);
    let light_steps = d.light_steps(a.light);
    assert(light_steps.len() == 4);
    assert(forall|i: int| 0 <= i < 4 ==> (#[trigger] light_steps[i]) is Asked);
}

/// A status that was read names an active stage that fits in a byte, holds at
/// most four stages, and knows no other parts than the mouse and the receiver.
pub proof fn lemma_status_holds(device: DeviceView, a: Answers)
    ensures
        device.status_course(a).result matches Ok(status) ==> {
            &&& status.dpi_stage <= 255
            &&& status.dpi_stages.len() <= 4
            &&& forall|i: int|
                0 <= i < status.firmware.len() ==> (#[trigger] status.firmware[i]).0 == "mouse"@
                    || status.firmware[i].0 == "receiver"@
        },
{
    if let Ok(status) = device.status_course(a).result {
        let count = stage_total(a.stage_count);
        let active = a.stage.outcome->Ok_0->0[0] as nat;
        let now = a.dpi.outcome->Ok_0->0;
        lemma_stages_read(active, now, a.stages, count);
    }
}

proof fn lemma_stages_read(active: nat, now: Seq<u8>, stages: Seq<Outcome>, count: nat)
    ensures
        stages_read(active, now, stages, count) <= count,
    decreases count,
{
    if count > 0 {
        lemma_stages_read(active, now, stages, (count - 1) as nat);
    }
}

// -- writing ------------------------------------------------------------------

/// Steps write nothing.
pub open spec fn nothing_told(steps: Seq<Step>) -> bool {
    forall|i: int| 0 <= i < steps.len() ==> !((#[trigger] steps[i]) is Told)
}

/// Steps end with a command being answered with `value`, after a write that
/// went out.
pub open spec fn confirmed_by(steps: Seq<Step>, command: u8, value: Seq<u8>) -> bool {
    exists|told: int, asked: int|
        {
            &&& 0 <= told < asked < steps.len()
            &&& #[trigger] steps[told] matches Step::Told { sent: Ok(_), .. }
            &&& #[trigger] steps[asked] matches Step::Asked { command: c, outcome, .. }
            &&& c == command
            &&& outcome == Outcome::Ok(Some(value))
        }
}

/// A report rate is claimed only where the device read one back after the
/// write, and it is the one it read back: if that is what was written, it is the
/// one that was asked for.
pub proof fn lemma_polling_is_confirmed(
    device: DeviceView,
    rate: u32,
    sent: Sent,
    confirmed: Answer,
)
    ensures
        ({
            let course = device.polling_course(rate, sent, confirmed);
            match course.result {
                Ok(claimed) => exists|value: Seq<u8>|
                    {
                        &&& #[trigger] confirmed_by(course.steps, cmd::POLLING_RATE, value)
                        &&& claimed == p::polling_rate(value[0])
                        &&& p::polling_code(rate) == Some(value[0]) ==> claimed == rate
                    },
                Err(_) => true,
            }
        }),
        p::polling_code(rate) is None ==> device.polling_course(rate, sent, confirmed).steps.len()
            == 0,
{
    let course = device.polling_course(rate, sent, confirmed);
    if let Ok(_) = course.result {
        let value = confirmed.outcome->Ok_0->0;
        assert(course.steps[0] is Told);
        assert(course.steps[2] is Asked);
        assert(confirmed_by(course.steps, cmd::POLLING_RATE, value));
        p::lemma_polling_round_trip(rate, value[0]);
    }
}

/// A motion sync setting is claimed only where the device read one back after
/// the write: if that is what was written, it is the one that was asked for.
pub proof fn lemma_motion_sync_is_confirmed(
    device: DeviceView,
    enabled: bool,
    sent: Sent,
    confirmed: Answer,
)
    ensures
        ({
            let course = device.motion_sync_course(enabled, sent, confirmed);
            match course.result {
                Ok(claimed) => exists|value: Seq<u8>|
                    {
                        &&& #[trigger] confirmed_by(course.steps, cmd::MOTION_SYNC, value)
                        &&& claimed == (value[0] != 0)
                        &&& value[0] == (if enabled {
                            1u8
                        } else {
                            0u8
                        }) ==> claimed == enabled
                    },
                Err(_) => true,
            }
        }),
{
    let course = device.motion_sync_course(enabled, sent, confirmed);
    if let Ok(_) = course.result {
        let value = confirmed.outcome->Ok_0->0;
        assert(course.steps[0] is Told);
        assert(course.steps[2] is Asked);
        assert(confirmed_by(course.steps, cmd::MOTION_SYNC, value));
    }
}

/// A lift-off distance is claimed only where the device read one back after the
/// write; one that does not exist is refused before anything is written.
pub proof fn lemma_lift_off_is_confirmed(
    device: DeviceView,
    name: Seq<char>,
    sent: Sent,
    confirmed: Answer,
)
    ensures
        ({
            let course = device.lift_off_course(name, sent, confirmed);
            match course.result {
                Ok(claimed) => exists|value: Seq<u8>|
                    {
                        &&& #[trigger] confirmed_by(course.steps, cmd::LIFT_OFF, value)
                        &&& value[0] < 3
                        &&& claimed == p::LOD_VALUES@[value[0] as int]@
                        &&& position_of(p::LOD_VALUES@, name) == Some(value[0] as nat) ==> claimed
                            == name
                    },
                Err(_) => true,
            }
        }),
        position_of(p::LOD_VALUES@, name) is None ==> device.lift_off_course(
            name,
            sent,
            confirmed,
        ).steps.len() == 0,
{
    let course = device.lift_off_course(name, sent, confirmed);
    crate::text::lemma_position_names(p::LOD_VALUES@, name);
    if let Ok(_) = course.result {
        let value = confirmed.outcome->Ok_0->0;
        assert(course.steps[0] is Told);
        assert(course.steps[2] is Asked);
        assert(confirmed_by(course.steps, cmd::LIFT_OFF, value));
    }
}

/// A DPI is claimed only where the device read one back for that stage after
/// the write: if that is what was written, it is the one that was asked for. One
/// that the sensor cannot take is refused, and nothing is written.
pub proof fn lemma_dpi_is_confirmed(
    device: DeviceView,
    dpi: u32,
    stage: Option<usize>,
    a: DpiAnswers,
)
    ensures
        ({
            let course = device.dpi_course(dpi, stage, a);
            match course.result {
                Ok(claimed) => device.direct_result(a.paired) is Ok && exists|value: Seq<u8>|
                    {
                        let direct = device.direct_result(a.paired)->Ok_0;
                        &&& #[trigger] confirmed_by(course.steps, cmd::DPI, value)
                        &&& claimed == p::dpi_tenths(value[0], value[1], value[2], direct)
                        &&& seq![value[0], value[1], value[2]] == p::dpi_bytes(dpi, direct)
                            ==> claimed == dpi * 10
                    },
                Err(_) => true,
            }
        }),
        device.direct_result(a.paired) matches Ok(direct) ==> !p::valid_dpi(dpi, direct)
            ==> nothing_told(device.dpi_course(dpi, stage, a).steps) && device.dpi_course(
            dpi,
            stage,
            a,
        ).result is Err,
{
    let course = device.dpi_course(dpi, stage, a);
    let before = match stage {
        Some(_) => Seq::<Step>::empty(),
        None => device.read_steps(cmd::ACTIVE_DPI_STAGE, Seq::empty(), 4, a.stage),
    };
    let pairing = device.pairing_steps(a.paired);
    if let Ok(claimed) = course.result {
        let direct = device.direct_result(a.paired)->Ok_0;
        let value = a.confirmed.outcome->Ok_0->0;
        let n = (before.len() + pairing.len()) as int;
        assert(course.steps[n] is Told);
        assert(course.steps[n + 2] is Asked);
        assert(confirmed_by(course.steps, cmd::DPI, value));
        let tenths = p::dpi_tenths(value[0], value[1], value[2], direct);
        assert(0 <= tenths <= u32::MAX);
        if seq![value[0], value[1], value[2]] == p::dpi_bytes(dpi, direct) {
            let bytes = p::dpi_bytes(dpi, direct);
            let read = seq![value[0], value[1], value[2]];
            assert(read[0] == bytes[0] && read[1] == bytes[1] && read[2] == bytes[2]);
            p::lemma_dpi_round_trip(dpi, direct);
        }
    }
}

/// Brightness is refused, and nothing is written, where the hardware has none;
/// elsewhere one is claimed only where the device read it back after the write.
pub proof fn lemma_brightness_is_confirmed(
    device: DeviceView,
    percent: u8,
    paired: Answer,
    sent: Sent,
    confirmed: Outcome,
)
    ensures
        ({
            let course = device.brightness_course(percent, paired, sent, confirmed);
            &&& device.direct_result(paired) matches Ok(direct) ==> !direct ==> course.result
                == Err::<Option<u8>, ErrorView>(no_brightness()) && nothing_told(course.steps)
            &&& match course.result {
                Ok(Some(claimed)) => exists|value: Seq<u8>|
                    {
                        &&& #[trigger] confirmed_by(course.steps, cmd::LIGHTING_BRIGHTNESS, value)
                        &&& percent <= 100 && value[0] == percent / 25 ==> claimed == percent - (
                        percent % 25)
                    },
                _ => true,
            }
        }),
{
    let course = device.brightness_course(percent, paired, sent, confirmed);
    let n = device.pairing_steps(paired).len() as int;
    if let Ok(Some(_)) = course.result {
        let value = answered(confirmed)->0;
        assert(course.steps[n] is Told);
        assert(course.steps[n + 2] is Asked);
        assert(confirmed_by(course.steps, cmd::LIGHTING_BRIGHTNESS, value));
    }
}

/// A light's state and mode read as the mode with this index is written.
pub open spec fn reads_mode(index: nat, state: Seq<u8>, mode: Outcome) -> bool {
    if index == 0 {
        state[0] == 0
    } else {
        &&& state[0] == 1
        &&& answered(mode) matches Some(value)
        &&& value[0] == index
    }
}

/// A light mode is claimed only where the device read its state back after the
/// write: if it reads the state and the mode that were written, it is the one
/// that was asked for. One that does not exist is refused before anything is
/// written.
pub proof fn lemma_light_mode_is_confirmed(
    device: DeviceView,
    mode: Seq<char>,
    state_sent: Sent,
    mode_sent: Sent,
    light: LightAnswers,
)
    ensures
        ({
            let course = device.light_mode_course(mode, state_sent, mode_sent, light);
            match course.result {
                Ok(Some(claimed)) => exists|value: Seq<u8>|
                    {
                        &&& #[trigger] confirmed_by(course.steps, cmd::LIGHTING_STATE, value)
                        &&& claimed == light_mode(value, light.mode)
                        &&& reads_mode(position_of(p::LIGHT_MODES@, mode)->0, value, light.mode)
                            ==> claimed == mode
                    },
                _ => true,
            }
        }),
        position_of(p::LIGHT_MODES@, mode) is None ==> device.light_mode_course(
            mode,
            state_sent,
            mode_sent,
            light,
        ).steps.len() == 0,
{
    let course = device.light_mode_course(mode, state_sent, mode_sent, light);
    crate::text::lemma_position_names(p::LIGHT_MODES@, mode);
    if let Ok(Some(_)) = course.result {
        let value = answered(light.state)->0;
        let index = position_of(p::LIGHT_MODES@, mode)->0;
        let n = if index == 0 {
            2int
        } else {
            3int
        };
        assert(course.steps[0] is Told);
        assert(course.steps[n] == device.light_steps(light)[0]);
        assert(course.steps[n] is Asked);
        assert(confirmed_by(course.steps, cmd::LIGHTING_STATE, value));
    }
}

/// A colour is claimed only where the device read one back after the write: if
/// that is what was written, it is the one that was asked for.
pub proof fn lemma_colour_is_confirmed(
    device: DeviceView,
    colour: Seq<char>,
    sent: Sent,
    light: LightAnswers,
)
    ensures
        ({
            let course = device.colour_course(colour, sent, light);
            match course.result {
                Ok(Some(claimed)) => exists|value: Seq<u8>|
                    {
                        &&& #[trigger] confirmed_by(course.steps, cmd::LIGHTING_COLOR, value)
                        &&& claimed == p::colour_text(value[0], value[1], value[2])
                        &&& p::colour_value(colour) == Some(seq![value[0], value[1], value[2]])
                            ==> p::colour_value(claimed) == p::colour_value(colour)
                    },
                _ => true,
            }
        }),
        p::colour_value(colour) is None ==> device.colour_course(colour, sent, light).steps.len()
            == 0,
{
    let course = device.colour_course(colour, sent, light);
    if let Ok(Some(_)) = course.result {
        let value = answered(light.colour)->0;
        let told = device.write_steps(
            cmd::SET_LIGHTING_COLOR,
            p::colour_value(colour)->0,
            sent,
            Seq::empty(),
        );
        assert(told.len() == 2);
        assert(course.steps[0] is Told);
        assert(course.steps[5] == device.light_steps(light)[3]);
        assert(course.steps[5] is Asked);
        assert(confirmed_by(course.steps, cmd::LIGHTING_COLOR, value));
        p::lemma_colour_round_trip(value[0], value[1], value[2]);
    }
}

/// What is read is asked for first, as often as is said, and nothing else is asked
/// unless a receiver's command stayed unanswered: then the receiver is asked once
/// whether the mouse is on the air.
pub proof fn lemma_read_steps(
    device: DeviceView,
    command: u8,
    args: Seq<u8>,
    attempts: nat,
    answer: Answer,
)
    ensures
        ({
            let steps = device.read_steps(command, args, attempts, answer);
            &&& steps[0] == device.ask(command, args, attempts, answer.outcome)
            &&& steps.len() == if device.is_receiver() && answer.outcome == Outcome::Ok(None) {
                2int
            } else {
                1
            }
            &&& steps.len() == 2 ==> (steps[1] matches Step::Asked {
                command,
                args,
                attempts,
                outcome,
                ..
            } && command == cmd::ONLINE && args.len() == 0 && attempts == 1 && outcome
                == answer.online)
        }),
{
}

} // verus!
