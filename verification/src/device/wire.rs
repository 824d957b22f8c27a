//! The reports that a device writes, byte by byte.

use vstd::prelude::*;

use crate::device::settings::{DpiAnswers, Sent};
use crate::device::status::{active_profile, stage_total, Answers, LightAnswers};
use crate::device::steps::{asking, follows, steps_to, taking, Answer, Outcome, Step};
use crate::device::DeviceView;
use crate::protocol::{self as p, cmd};
use crate::transport::Event;

verus! {

// -- reports ------------------------------------------------------------------

/// A report carries a command, a profile and arguments: the command comes first,
/// the number of arguments in byte 5, the profile in byte 6, the arguments from
/// byte 7 on, and the rest is fixed.
pub open spec fn carries(payload: Seq<u8>, command: u8, profile: u8, args: Seq<u8>) -> bool {
    &&& payload.len() == 15
    &&& payload[0] == command
    &&& payload[1] == 0 && payload[2] == 0 && payload[3] == 1 && payload[4] == 0
    &&& payload[5] == args.len()
    &&& payload[6] == profile
    &&& forall|i: int|
        7 <= i < 15 ==> #[trigger] payload[i] == if i - 7 < args.len() {
            args[i - 7]
        } else {
            0
        }
}

/// A command that each profile has a value of its own for.
pub open spec fn is_scoped(command: u8) -> bool {
    ||| command == 4
    ||| command == 6
    ||| command == 8
    ||| command == 10
    ||| command == 12
    ||| command == 14
    ||| command == 23
    ||| command == 25
    ||| command == 28
    ||| command == 30
    ||| command == 32
    ||| command == 34
    ||| command == 38
    ||| command == 40
    ||| command == 42
    ||| command == 48
    ||| command == 50
}

/// The commands that a device asks scoped to its profile are those that each
/// profile has a value of its own for.
pub proof fn lemma_scope(device: DeviceView, command: u8)
    ensures
        device.asking_profile(command) == if is_scoped(command) {
            device.profile
        } else {
            0
        },
{
    let all = p::PROFILE_COMMANDS@;
    assert(all[0] == 28 && all[1] == 30 && all[2] == 4 && all[3] == 6 && all[4] == 8 && all[5] == 10
        && all[6] == 14 && all[7] == 12 && all[8] == 23 && all[9] == 42 && all[10] == 50 && all[11]
        == 25 && all[12] == 32 && all[13] == 34 && all[14] == 38 && all[15] == 40 && all[16] == 48);
}

/// The numbers of the commands. A setter's is one below its getter's.
pub proof fn lemma_commands()
    ensures
        cmd::DPI == 4 && cmd::SET_DPI == 3,
        cmd::POLLING_RATE == 6 && cmd::SET_POLLING_RATE == 5,
        cmd::LIFT_OFF == 8 && cmd::SET_LIFT_OFF == 7,
        cmd::ANGLE_TUNING == 10 && cmd::SET_ANGLE_TUNING == 9,
        cmd::SYSTEM_MODE == 12 && cmd::SET_SYSTEM_MODE == 11,
        cmd::MOTION_SYNC == 14 && cmd::SET_MOTION_SYNC == 13,
        cmd::PROFILE == 16 && cmd::BATTERY_CHARGING == 17 && cmd::BATTERY_PERCENT == 18,
        cmd::ONLINE == 19 && cmd::FIRMWARE == 21 && cmd::PAIRED_PRODUCT_ID == 167,
        cmd::HYPER_CLICK == 23 && cmd::SET_HYPER_CLICK == 22,
        cmd::SLEEP_MINUTES == 25 && cmd::SET_SLEEP_MINUTES == 24,
        cmd::ACTIVE_DPI_STAGE == 28 && cmd::SET_ACTIVE_DPI_STAGE == 27,
        cmd::DPI_STAGE_COUNT == 30 && cmd::SET_DPI_STAGE_COUNT == 29,
        cmd::LIGHTING_MODE == 32 && cmd::SET_LIGHTING_MODE == 31,
        cmd::LIGHTING_COLOR == 34 && cmd::SET_LIGHTING_COLOR == 33,
        cmd::LIGHTING_STATE == 38 && cmd::SET_LIGHTING_STATE == 37,
        cmd::LIGHTING_SPEED == 40 && cmd::SET_LIGHTING_SPEED == 39,
        cmd::SLAM_CLICK == 42 && cmd::SET_SLAM_CLICK == 41,
        cmd::LIGHTING_BRIGHTNESS == 48 && cmd::SET_LIGHTING_BRIGHTNESS == 47,
        cmd::OPTICAL_ENGINE == 50 && cmd::SET_OPTICAL_ENGINE == 49,
{
}

/// A request carries what it was built from.
pub proof fn lemma_carries(command: u8, profile: u8, args: Seq<u8>)
    requires
        args.len() <= 8,
    ensures
        carries(p::request_payload(command, profile, args), command, profile, args),
{
}

/// A setting goes out in one report, which carries the device's active profile.
pub proof fn lemma_setting_report(
    device: DeviceView,
    command: u8,
    args: Seq<u8>,
    sent: Sent,
    run: Seq<Event>,
)
    requires
        taking(run, device.tell(command, args, sent)),
        args.len() <= 8,
    ensures
        run.len() == 1,
        run[0] matches Event::Written { report_id, payload, sent: outcome } && report_id == 6
            && outcome == sent && carries(payload, command, device.profile, args),
{
    lemma_carries(command, device.profile, args);
}

/// A question goes out in reports that are all alike: they carry the device's
/// active profile where the command is scoped to it, and profile 0 elsewhere.
pub proof fn lemma_question_reports(
    device: DeviceView,
    command: u8,
    args: Seq<u8>,
    attempts: nat,
    outcome: Outcome,
    run: Seq<Event>,
    i: int,
)
    requires
        taking(run, device.ask(command, args, attempts, outcome)),
        args.len() <= 8,
        0 <= i < run.len(),
    ensures
        run[i] matches Event::Written { report_id, payload, .. } ==> report_id == 6 && carries(
            payload,
            command,
            if is_scoped(command) {
                device.profile
            } else {
                0
            },
            args,
        ),
{
    let profile = device.asking_profile(command);
    lemma_scope(device, command);
    lemma_carries(command, profile, args);
    lemma_asking_reports(
        run,
        p::request_payload(command, profile, args),
        command,
        attempts,
        30,
        outcome,
        i,
    );
}

proof fn lemma_asking_reports(
    run: Seq<Event>,
    request: Seq<u8>,
    command: u8,
    attempts: nat,
    wait: u64,
    outcome: Outcome,
    i: int,
)
    requires
        asking(run, request, command, attempts, wait, outcome),
        0 <= i < run.len(),
    ensures
        run[i] matches Event::Written { report_id, payload, .. } ==> report_id == p::REPORT_ID
            && payload == request,
    decreases attempts,
{
    if i >= 3 {
        assert(run.skip(3)[i - 3] == run[i]);
        lemma_asking_reports(
            run.skip(3),
            request,
            command,
            (attempts - 1) as nat,
            60,
            outcome,
            i - 3,
        );
    }
}

// -- profiles -----------------------------------------------------------------

/// A report carries a profile: a setter and a getter that is scoped carry this
/// one, any other getter carries none.
pub open spec fn is_stamped(event: Event, profile: u8) -> bool {
    event matches Event::Written { report_id, payload, .. } ==> {
        &&& report_id == 6
        &&& payload.len() == 15
        &&& payload[6] == if is_setter(payload[0]) || is_scoped(payload[0]) {
            profile
        } else {
            0
        }
    }
}

/// A command that writes a setting.
pub open spec fn is_setter(command: u8) -> bool {
    is_scoped((command + 1) as u8)
}

/// The steps of an operation are scoped to a profile.
pub open spec fn are_stamped(steps: Seq<Step>, profile: u8) -> bool {
    forall|i: int| 0 <= i < steps.len() ==> is_stamped_step(#[trigger] steps[i], profile)
}

/// How often a command is asked: four times what nothing can be said without --
/// the profile, the report rate, the active stage, the paired mouse -- and once
/// what may be missing. A DPI, a lift-off distance and motion sync are one or the
/// other: they must be answered after they were set.
pub open spec fn is_patient(command: u8, attempts: nat) -> bool {
    if command == 16 || command == 6 || command == 28 || command == 167 {
        attempts == 4
    } else if command == 4 || command == 8 || command == 14 {
        attempts == 4 || attempts == 1
    } else {
        attempts == 1
    }
}

/// A step is scoped to a profile, and asks as often as is fit.
pub open spec fn is_stamped_step(step: Step, profile: u8) -> bool {
    match step {
        Step::Told { command, profile: carried, args, .. } => carried == profile && args.len() <= 8
            && is_setter(command),
        Step::Asked { command, profile: carried, args, attempts, .. } => args.len() <= 8
            && !is_setter(command) && carried == (if is_scoped(command) {
            profile
        } else {
            0
        }) && is_patient(command, attempts),
        Step::Controlled { .. } => false,
        Step::Paused => true,
    }
}

/// The reports of steps that are scoped to a profile carry it.
pub proof fn lemma_stamped(
    before: Seq<Event>,
    after: Seq<Event>,
    steps: Seq<Step>,
    profile: u8,
    i: int,
)
    requires
        follows(before, after, steps),
        are_stamped(steps, profile),
        before.len() <= i < after.len(),
    ensures
        is_stamped(after[i], profile),
    decreases steps.len(),
{
    reveal(follows);
    reveal(steps_to);
    if steps.len() > 0 {
        let front = steps.drop_last();
        let middle = choose|middle: Seq<Event>|
            {
                &&& follows(before, middle, front)
                &&& #[trigger] steps_to(middle, after, steps.last())
            };
        let run = choose|run: Seq<Event>|
            after == middle + run && #[trigger] taking(run, steps.last());
        assert(is_stamped_step(steps[steps.len() - 1], profile));
        if i < middle.len() {
            assert forall|j: int| 0 <= j < front.len() implies is_stamped_step(
                #[trigger] front[j],
                profile,
            ) by {
                assert(front[j] == steps[j]);
            }
            lemma_stamped(before, middle, front, profile, i);
        } else {
            assert(after[i] == run[i - middle.len()]);
            match steps.last() {
                Step::Told { command, profile: carried, args, .. } => {
                    lemma_carries(command, carried, args);
                },
                Step::Asked { command, profile: carried, args, attempts, outcome } => {
                    lemma_carries(command, carried, args);
                    lemma_asking_reports(
                        run,
                        p::request_payload(command, carried, args),
                        command,
                        attempts,
                        30,
                        outcome,
                        i - middle.len(),
                    );
                },
                _ => {},
            }
        }
    }
}

proof fn lemma_scopes(device: DeviceView)
    ensures
        forall|command: u8|
            #![trigger device.asking_profile(command)]
            device.asking_profile(command) == if is_scoped(command) {
                device.profile
            } else {
                0
            },
{
    assert forall|command: u8|
        #![trigger device.asking_profile(command)]
        device.asking_profile(command) == if is_scoped(command) {
            device.profile
        } else {
            0
        } by {
        lemma_scope(device, command);
    }
}

proof fn lemma_light_stamped(device: DeviceView, light: LightAnswers)
    ensures
        are_stamped(device.light_steps(light), device.profile),
{
    lemma_scopes(device);
}

proof fn lemma_stamped_then(first: Seq<Step>, second: Seq<Step>, profile: u8)
    requires
        are_stamped(first, profile),
        are_stamped(second, profile),
    ensures
        are_stamped(first + second, profile),
{
}

/// Setting the report rate writes and reads it in the active profile.
pub proof fn lemma_polling_reports(
    device: DeviceView,
    before: Seq<Event>,
    after: Seq<Event>,
    rate: u32,
    sent: Sent,
    confirmed: Answer,
    i: int,
)
    requires
        follows(before, after, device.polling_course(rate, sent, confirmed).steps),
        before.len() <= i < after.len(),
    ensures
        is_stamped(after[i], device.profile),
        device.polling_course(rate, sent, confirmed).device.profile == device.profile,
{
    lemma_scopes(device);
    assert(are_stamped(device.polling_course(rate, sent, confirmed).steps, device.profile));
    lemma_stamped(
        before,
        after,
        device.polling_course(rate, sent, confirmed).steps,
        device.profile,
        i,
    );
}

/// Switching motion sync writes and reads it in the active profile.
pub proof fn lemma_motion_sync_reports(
    device: DeviceView,
    before: Seq<Event>,
    after: Seq<Event>,
    enabled: bool,
    sent: Sent,
    confirmed: Answer,
    i: int,
)
    requires
        follows(before, after, device.motion_sync_course(enabled, sent, confirmed).steps),
        before.len() <= i < after.len(),
    ensures
        is_stamped(after[i], device.profile),
        device.motion_sync_course(enabled, sent, confirmed).device.profile == device.profile,
{
    lemma_scopes(device);
    assert(are_stamped(device.motion_sync_course(enabled, sent, confirmed).steps, device.profile));
    lemma_stamped(
        before,
        after,
        device.motion_sync_course(enabled, sent, confirmed).steps,
        device.profile,
        i,
    );
}

/// Setting the lift-off distance writes and reads it in the active profile.
pub proof fn lemma_lift_off_reports(
    device: DeviceView,
    before: Seq<Event>,
    after: Seq<Event>,
    name: Seq<char>,
    sent: Sent,
    confirmed: Answer,
    i: int,
)
    requires
        follows(before, after, device.lift_off_course(name, sent, confirmed).steps),
        before.len() <= i < after.len(),
    ensures
        is_stamped(after[i], device.profile),
        device.lift_off_course(name, sent, confirmed).device.profile == device.profile,
{
    lemma_scopes(device);
    assert(are_stamped(device.lift_off_course(name, sent, confirmed).steps, device.profile));
    lemma_stamped(
        before,
        after,
        device.lift_off_course(name, sent, confirmed).steps,
        device.profile,
        i,
    );
}

/// Setting a DPI writes and reads it in the active profile.
pub proof fn lemma_dpi_reports(
    device: DeviceView,
    before: Seq<Event>,
    after: Seq<Event>,
    dpi: u32,
    stage: Option<usize>,
    a: DpiAnswers,
    i: int,
)
    requires
        follows(before, after, device.dpi_course(dpi, stage, a).steps),
        before.len() <= i < after.len(),
    ensures
        is_stamped(after[i], device.profile),
        device.dpi_course(dpi, stage, a).device.profile == device.profile,
{
    lemma_scopes(device);
    lemma_scopes(device.pairing_after(a.paired));
    assert(are_stamped(device.dpi_course(dpi, stage, a).steps, device.profile));
    lemma_stamped(before, after, device.dpi_course(dpi, stage, a).steps, device.profile, i);
}

/// Setting the brightness writes and reads it in the active profile.
pub proof fn lemma_brightness_reports(
    device: DeviceView,
    before: Seq<Event>,
    after: Seq<Event>,
    percent: u8,
    paired: Answer,
    sent: Sent,
    confirmed: Outcome,
    i: int,
)
    requires
        follows(before, after, device.brightness_course(percent, paired, sent, confirmed).steps),
        before.len() <= i < after.len(),
    ensures
        is_stamped(after[i], device.profile),
        device.brightness_course(percent, paired, sent, confirmed).device.profile == device.profile,
{
    lemma_scopes(device);
    lemma_scopes(device.pairing_after(paired));
    assert(
        are_stamped(device.brightness_course(percent, paired, sent, confirmed).steps, device.profile)
    );
    lemma_stamped(
        before,
        after,
        device.brightness_course(percent, paired, sent, confirmed).steps,
        device.profile,
        i,
    );
}

/// Setting the light's mode writes and reads it in the active profile.
pub proof fn lemma_light_mode_reports(
    device: DeviceView,
    before: Seq<Event>,
    after: Seq<Event>,
    mode: Seq<char>,
    state_sent: Sent,
    mode_sent: Sent,
    light: LightAnswers,
    i: int,
)
    requires
        follows(before, after, device.light_mode_course(mode, state_sent, mode_sent, light).steps),
        before.len() <= i < after.len(),
    ensures
        is_stamped(after[i], device.profile),
        device.light_mode_course(mode, state_sent, mode_sent, light).device.profile == device.profile,
{
    lemma_scopes(device);
    lemma_light_stamped(device, light);
    assert(
        are_stamped(device.light_mode_course(mode, state_sent, mode_sent, light).steps, device.profile)
    );
    lemma_stamped(
        before,
        after,
        device.light_mode_course(mode, state_sent, mode_sent, light).steps,
        device.profile,
        i,
    );
}

/// Setting the light's colour writes and reads it in the active profile.
pub proof fn lemma_colour_reports(
    device: DeviceView,
    before: Seq<Event>,
    after: Seq<Event>,
    colour: Seq<char>,
    sent: Sent,
    light: LightAnswers,
    i: int,
)
    requires
        follows(before, after, device.colour_course(colour, sent, light).steps),
        before.len() <= i < after.len(),
    ensures
        is_stamped(after[i], device.profile),
        device.colour_course(colour, sent, light).device.profile == device.profile,
{
    lemma_scopes(device);
    lemma_light_stamped(device, light);
    assert(p::colour_value(colour) matches Some(rgb) ==> rgb.len() == 3);
    assert(are_stamped(device.colour_course(colour, sent, light).steps, device.profile));
    lemma_stamped(
        before,
        after,
        device.colour_course(colour, sent, light).steps,
        device.profile,
        i,
    );
}

/// Devices in different profiles write different reports for the same setting.
pub proof fn lemma_profiles_differ(
    one: DeviceView,
    other: DeviceView,
    command: u8,
    args: Seq<u8>,
    sent: Sent,
    first: Seq<Event>,
    second: Seq<Event>,
)
    requires
        one.profile != other.profile,
        args.len() <= 8,
        taking(first, one.tell(command, args, sent)),
        taking(second, other.tell(command, args, sent)),
    ensures
        first != second,
{
    lemma_setting_report(one, command, args, sent, first);
    lemma_setting_report(other, command, args, sent, second);
}

proof fn lemma_read_stamped(device: DeviceView, command: u8, args: Seq<u8>, answer: Answer)
    requires
        args.len() <= 8,
        !is_setter(command),
        is_patient(command, 4),
    ensures
        are_stamped(device.read_steps(command, args, 4, answer), device.profile),
{
    lemma_scopes(device);
}

proof fn lemma_stages_stamped(
    device: DeviceView,
    active: nat,
    now: Seq<u8>,
    stages: Seq<Outcome>,
    count: nat,
)
    ensures
        are_stamped(device.stage_steps(active, now, stages, count), device.profile),
    decreases count,
{
    lemma_scopes(device);
    if count > 0 {
        lemma_stages_stamped(device, active, now, stages, (count - 1) as nat);
    }
}

proof fn lemma_settings_stamped(
    device: DeviceView,
    a: Answers,
    first: Seq<Step>,
    direct: bool,
    stage: u8,
    now: Seq<u8>,
)
    requires
        are_stamped(first, device.profile),
    ensures
        are_stamped(device.settings_course(a, first, direct, stage, now).steps, device.profile),
{
    let none = Seq::<u8>::empty();
    let profile = device.profile;
    let count = stage_total(a.stage_count);
    lemma_scopes(device);
    let stages = device.stage_steps(stage as nat, now, a.stages, count);
    lemma_stages_stamped(device, stage as nat, now, a.stages, count);
    let counted = first.push(device.ask(cmd::DPI_STAGE_COUNT, none, 1, a.stage_count));
    lemma_stamped_then(counted, stages, profile);
    let s1 = counted + stages;
    let s2 = s1.push(device.ask(cmd::BATTERY_PERCENT, none, 1, a.battery)).push(
        device.ask(cmd::BATTERY_CHARGING, none, 1, a.charging),
    ).push(device.ask(cmd::LIFT_OFF, none, 1, a.lift_off)).push(
        device.ask(cmd::SYSTEM_MODE, none, 1, a.system_mode),
    ).push(device.ask(cmd::FIRMWARE, seq![0u8], 1, a.mouse_firmware));
    assert(are_stamped(s2, profile));
    let light = device.light_steps(a.light);
    lemma_light_stamped(device, a.light);
    let known = s2.push(device.ask(cmd::FIRMWARE, seq![1u8], 1, a.receiver_firmware));
    lemma_stamped_then(known, light, profile);
    let s3 = if device.is_receiver() {
        known + light
    } else {
        s2
    };
    let rate = device.read_steps(cmd::POLLING_RATE, none, 4, a.polling);
    lemma_read_stamped(device, cmd::POLLING_RATE, none, a.polling);
    lemma_stamped_then(s3, rate, profile);
    let s5 = (s3 + rate).push(device.ask(cmd::MOTION_SYNC, none, 1, a.motion_sync)).push(
        device.ask(cmd::ANGLE_TUNING, none, 1, a.angle_tuning),
    ).push(device.ask(cmd::SLEEP_MINUTES, none, 1, a.sleep_minutes));
    assert(are_stamped(s5, profile));
}

/// Reading everything asks, in the profile that it found to be active, as often as
/// is fit.
pub proof fn lemma_status_steps(device: DeviceView, a: Answers)
    ensures
        are_stamped(device.status_course(a).steps, device.status_course(a).device.profile),
{
    let none = Seq::<u8>::empty();
    let profile = device.status_course(a).device.profile;
    let s1 = device.read_steps(cmd::PROFILE, none, 4, a.profile);
    lemma_scopes(device);
    assert(are_stamped(s1, profile));
    if let Ok(value) = device.read_result(cmd::PROFILE, a.profile) {
        let d1 = DeviceView { profile: active_profile(value), ..device };
        lemma_read_stamped(d1, cmd::PAIRED_PRODUCT_ID, none, a.paired);
        let pairing = d1.pairing_steps(a.paired);
        lemma_stamped_then(s1, pairing, profile);
        let d2 = d1.pairing_after(a.paired);
        if let Ok(direct) = d1.direct_result(a.paired) {
            let staged = d2.read_steps(cmd::ACTIVE_DPI_STAGE, none, 4, a.stage);
            lemma_read_stamped(d2, cmd::ACTIVE_DPI_STAGE, none, a.stage);
            lemma_stamped_then(s1 + pairing, staged, profile);
            if let Ok(stage) = d2.read_result(cmd::ACTIVE_DPI_STAGE, a.stage) {
                let dpi = d2.read_steps(cmd::DPI, seq![stage[0]], 4, a.dpi);
                lemma_read_stamped(d2, cmd::DPI, seq![stage[0]], a.dpi);
                lemma_stamped_then(s1 + pairing + staged, dpi, profile);
                if let Ok(now) = d2.read_result(cmd::DPI, a.dpi) {
                    let s4 = s1 + pairing + staged + dpi;
                    lemma_settings_stamped(d2, a, s4, direct, stage[0], now);
                }
            }
        }
    }
}

/// Reading everything reads the profile that it found to be active: the one that
/// the hardware names, and the first where it names none.
pub proof fn lemma_status_reports(
    device: DeviceView,
    before: Seq<Event>,
    after: Seq<Event>,
    a: Answers,
    i: int,
)
    requires
        follows(before, after, device.status_course(a).steps),
        before.len() <= i < after.len(),
    ensures
        is_stamped(after[i], device.status_course(a).device.profile),
        match a.profile.outcome {
            Ok(Some(value)) => device.status_course(a).device.profile == if value[0] == 0 {
                1
            } else {
                value[0]
            },
            _ => device.status_course(a).device.profile == device.profile,
        },
{
    lemma_status_steps(device, a);
    lemma_stamped(
        before,
        after,
        device.status_course(a).steps,
        device.status_course(a).device.profile,
        i,
    );
}

// -- what a DPI is set for ----------------------------------------------------

/// Setting a DPI writes it for the stage that was named or, where none was, for
/// the one that the device named as active when it was asked first; and it is
/// that stage whose DPI is read back.
pub proof fn lemma_dpi_stage(
    device: DeviceView,
    dpi: u32,
    stage: Option<usize>,
    a: DpiAnswers,
    i: int,
)
    requires
        0 <= i < device.dpi_course(dpi, stage, a).steps.len(),
    ensures
        ({
            let steps = device.dpi_course(dpi, stage, a).steps;
            let aimed = |byte: u8|
                match stage {
                    Some(stage) => byte == stage % 256,
                    None => {
                        &&& steps[0] matches Step::Asked { command, outcome, .. }
                        &&& command == cmd::ACTIVE_DPI_STAGE
                        &&& outcome matches Ok(Some(reply))
                        &&& byte == reply[0]
                    },
                };
            match steps[i] {
                Step::Told { command, args, .. } => command == cmd::SET_DPI && args.len() == 4
                    && aimed(args[0]),
                Step::Asked { command, args, .. } => command == cmd::DPI ==> args.len() == 1
                    && aimed(args[0]),
                _ => true,
            }
        }),
{
}

} // verus!
