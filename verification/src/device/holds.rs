//! What is read of hardware is what the hardware holds.
//!
//! [`FakeView`] is the hardware as a model. Over a run of events that came out as
//! the model has it, a reading is stated here byte by byte from what the hardware
//! holds, however the reading went about it.

use vstd::prelude::*;

use crate::device::round_trip::{
    answer_value, came_out, is_answered, is_plain, left_behind, lemma_state_stays,
    lemma_steps_come_out, paired_pid, pairing_answers, selector,
};
use crate::device::status::{
    active_profile, battery_level, is_direct, stage_dpis, stage_reply, stages_read, stage_total,
    switch, Answers, LightAnswers, LightingView, StatusView,
};
use crate::device::steps::{answered, follows, Answer, Outcome, Step};
use crate::device::DeviceView;
use crate::error::ErrorView;
use crate::protocol::{self as p, cmd};
use crate::text::{hex_byte, upper_hex_byte};
use crate::transport::fake::{getter_of, FakeView};
use crate::transport::Event;

verus! {

// -- questions ----------------------------------------------------------------

/// The eight bytes that the hardware answers a question with, where it answers.
pub open spec fn held(fake: FakeView, command: u8, arg: u8) -> Option<Seq<u8>> {
    if is_answered(fake, command, arg) {
        Some(answer_value(fake.state[(command, arg)]))
    } else {
        None
    }
}

/// A step is a question that came to what the hardware holds.
pub open spec fn is_told_by(fake: FakeView, step: Step) -> bool {
    &&& step matches Step::Asked { command, args, outcome, .. }
    &&& outcome is Ok
    &&& answered(outcome) == held(fake, command, selector(args))
}

/// A step asks a getter, none of which has the number 0.
pub open spec fn is_question(step: Step) -> bool {
    is_plain(step) && (step matches Step::Asked { command, .. } && command != 0)
}

/// Steps ask, and do nothing else.
#[verifier::opaque]
pub open spec fn only_ask(steps: Seq<Step>) -> bool {
    forall|i: int| 0 <= i < steps.len() ==> is_question(#[trigger] steps[i])
}

proof fn lemma_ask_one(step: Step)
    requires
        is_question(step),
    ensures
        only_ask(seq![step]),
{
    reveal(only_ask);
}

proof fn lemma_ask_more(steps: Seq<Step>, step: Step)
    requires
        only_ask(steps),
        is_question(step),
    ensures
        only_ask(steps.push(step)),
{
    reveal(only_ask);
}

proof fn lemma_ask_then(first: Seq<Step>, second: Seq<Step>)
    requires
        only_ask(first),
        only_ask(second),
    ensures
        only_ask(first + second),
{
    reveal(only_ask);
}

proof fn lemma_read_asks(device: DeviceView, command: u8, args: Seq<u8>, answer: Answer)
    requires
        args.len() <= 8,
        command != 0,
        getter_of(command) is None,
    ensures
        only_ask(device.read_steps(command, args, 4, answer)),
{
    reveal(only_ask);
}

/// Questions, and nothing else, come to what the hardware holds.
pub proof fn lemma_questions(
    fake: FakeView,
    before: Seq<Event>,
    after: Seq<Event>,
    steps: Seq<Step>,
)
    requires
        follows(before, after, steps),
        fake.plays_run(after.skip(before.len() as int)),
        only_ask(steps),
    ensures
        forall|i: int| 0 <= i < steps.len() ==> is_told_by(fake, #[trigger] steps[i]),
{
    reveal(only_ask);
    lemma_steps_come_out(fake, before, after, steps);
    assert forall|i: int| 0 <= i < steps.len() implies is_told_by(fake, #[trigger] steps[i]) by {
        assert(came_out(fake, steps, i));
        lemma_state_stays(fake, steps, 0, i as nat);
    }
}

// -- battery ------------------------------------------------------------------

/// A battery reading is the level that the hardware holds, no higher than full,
/// and its charge flag; each is missing exactly where it is not answered.
pub open spec fn battery_is_held(
    fake: FakeView,
    reading: (Option<u8>, Option<bool>),
) -> bool {
    &&& match held(fake, cmd::BATTERY_PERCENT, 0) {
        Some(value) => reading.0 == Some(
            if value[0] < 100 {
                value[0]
            } else {
                100
            },
        ),
        None => reading.0 is None,
    }
    &&& match held(fake, cmd::BATTERY_CHARGING, 0) {
        Some(value) => reading.1 == Some(value[0] > 0),
        None => reading.1 is None,
    }
}

/// A battery that is read is the one the hardware holds.
pub proof fn lemma_battery_is_held(
    fake: FakeView,
    before: Seq<Event>,
    after: Seq<Event>,
    device: DeviceView,
    percent: Outcome,
    charging: Outcome,
)
    requires
        fake.plays_run(after.skip(before.len() as int)),
        follows(
            before,
            after,
            seq![
                device.ask(cmd::BATTERY_PERCENT, Seq::empty(), 1, percent),
                device.ask(cmd::BATTERY_CHARGING, Seq::empty(), 1, charging),
            ],
        ),
    ensures
        battery_is_held(fake, (battery_level(percent), switch(charging))),
{
    let steps = seq![
        device.ask(cmd::BATTERY_PERCENT, Seq::empty(), 1, percent),
        device.ask(cmd::BATTERY_CHARGING, Seq::empty(), 1, charging),
    ];
    reveal(only_ask);
    lemma_questions(fake, before, after, steps);
    assert(is_told_by(fake, steps[0]));
    assert(is_told_by(fake, steps[1]));
}

// -- light --------------------------------------------------------------------

/// A light is what the hardware holds of it: there is one exactly where its state
/// is answered, it is off exactly where that is 0, and everything else about it
/// is its own reply. Only a Sora V3 has a brightness.
pub open spec fn light_is_held(
    fake: FakeView,
    direct: bool,
    lighting: Option<LightingView>,
) -> bool {
    match held(fake, cmd::LIGHTING_STATE, 0) {
        None => lighting is None,
        Some(state) => {
            &&& lighting matches Some(light)
            &&& light.mode == if state[0] == 0 {
                "Off"@
            } else {
                match held(fake, cmd::LIGHTING_MODE, 0) {
                    Some(value) => if value[0] == 2 {
                        "Cycling"@
                    } else if value[0] == 3 {
                        "Wave"@
                    } else {
                        "Static"@
                    },
                    None => "Static"@,
                }
            }
            &&& match held(fake, cmd::LIGHTING_COLOR, 0) {
                Some(value) => light.color == Some(
                    "#"@ + hex_byte(value[0]) + hex_byte(value[1]) + hex_byte(value[2]),
                ),
                None => light.color is None,
            }
            &&& match held(fake, cmd::LIGHTING_SPEED, 0) {
                Some(value) => light.speed matches Some(speed) && if value[0] <= 20 {
                    speed + value[0] == 20
                } else {
                    speed == 0
                },
                None => light.speed is None,
            }
            &&& match held(fake, cmd::LIGHTING_BRIGHTNESS, 0) {
                Some(value) => if direct {
                    light.brightness matches Some(level) && if value[0] <= 10 {
                        level == 25 * value[0]
                    } else {
                        level == 255
                    }
                } else {
                    light.brightness is None
                },
                None => light.brightness is None,
            }
        },
    }
}

proof fn lemma_light_steps(device: DeviceView, light: LightAnswers)
    ensures
        only_ask(device.light_steps(light)),
{
    reveal(only_ask);
}

proof fn lemma_light_is_held(fake: FakeView, device: DeviceView, light: LightAnswers)
    requires
        pairing_answers(fake, device),
        forall|i: int|
            0 <= i < device.light_steps(light).len() ==> is_told_by(
                fake,
                #[trigger] device.light_steps(light)[i],
            ),
    ensures
        device.light_result(light) matches Ok(lighting) && light_is_held(
            fake,
            is_direct(paired_pid(fake, device)),
            lighting,
        ),
        device.light_after(light) == device || device.light_after(light) == (DeviceView {
            effective_pid: Some(paired_pid(fake, device)),
            ..device
        }),
{
    let steps = device.light_steps(light);
    assert(is_told_by(fake, steps[0]));
    if answered(light.state) is Some {
        assert(is_told_by(fake, steps[1]));
        assert(is_told_by(fake, steps[2]));
        assert(is_told_by(fake, steps[3]));
        let pairing = device.pairing_steps(light.paired);
        if pairing.len() > 0 {
            assert(steps[4] == pairing[0]);
            assert(is_told_by(fake, steps[4]));
        }
        assert(device.pairing_result(light.paired) == Ok::<u16, ErrorView>(
            paired_pid(fake, device),
        ));
        if is_direct(paired_pid(fake, device)) {
            assert(is_told_by(fake, steps[(4 + pairing.len()) as int]));
        }
    }
}

/// A light that is read is the one that the hardware holds, and reading it changes
/// nothing on the hardware.
pub proof fn lemma_reading_light(
    fake: FakeView,
    before: Seq<Event>,
    after: Seq<Event>,
    device: DeviceView,
    light: LightAnswers,
)
    requires
        follows(before, after, device.light_steps(light)),
        fake.plays_run(after.skip(before.len() as int)),
        pairing_answers(fake, device),
    ensures
        device.light_result(light) matches Ok(lighting) && light_is_held(
            fake,
            is_direct(paired_pid(fake, device)),
            lighting,
        ),
        device.light_after(light) == device || device.light_after(light) == (DeviceView {
            effective_pid: Some(paired_pid(fake, device)),
            ..device
        }),
        left_behind(fake, before, after).state == fake.state,
        left_behind(fake, before, after).silent == fake.silent,
{
    lemma_light_steps(device, light);
    lemma_questions(fake, before, after, device.light_steps(light));
    lemma_light_is_held(fake, device, light);
    lemma_only_asks_keep(fake, before, after, device.light_steps(light));
}

// -- DPI stages ---------------------------------------------------------------

/// A DPI in tenths, from its three bytes: a Sora V3 counts DPIs and tenths, any
/// other mouse counts in steps of fifty from the first.
pub open spec fn tenths_of(value: Seq<u8>, direct: bool) -> int {
    if direct {
        10 * (value[0] + 256 * value[1]) + value[2]
    } else {
        500 * (value[0] + 256 * value[1]) + 500
    }
}

/// A stage has the DPI that the hardware answers for it.
pub open spec fn stage_is_held(fake: FakeView, direct: bool, stage: u8, tenths: u32) -> bool {
    held(fake, cmd::DPI, stage) matches Some(value) && tenths == tenths_of(value, direct)
}

/// The stages are the first that the hardware answers for, each with its own DPI,
/// up to the number of stages it says it has: between one and four, and one where
/// it does not say.
pub open spec fn stages_are_held(fake: FakeView, direct: bool, stages: Seq<u32>) -> bool {
    let count: int = match held(fake, cmd::DPI_STAGE_COUNT, 0) {
        Some(value) => if value[0] == 0 {
            1
        } else if value[0] < 4 {
            value[0] as int
        } else {
            4
        },
        None => 1,
    };
    &&& stages.len() <= count
    &&& forall|i: int|
        0 <= i < stages.len() ==> stage_is_held(fake, direct, i as u8, #[trigger] stages[i])
    &&& stages.len() < count ==> held(fake, cmd::DPI, stages.len() as u8) is None
}

proof fn lemma_stage_steps(
    device: DeviceView,
    active: nat,
    now: Seq<u8>,
    stages: Seq<Outcome>,
    count: nat,
)
    requires
        count <= 4,
    ensures
        only_ask(device.stage_steps(active, now, stages, count)),
    decreases count,
{
    reveal(only_ask);
    if count > 0 {
        lemma_stage_steps(device, active, now, stages, (count - 1) as nat);
    }
}

proof fn lemma_stages_are_held(
    fake: FakeView,
    device: DeviceView,
    active: u8,
    now: Seq<u8>,
    stages: Seq<Outcome>,
    count: nat,
)
    requires
        count <= 4,
        held(fake, cmd::DPI, active) == Some(now),
        forall|i: int|
            0 <= i < device.stage_steps(active as nat, now, stages, count).len() ==> is_told_by(
                fake,
                #[trigger] device.stage_steps(active as nat, now, stages, count)[i],
            ),
    ensures
        ({
            let read = stages_read(active as nat, now, stages, count);
            &&& read <= count
            &&& forall|i: int|
                0 <= i < read ==> held(fake, cmd::DPI, i as u8) is Some && #[trigger] stage_reply(
                    active as nat,
                    now,
                    stages,
                    i,
                ) == held(fake, cmd::DPI, i as u8)
            &&& read < count ==> held(fake, cmd::DPI, read as u8) is None
        }),
    decreases count,
{
    if count > 0 {
        let index = (count - 1) as nat;
        let front = device.stage_steps(active as nat, now, stages, index);
        let steps = device.stage_steps(active as nat, now, stages, count);
        assert forall|i: int| 0 <= i < front.len() implies is_told_by(fake, #[trigger] front[i]) by {
            assert(front[i] == steps[i]);
        }
        lemma_stages_are_held(fake, device, active, now, stages, index);
        let read = stages_read(active as nat, now, stages, index);
        if read == index && index != active {
            assert(is_told_by(fake, steps.last()));
        }
    }
}

proof fn lemma_stage_list(
    fake: FakeView,
    device: DeviceView,
    active: u8,
    now: Seq<u8>,
    stages: Seq<Outcome>,
    counted: Outcome,
    direct: bool,
)
    requires
        held(fake, cmd::DPI, active) == Some(now),
        answered(counted) == held(fake, cmd::DPI_STAGE_COUNT, 0),
        ({
            let steps = device.stage_steps(active as nat, now, stages, stage_total(counted));
            forall|i: int| 0 <= i < steps.len() ==> is_told_by(fake, #[trigger] steps[i])
        }),
    ensures
        ({
            let dpis = stage_dpis(active as nat, now, stages, stage_total(counted), direct);
            &&& stages_are_held(fake, direct, dpis)
            &&& active < dpis.len() ==> dpis[active as int] == tenths_of(now, direct)
        }),
{
    let count = stage_total(counted);
    let dpis = stage_dpis(active as nat, now, stages, count, direct);
    lemma_stages_are_held(fake, device, active, now, stages, count);
    assert forall|i: int| 0 <= i < dpis.len() implies stage_is_held(
        fake,
        direct,
        i as u8,
        #[trigger] dpis[i],
    ) by {
        assert(stage_reply(active as nat, now, stages, i) == held(fake, cmd::DPI, i as u8));
    }
}

// -- everything at once -------------------------------------------------------

/// A name is the one that the first byte of a reply counts off.
pub open spec fn name_is_held(
    name: Option<Seq<char>>,
    names: Seq<&'static str>,
    value: Option<Seq<u8>>,
) -> bool {
    match value {
        Some(value) => if value[0] < names.len() {
            name == Some(names[value[0] as int]@)
        } else {
            name is None
        },
        None => name is None,
    }
}

/// A switch is on exactly where the first byte of a reply is not 0.
pub open spec fn switch_is_held(on: Option<bool>, value: Option<Seq<u8>>) -> bool {
    match value {
        Some(value) => on == Some(value[0] > 0),
        None => on is None,
    }
}

/// A version is the first three bytes of a reply in hex, last byte first.
pub open spec fn version_of(value: Seq<u8>) -> Seq<char> {
    upper_hex_byte(value[2]) + upper_hex_byte(value[1]) + upper_hex_byte(value[0])
}

/// The versions are those that the hardware answers for: the mouse's, then the
/// receiver's where there is one.
pub open spec fn versions_are_held(
    fake: FakeView,
    is_receiver: bool,
    firmware: Seq<(Seq<char>, Seq<char>)>,
) -> bool {
    let mouse = held(fake, cmd::FIRMWARE, 0);
    let receiver = if is_receiver {
        held(fake, cmd::FIRMWARE, 1)
    } else {
        None
    };
    match (mouse, receiver) {
        (Some(first), Some(second)) => {
            &&& firmware.len() == 2
            &&& firmware[0] == ("mouse"@, version_of(first))
            &&& firmware[1] == ("receiver"@, version_of(second))
        },
        (Some(first), None) => firmware.len() == 1 && firmware[0] == ("mouse"@, version_of(first)),
        (None, Some(second)) => firmware.len() == 1 && firmware[0] == (
            "receiver"@,
            version_of(second),
        ),
        (None, None) => firmware.len() == 0,
    }
}

/// The settings are those that the hardware holds.
pub open spec fn settings_are_held(fake: FakeView, is_receiver: bool, status: StatusView) -> bool {
    &&& stages_are_held(fake, status.direct, status.dpi_stages)
    &&& held(fake, cmd::POLLING_RATE, 0) matches Some(value)
    &&& status.polling_rate == if value[0] == 2 {
        2000u32
    } else if value[0] == 3 {
        4000
    } else if value[0] == 4 {
        8000
    } else {
        1000
    }
    &&& name_is_held(status.lift_off, p::LOD_VALUES@, held(fake, cmd::LIFT_OFF, 0))
    &&& switch_is_held(status.motion_sync, held(fake, cmd::MOTION_SYNC, 0))
    &&& switch_is_held(status.angle_tuning, held(fake, cmd::ANGLE_TUNING, 0))
    &&& name_is_held(status.system_mode, p::SYSTEM_MODES@, held(fake, cmd::SYSTEM_MODE, 0))
    &&& match held(fake, cmd::SLEEP_MINUTES, 0) {
        Some(value) => status.sleep_minutes == Some(value[0]),
        None => status.sleep_minutes is None,
    }
    &&& battery_is_held(fake, (status.battery, status.charging))
    &&& versions_are_held(fake, is_receiver, status.firmware)
    &&& if is_receiver {
        light_is_held(fake, status.direct, status.lighting)
    } else {
        status.lighting is None
    }
}

/// The DPI in use is the one that the hardware holds for the stage it names as
/// active, wherever that stage is among those that were read.
pub open spec fn dpi_is_held(fake: FakeView, status: StatusView) -> bool {
    &&& held(fake, cmd::ACTIVE_DPI_STAGE, 0) matches Some(stage)
    &&& status.dpi_stage == stage[0]
    &&& held(fake, cmd::DPI, stage[0]) matches Some(value)
    &&& match status.dpi {
        Some(tenths) => {
            &&& tenths == tenths_of(value, status.direct)
            &&& stage[0] < status.dpi_stages.len()
            &&& status.dpi_stages[stage[0] as int] == tenths
        },
        None => status.dpi_stages.len() <= stage[0],
    }
}

/// A status says what the hardware holds, field by field.
pub open spec fn status_is_held(fake: FakeView, device: DeviceView, status: StatusView) -> bool {
    &&& status.name == device.name
    &&& status.path == device.path
    &&& status.product_id == device.product_id
    &&& status.is_receiver == (device.product_id == 0xEB01 || device.product_id == 0xEB02)
    &&& status.effective_product_id == paired_pid(fake, device)
    &&& status.direct == (status.effective_product_id == 0xE010 || status.effective_product_id
        == 0xEB02)
    &&& held(fake, cmd::PROFILE, 0) matches Some(profile)
    &&& status.profile == if profile[0] == 0 {
        1
    } else {
        profile[0]
    }
    &&& dpi_is_held(fake, status)
    &&& settings_are_held(fake, status.is_receiver, status)
}

proof fn lemma_version(value: Seq<u8>)
    requires
        value.len() == 8,
    ensures
        p::firmware_version(value) == version_of(value),
{
    let three = value.take(3);
    reveal_with_fuel(p::reversed_hex, 4);
    assert(three.drop_last().drop_last().drop_last() =~= Seq::empty());
    assert(p::reversed_hex(three) =~= version_of(value));
}

proof fn lemma_settings_ask(
    device: DeviceView,
    a: Answers,
    first: Seq<Step>,
    direct: bool,
    stage: u8,
    now: Seq<u8>,
)
    requires
        only_ask(first),
    ensures
        only_ask(device.settings_course(a, first, direct, stage, now).steps),
{
    let none = Seq::<u8>::empty();
    let count = stage_total(a.stage_count);
    let counting = device.ask(cmd::DPI_STAGE_COUNT, none, 1, a.stage_count);
    let stages = device.stage_steps(stage as nat, now, a.stages, count);
    lemma_ask_more(first, counting);
    lemma_stage_steps(device, stage as nat, now, a.stages, count);
    lemma_ask_then(first.push(counting), stages);
    let s1 = first.push(counting) + stages;
    let battery = device.ask(cmd::BATTERY_PERCENT, none, 1, a.battery);
    let charging = device.ask(cmd::BATTERY_CHARGING, none, 1, a.charging);
    let lift_off = device.ask(cmd::LIFT_OFF, none, 1, a.lift_off);
    let mode = device.ask(cmd::SYSTEM_MODE, none, 1, a.system_mode);
    let mouse = device.ask(cmd::FIRMWARE, seq![0u8], 1, a.mouse_firmware);
    lemma_ask_more(s1, battery);
    lemma_ask_more(s1.push(battery), charging);
    lemma_ask_more(s1.push(battery).push(charging), lift_off);
    lemma_ask_more(s1.push(battery).push(charging).push(lift_off), mode);
    let almost = s1.push(battery).push(charging).push(lift_off).push(mode);
    lemma_ask_more(almost, mouse);
    let s2 = almost.push(mouse);
    let receiver = device.ask(cmd::FIRMWARE, seq![1u8], 1, a.receiver_firmware);
    lemma_ask_more(s2, receiver);
    lemma_light_steps(device, a.light);
    lemma_ask_then(s2.push(receiver), device.light_steps(a.light));
    let s3 = if device.is_receiver() {
        s2.push(receiver) + device.light_steps(a.light)
    } else {
        s2
    };
    lemma_read_asks(device, cmd::POLLING_RATE, none, a.polling);
    let rate = device.read_steps(cmd::POLLING_RATE, none, 4, a.polling);
    lemma_ask_then(s3, rate);
    let s4 = s3 + rate;
    let motion = device.ask(cmd::MOTION_SYNC, none, 1, a.motion_sync);
    let angle = device.ask(cmd::ANGLE_TUNING, none, 1, a.angle_tuning);
    lemma_ask_more(s4, motion);
    lemma_ask_more(s4.push(motion), angle);
    lemma_ask_more(
        s4.push(motion).push(angle),
        device.ask(cmd::SLEEP_MINUTES, none, 1, a.sleep_minutes),
    );
}

proof fn lemma_settings_are_held(
    fake: FakeView,
    device: DeviceView,
    a: Answers,
    first: Seq<Step>,
    stage: u8,
    now: Seq<u8>,
)
    requires
        device.effective_pid is Some,
        held(fake, cmd::DPI, stage) == Some(now),
        held(fake, cmd::POLLING_RATE, 0) is Some,
        ({
            let direct = is_direct(device.effective_pid->0);
            let steps = device.settings_course(a, first, direct, stage, now).steps;
            forall|i: int| 0 <= i < steps.len() ==> is_told_by(fake, #[trigger] steps[i])
        }),
    ensures
        ({
            let direct = is_direct(device.effective_pid->0);
            &&& device.settings_course(a, first, direct, stage, now).result matches Ok(status)
            &&& status.direct == direct
            &&& settings_are_held(fake, device.is_receiver(), status)
            &&& match status.dpi {
                Some(tenths) => {
                    &&& tenths == tenths_of(now, status.direct)
                    &&& stage < status.dpi_stages.len()
                    &&& status.dpi_stages[stage as int] == tenths
                },
                None => status.dpi_stages.len() <= stage,
            }
        }),
{
    let direct = is_direct(device.effective_pid->0);
    let none = Seq::<u8>::empty();
    let count = stage_total(a.stage_count);
    let steps = device.settings_course(a, first, direct, stage, now).steps;
    let stage_steps = device.stage_steps(stage as nat, now, a.stages, count);
    let light_steps = device.light_steps(a.light);
    let n = first.len() as int;
    assert(steps[n] == device.ask(cmd::DPI_STAGE_COUNT, none, 1, a.stage_count));
    assert(is_told_by(fake, steps[n]));
    assert forall|i: int| 0 <= i < stage_steps.len() implies is_told_by(
        fake,
        #[trigger] stage_steps[i],
    ) by {
        assert(steps[n + 1 + i] == stage_steps[i]);
    }
    lemma_stage_list(fake, device, stage, now, a.stages, a.stage_count, direct);
    let m = n + 1 + stage_steps.len();
    assert(steps[m] == device.ask(cmd::BATTERY_PERCENT, none, 1, a.battery));
    assert(is_told_by(fake, steps[m]));
    assert(steps[m + 1] == device.ask(cmd::BATTERY_CHARGING, none, 1, a.charging));
    assert(is_told_by(fake, steps[m + 1]));
    assert(steps[m + 2] == device.ask(cmd::LIFT_OFF, none, 1, a.lift_off));
    assert(is_told_by(fake, steps[m + 2]));
    assert(steps[m + 3] == device.ask(cmd::SYSTEM_MODE, none, 1, a.system_mode));
    assert(is_told_by(fake, steps[m + 3]));
    assert(steps[m + 4] == device.ask(cmd::FIRMWARE, seq![0u8], 1, a.mouse_firmware));
    assert(is_told_by(fake, steps[m + 4]));
    let k = if device.is_receiver() {
        assert(steps[m + 5] == device.ask(cmd::FIRMWARE, seq![1u8], 1, a.receiver_firmware));
        assert(is_told_by(fake, steps[m + 5]));
        assert forall|i: int| 0 <= i < light_steps.len() implies is_told_by(
            fake,
            #[trigger] light_steps[i],
        ) by {
            assert(steps[m + 6 + i] == light_steps[i]);
        }
        lemma_light_is_held(fake, device, a.light);
        m + 6 + light_steps.len()
    } else {
        m + 5
    };
    assert(steps[k] == device.ask(cmd::POLLING_RATE, none, 4, a.polling.outcome));
    assert(is_told_by(fake, steps[k]));
    assert(steps[k + 1] == device.ask(cmd::MOTION_SYNC, none, 1, a.motion_sync));
    assert(is_told_by(fake, steps[k + 1]));
    assert(steps[k + 2] == device.ask(cmd::ANGLE_TUNING, none, 1, a.angle_tuning));
    assert(is_told_by(fake, steps[k + 2]));
    assert(steps[k + 3] == device.ask(cmd::SLEEP_MINUTES, none, 1, a.sleep_minutes));
    assert(is_told_by(fake, steps[k + 3]));
    if let Some(value) = answered(a.mouse_firmware) {
        lemma_version(value);
    }
    if device.is_receiver() {
        if let Some(value) = answered(a.receiver_firmware) {
            lemma_version(value);
        }
    }
    let status = device.settings_course(a, first, direct, stage, now).result->Ok_0;
    assert(versions_are_held(fake, device.is_receiver(), status.firmware));
    assert(battery_is_held(fake, (status.battery, status.charging)));
    assert(name_is_held(status.lift_off, p::LOD_VALUES@, held(fake, cmd::LIFT_OFF, 0)));
    assert(name_is_held(status.system_mode, p::SYSTEM_MODES@, held(fake, cmd::SYSTEM_MODE, 0)));
}

/// A status is read wherever the hardware answers for the profile, the paired
/// mouse, the active stage and its DPI, and the report rate; and it says what the
/// hardware holds. The device takes on the profile that it read.
#[verifier::spinoff_prover]
#[verifier::rlimit(40)]
pub proof fn lemma_status_is_held(
    fake: FakeView,
    before: Seq<Event>,
    after: Seq<Event>,
    device: DeviceView,
    a: Answers,
)
    requires
        follows(before, after, device.status_course(a).steps),
        fake.plays_run(after.skip(before.len() as int)),
        held(fake, cmd::PROFILE, 0) is Some,
        pairing_answers(fake, device),
        held(fake, cmd::ACTIVE_DPI_STAGE, 0) matches Some(stage) && held(
            fake,
            cmd::DPI,
            stage[0],
        ) is Some,
        held(fake, cmd::POLLING_RATE, 0) is Some,
    ensures
        device.status_course(a).result matches Ok(status) && status_is_held(fake, device, status),
        device.status_course(a).device.profile == device.status_course(a).result->Ok_0.profile,
        device.status_course(a).device.effective_pid == Some(paired_pid(fake, device)),
{
    let none = Seq::<u8>::empty();
    let steps = device.status_course(a).steps;
    lemma_status_asks(device, a);
    lemma_questions(fake, before, after, steps);
    let s1 = device.read_steps(cmd::PROFILE, none, 4, a.profile);
    assert(steps[0] == s1[0]);
    assert(is_told_by(fake, steps[0]));
    let d1 = DeviceView { profile: active_profile(a.profile.outcome->Ok_0->0), ..device };
    let s2 = s1 + d1.pairing_steps(a.paired);
    if d1.pairing_steps(a.paired).len() > 0 {
        assert(steps[1] == d1.pairing_steps(a.paired)[0]);
        assert(is_told_by(fake, steps[1]));
    }
    let d2 = d1.pairing_after(a.paired);
    assert(d2.effective_pid == Some(paired_pid(fake, device)));
    let s3 = s2 + d2.read_steps(cmd::ACTIVE_DPI_STAGE, none, 4, a.stage);
    let n = s2.len() as int;
    assert(steps[n] == d2.ask(cmd::ACTIVE_DPI_STAGE, none, 4, a.stage.outcome));
    assert(is_told_by(fake, steps[n]));
    let stage = a.stage.outcome->Ok_0->0[0];
    let s4 = s3 + d2.read_steps(cmd::DPI, seq![stage], 4, a.dpi);
    assert(steps[n + 1] == d2.ask(cmd::DPI, seq![stage], 4, a.dpi.outcome));
    assert(is_told_by(fake, steps[n + 1]));
    let now = a.dpi.outcome->Ok_0->0;
    assert(steps == d2.settings_course(a, s4, is_direct(d2.effective_pid->0), stage, now).steps);
    lemma_settings_are_held(fake, d2, a, s4, stage, now);
    lemma_receivers(device);
    lemma_sora_v3(paired_pid(fake, device));
}

/// Reading everything changes nothing on the hardware.
pub proof fn lemma_keeps_the_state(
    fake: FakeView,
    before: Seq<Event>,
    after: Seq<Event>,
    device: DeviceView,
    a: Answers,
)
    requires
        follows(before, after, device.status_course(a).steps),
        fake.plays_run(after.skip(before.len() as int)),
    ensures
        left_behind(fake, before, after).state == fake.state,
        left_behind(fake, before, after).silent == fake.silent,
{
    let steps = device.status_course(a).steps;
    lemma_status_asks(device, a);
    lemma_only_asks_keep(fake, before, after, steps);
}

proof fn lemma_only_asks_keep(
    fake: FakeView,
    before: Seq<Event>,
    after: Seq<Event>,
    steps: Seq<Step>,
)
    requires
        follows(before, after, steps),
        fake.plays_run(after.skip(before.len() as int)),
        only_ask(steps),
    ensures
        left_behind(fake, before, after).state == fake.state,
        left_behind(fake, before, after).silent == fake.silent,
{
    reveal(only_ask);
    lemma_steps_come_out(fake, before, after, steps);
    assert forall|i: int| 0 <= i < steps.len() implies !(#[trigger] steps[i] is Told) by {}
    lemma_state_stays(fake, steps, 0, steps.len());
}

/// What a question that must be answered fails with: the mouse is asleep where its
/// receiver says that it is not on the air, and the question timed out elsewhere.
pub open spec fn silence(fake: FakeView, device: DeviceView, command: u8) -> ErrorView {
    match held(fake, cmd::ONLINE, 0) {
        Some(value) => if (device.product_id == 0xEB01 || device.product_id == 0xEB02) && value[0]
            == 0 {
            ErrorView::Offline
        } else {
            ErrorView::Timeout(command)
        },
        None => ErrorView::Timeout(command),
    }
}

/// The first question that a status cannot do without and the hardware does not
/// answer.
pub open spec fn missing(fake: FakeView, device: DeviceView) -> Option<u8> {
    if held(fake, cmd::PROFILE, 0) is None {
        Some(cmd::PROFILE)
    } else if !pairing_answers(fake, device) {
        Some(cmd::PAIRED_PRODUCT_ID)
    } else {
        match held(fake, cmd::ACTIVE_DPI_STAGE, 0) {
            None => Some(cmd::ACTIVE_DPI_STAGE),
            Some(stage) => if held(fake, cmd::DPI, stage[0]) is None {
                Some(cmd::DPI)
            } else if held(fake, cmd::POLLING_RATE, 0) is None {
                Some(cmd::POLLING_RATE)
            } else {
                None
            },
        }
    }
}

proof fn lemma_silence(
    fake: FakeView,
    device: DeviceView,
    command: u8,
    args: Seq<u8>,
    answer: Answer,
    steps: Seq<Step>,
    at: int,
)
    requires
        0 <= at,
        at + device.read_steps(command, args, 4, answer).len() <= steps.len(),
        forall|i: int|
            0 <= i < device.read_steps(command, args, 4, answer).len() ==> steps[at + i]
                == #[trigger] device.read_steps(command, args, 4, answer)[i],
        forall|i: int| 0 <= i < steps.len() ==> is_told_by(fake, #[trigger] steps[i]),
        held(fake, command, selector(args)) is None,
    ensures
        device.read_result(command, answer) == Err::<Seq<u8>, ErrorView>(
            silence(fake, device, command),
        ),
{
    let reading = device.read_steps(command, args, 4, answer);
    assert(steps[at + 0] == reading[0]);
    assert(is_told_by(fake, steps[at]));
    lemma_receivers(device);
    if device.is_receiver() {
        assert(steps[at + 1] == reading[1]);
        assert(is_told_by(fake, steps[at + 1]));
    }
}

proof fn lemma_settings_fail(
    fake: FakeView,
    device: DeviceView,
    a: Answers,
    first: Seq<Step>,
    stage: u8,
    now: Seq<u8>,
)
    requires
        device.effective_pid is Some,
        held(fake, cmd::POLLING_RATE, 0) is None,
        ({
            let direct = is_direct(device.effective_pid->0);
            let steps = device.settings_course(a, first, direct, stage, now).steps;
            forall|i: int| 0 <= i < steps.len() ==> is_told_by(fake, #[trigger] steps[i])
        }),
    ensures
        device.settings_course(a, first, is_direct(device.effective_pid->0), stage, now).result
            == Err::<StatusView, ErrorView>(silence(fake, device, cmd::POLLING_RATE)),
{
    let direct = is_direct(device.effective_pid->0);
    let none = Seq::<u8>::empty();
    let count = stage_total(a.stage_count);
    let steps = device.settings_course(a, first, direct, stage, now).steps;
    let stage_steps = device.stage_steps(stage as nat, now, a.stages, count);
    let light_steps = device.light_steps(a.light);
    let m = first.len() + 1 + stage_steps.len();
    let k = if device.is_receiver() {
        m + 6 + light_steps.len()
    } else {
        m + 5
    };
    let reading = device.read_steps(cmd::POLLING_RATE, none, 4, a.polling);
    assert forall|i: int| 0 <= i < reading.len() implies steps[k + i] == #[trigger] reading[i] by {}
    lemma_silence(fake, device, cmd::POLLING_RATE, none, a.polling, steps, k as int);
}

/// A status that cannot be read fails with the first question that it cannot do
/// without and that went unanswered.
#[verifier::spinoff_prover]
#[verifier::rlimit(40)]
pub proof fn lemma_status_fails(
    fake: FakeView,
    before: Seq<Event>,
    after: Seq<Event>,
    device: DeviceView,
    a: Answers,
)
    requires
        follows(before, after, device.status_course(a).steps),
        fake.plays_run(after.skip(before.len() as int)),
        missing(fake, device) is Some,
    ensures
        device.status_course(a).result == Err::<StatusView, ErrorView>(
            silence(fake, device, missing(fake, device)->0),
        ),
{
    let none = Seq::<u8>::empty();
    let steps = device.status_course(a).steps;
    lemma_status_asks(device, a);
    lemma_questions(fake, before, after, steps);
    let s1 = device.read_steps(cmd::PROFILE, none, 4, a.profile);
    if held(fake, cmd::PROFILE, 0) is None {
        lemma_silence(fake, device, cmd::PROFILE, none, a.profile, steps, 0);
    } else {
        assert(steps[0] == s1[0]);
        assert(is_told_by(fake, steps[0]));
        let d1 = DeviceView { profile: active_profile(a.profile.outcome->Ok_0->0), ..device };
        let pairing = d1.pairing_steps(a.paired);
        assert(d1.is_receiver() == device.is_receiver());
        if !pairing_answers(fake, device) {
            lemma_silence(fake, d1, cmd::PAIRED_PRODUCT_ID, none, a.paired, steps, 1);
        } else {
            if pairing.len() > 0 {
                assert(steps[1] == pairing[0]);
                assert(is_told_by(fake, steps[1]));
            }
            let d2 = d1.pairing_after(a.paired);
            assert(d2.effective_pid == Some(paired_pid(fake, device)));
            let n = (s1 + pairing).len() as int;
            if held(fake, cmd::ACTIVE_DPI_STAGE, 0) is None {
                lemma_silence(fake, d2, cmd::ACTIVE_DPI_STAGE, none, a.stage, steps, n);
            } else {
                assert(steps[n] == d2.ask(cmd::ACTIVE_DPI_STAGE, none, 4, a.stage.outcome));
                assert(is_told_by(fake, steps[n]));
                let stage = a.stage.outcome->Ok_0->0[0];
                if held(fake, cmd::DPI, stage) is None {
                    lemma_silence(fake, d2, cmd::DPI, seq![stage], a.dpi, steps, n + 1);
                } else {
                    assert(steps[n + 1] == d2.ask(cmd::DPI, seq![stage], 4, a.dpi.outcome));
                    assert(is_told_by(fake, steps[n + 1]));
                    let s4 = s1 + pairing + d2.read_steps(
                        cmd::ACTIVE_DPI_STAGE,
                        none,
                        4,
                        a.stage,
                    ) + d2.read_steps(cmd::DPI, seq![stage], 4, a.dpi);
                    let now = a.dpi.outcome->Ok_0->0;
                    lemma_settings_fail(fake, d2, a, s4, stage, now);
                }
            }
        }
    }
}

proof fn lemma_status_asks(device: DeviceView, a: Answers)
    ensures
        only_ask(device.status_course(a).steps),
{
    let none = Seq::<u8>::empty();
    let s1 = device.read_steps(cmd::PROFILE, none, 4, a.profile);
    lemma_read_asks(device, cmd::PROFILE, none, a.profile);
    if let Ok(value) = device.read_result(cmd::PROFILE, a.profile) {
        let d1 = DeviceView { profile: active_profile(value), ..device };
        lemma_read_asks(d1, cmd::PAIRED_PRODUCT_ID, none, a.paired);
        assert(only_ask(d1.pairing_steps(a.paired))) by {
            reveal(only_ask);
        }
        lemma_ask_then(s1, d1.pairing_steps(a.paired));
        let s2 = s1 + d1.pairing_steps(a.paired);
        let d2 = d1.pairing_after(a.paired);
        if let Ok(direct) = d1.direct_result(a.paired) {
            let staged = d2.read_steps(cmd::ACTIVE_DPI_STAGE, none, 4, a.stage);
            lemma_read_asks(d2, cmd::ACTIVE_DPI_STAGE, none, a.stage);
            lemma_ask_then(s2, staged);
            if let Ok(stage) = d2.read_result(cmd::ACTIVE_DPI_STAGE, a.stage) {
                let dpi = d2.read_steps(cmd::DPI, seq![stage[0]], 4, a.dpi);
                lemma_read_asks(d2, cmd::DPI, seq![stage[0]], a.dpi);
                lemma_ask_then(s2 + staged, dpi);
                if let Ok(now) = d2.read_result(cmd::DPI, a.dpi) {
                    lemma_settings_ask(d2, a, s2 + staged + dpi, direct, stage[0], now);
                }
            }
        }
    }
}

/// The receivers are the Ten's and the Sora V3's.
pub proof fn lemma_receivers(device: DeviceView)
    ensures
        device.is_receiver() <==> device.product_id == 0xEB01 || device.product_id == 0xEB02,
{
    assert(p::TEN_RECEIVER_IDS@[0] == 0xEB01);
}

/// A Sora V3 is known by its own product id or its receiver's.
pub proof fn lemma_sora_v3(pid: u16)
    ensures
        is_direct(pid) <==> pid == 0xE010 || pid == 0xEB02,
{
    assert(p::SORA_V3_IDS@[0] == 0xE010 && p::SORA_V3_IDS@[1] == 0xEB02);
}

} // verus!
