//! What the window shows, and what its controls do to hardware.

use vstd::prelude::*;

use crate::device::holds::{
    held, lemma_keeps_the_state, lemma_status_fails, lemma_status_is_held, missing, silence,
    status_is_held,
};
use crate::device::round_trip::{
    answer_value, is_answered, left_behind, lemma_brightness_lands, lemma_colour_lands,
    lemma_dpi_lands, lemma_lift_off_lands, lemma_light_mode_lands, lemma_motion_sync_lands,
    lemma_no_brightness, lemma_polling_lands, light_answers, paired_pid, pairing_answers,
};
use crate::device::settings::{DpiAnswers, Sent};
use crate::device::status::{is_direct, Answers, LightAnswers, StatusView};
use crate::device::steps::{Answer, Outcome};
use crate::device::DeviceView;
use crate::gui::worker::{
    dpi_text, level_text, may_read_as, performed, rate_text, reading_reply, reads_as, setting_reply,
    switch_text, took_and_answered, Answered, Command, ReplyView,
};
use crate::gui::{description, part_text};
use crate::protocol::{self as p, cmd};
use crate::text::{cut, decimal, hex_byte, joined, lemma_position_names, position_of, title};
use crate::transport::fake::FakeView;
use crate::transport::Event;

verus! {

// -- widgets ------------------------------------------------------------------

/// The battery's label says the level that was read and whether it is charging,
/// and is styled as low below 20%.
pub proof fn lemma_battery_widget(status: StatusView)
    ensures
        status.battery is None ==> status.panel().battery == "—"@ && status.panel().battery_class
            is None,
        status.battery matches Some(percent) ==> {
            &&& status.charging == Some(true) ==> status.panel().battery == decimal(
                percent as nat,
            ) + "% ⚡"@
            &&& status.charging != Some(true) ==> status.panel().battery == decimal(
                percent as nat,
            ) + "%"@
            &&& status.panel().battery_class == Some(
                if percent < 20 {
                    "battery-low"@
                } else {
                    "battery-good"@
                },
            )
        },
{
    reveal_strlit("%");
    reveal_strlit(" ⚡");
    reveal_strlit("% ⚡");
    reveal_strlit("");
    if let Some(percent) = status.battery {
        if status.charging == Some(true) {
            assert(status.panel().battery =~= decimal(percent as nat) + "% ⚡"@);
        } else {
            assert(status.panel().battery =~= decimal(percent as nat) + "%"@);
        }
    }
}

/// The DPI row shows the DPI in use, in a range that holds every DPI the sensor
/// takes, and says which stage that is.
pub proof fn lemma_dpi_widget(status: StatusView)
    ensures
        status.panel().dpi == status.dpi,
        status.direct ==> status.panel().dpi_range == (1u32, 45000u32, 1u32),
        !status.direct ==> status.panel().dpi_range == (50u32, 30000u32, 50u32),
        status.panel().dpi_subtitle == "Stage "@ + decimal((status.dpi_stage + 1) as nat) + " of "@
            + decimal(status.dpi_stages.len()),
{
}

/// The toggles and the switch show the settings that were read: the one at an
/// index is the one with that name.
pub proof fn lemma_setting_widgets(status: StatusView)
    ensures
        match status.panel().rate_index {
            Some(i) => i < 4 && p::POLLING_RATES@[i as int] == status.polling_rate,
            None => forall|i: int|
                0 <= i < 4 ==> #[trigger] p::POLLING_RATES@[i] != status.polling_rate,
        },
        match (status.panel().lod_index, status.lift_off) {
            (Some(i), Some(name)) => i < 3 && p::LOD_VALUES@[i as int]@ == name,
            (None, Some(name)) => forall|i: int|
                0 <= i < 3 ==> (#[trigger] p::LOD_VALUES@[i])@ != name,
            (None, None) => true,
            (Some(_), None) => false,
        },
        status.panel().motion_sync == status.motion_sync,
        status.panel().light is Some <==> status.lighting is Some,
        status.lighting matches Some(light) ==> {
            let shown = status.panel().light->0;
            &&& shown.color == light.color
            &&& shown.brightness == light.brightness
            &&& match shown.mode_index {
                Some(i) => i < 4 && p::LIGHT_MODES@[i as int]@ == light.mode,
                None => forall|i: int|
                    0 <= i < 4 ==> (#[trigger] p::LIGHT_MODES@[i])@ != light.mode,
            }
        },
{
    let rates = p::POLLING_RATES@;
    assert(rates[0] == 1000 && rates[1] == 2000 && rates[2] == 4000 && rates[3] == 8000);
    if let Some(name) = status.lift_off {
        lemma_position_names(p::LOD_VALUES@, name);
    }
    if let Some(light) = status.lighting {
        lemma_position_names(p::LIGHT_MODES@, light.mode);
    }
}

/// The header says which mouse it is, how it is connected, and its profile.
pub proof fn lemma_header(status: StatusView)
    ensures
        status.panel().title == cut(status.name, "Ninjutso Inc. "@),
        status.is_receiver ==> status.panel().subtitle == "Receiver"@ + " · profile "@ + decimal(
            status.profile as nat,
        ) && status.panel().connection == "Receiver"@ + " · "@ + status.path,
        !status.is_receiver ==> status.panel().subtitle == "Wired"@ + " · profile "@ + decimal(
            status.profile as nat,
        ) && status.panel().connection == "Wired"@ + " · "@ + status.path,
        status.panel().firmware == joined(
            Seq::new(
                status.firmware.len(),
                |i: int| title(status.firmware[i].0) + " "@ + status.firmware[i].1,
            ),
            " · "@,
        ),
{
    let parts = Seq::new(
        status.firmware.len(),
        |i: int| title(status.firmware[i].0) + " "@ + status.firmware[i].1,
    );
    assert(status.firmware.map_values(|part: (Seq<char>, Seq<char>)| part_text(part)) =~= parts);
}

// -- controls -----------------------------------------------------------------

/// A control landed: the device is held, and a toast says what the device holds
/// now.
pub open spec fn landed(answered: Answered, text: Seq<char>) -> bool {
    answered.held && answered.reply@ == ReplyView::Toast(text)
}

/// Refreshing shows what the hardware holds, or why it cannot be read, and changes
/// nothing.
pub proof fn lemma_refresh(
    fake: FakeView,
    first: DeviceView,
    before: Seq<Event>,
    after: Seq<Event>,
    device: DeviceView,
    answered: Answered,
)
    requires
        performed(Command::Refresh, first, before, after, device, answered),
        fake.plays_run(after.skip(before.len() as int)),
    ensures
        left_behind(fake, before, after).state == fake.state,
        missing(fake, first) is None ==> answered.held && (answered.reply@ matches ReplyView::Status(
            status,
        ) && status_is_held(fake, first, status)),
        missing(fake, first) matches Some(command) ==> !answered.held && answered.reply@
            == (ReplyView::Failed {
            title: description(silence(fake, first, command)).0,
            detail: description(silence(fake, first, command)).1,
        }),
{
    let a = choose|a: Answers|
        took_and_answered(
            before,
            after,
            device,
            answered,
            #[trigger] first.status_course(a),
            reading_reply(first.status_course(a).result),
        );
    lemma_keeps_the_state(fake, before, after, first, a);
    if missing(fake, first) is None {
        lemma_status_is_held(fake, before, after, first, a);
    } else {
        lemma_status_fails(fake, before, after, first, a);
    }
}

/// The DPI row sets the active stage's DPI, and nothing else.
pub proof fn lemma_dpi_control(
    fake: FakeView,
    first: DeviceView,
    before: Seq<Event>,
    after: Seq<Event>,
    device: DeviceView,
    answered: Answered,
    dpi: u32,
)
    requires
        performed(Command::SetDpi(dpi), first, before, after, device, answered),
        fake.plays_run(after.skip(before.len() as int)),
        pairing_answers(fake, first),
        is_answered(fake, cmd::ACTIVE_DPI_STAGE, 0),
        !fake.silent.contains(cmd::DPI),
        p::valid_dpi(dpi, is_direct(paired_pid(fake, first))),
    ensures
        landed(answered, "DPI"@ + " → "@ + decimal(dpi as nat)),
        ({
            let code = if is_direct(paired_pid(fake, first)) {
                dpi as int
            } else {
                dpi / 50 - 1
            };
            left_behind(fake, before, after).state == fake.state.insert(
                (cmd::DPI, answer_value(fake.state[(cmd::ACTIVE_DPI_STAGE, 0)])[0]),
                seq![(code % 256) as u8, (code / 256) as u8, 0u8],
            )
        }),
{
    let a = choose|a: DpiAnswers|
        took_and_answered(
            before,
            after,
            device,
            answered,
            #[trigger] first.dpi_course(dpi, None, a),
            setting_reply(
                "DPI"@,
                reads_as(
                    first.dpi_course(dpi, None, a).result,
                    |tenths: u32| dpi_text(tenths),
                ),
            ),
        );
    lemma_dpi_lands(fake, before, after, first, dpi, None, a);
}

/// The rate toggles set the report rate, and nothing else.
pub proof fn lemma_rate_control(
    fake: FakeView,
    first: DeviceView,
    before: Seq<Event>,
    after: Seq<Event>,
    device: DeviceView,
    answered: Answered,
    rate: u32,
)
    requires
        performed(Command::SetRate(rate), first, before, after, device, answered),
        fake.plays_run(after.skip(before.len() as int)),
        !fake.silent.contains(cmd::POLLING_RATE),
        rate == 1000 || rate == 2000 || rate == 4000 || rate == 8000,
    ensures
        landed(answered, "Report rate"@ + " → "@ + (decimal(rate as nat) + " Hz"@)),
        left_behind(fake, before, after).state == fake.state.insert(
            (cmd::POLLING_RATE, 0),
            seq![
                if rate == 1000 {
                    1u8
                } else if rate == 2000 {
                    2
                } else if rate == 4000 {
                    3
                } else {
                    4
                },
            ],
        ),
{
    let (sent, confirmed) = choose|sent: Sent, confirmed: Answer|
        took_and_answered(
            before,
            after,
            device,
            answered,
            #[trigger] first.polling_course(rate, sent, confirmed),
            setting_reply(
                "Report rate"@,
                reads_as(
                first.polling_course(rate, sent, confirmed).result,
                |rate: u32| rate_text(rate),
            ),
            ),
        );
    lemma_polling_lands(fake, before, after, first, rate, sent, confirmed);
}

/// The switch sets motion sync, and nothing else.
pub proof fn lemma_motion_control(
    fake: FakeView,
    first: DeviceView,
    before: Seq<Event>,
    after: Seq<Event>,
    device: DeviceView,
    answered: Answered,
    on: bool,
)
    requires
        performed(Command::SetMotion(on), first, before, after, device, answered),
        fake.plays_run(after.skip(before.len() as int)),
        !fake.silent.contains(cmd::MOTION_SYNC),
    ensures
        landed(answered, "Motion Sync"@ + " → "@ + if on {
                "on"@
            } else {
                "off"@
            }),
        left_behind(fake, before, after).state == fake.state.insert(
            (cmd::MOTION_SYNC, 0),
            seq![
                if on {
                    1u8
                } else {
                    0u8
                },
            ],
        ),
{
    let (sent, confirmed) = choose|sent: Sent, confirmed: Answer|
        took_and_answered(
            before,
            after,
            device,
            answered,
            #[trigger] first.motion_sync_course(on, sent, confirmed),
            setting_reply(
                "Motion Sync"@,
                reads_as(
                first.motion_sync_course(on, sent, confirmed).result,
                |on: bool| switch_text(on),
            ),
            ),
        );
    lemma_motion_sync_lands(fake, before, after, first, on, sent, confirmed);
}

/// The lift-off toggles set the lift-off distance, and nothing else.
pub proof fn lemma_lod_control(
    fake: FakeView,
    first: DeviceView,
    before: Seq<Event>,
    after: Seq<Event>,
    device: DeviceView,
    answered: Answered,
    value: String,
)
    requires
        performed(Command::SetLod(value), first, before, after, device, answered),
        fake.plays_run(after.skip(before.len() as int)),
        !fake.silent.contains(cmd::LIFT_OFF),
        position_of(p::LOD_VALUES@, value@) is Some,
    ensures
        landed(answered, "Lift-off"@ + " → "@ + value@),
        exists|index: u8|
            {
                &&& index < 3
                &&& p::LOD_VALUES@[index as int]@ == value@
                &&& left_behind(fake, before, after).state == #[trigger] fake.state.insert(
                    (cmd::LIFT_OFF, 0),
                    seq![index],
                )
            },
{
    let (sent, confirmed) = choose|sent: Sent, confirmed: Answer|
        took_and_answered(
            before,
            after,
            device,
            answered,
            #[trigger] first.lift_off_course(value@, sent, confirmed),
            setting_reply(
                "Lift-off"@,
                reads_as(
                    first.lift_off_course(value@, sent, confirmed).result,
                    |name: Seq<char>| name,
                ),
            ),
        );
    lemma_lift_off_lands(fake, before, after, first, value@, sent, confirmed);
}

/// The mode toggles set the light's mode, and nothing else.
pub proof fn lemma_light_mode_control(
    fake: FakeView,
    first: DeviceView,
    before: Seq<Event>,
    after: Seq<Event>,
    device: DeviceView,
    answered: Answered,
    mode: String,
)
    requires
        performed(Command::SetLightMode(mode), first, before, after, device, answered),
        fake.plays_run(after.skip(before.len() as int)),
        light_answers(fake),
        pairing_answers(fake, first),
        position_of(p::LIGHT_MODES@, mode@) is Some,
    ensures
        landed(answered, "Light mode"@ + " → "@ + mode@),
        mode@ == p::LIGHT_MODES@[0]@ ==> left_behind(fake, before, after).state
            == fake.state.insert((cmd::LIGHTING_STATE, 0), seq![0u8]),
        mode@ != p::LIGHT_MODES@[0]@ ==> exists|index: u8|
            {
                &&& 1 <= index < 4
                &&& p::LIGHT_MODES@[index as int]@ == mode@
                &&& left_behind(fake, before, after).state == #[trigger] fake.state.insert(
                    (cmd::LIGHTING_STATE, 0),
                    seq![1u8],
                ).insert((cmd::LIGHTING_MODE, 0), seq![index])
            },
{
    let (state_sent, mode_sent, light) = choose|state_sent: Sent, mode_sent: Sent, light: LightAnswers|
        took_and_answered(
            before,
            after,
            device,
            answered,
            #[trigger] first.light_mode_course(mode@, state_sent, mode_sent, light),
            setting_reply(
            "Light mode"@,
            first.light_mode_course(mode@, state_sent, mode_sent, light).result,
        ),
        );
    lemma_light_mode_lands(
        fake,
        before,
        after,
        first,
        mode@,
        state_sent,
        mode_sent,
        light,
    );
}

/// The colour button sets the light's colour, and nothing else.
pub proof fn lemma_colour_control(
    fake: FakeView,
    first: DeviceView,
    before: Seq<Event>,
    after: Seq<Event>,
    device: DeviceView,
    answered: Answered,
    colour: String,
)
    requires
        performed(Command::SetColor(colour), first, before, after, device, answered),
        fake.plays_run(after.skip(before.len() as int)),
        light_answers(fake),
        pairing_answers(fake, first),
        p::colour_value(colour@) is Some,
    ensures
        landed(answered, "Light colour"@ + " → "@ + ("#"@ + hex_byte(p::colour_value(colour@)->0[0]) + hex_byte(
                p::colour_value(colour@)->0[1],
            ) + hex_byte(p::colour_value(colour@)->0[2]))),
        left_behind(fake, before, after).state == fake.state.insert(
            (cmd::LIGHTING_COLOR, 0),
            p::colour_value(colour@)->0,
        ),
{
    let (sent, light) = choose|sent: Sent, light: LightAnswers|
        took_and_answered(
            before,
            after,
            device,
            answered,
            #[trigger] first.colour_course(colour@, sent, light),
            setting_reply("Light colour"@, first.colour_course(colour@, sent, light).result),
        );
    lemma_colour_lands(fake, before, after, first, colour@, sent, light);
}

/// The brightness row sets the brightness where there is one, and nothing else.
pub proof fn lemma_brightness_control(
    fake: FakeView,
    first: DeviceView,
    before: Seq<Event>,
    after: Seq<Event>,
    device: DeviceView,
    answered: Answered,
    percent: u8,
)
    requires
        performed(Command::SetBrightness(percent), first, before, after, device, answered),
        fake.plays_run(after.skip(before.len() as int)),
        !fake.silent.contains(cmd::LIGHTING_BRIGHTNESS),
        pairing_answers(fake, first),
        is_direct(paired_pid(fake, first)),
        p::BRIGHTNESS_LEVELS@.contains(percent),
    ensures
        landed(answered, "Brightness"@ + " → "@ + decimal(percent as nat)),
        left_behind(fake, before, after).state == fake.state.insert(
            (cmd::LIGHTING_BRIGHTNESS, 0),
            seq![(percent / 25) as u8],
        ),
{
    let (paired, sent, confirmed) = choose|paired: Answer, sent: Sent, confirmed: Outcome|
        took_and_answered(
            before,
            after,
            device,
            answered,
            #[trigger] first.brightness_course(percent, paired, sent, confirmed),
            setting_reply(
                "Brightness"@,
                may_read_as(
                first.brightness_course(percent, paired, sent, confirmed).result,
                |level: u8| level_text(level),
            ),
            ),
        );
    lemma_brightness_lands(
        fake,
        before,
        after,
        first,
        percent,
        paired,
        sent,
        confirmed,
    );
}

/// A brightness that the hardware does not have is rejected, the device is still
/// held, and nothing changes.
pub proof fn lemma_brightness_rejected(
    fake: FakeView,
    first: DeviceView,
    before: Seq<Event>,
    after: Seq<Event>,
    device: DeviceView,
    answered: Answered,
    percent: u8,
)
    requires
        performed(Command::SetBrightness(percent), first, before, after, device, answered),
        fake.plays_run(after.skip(before.len() as int)),
        pairing_answers(fake, first),
        !is_direct(paired_pid(fake, first)),
    ensures
        answered.held,
        answered.reply@ is Rejected,
        left_behind(fake, before, after).state == fake.state,
{
    let (paired, sent, confirmed) = choose|paired: Answer, sent: Sent, confirmed: Outcome|
        took_and_answered(
            before,
            after,
            device,
            answered,
            #[trigger] first.brightness_course(percent, paired, sent, confirmed),
            setting_reply(
                "Brightness"@,
                may_read_as(
                first.brightness_course(percent, paired, sent, confirmed).result,
                |level: u8| level_text(level),
            ),
            ),
        );
    lemma_no_brightness(fake, before, after, first, percent, paired, sent, confirmed);
}

} // verus!
