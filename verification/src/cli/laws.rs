//! What the commands do to hardware, and what they say about it.

use vstd::prelude::*;

use crate::cli::light::{ChangeAnswers, LightArgsView};
use crate::cli::{
    chosen, exit_code_of, levels, light_line, rates, report_line, stage_lines, whole_dpi, Session,
};
use crate::device::holds::{
    held, lemma_keeps_the_state, lemma_reading_light, lemma_status_fails, lemma_status_is_held,
    light_is_held, missing, silence, stages_are_held, status_is_held, tenths_of,
};
use crate::device::round_trip::{
    left_behind, lemma_brightness_lands, lemma_colour_lands, lemma_dpi_lands, lemma_lift_off_lands,
    lemma_light_mode_lands, lemma_no_brightness, lemma_over_two, lemma_polling_lands, light_answers,
    paired_pid, pairing_answers,
};
use crate::device::settings::{DpiAnswers, Sent};
use crate::device::status::{is_direct, Answers, LightingView, StatusView};
use crate::device::steps::{follows, Answer, Step};
use crate::device::{Course, DeviceView};
use crate::error::ErrorView;
use crate::protocol::{self as p, cmd};
use crate::text::{
    cut, decimal, has_prefix, has_suffix, hex_byte, hex_word, joined, lemma_decimal_reads_back,
    lemma_position_names, position_of,
};
use crate::transport::fake::FakeView;
use crate::transport::Event;

verus! {

/// `rate` sets the report rate and changes nothing else; it says what the rate was
/// and what it is now, and succeeds.
#[verifier::spinoff_prover]
#[verifier::rlimit(60)]
pub proof fn lemma_rate_command(
    fake: FakeView,
    before: Seq<Event>,
    after: Seq<Event>,
    device: DeviceView,
    rate: u32,
    a: Answers,
    sent: Sent,
    confirmed: Answer,
)
    requires
        follows(before, after, device.rate_session(rate, a, sent, confirmed).steps),
        fake.plays_run(after.skip(before.len() as int)),
        missing(fake, device) is None,
        rate == 1000 || rate == 2000 || rate == 4000 || rate == 8000,
    ensures
        ({
            let session = device.rate_session(rate, a, sent, confirmed);
            let was = p::polling_rate(held(fake, cmd::POLLING_RATE, 0)->0[0]);
            &&& session.result == Ok::<u8, ErrorView>(0)
            &&& session.errors.len() == 0
            &&& session.lines.len() == 1
            &&& session.lines[0] == "  Report rate "@ + decimal(was as nat) + " Hz → "@ + decimal(
                rate as nat,
            ) + " Hz  ✓ confirmed by device"@
            &&& left_behind(fake, before, after).state == fake.state.insert(
                (cmd::POLLING_RATE, 0),
                seq![
                    if rate == 1000 {
                        1u8
                    } else if rate == 2000 {
                        2
                    } else if rate == 4000 {
                        3
                    } else {
                        4
                    },
                ],
            )
        }),
{
    let course = device.status_course(a);
    let second = course.device;
    let setting = second.polling_course(rate, sent, confirmed);
    let session = device.rate_session(rate, a, sent, confirmed);
    let first = course.steps;
    let rest = if course.result is Ok {
        setting.steps
    } else {
        Seq::empty()
    };
    assert(session.steps =~= first + rest);
    let middle = lemma_over_two(fake, before, after, first, rest);
    lemma_keeps_the_state(fake, before, middle, device, a);
    lemma_status_is_held(fake, before, middle, device, a);
    let now = left_behind(fake, before, middle);
    lemma_polling_lands(now, middle, after, second, rate, sent, confirmed);
    let status = course.result->Ok_0;
    reveal_strlit(" Hz");
    reveal_strlit(" → ");
    reveal_strlit("  ✓ confirmed by device");
    reveal_strlit(" Hz → ");
    reveal_strlit(" Hz  ✓ confirmed by device");
    reveal_strlit("  ");
    reveal_strlit("Report rate");
    reveal_strlit(" ");
    reveal_strlit("  Report rate ");
    assert(session.lines[0] =~= "  Report rate "@ + decimal(status.polling_rate as nat)
        + " Hz → "@ + decimal(rate as nat) + " Hz  ✓ confirmed by device"@);
}

/// The line that a confirmed setting is reported with.
pub open spec fn confirmed_line(label: Seq<char>, was: Seq<char>, is: Seq<char>) -> Seq<char> {
    "  "@ + label + " "@ + was + " → "@ + is + "  ✓ confirmed by device"@
}

proof fn lemma_confirmed_line(label: Seq<char>, was: Seq<char>, is: Seq<char>)
    ensures
        report_line(label, was, Some(is), ""@) == (confirmed_line(label, was, is), 0u8),
{
    reveal_strlit("");
    assert(report_line(label, was, Some(is), ""@).0 =~= confirmed_line(label, was, is));
}

proof fn lemma_confirmed_percent(label: Seq<char>, was: Seq<char>, is: Seq<char>)
    ensures
        report_line(label, was, Some(is), "%"@) == (
            confirmed_line(label, was + "%"@, is + "%"@),
            0u8,
        ),
{
    assert(report_line(label, was, Some(is), "%"@).0 =~= confirmed_line(
        label,
        was + "%"@,
        is + "%"@,
    ));
}

/// What the mouse did not confirm is said, under its own name, and fails.
pub proof fn lemma_unconfirmed(label: Seq<char>, was: Seq<char>, unit: Seq<char>)
    ensures
        report_line(label, was, None, unit).0 == "  "@ + label + ": device did not confirm"@,
        report_line(label, was, None, unit).1 == 1,
        forall|is: Seq<char>| (#[trigger] report_line(label, was, Some(is), unit)).1 == 0,
{
}

/// `lod` sets the lift-off distance and changes nothing else; it says what the
/// distance was and what it is now, and succeeds.
#[verifier::spinoff_prover]
#[verifier::rlimit(60)]
pub proof fn lemma_lod_command(
    fake: FakeView,
    before: Seq<Event>,
    after: Seq<Event>,
    device: DeviceView,
    value: Seq<char>,
    a: Answers,
    sent: Sent,
    confirmed: Answer,
)
    requires
        follows(before, after, device.lod_session(value, a, sent, confirmed).steps),
        fake.plays_run(after.skip(before.len() as int)),
        missing(fake, device) is None,
        !fake.silent.contains(cmd::LIFT_OFF),
        position_of(p::LOD_VALUES@, value) is Some,
    ensures
        ({
            let session = device.lod_session(value, a, sent, confirmed);
            let was = match held(fake, cmd::LIFT_OFF, 0) {
                Some(byte) => if byte[0] < 3 {
                    p::LOD_VALUES@[byte[0] as int]@
                } else {
                    "—"@
                },
                None => "—"@,
            };
            &&& session.result == Ok::<u8, ErrorView>(0)
            &&& session.errors.len() == 0
            &&& session.lines == seq![confirmed_line("Lift-off"@, was, value)]
        }),
        exists|index: u8|
            {
                &&& index < 3
                &&& p::LOD_VALUES@[index as int]@ == value
                &&& left_behind(fake, before, after).state == #[trigger] fake.state.insert(
                    (cmd::LIFT_OFF, 0),
                    seq![index],
                )
            },
{
    let course = device.status_course(a);
    let second = course.device;
    let setting = second.lift_off_course(value, sent, confirmed);
    let session = device.lod_session(value, a, sent, confirmed);
    let rest = if course.result is Ok {
        setting.steps
    } else {
        Seq::empty()
    };
    assert(session.steps =~= course.steps + rest);
    let middle = lemma_over_two(fake, before, after, course.steps, rest);
    lemma_keeps_the_state(fake, before, middle, device, a);
    lemma_status_is_held(fake, before, middle, device, a);
    let now = left_behind(fake, before, middle);
    lemma_lift_off_lands(now, middle, after, second, value, sent, confirmed);
    let status = course.result->Ok_0;
    let was = match status.lift_off {
        Some(was) => was,
        None => "—"@,
    };
    lemma_confirmed_line("Lift-off"@, was, value);
    assert(session.lines =~= seq![confirmed_line("Lift-off"@, was, value)]);
}

/// `dpi` sets the DPI of the stage that was named, counted from 1, or of the active
/// one where none was, and changes nothing else; it says what the DPI was and what
/// it is now, and succeeds.
#[verifier::spinoff_prover]
#[verifier::rlimit(60)]
pub proof fn lemma_dpi_command(
    fake: FakeView,
    before: Seq<Event>,
    after: Seq<Event>,
    device: DeviceView,
    value: u32,
    stage: Option<u8>,
    a: Answers,
    b: DpiAnswers,
)
    requires
        follows(before, after, device.dpi_session(value, stage, a, b).steps),
        fake.plays_run(after.skip(before.len() as int)),
        missing(fake, device) is None,
        stage matches Some(stage) ==> 1 <= stage,
        ({
            let index = aimed_at(fake, stage);
            let read = device.status_course(a).result->Ok_0.dpi_stages;
            index < read.len()
        }),
        p::valid_dpi(value, is_direct(paired_pid(fake, device))),
    ensures
        ({
            let session = device.dpi_session(value, stage, a, b);
            let direct = is_direct(paired_pid(fake, device));
            let index = aimed_at(fake, stage);
            let active = held(fake, cmd::ACTIVE_DPI_STAGE, 0)->0[0];
            let was = tenths_of(held(fake, cmd::DPI, index as u8)->0, direct) / 10;
            let code = if direct {
                value as int
            } else {
                value / 50 - 1
            };
            let label = "Stage "@ + decimal((index + 1) as nat) + " DPI"@ + if index == active {
                ""@
            } else {
                " (inactive)"@
            };
            &&& session.result == Ok::<u8, ErrorView>(0)
            &&& session.errors.len() == 0
            &&& session.lines == seq![
                confirmed_line(label, decimal(was as nat), decimal(value as nat)),
            ]
            &&& left_behind(fake, before, after).state == fake.state.insert(
                (cmd::DPI, index as u8),
                seq![(code % 256) as u8, (code / 256) as u8, 0u8],
            )
        }),
{
    let course = device.status_course(a);
    let second = course.device;
    let index = aimed_at(fake, stage);
    let setting = second.dpi_course(value, Some(index as usize), b);
    let session = device.dpi_session(value, stage, a, b);
    let rest = session.steps.skip(course.steps.len() as int);
    assert(session.steps =~= course.steps + rest);
    let middle = lemma_over_two(fake, before, after, course.steps, rest);
    lemma_keeps_the_state(fake, before, middle, device, a);
    lemma_status_is_held(fake, before, middle, device, a);
    let status = course.result->Ok_0;
    assert(rest =~= setting.steps);
    let now = left_behind(fake, before, middle);
    assert(stages_are_held(fake, status.direct, status.dpi_stages));
    assert(status.dpi_stages[index as int] == tenths_of(
        held(fake, cmd::DPI, index as u8)->0,
        status.direct,
    ));
    lemma_dpi_lands(now, middle, after, second, value, Some(index as usize), b);
    let direct = is_direct(paired_pid(fake, device));
    let active = held(fake, cmd::ACTIVE_DPI_STAGE, 0)->0[0];
    let label = "Stage "@ + decimal((index + 1) as nat) + " DPI"@ + if index == active {
        ""@
    } else {
        " (inactive)"@
    };
    let was = tenths_of(held(fake, cmd::DPI, index as u8)->0, direct) / 10;
    lemma_confirmed_line(label, decimal(was as nat), decimal(value as nat));
    assert(session.lines =~= seq![
        confirmed_line(label, decimal(was as nat), decimal(value as nat)),
    ]);
}

/// The stage that `dpi` is about, counted from 0.
pub open spec fn aimed_at(fake: FakeView, stage: Option<u8>) -> int {
    match stage {
        Some(stage) => stage - 1,
        None => held(fake, cmd::ACTIVE_DPI_STAGE, 0)->0[0] as int,
    }
}

/// `dpi` refuses a stage that was not read, and writes nothing.
pub proof fn lemma_dpi_refusal(
    fake: FakeView,
    before: Seq<Event>,
    after: Seq<Event>,
    device: DeviceView,
    value: u32,
    stage: Option<u8>,
    a: Answers,
    b: DpiAnswers,
)
    requires
        follows(before, after, device.dpi_session(value, stage, a, b).steps),
        fake.plays_run(after.skip(before.len() as int)),
        missing(fake, device) is None,
        stage matches Some(stage) ==> 1 <= stage,
        device.status_course(a).result matches Ok(status) && aimed_at(fake, stage)
            >= status.dpi_stages.len(),
    ensures
        ({
            let session = device.dpi_session(value, stage, a, b);
            &&& session.result == Ok::<u8, ErrorView>(2)
            &&& session.lines.len() == 0
            &&& session.errors == seq![
                "error: this mouse has "@ + decimal(
                    device.status_course(a).result->Ok_0.dpi_stages.len(),
                ) + " DPI stages"@,
            ]
            &&& left_behind(fake, before, after).state == fake.state
        }),
{
    let course = device.status_course(a);
    let session = device.dpi_session(value, stage, a, b);
    let rest = session.steps.skip(course.steps.len() as int);
    assert(session.steps =~= course.steps + rest);
    let middle = lemma_over_two(fake, before, after, course.steps, rest);
    lemma_keeps_the_state(fake, before, middle, device, a);
    lemma_status_is_held(fake, before, middle, device, a);
    assert(rest =~= Seq::empty());
    reveal(follows);
    assert(after.skip(middle.len() as int) =~= Seq::empty());
}

/// A command that cannot read the mouse says and writes nothing, and fails with
/// why.
pub proof fn lemma_command_fails(
    fake: FakeView,
    before: Seq<Event>,
    after: Seq<Event>,
    device: DeviceView,
    rest: spec_fn(DeviceView, StatusView) -> Session,
    a: Answers,
)
    requires
        follows(before, after, device.after_status(a, rest).steps),
        fake.plays_run(after.skip(before.len() as int)),
        missing(fake, device) is Some,
    ensures
        ({
            let session = device.after_status(a, rest);
            &&& session.result == Err::<u8, ErrorView>(
                silence(fake, device, missing(fake, device)->0),
            )
            &&& session.lines.len() == 0
            &&& session.errors.len() == 0
            &&& left_behind(fake, before, after).state == fake.state
        }),
{
    let course = device.status_course(a);
    let session = device.after_status(a, rest);
    let more = session.steps.skip(course.steps.len() as int);
    assert(session.steps =~= course.steps + more);
    let middle = lemma_over_two(fake, before, after, course.steps, more);
    lemma_status_fails(fake, before, middle, device, a);
    lemma_keeps_the_state(fake, before, after, device, a);
}

/// `status` prints a status that says what the hardware holds, and `stages` prints
/// its stages.
pub proof fn lemma_status_command(
    fake: FakeView,
    before: Seq<Event>,
    after: Seq<Event>,
    device: DeviceView,
    a: Answers,
)
    requires
        follows(before, after, device.status_course(a).steps),
        fake.plays_run(after.skip(before.len() as int)),
        missing(fake, device) is None,
    ensures
        device.status_session(a).steps == device.status_course(a).steps,
        device.stages_session(a).steps == device.status_course(a).steps,
        device.status_session(a).result == Ok::<u8, ErrorView>(0),
        device.stages_session(a).result == Ok::<u8, ErrorView>(0),
        device.status_course(a).result matches Ok(status) && status_is_held(fake, device, status)
            && device.status_session(a).lines == status.lines() && device.stages_session(a).lines
            == stage_lines(status.dpi_stages, status.dpi_stage as nat).push(
            "\n  * = active stage"@,
        ),
{
    lemma_status_is_held(fake, before, after, device, a);
    let steps = device.status_course(a).steps;
    assert(steps + Seq::<Step>::empty() =~= steps);
}

/// The hardware's light once it was changed.
pub open spec fn relit(
    state: Map<(u8, u8), Seq<u8>>,
    args: LightArgsView,
    direct: bool,
) -> Map<(u8, u8), Seq<u8>> {
    let moded = match args.mode {
        Some(mode) => if mode == "Off"@ {
            state.insert((cmd::LIGHTING_STATE, 0), seq![0u8])
        } else {
            state.insert((cmd::LIGHTING_STATE, 0), seq![1u8]).insert(
                (cmd::LIGHTING_MODE, 0),
                seq![
                    if mode == "Static"@ {
                        1u8
                    } else if mode == "Cycling"@ {
                        2
                    } else {
                        3
                    },
                ],
            )
        },
        None => state,
    };
    let coloured = match args.color {
        Some(color) => moded.insert((cmd::LIGHTING_COLOR, 0), p::colour_value(color)->0),
        None => moded,
    };
    match args.brightness {
        Some(percent) => if direct {
            coloured.insert((cmd::LIGHTING_BRIGHTNESS, 0), seq![(percent / 25) as u8])
        } else {
            coloured
        },
        None => coloured,
    }
}

/// The arguments of `light` ask for what there is.
pub open spec fn is_lightable(args: LightArgsView) -> bool {
    &&& args.mode matches Some(mode) ==> position_of(p::LIGHT_MODES@, mode) is Some
    &&& args.color matches Some(color) ==> p::colour_value(color) is Some
    &&& args.brightness matches Some(percent) ==> p::BRIGHTNESS_LEVELS@.contains(percent)
}

proof fn lemma_modes()
    ensures
        p::LIGHT_MODES@.len() == 4,
        p::LIGHT_MODES@[0]@ == "Off"@,
        p::LIGHT_MODES@[1]@ == "Static"@,
        p::LIGHT_MODES@[2]@ == "Cycling"@,
        p::LIGHT_MODES@[3]@ == "Wave"@,
        "Off"@ != "Static"@,
        "Off"@ != "Cycling"@,
        "Off"@ != "Wave"@,
        "Static"@ != "Cycling"@,
        "Static"@ != "Wave"@,
        "Cycling"@ != "Wave"@,
{
    reveal_strlit("Off");
    reveal_strlit("Static");
    reveal_strlit("Cycling");
    reveal_strlit("Wave");
    assert("Off"@[0] == 'O' && "Static"@[0] == 'S' && "Cycling"@[0] == 'C' && "Wave"@[0] == 'W');
}

/// A colour in the notation that it is shown in.
pub open spec fn hash_colour(rgb: Seq<u8>) -> Seq<char> {
    "#"@ + hex_byte(rgb[0]) + hex_byte(rgb[1]) + hex_byte(rgb[2])
}

/// `light` changes what was asked for and nothing else, one line for each change:
/// what was there before, as the hardware held it, and what is there now. It
/// succeeds, unless a brightness was asked for that the hardware does not have.
#[verifier::spinoff_prover]
#[verifier::rlimit(40)]
pub proof fn lemma_light_command(
    fake: FakeView,
    before: Seq<Event>,
    after: Seq<Event>,
    device: DeviceView,
    args: LightArgsView,
    a: ChangeAnswers,
) -> (lighting: Option<LightingView>)
    requires
        follows(before, after, device.light_session(args, a).steps),
        fake.plays_run(after.skip(before.len() as int)),
        pairing_answers(fake, device),
        light_answers(fake),
        !fake.silent.contains(cmd::LIGHTING_BRIGHTNESS),
        is_lightable(args),
    ensures
        ({
            let session = device.light_session(args, a);
            let direct = is_direct(paired_pid(fake, device));
            &&& session.result == Ok::<u8, ErrorView>(
                if args.brightness is Some && !direct {
                    1
                } else {
                    0
                },
            )
            &&& session.errors.len() == 0
            &&& session.lines.len() == (if args.mode is Some {
                1int
            } else {
                0
            }) + (if args.color is Some {
                1int
            } else {
                0
            }) + (if args.brightness is Some {
                1int
            } else {
                0
            })
            &&& left_behind(fake, before, after).state == relit(fake.state, args, direct)
            &&& light_is_held(fake, direct, lighting)
            &&& args.mode matches Some(mode) ==> session.lines[0] == confirmed_line(
                "Light mode"@,
                match lighting {
                    Some(light) => light.mode,
                    None => "—"@,
                },
                mode,
            )
            &&& args.color matches Some(color) ==> session.lines[if args.mode is Some {
                1
            } else {
                0
            }] == confirmed_line(
                "Colour"@,
                match lighting {
                    Some(light) => match light.color {
                        Some(color) => color,
                        None => "—"@,
                    },
                    None => "—"@,
                },
                hash_colour(p::colour_value(color)->0),
            )
            &&& args.brightness matches Some(percent) ==> direct ==> session.lines.last()
                == confirmed_line(
                "Brightness"@,
                (match lighting {
                    Some(light) => match light.brightness {
                        Some(level) => decimal(level as nat),
                        None => "—"@,
                    },
                    None => "—"@,
                }) + "%"@,
                decimal(percent as nat) + "%"@,
            )
        }),
{
    let direct = is_direct(paired_pid(fake, device));
    let d0 = device.light_after(a.read);
    let reading = device.light_steps(a.read);
    let light = device.light_result(a.read);
    let whole = device.light_session(args, a);
    let moding = match args.mode {
        Some(mode) => d0.light_mode_course(mode, a.mode.state_sent, a.mode.mode_sent, a.mode.light),
        None => Course { steps: Seq::empty(), device: d0, result: Ok(None) },
    };
    let rest = whole.steps.skip(reading.len() as int);
    assert(whole.steps =~= reading + rest);
    let m1 = lemma_over_two(fake, before, after, reading, rest);
    lemma_reading_light(fake, before, m1, device, a.read);
    let f0 = left_behind(fake, before, m1);
    let lighting = light->Ok_0;
    let s0 = Session { steps: reading, ..Session::start(d0) };
    let s1 = s0.with_mode(args.mode, lighting, a.mode);
    let s2 = s1.with_color(args.color, lighting, a.color);
    let s3 = s2.with_brightness(args.brightness, lighting, a.brightness);
    assert(whole == s3);
    assert(s1.steps =~= reading + moding.steps);
    let r1 = s3.steps.skip(s1.steps.len() as int);
    lemma_extends(s1, s2);
    lemma_extends(s2, s3);
    assert(rest =~= moding.steps + r1);
    let m2 = lemma_over_two(f0, m1, after, moding.steps, r1);
    let f1 = left_behind(f0, m1, m2);
    lemma_modes();
    if let Some(mode) = args.mode {
        lemma_light_mode_lands(
            f0,
            m1,
            m2,
            d0,
            mode,
            a.mode.state_sent,
            a.mode.mode_sent,
            a.mode.light,
        );
        lemma_position_names(p::LIGHT_MODES@, mode);
        lemma_confirmed_line(
            "Light mode"@,
            match lighting {
                Some(light) => light.mode,
                None => "—"@,
            },
            mode,
        );
    } else {
        lemma_no_steps(f0, m1, m2);
    }
    assert(s1.result == Ok::<u8, ErrorView>(0));
    assert(f1.state == relit(
        fake.state,
        LightArgsView { color: None, brightness: None, ..args },
        direct,
    ));
    let d1 = s1.device;
    assert(paired_pid(f1, d1) == paired_pid(fake, device));
    let colouring = match args.color {
        Some(color) => d1.colour_course(color, a.color.sent, a.color.light),
        None => Course { steps: Seq::empty(), device: d1, result: Ok(None) },
    };
    let r2 = s3.steps.skip(s2.steps.len() as int);
    assert(s2.steps =~= s1.steps + colouring.steps);
    assert(r1 =~= colouring.steps + r2);
    let m3 = lemma_over_two(f1, m2, after, colouring.steps, r2);
    let f2 = left_behind(f1, m2, m3);
    if let Some(color) = args.color {
        lemma_colour_lands(f1, m2, m3, d1, color, a.color.sent, a.color.light);
        lemma_confirmed_line(
            "Colour"@,
            match lighting {
                Some(light) => match light.color {
                    Some(color) => color,
                    None => "—"@,
                },
                None => "—"@,
            },
            hash_colour(p::colour_value(color)->0),
        );
    } else {
        lemma_no_steps(f1, m2, m3);
    }
    let d2 = s2.device;
    assert(s2.result == Ok::<u8, ErrorView>(0));
    assert(paired_pid(f2, d2) == paired_pid(fake, device));
    if let Some(percent) = args.brightness {
        let b = a.brightness;
        let course = d2.brightness_course(percent, b.paired, b.sent, b.confirmed);
        assert(s3.steps =~= s2.steps + course.steps);
        assert(r2 =~= course.steps);
        if direct {
            lemma_brightness_lands(f2, m3, after, d2, percent, b.paired, b.sent, b.confirmed);
            lemma_confirmed_percent(
                "Brightness"@,
                match lighting {
                    Some(light) => match light.brightness {
                        Some(level) => decimal(level as nat),
                        None => "—"@,
                    },
                    None => "—"@,
                },
                decimal(percent as nat),
            );
        } else {
            lemma_no_brightness(f2, m3, after, d2, percent, b.paired, b.sent, b.confirmed);
        }
    } else {
        assert(r2 =~= Seq::empty());
        lemma_no_steps(f2, m3, after);
    }
    lighting
}

proof fn lemma_no_steps(fake: FakeView, before: Seq<Event>, after: Seq<Event>)
    requires
        follows(before, after, Seq::<Step>::empty()),
    ensures
        left_behind(fake, before, after) == fake,
{
    reveal(follows);
    assert(after.skip(before.len() as int) =~= Seq::empty());
}

proof fn lemma_extends(one: Session, other: Session)
    requires
        one.steps.len() <= other.steps.len(),
        other.steps.take(one.steps.len() as int) =~= one.steps,
    ensures
        other.steps == one.steps + other.steps.skip(one.steps.len() as int),
{
    assert(other.steps =~= one.steps + other.steps.skip(one.steps.len() as int));
}

// -- lines --------------------------------------------------------------------

/// A line per stage: it says which stage it is, counted from 1, ends with its DPI,
/// and is marked exactly where the stage is the active one.
pub proof fn lemma_stage_line(stages: Seq<u32>, active: nat, i: int)
    requires
        0 <= i < stages.len(),
    ensures
        stage_lines(stages, active).len() == stages.len(),
        has_prefix(
            stage_lines(stages, active)[i],
            (if i == active {
                "  * stage "@
            } else {
                "    stage "@
            }) + decimal((i + 1) as nat),
        ),
        has_suffix(
            stage_lines(stages, active)[i],
            "   "@ + decimal((stages[i] / 10) as nat),
        ),
{
    reveal_strlit("  ");
    reveal_strlit("*");
    reveal_strlit(" ");
    reveal_strlit(" stage ");
    reveal_strlit("  * stage ");
    reveal_strlit("    stage ");
    reveal_strlit("   ");
    let line = stage_lines(stages, active)[i];
    let head = (if i == active {
        "  * stage "@
    } else {
        "    stage "@
    }) + decimal((i + 1) as nat);
    let tail = "   "@ + decimal((stages[i] / 10) as nat);
    assert(line =~= head + tail);
    assert(line.take(head.len() as int) =~= head);
    assert(line.skip(head.len() as int) =~= tail);
}

/// The battery's line says its level, or that there is no reading, and what is
/// known of the charge.
pub proof fn lemma_battery_line(status: StatusView)
    ensures
        ({
            let line = status.lines()[1];
            &&& status.battery matches Some(percent) ==> has_prefix(
                line,
                "  Battery    "@ + decimal(percent as nat) + "%   "@,
            )
            &&& status.battery is None ==> has_prefix(line, "  Battery    no reading   "@)
            &&& has_suffix(
                line,
                match status.charging {
                    Some(true) => "   charging"@,
                    Some(false) => "   not charging"@,
                    None => "   charging status unavailable"@,
                },
            )
        }),
{
    reveal_strlit("%   ");
    reveal_strlit("  Battery    no reading   ");
    reveal_strlit("charging");
    reveal_strlit("not charging");
    reveal_strlit("charging status unavailable");
    reveal_strlit("   charging");
    reveal_strlit("   not charging");
    reveal_strlit("   charging status unavailable");
    let line = status.lines()[1];
    let head = match status.battery {
        Some(percent) => "  Battery    "@ + decimal(percent as nat) + "%   "@,
        None => "  Battery    no reading   "@,
    };
    assert(line == status.first_lines()[1]);
    assert(line.take(head.len() as int) =~= head);
    let tail = match status.charging {
        Some(true) => "   charging"@,
        Some(false) => "   not charging"@,
        None => "   charging status unavailable"@,
    };
    assert(line.skip(line.len() - tail.len()) =~= tail);
}

/// The DPI's line says the DPI in use, which stage it is of how many, and every
/// stage's DPI in order.
pub proof fn lemma_dpi_line(status: StatusView)
    ensures
        ({
            let line = status.lines()[2];
            let place = "  stage "@ + decimal((status.dpi_stage + 1) as nat) + " of "@ + decimal(
                status.dpi_stages.len(),
            );
            &&& status.dpi matches Some(tenths) ==> has_prefix(
                line,
                "  DPI        "@ + decimal((tenths / 10) as nat) + place,
            )
            &&& status.dpi is None ==> has_prefix(line, "  DPI        —"@ + place)
            &&& has_suffix(
                line,
                "   ["@ + joined(
                    Seq::new(
                        status.dpi_stages.len(),
                        |i: int| decimal((status.dpi_stages[i] / 10) as nat),
                    ),
                    ", "@,
                ) + "]"@,
            )
        }),
{
    reveal_strlit("  DPI        —");
    reveal_strlit("  DPI        ");
    reveal_strlit("—");
    let line = status.lines()[2];
    let place = "  stage "@ + decimal((status.dpi_stage + 1) as nat) + " of "@ + decimal(
        status.dpi_stages.len(),
    );
    let list = Seq::new(
        status.dpi_stages.len(),
        |i: int| decimal((status.dpi_stages[i] / 10) as nat),
    );
    assert(status.dpi_stages.map_values(|tenths: u32| whole_dpi(tenths)) =~= list);
    let head = match status.dpi {
        Some(tenths) => "  DPI        "@ + decimal((tenths / 10) as nat) + place,
        None => "  DPI        —"@ + place,
    };
    let tail = "   ["@ + joined(list, ", "@) + "]"@;
    assert(line == status.first_lines()[2]);
    assert(line =~= head + tail);
    assert(line.take(head.len() as int) =~= head);
    assert(line.skip(line.len() - tail.len()) =~= tail);
}

/// The other lines that are always there say the report rate, the lift-off
/// distance and whether motion sync is on, or that one was not read.
pub proof fn lemma_settings_lines(status: StatusView)
    ensures
        status.lines().len() >= 6,
        status.lines()[3] == "  Report     "@ + decimal(status.polling_rate as nat) + " Hz"@,
        status.lift_off matches Some(value) ==> status.lines()[4] == "  Lift-off   "@ + value,
        status.lift_off is None ==> status.lines()[4] == "  Lift-off   "@ + "—"@,
        status.motion_sync == Some(true) ==> status.lines()[5] == "  Motion     "@ + "on"@,
        status.motion_sync == Some(false) ==> status.lines()[5] == "  Motion     "@ + "off"@,
        status.motion_sync is None ==> status.lines()[5] == "  Motion     "@ + "—"@,
        has_prefix(status.lines()[0], "  "@ + cut(status.name, "Ninjutso Inc. "@) + "  ("@),
        has_suffix(
            status.lines()[0],
            "("@ + status.path + ", "@ + hex_word(0x093A) + ":"@ + hex_word(status.product_id)
                + ")"@,
        ),
{
    reveal_strlit("  (");
    reveal_strlit("(");
    reveal_strlit("  ");
    let line = status.lines()[0];
    let head = "  "@ + cut(status.name, "Ninjutso Inc. "@) + "  ("@;
    let tail = "("@ + status.path + ", "@ + hex_word(0x093A) + ":"@ + hex_word(status.product_id)
        + ")"@;
    assert(line == status.first_lines()[0]);
    assert(line.take(head.len() as int) =~= head);
    assert(line.skip(line.len() - tail.len()) =~= tail);
    assert(forall|i: int| 0 <= i < 6 ==> status.lines()[i] == status.first_lines()[i]);
}

/// The system mode, the light and the firmware have lines exactly where something
/// was read of them, in that order.
pub proof fn lemma_extra_lines(status: StatusView)
    ensures
        ({
            let lines = status.lines();
            let light_at = 6 + if status.system_mode is Some {
                1int
            } else {
                0
            };
            let firmware_at = light_at + if status.lighting is Some {
                1int
            } else {
                0
            };
            &&& lines.len() == firmware_at + if status.firmware.len() > 0 {
                1int
            } else {
                0
            }
            &&& status.system_mode matches Some(mode) ==> lines[6] == "  Mode       "@ + mode
            &&& status.lighting matches Some(light) ==> {
                &&& has_prefix(lines[light_at], "  Light      "@ + light.mode + "  "@)
                &&& light.color matches Some(color) ==> has_prefix(
                    lines[light_at],
                    "  Light      "@ + light.mode + "  "@ + color + "  "@,
                )
                &&& light.brightness matches Some(level) ==> has_suffix(
                    lines[light_at],
                    "  "@ + decimal(level as nat) + "%"@,
                )
                &&& light.brightness is None ==> has_suffix(lines[light_at], "  "@ + "—"@)
            }
            &&& status.firmware.len() > 0 ==> lines[firmware_at] == "  Firmware   "@ + joined(
                Seq::new(
                    status.firmware.len(),
                    |i: int| status.firmware[i].0 + " "@ + status.firmware[i].1,
                ),
                " · "@,
            )
        }),
{
    let lines = status.lines();
    let parts = Seq::new(
        status.firmware.len(),
        |i: int| status.firmware[i].0 + " "@ + status.firmware[i].1,
    );
    assert(status.firmware.map_values(|part: (Seq<char>, Seq<char>)| part.0 + " "@ + part.1)
        =~= parts);
    if let Some(light) = status.lighting {
        let at = 6 + if status.system_mode is Some {
            1int
        } else {
            0
        };
        let line = light_line(light);
        assert(lines[at] == line);
        let mode = "  Light      "@ + light.mode + "  "@;
        assert(line.take(mode.len() as int) =~= mode);
        if let Some(color) = light.color {
            let coloured = mode + color + "  "@;
            assert(line.take(coloured.len() as int) =~= coloured);
        }
        let tail = "  "@ + match light.brightness {
            Some(level) => decimal(level as nat) + "%"@,
            None => "—"@,
        };
        assert(line.skip(line.len() - tail.len()) =~= tail);
        if let Some(level) = light.brightness {
            assert(tail =~= "  "@ + decimal(level as nat) + "%"@);
        }
    }
}

// -- values -------------------------------------------------------------------

/// A number is taken exactly where it is one of the values there are; where it is
/// not, the refusal lists them.
pub proof fn lemma_chosen(n: nat, max: nat, values: Seq<nat>)
    requires
        n <= max,
    ensures
        chosen(decimal(n), max, values) == if values.contains(n) {
            Ok::<nat, Seq<char>>(n)
        } else {
            Err(
                "possible values: "@ + joined(
                    Seq::new(values.len(), |i: int| decimal(values[i])),
                    ", "@,
                ),
            )
        },
{
    lemma_decimal_reads_back(n, max);
    assert(values.map_values(|value: nat| decimal(value)) =~= Seq::new(
        values.len(),
        |i: int| decimal(values[i]),
    ));
}

/// The report rates and the brightness levels that there are.
pub proof fn lemma_values(n: nat)
    ensures
        rates().contains(n) <==> n == 1000 || n == 2000 || n == 4000 || n == 8000,
        levels().contains(n) <==> n == 25 || n == 50 || n == 75 || n == 100,
        rates().len() == 4,
        levels().len() == 4,
{
    assert(rates()[0] == 1000 && rates()[1] == 2000 && rates()[2] == 4000 && rates()[3] == 8000);
    assert(levels()[0] == 25 && levels()[1] == 50 && levels()[2] == 75 && levels()[3] == 100);
}

// -- exit codes ---------------------------------------------------------------

/// An error never exits as a success, and a mouse that is not there or may not be
/// opened exits like no other error.
pub proof fn lemma_exit_codes(path: Seq<char>, error: ErrorView)
    requires
        !(error is DeviceNotFound),
        !(error is PermissionDenied),
    ensures
        exit_code_of(ErrorView::DeviceNotFound) == 2,
        exit_code_of(ErrorView::PermissionDenied { path }) == 2,
        exit_code_of(error) == 1,
{
}

} // verus!
