//! The device thread: one command at a time, each answered with one reply.

use vstd::prelude::*;
use vstd::string::*;

use crate::device::settings::{optional_view, DpiAnswers, Sent};
use crate::device::status::{Answers, LightAnswers, Status, StatusView};
use crate::device::steps::{follows, Answer, Outcome};
use crate::device::{Course, Device, DeviceView};
use crate::error::{error_message, Error, ErrorView};
use crate::gui::{describe, description};
use crate::text::{decimal, has_prefix, has_suffix, number_text};
use crate::transport::{Event, Transport};

verus! {

/// Work for the device thread.
#[derive(Debug)]
pub enum Command {
    Refresh,
    SetDpi(u32),
    SetRate(u32),
    SetLod(String),
    SetMotion(bool),
    SetLightMode(String),
    SetColor(String),
    SetBrightness(u8),
}

/// What the device thread sends back to the main loop.
#[derive(Debug)]
pub enum Reply {
    Status(Status),
    Failed { title: String, detail: String },
    Toast(String),
    /// A setter that did not land. The widget is now showing a value the device
    /// does not hold, so the main loop re-reads instead of leaving it lying.
    Rejected(String),
}

/// A [`Reply`] as contracts see it.
pub enum ReplyView {
    Status(StatusView),
    Failed { title: Seq<char>, detail: Seq<char> },
    Toast(Seq<char>),
    Rejected(Seq<char>),
}

impl View for Reply {
    type V = ReplyView;

    open spec fn view(&self) -> ReplyView {
        match self {
            Reply::Status(status) => ReplyView::Status(status@),
            Reply::Failed { title, detail } => ReplyView::Failed {
                title: title@,
                detail: detail@,
            },
            Reply::Toast(text) => ReplyView::Toast(text@),
            Reply::Rejected(text) => ReplyView::Rejected(text@),
        }
    }
}

/// Whether a reply is to be followed by a new reading: a setting that did not
/// land leaves its widget showing what the device does not hold.
pub fn rereads(reply: &Reply) -> (again: bool)
    ensures
        again == (reply@ is Rejected),
{
    matches!(reply, Reply::Rejected(_))
}

/// A reply, and whether the device is still to be held.
pub struct Answered {
    pub reply: Reply,
    pub held: bool,
}

/// The reply to a reading. A device that cannot be read is let go, so that the
/// next reading opens it again.
pub open spec fn reading_reply(result: Result<StatusView, ErrorView>) -> (ReplyView, bool) {
    match result {
        Ok(status) => (ReplyView::Status(status), true),
        Err(error) => (failure_reply(error), false),
    }
}

/// The reply where the device cannot be opened or read.
pub open spec fn failure_reply(error: ErrorView) -> ReplyView {
    ReplyView::Failed { title: description(error).0, detail: description(error).1 }
}

/// The reply to a setting that the device confirmed, did not confirm, or
/// refused. Unless the hardware simply does not have it, the receiver may be
/// gone, so the device is let go.
pub open spec fn setting_reply(
    label: Seq<char>,
    result: Result<Option<Seq<char>>, ErrorView>,
) -> (ReplyView, bool) {
    match result {
        Ok(Some(value)) => (ReplyView::Toast(label + " → "@ + value), true),
        Ok(None) => (ReplyView::Rejected(label + " failed: device did not confirm"@), false),
        Err(error) => (
            ReplyView::Rejected(label + " failed: "@ + error_message(error)),
            error is Unsupported,
        ),
    }
}

/// What a result reads as.
pub open spec fn reads_as<R>(result: Result<R, ErrorView>, text: spec_fn(R) -> Seq<char>) -> Result<
    Option<Seq<char>>,
    ErrorView,
> {
    match result {
        Ok(value) => Ok(Some(text(value))),
        Err(error) => Err(error),
    }
}

/// What a result that may lack a value reads as.
pub open spec fn may_read_as<R>(
    result: Result<Option<R>, ErrorView>,
    text: spec_fn(R) -> Seq<char>,
) -> Result<Option<Seq<char>>, ErrorView> {
    match result {
        Ok(Some(value)) => Ok(Some(text(value))),
        Ok(None) => Ok(None),
        Err(error) => Err(error),
    }
}

/// A DPI as text, without its tenths.
pub open spec fn dpi_text(tenths: u32) -> Seq<char> {
    decimal((tenths / 10) as nat)
}

/// A report rate as text.
pub open spec fn rate_text(rate: u32) -> Seq<char> {
    decimal(rate as nat) + " Hz"@
}

/// A switch as text.
pub open spec fn switch_text(on: bool) -> Seq<char> {
    if on {
        "on"@
    } else {
        "off"@
    }
}

/// A percentage as text.
pub open spec fn level_text(level: u8) -> Seq<char> {
    decimal(level as nat)
}

/// An operation took this course, and was answered like this.
pub open spec fn took_and_answered<R>(
    before: Seq<Event>,
    after: Seq<Event>,
    device: DeviceView,
    answered: Answered,
    course: Course<R>,
    answer: (ReplyView, bool),
) -> bool {
    &&& follows(before, after, course.steps)
    &&& device == course.device
    &&& answered.reply@ == answer.0
    &&& answered.held == answer.1
}

/// The reply where the device cannot be opened or read.
pub fn failed(error: &Error) -> (reply: Reply)
    ensures
        reply@ == failure_reply(error@),
{
    let (title, detail) = describe(error);
    Reply::Failed { title, detail }
}

fn settle(label: &str, result: Result<Option<String>, Error>) -> (answered: Answered)
    ensures
        (answered.reply@, answered.held) == setting_reply(label@, optional_view(result)),
{
    let mut text = label.to_owned();
    match result {
        Ok(Some(value)) => {
            text.append(" → ");
            text.append(value.as_str());
            Answered { reply: Reply::Toast(text), held: true }
        },
        Ok(None) => {
            text.append(" failed: device did not confirm");
            Answered { reply: Reply::Rejected(text), held: false }
        },
        Err(error) => {
            text.append(" failed: ");
            text.append(error.message().as_str());
            let held = matches!(error, Error::Unsupported(_));
            Answered { reply: Reply::Rejected(text), held }
        },
    }
}

/// What it is to read everything.
pub open spec fn refreshed(
    first: DeviceView,
    before: Seq<Event>,
    after: Seq<Event>,
    device: DeviceView,
    answered: Answered,
) -> bool {
    exists|a: Answers|
        took_and_answered(
            before,
            after,
            device,
            answered,
            #[trigger] first.status_course(a),
            reading_reply(first.status_course(a).result),
        )
}

/// What it is to set the active stage's DPI.
pub open spec fn dpi_was_set(
    dpi: u32,
    first: DeviceView,
    before: Seq<Event>,
    after: Seq<Event>,
    device: DeviceView,
    answered: Answered,
) -> bool {
    exists|a: DpiAnswers|
        took_and_answered(
            before,
            after,
            device,
            answered,
            #[trigger] first.dpi_course(dpi, None, a),
            setting_reply(
                "DPI"@,
                reads_as(
                    first.dpi_course(dpi, None, a).result,
                    |tenths: u32| dpi_text(tenths),
                ),
            ),
        )
}

/// What it is to set the report rate.
pub open spec fn rate_was_set(
    rate: u32,
    first: DeviceView,
    before: Seq<Event>,
    after: Seq<Event>,
    device: DeviceView,
    answered: Answered,
) -> bool {
    exists|sent: Sent, confirmed: Answer|
        took_and_answered(
            before,
            after,
            device,
            answered,
            #[trigger] first.polling_course(rate, sent, confirmed),
            setting_reply(
                "Report rate"@,
                reads_as(
                    first.polling_course(rate, sent, confirmed).result,
                    |rate: u32| rate_text(rate),
                ),
            ),
        )
}

/// What it is to set the lift-off distance.
pub open spec fn lod_was_set(
    value: Seq<char>,
    first: DeviceView,
    before: Seq<Event>,
    after: Seq<Event>,
    device: DeviceView,
    answered: Answered,
) -> bool {
    exists|sent: Sent, confirmed: Answer|
        took_and_answered(
            before,
            after,
            device,
            answered,
            #[trigger] first.lift_off_course(value, sent, confirmed),
            setting_reply(
                "Lift-off"@,
                reads_as(
                    first.lift_off_course(value, sent, confirmed).result,
                    |name: Seq<char>| name,
                ),
            ),
        )
}

/// What it is to switch motion sync.
pub open spec fn motion_was_set(
    enabled: bool,
    first: DeviceView,
    before: Seq<Event>,
    after: Seq<Event>,
    device: DeviceView,
    answered: Answered,
) -> bool {
    exists|sent: Sent, confirmed: Answer|
        took_and_answered(
            before,
            after,
            device,
            answered,
            #[trigger] first.motion_sync_course(enabled, sent, confirmed),
            setting_reply(
                "Motion Sync"@,
                reads_as(
                    first.motion_sync_course(enabled, sent, confirmed).result,
                    |on: bool| switch_text(on),
                ),
            ),
        )
}

/// What it is to set the light's mode.
pub open spec fn light_mode_was_set(
    mode: Seq<char>,
    first: DeviceView,
    before: Seq<Event>,
    after: Seq<Event>,
    device: DeviceView,
    answered: Answered,
) -> bool {
    exists|state_sent: Sent, mode_sent: Sent, light: LightAnswers|
        took_and_answered(
            before,
            after,
            device,
            answered,
            #[trigger] first.light_mode_course(mode, state_sent, mode_sent, light),
            setting_reply(
                "Light mode"@,
                first.light_mode_course(mode, state_sent, mode_sent, light).result,
            ),
        )
}

/// What it is to set the light's colour.
pub open spec fn color_was_set(
    colour: Seq<char>,
    first: DeviceView,
    before: Seq<Event>,
    after: Seq<Event>,
    device: DeviceView,
    answered: Answered,
) -> bool {
    exists|sent: Sent, light: LightAnswers|
        took_and_answered(
            before,
            after,
            device,
            answered,
            #[trigger] first.colour_course(colour, sent, light),
            setting_reply(
                "Light colour"@,
                first.colour_course(colour, sent, light).result,
            ),
        )
}

/// What it is to set the light's brightness.
pub open spec fn brightness_was_set(
    percent: u8,
    first: DeviceView,
    before: Seq<Event>,
    after: Seq<Event>,
    device: DeviceView,
    answered: Answered,
) -> bool {
    exists|paired: Answer, sent: Sent, confirmed: Outcome|
        took_and_answered(
            before,
            after,
            device,
            answered,
            #[trigger] first.brightness_course(percent, paired, sent, confirmed),
            setting_reply(
                "Brightness"@,
                may_read_as(
                    first.brightness_course(percent, paired, sent, confirmed).result,
                    |level: u8| level_text(level),
                ),
            ),
        )
}

/// Read everything.
pub fn refresh<T: Transport>(device: &mut Device<T>) -> (answered: Answered)
    ensures
        refreshed(
            old(device)@,
            old(device).trace(),
            final(device).trace(),
            final(device)@,
            answered,
        ),
{
    match device.status() {
        Ok(status) => Answered { reply: Reply::Status(status), held: true },
        Err(error) => Answered { reply: failed(&error), held: false },
    }
}

/// Set the active stage's DPI.
pub fn set_dpi<T: Transport>(device: &mut Device<T>, dpi: u32) -> (answered: Answered)
    ensures
        dpi_was_set(
            dpi,
            old(device)@,
            old(device).trace(),
            final(device).trace(),
            final(device)@,
            answered,
        ),
{
    let result = match device.set_dpi(dpi, None) {
        Ok(tenths) => {
            let text = number_text((tenths / 10) as u64);
            proof {
                reveal_strlit("");
                assert(text@ =~= dpi_text(tenths));
            }
            Ok(Some(text))
        },
        Err(error) => Err(error),
    };
    settle("DPI", result)
}

/// Set the report rate.
pub fn set_rate<T: Transport>(device: &mut Device<T>, rate: u32) -> (answered: Answered)
    ensures
        rate_was_set(
            rate,
            old(device)@,
            old(device).trace(),
            final(device).trace(),
            final(device)@,
            answered,
        ),
{
    let result = match device.set_polling_rate(rate) {
        Ok(rate) => {
            let mut text = number_text(rate as u64);
            text.append(" Hz");
            Ok(Some(text))
        },
        Err(error) => Err(error),
    };
    settle("Report rate", result)
}

/// Set the lift-off distance.
pub fn set_lod<T: Transport>(device: &mut Device<T>, value: &str) -> (answered: Answered)
    ensures
        lod_was_set(
            value@,
            old(device)@,
            old(device).trace(),
            final(device).trace(),
            final(device)@,
            answered,
        ),
{
    let result = match device.set_lift_off(value) {
        Ok(name) => Ok(Some(name.to_owned())),
        Err(error) => Err(error),
    };
    settle("Lift-off", result)
}

/// Switch motion sync.
pub fn set_motion<T: Transport>(device: &mut Device<T>, enabled: bool) -> (answered: Answered)
    ensures
        motion_was_set(
            enabled,
            old(device)@,
            old(device).trace(),
            final(device).trace(),
            final(device)@,
            answered,
        ),
{
    let result = match device.set_motion_sync(enabled) {
        Ok(on) => Ok(
            Some(
                if on {
                    "on".to_owned()
                } else {
                    "off".to_owned()
                },
            ),
        ),
        Err(error) => Err(error),
    };
    settle("Motion Sync", result)
}

/// Set the light's mode.
pub fn set_light_mode<T: Transport>(device: &mut Device<T>, mode: &str) -> (answered: Answered)
    ensures
        light_mode_was_set(
            mode@,
            old(device)@,
            old(device).trace(),
            final(device).trace(),
            final(device)@,
            answered,
        ),
{
    let result = match device.set_light_mode(mode) {
        Ok(Some(mode)) => Ok(Some(mode.to_owned())),
        Ok(None) => Ok(None),
        Err(error) => Err(error),
    };
    settle("Light mode", result)
}

/// Set the light's colour.
pub fn set_color<T: Transport>(device: &mut Device<T>, colour: &str) -> (answered: Answered)
    ensures
        color_was_set(
            colour@,
            old(device)@,
            old(device).trace(),
            final(device).trace(),
            final(device)@,
            answered,
        ),
{
    let result = device.set_color(colour);
    settle("Light colour", result)
}

/// Set the light's brightness.
pub fn set_brightness<T: Transport>(device: &mut Device<T>, percent: u8) -> (answered: Answered)
    ensures
        brightness_was_set(
            percent,
            old(device)@,
            old(device).trace(),
            final(device).trace(),
            final(device)@,
            answered,
        ),
{
    let result = match device.set_brightness(percent) {
        Ok(Some(level)) => {
            let text = number_text(level as u64);
            proof {
                reveal_strlit("");
                assert(text@ =~= level_text(level));
            }
            Ok(Some(text))
        },
        Ok(None) => Ok(None),
        Err(error) => Err(error),
    };
    settle("Brightness", result)
}

/// What it is to carry out a command.
pub open spec fn performed(
    command: Command,
    first: DeviceView,
    before: Seq<Event>,
    after: Seq<Event>,
    device: DeviceView,
    answered: Answered,
) -> bool {
    match command {
        Command::Refresh => refreshed(first, before, after, device, answered),
        Command::SetDpi(dpi) => dpi_was_set(dpi, first, before, after, device, answered),
        Command::SetRate(rate) => rate_was_set(rate, first, before, after, device, answered),
        Command::SetLod(value) => lod_was_set(value@, first, before, after, device, answered),
        Command::SetMotion(on) => motion_was_set(on, first, before, after, device, answered),
        Command::SetLightMode(mode) => light_mode_was_set(
            mode@,
            first,
            before,
            after,
            device,
            answered,
        ),
        Command::SetColor(colour) => color_was_set(
            colour@,
            first,
            before,
            after,
            device,
            answered,
        ),
        Command::SetBrightness(percent) => brightness_was_set(
            percent,
            first,
            before,
            after,
            device,
            answered,
        ),
    }
}

/// Carry out one command on the device that is held.
pub fn perform<T: Transport>(device: &mut Device<T>, command: Command) -> (answered: Answered)
    ensures
        performed(
            command,
            old(device)@,
            old(device).trace(),
            final(device).trace(),
            final(device)@,
            answered,
        ),
{
    match command {
        Command::Refresh => refresh(device),
        Command::SetDpi(dpi) => set_dpi(device, dpi),
        Command::SetRate(rate) => set_rate(device, rate),
        Command::SetLod(value) => set_lod(device, value.as_str()),
        Command::SetMotion(enabled) => set_motion(device, enabled),
        Command::SetLightMode(mode) => set_light_mode(device, mode.as_str()),
        Command::SetColor(colour) => set_color(device, colour.as_str()),
        Command::SetBrightness(percent) => set_brightness(device, percent),
    }
}

// -- laws ---------------------------------------------------------------------

/// The device is let go after every failure but one: that the hardware does not
/// have the setting. A setting that was refused or not confirmed is rejected, so
/// that the window reads the device again instead of showing what was asked for.
pub proof fn lemma_held_unless_it_failed(
    label: Seq<char>,
    result: Result<Option<Seq<char>>, ErrorView>,
)
    ensures
        setting_reply(label, result).1 <==> (match result {
            Ok(Some(_)) => true,
            Ok(None) => false,
            Err(error) => error is Unsupported,
        }),
        setting_reply(label, result).0 is Toast <==> (result matches Ok(Some(_))),
        setting_reply(label, result).0 is Toast || setting_reply(label, result).0 is Rejected,
{
}

/// A reading that failed lets the device go, and shows no status.
pub proof fn lemma_failed_reading(error: ErrorView)
    ensures
        reading_reply(Err(error)).0 is Failed,
        !reading_reply(Err(error)).1,
{
}

/// A reply to a setting names the setting. It ends with what the device holds now,
/// or with why it does not.
pub proof fn lemma_reply_text(label: Seq<char>, value: Seq<char>, error: ErrorView)
    ensures
        setting_reply(label, Ok(Some(value))).0 matches ReplyView::Toast(text) && has_prefix(
            text,
            label,
        ) && has_suffix(text, " → "@ + value) && text.len() == label.len() + value.len() + 3,
        setting_reply(label, Ok(None)).0 matches ReplyView::Rejected(text) && has_prefix(
            text,
            label,
        ) && has_suffix(text, " failed: device did not confirm"@) && text.len() == label.len()
            + 31,
        setting_reply(label, Err(error)).0 matches ReplyView::Rejected(text) && has_prefix(
            text,
            label + " failed: "@,
        ) && has_suffix(text, error_message(error)) && text.len() == label.len() + 9
            + error_message(error).len(),
{
    reveal_strlit(" → ");
    reveal_strlit(" failed: device did not confirm");
    reveal_strlit(" failed: ");
    let done = label + " → "@ + value;
    assert(done.take(label.len() as int) =~= label);
    assert(done.skip(done.len() - (" → "@ + value).len()) =~= " → "@ + value);
    let quiet = label + " failed: device did not confirm"@;
    assert(quiet.take(label.len() as int) =~= label);
    assert(quiet.skip(label.len() as int) =~= " failed: device did not confirm"@);
    let head = label + " failed: "@;
    let failed = head + error_message(error);
    assert(failed.take(head.len() as int) =~= head);
    assert(failed.skip(head.len() as int) =~= error_message(error));
}

} // verus!
