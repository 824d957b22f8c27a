//! `light`: receiver lighting.

use vstd::prelude::*;
use vstd::string::*;

use crate::cli::{
    lemma_failed, lemma_reported, ran, report, report_line, Output, OutputView, Session,
};
use crate::device::settings::{optional_view, Sent};
use crate::device::status::{dark, light_view, LightAnswers, Lighting, LightingView};
use crate::device::steps::{follows, lemma_follows_then, Answer, Outcome};
use crate::device::{took, Device, DeviceView};
use crate::error::{Error, ErrorView};
use crate::text::{decimal, number_text, text_view};
use crate::transport::{Event, Transport};

verus! {

/// What is to be changed about the light.
#[derive(Debug)]
pub struct LightArgs {
    pub mode: Option<String>,
    pub color: Option<String>,
    pub brightness: Option<u8>,
}

/// A [`LightArgs`] as contracts see it.
pub struct LightArgsView {
    pub mode: Option<Seq<char>>,
    pub color: Option<Seq<char>>,
    pub brightness: Option<u8>,
}

impl View for LightArgs {
    type V = LightArgsView;

    open spec fn view(&self) -> LightArgsView {
        LightArgsView {
            mode: text_view(self.mode),
            color: text_view(self.color),
            brightness: self.brightness,
        }
    }
}

/// What comes back while the mode is changed.
pub struct ModeAnswers {
    pub state_sent: Sent,
    pub mode_sent: Sent,
    pub light: LightAnswers,
}

/// What comes back while the colour is changed.
pub struct ColorAnswers {
    pub sent: Sent,
    pub light: LightAnswers,
}

/// What comes back while the brightness is changed.
pub struct BrightnessAnswers {
    pub paired: Answer,
    pub sent: Sent,
    pub confirmed: Outcome,
}

/// What comes back while the light is changed.
pub struct ChangeAnswers {
    pub read: LightAnswers,
    pub mode: ModeAnswers,
    pub color: ColorAnswers,
    pub brightness: BrightnessAnswers,
}

/// The line that reports a mode.
pub open spec fn mode_line(light: Option<LightingView>) -> spec_fn(Option<Seq<char>>) -> (
    Seq<char>,
    u8,
) {
    let before = match light {
        Some(light) => light.mode,
        None => "—"@,
    };
    |after: Option<Seq<char>>| report_line("Light mode"@, before, after, ""@)
}

/// The line that reports a colour.
pub open spec fn color_line(light: Option<LightingView>) -> spec_fn(Option<Seq<char>>) -> (
    Seq<char>,
    u8,
) {
    let before = match light {
        Some(light) => match light.color {
            Some(color) => color,
            None => "—"@,
        },
        None => "—"@,
    };
    |after: Option<Seq<char>>| report_line("Colour"@, before, after, ""@)
}

/// The line that reports a brightness.
pub open spec fn brightness_line(light: Option<LightingView>) -> spec_fn(Option<u8>) -> (
    Seq<char>,
    u8,
) {
    let before = match light {
        Some(light) => match light.brightness {
            Some(level) => decimal(level as nat),
            None => "—"@,
        },
        None => "—"@,
    };
    |after: Option<u8>|
        report_line(
            "Brightness"@,
            before,
            match after {
                Some(level) => Some(decimal(level as nat)),
                None => None,
            },
            "%"@,
        )
}

impl Session {
    /// A session changes the mode, if that was asked for.
    pub open spec fn with_mode(
        self,
        mode: Option<Seq<char>>,
        light: Option<LightingView>,
        a: ModeAnswers,
    ) -> Session {
        match mode {
            Some(mode) => self.then_report(
                self.device.light_mode_course(mode, a.state_sent, a.mode_sent, a.light),
                mode_line(light),
            ),
            None => self,
        }
    }

    /// A session changes the colour, if that was asked for.
    pub open spec fn with_color(
        self,
        color: Option<Seq<char>>,
        light: Option<LightingView>,
        a: ColorAnswers,
    ) -> Session {
        match color {
            Some(color) => self.then_report(
                self.device.colour_course(color, a.sent, a.light),
                color_line(light),
            ),
            None => self,
        }
    }

    /// A session changes the brightness, if that was asked for. Hardware without
    /// one is not a failure of the session: it is said, and the exit code is 1.
    pub open spec fn with_brightness(
        self,
        brightness: Option<u8>,
        light: Option<LightingView>,
        a: BrightnessAnswers,
    ) -> Session {
        match brightness {
            Some(percent) => {
                let course = self.device.brightness_course(
                    percent,
                    a.paired,
                    a.sent,
                    a.confirmed,
                );
                match (self.result, course.result) {
                    (Ok(_), Err(ErrorView::Unsupported(why))) => Session {
                        steps: self.steps + course.steps,
                        device: course.device,
                        lines: self.lines.push("  "@ + why),
                        result: Ok(1),
                        ..self
                    },
                    _ => self.then_report(course, brightness_line(light)),
                }
            },
            None => self,
        }
    }
}

impl DeviceView {
    /// `light`: read the light, then change what was asked for, one after the
    /// other, until something fails.
    pub open spec fn light_session(self, args: LightArgsView, a: ChangeAnswers) -> Session {
        let read = Session {
            steps: self.light_steps(a.read),
            ..Session::start(self.light_after(a.read))
        };
        match self.light_result(a.read) {
            Err(error) => Session { result: Err(error), ..read },
            Ok(light) => read.with_mode(args.mode, light, a.mode).with_color(
                args.color,
                light,
                a.color,
            ).with_brightness(args.brightness, light, a.brightness),
        }
    }
}

spec fn seen_light(light: Option<Lighting>) -> Option<LightingView> {
    match light {
        Some(light) => Some(light@),
        None => None,
    }
}

spec fn unchanged() -> ChangeAnswers {
    ChangeAnswers {
        read: dark(),
        mode: ModeAnswers { state_sent: Ok(()), mode_sent: Ok(()), light: dark() },
        color: ColorAnswers { sent: Ok(()), light: dark() },
        brightness: BrightnessAnswers {
            paired: dark().paired,
            sent: Ok(()),
            confirmed: Outcome::Ok(None),
        },
    }
}

fn worse(a: u8, b: u8) -> (code: u8)
    ensures
        code == if b > a {
            b
        } else {
            a
        },
{
    if b > a {
        b
    } else {
        a
    }
}

fn change_mode<T: Transport>(
    device: &mut Device<T>,
    mode: &Option<String>,
    light: &Option<Lighting>,
    code: u8,
    out: &mut Output,
    Ghost(start): Ghost<Seq<Event>>,
    Ghost(printed): Ghost<OutputView>,
    Ghost(session): Ghost<Session>,
) -> (result: (Result<u8, Error>, Ghost<ModeAnswers>))
    requires
        ran(start, old(device).trace(), old(device)@, printed, old(out)@, Ok(code), session),
    ensures
        ran(
            start,
            final(device).trace(),
            final(device)@,
            printed,
            final(out)@,
            result.0,
            session.with_mode(text_view(*mode), seen_light(*light), result.1@),
        ),
{
    let ghost middle = device.trace();
    let ghost second = device@;
    let ghost shown = out@;
    let mode = match mode {
        Some(mode) => mode,
        None => {
            return (Ok(code), Ghost(unchanged().mode));
        },
    };
    let ghost line = mode_line(seen_light(*light));
    let set = device.set_light_mode(mode.as_str());
    let ghost end = device.trace();
    let ghost (s1, s2, l) = choose|s1: Sent, s2: Sent, l: LightAnswers|
        took(
            middle,
            end,
            device@,
            optional_view(set),
            #[trigger] second.light_mode_course(mode@, s1, s2, l),
        );
    let ghost answers = ModeAnswers { state_sent: s1, mode_sent: s2, light: l };
    let ghost course = second.light_mode_course(mode@, s1, s2, l);
    match set {
        Ok(after) => {
            let before = match light {
                Some(light) => light.mode,
                None => "—",
            };
            let reported: u8 = report("Light mode", before, after, "", out);
            let ghost value = match after {
                Some(after) => Some(after@),
                None => None,
            };
            proof {
                lemma_reported(
                    start,
                    middle,
                    end,
                    second,
                    device@,
                    printed,
                    shown,
                    out@,
                    code,
                    value,
                    session,
                    course,
                    line,
                );
            }
            (Ok(worse(code, reported)), Ghost(answers))
        },
        Err(error) => {
            proof {
                lemma_failed(
                    start,
                    middle,
                    end,
                    second,
                    device@,
                    printed,
                    out@,
                    code,
                    error,
                    session,
                    course,
                    line,
                );
            }
            (Err(error), Ghost(answers))
        },
    }
}

fn change_color<T: Transport>(
    device: &mut Device<T>,
    color: &Option<String>,
    light: &Option<Lighting>,
    code: u8,
    out: &mut Output,
    Ghost(start): Ghost<Seq<Event>>,
    Ghost(printed): Ghost<OutputView>,
    Ghost(session): Ghost<Session>,
) -> (result: (Result<u8, Error>, Ghost<ColorAnswers>))
    requires
        ran(start, old(device).trace(), old(device)@, printed, old(out)@, Ok(code), session),
    ensures
        ran(
            start,
            final(device).trace(),
            final(device)@,
            printed,
            final(out)@,
            result.0,
            session.with_color(text_view(*color), seen_light(*light), result.1@),
        ),
{
    let ghost middle = device.trace();
    let ghost second = device@;
    let ghost shown = out@;
    let color = match color {
        Some(color) => color,
        None => {
            return (Ok(code), Ghost(unchanged().color));
        },
    };
    let ghost line = color_line(seen_light(*light));
    let set = device.set_color(color.as_str());
    let ghost end = device.trace();
    let ghost (s1, l) = choose|s1: Sent, l: LightAnswers|
        took(
            middle,
            end,
            device@,
            optional_view(set),
            #[trigger] second.colour_course(color@, s1, l),
        );
    let ghost answers = ColorAnswers { sent: s1, light: l };
    let ghost course = second.colour_course(color@, s1, l);
    match set {
        Ok(after) => {
            let before = match light {
                Some(light) => match &light.color {
                    Some(color) => color.as_str(),
                    None => "—",
                },
                None => "—",
            };
            let now = match &after {
                Some(after) => Some(after.as_str()),
                None => None,
            };
            let reported: u8 = report("Colour", before, now, "", out);
            let ghost value = text_view(after);
            proof {
                lemma_reported(
                    start,
                    middle,
                    end,
                    second,
                    device@,
                    printed,
                    shown,
                    out@,
                    code,
                    value,
                    session,
                    course,
                    line,
                );
            }
            (Ok(worse(code, reported)), Ghost(answers))
        },
        Err(error) => {
            proof {
                lemma_failed(
                    start,
                    middle,
                    end,
                    second,
                    device@,
                    printed,
                    out@,
                    code,
                    error,
                    session,
                    course,
                    line,
                );
            }
            (Err(error), Ghost(answers))
        },
    }
}

fn change_brightness<T: Transport>(
    device: &mut Device<T>,
    brightness: Option<u8>,
    light: &Option<Lighting>,
    code: u8,
    out: &mut Output,
    Ghost(start): Ghost<Seq<Event>>,
    Ghost(printed): Ghost<OutputView>,
    Ghost(session): Ghost<Session>,
) -> (result: (Result<u8, Error>, Ghost<BrightnessAnswers>))
    requires
        ran(start, old(device).trace(), old(device)@, printed, old(out)@, Ok(code), session),
    ensures
        ran(
            start,
            final(device).trace(),
            final(device)@,
            printed,
            final(out)@,
            result.0,
            session.with_brightness(brightness, seen_light(*light), result.1@),
        ),
{
    let ghost middle = device.trace();
    let ghost second = device@;
    let ghost shown = out@;
    let percent: u8 = match brightness {
        Some(percent) => percent,
        None => {
            return (Ok(code), Ghost(unchanged().brightness));
        },
    };
    let ghost line = brightness_line(seen_light(*light));
    let set = device.set_brightness(percent);
    let ghost end = device.trace();
    let ghost (q, s1, o) = choose|q: Answer, s1: Sent, o: Outcome|
        took(
            middle,
            end,
            device@,
            optional_view(set),
            #[trigger] second.brightness_course(percent, q, s1, o),
        );
    let ghost answers = BrightnessAnswers { paired: q, sent: s1, confirmed: o };
    let ghost course = second.brightness_course(percent, q, s1, o);
    match set {
        Ok(after) => {
            let before = match light {
                Some(light) => match light.brightness {
                    Some(level) => number_text(level as u64),
                    None => "—".to_owned(),
                },
                None => "—".to_owned(),
            };
            let text = match after {
                Some(level) => Some(number_text(level as u64)),
                None => None,
            };
            let now = match &text {
                Some(text) => Some(text.as_str()),
                None => None,
            };
            let reported: u8 = report("Brightness", before.as_str(), now, "%", out);
            let ghost value = after;
            proof {
                lemma_reported(
                    start,
                    middle,
                    end,
                    second,
                    device@,
                    printed,
                    shown,
                    out@,
                    code,
                    value,
                    session,
                    course,
                    line,
                );
            }
            (Ok(worse(code, reported)), Ghost(answers))
        },
        Err(Error::Unsupported(why)) => {
            let mut text = "  ".to_owned();
            text.append(why.as_str());
            out.say(text);
            proof {
                lemma_follows_then(start, middle, end, session.steps, course.steps);
                assert(out@.lines =~= printed.lines + session.lines.push("  "@ + why@));
            }
            (Ok(1), Ghost(answers))
        },
        Err(error) => {
            proof {
                lemma_failed(
                    start,
                    middle,
                    end,
                    second,
                    device@,
                    printed,
                    out@,
                    code,
                    error,
                    session,
                    course,
                    line,
                );
            }
            (Err(error), Ghost(answers))
        },
    }
}

/// `light`: read the light, then change what was asked for, one after the other,
/// until something fails.
pub fn cmd_light<T: Transport>(device: &mut Device<T>, args: &LightArgs, out: &mut Output) -> (
    result: Result<u8, Error>)
    ensures
        exists|a: ChangeAnswers|
            ran(
                old(device).trace(),
                final(device).trace(),
                final(device)@,
                old(out)@,
                final(out)@,
                result,
                #[trigger] old(device)@.light_session(args@, a),
            ),
{
    let ghost first = device@;
    let ghost start = device.trace();
    let ghost printed = out@;
    let ghost mut a = unchanged();
    let read = device.read_lighting();
    proof {
        a.read = choose|light: LightAnswers|
            {
                &&& follows(start, device.trace(), first.light_steps(light))
                &&& light_view(read) == #[trigger] first.light_result(light)
                &&& device@ == first.light_after(light)
            };
    }
    let ghost base = Session {
        steps: first.light_steps(a.read),
        ..Session::start(first.light_after(a.read))
    };
    assert(out@.lines =~= printed.lines + base.lines);
    assert(out@.errors =~= printed.errors + base.errors);
    let light = match read {
        Ok(light) => light,
        Err(error) => {
            let ghost whole = first.light_session(args@, a);
            assert(ran(start, device.trace(), device@, printed, out@, Err(error), whole));
            return Err(error);
        },
    };
    let ghost seen = seen_light(light);
    let (changed, Ghost(mode)) = change_mode(
        device,
        &args.mode,
        &light,
        0,
        out,
        Ghost(start),
        Ghost(printed),
        Ghost(base),
    );
    proof {
        a.mode = mode;
    }
    let ghost with_mode = base.with_mode(args@.mode, seen, a.mode);
    let code: u8 = match changed {
        Ok(code) => code,
        Err(error) => {
            let ghost whole = first.light_session(args@, a);
            assert(whole == with_mode);
            assert(ran(start, device.trace(), device@, printed, out@, Err(error), whole));
            return Err(error);
        },
    };
    let (changed, Ghost(color)) = change_color(
        device,
        &args.color,
        &light,
        code,
        out,
        Ghost(start),
        Ghost(printed),
        Ghost(with_mode),
    );
    proof {
        a.color = color;
    }
    let ghost with_color = with_mode.with_color(args@.color, seen, a.color);
    let code: u8 = match changed {
        Ok(code) => code,
        Err(error) => {
            let ghost whole = first.light_session(args@, a);
            assert(whole == with_color);
            assert(ran(start, device.trace(), device@, printed, out@, Err(error), whole));
            return Err(error);
        },
    };
    let (result, Ghost(brightness)) = change_brightness(
        device,
        args.brightness,
        &light,
        code,
        out,
        Ghost(start),
        Ghost(printed),
        Ghost(with_color),
    );
    proof {
        a.brightness = brightness;
        let whole = first.light_session(args@, a);
        assert(ran(start, device.trace(), device@, printed, out@, result, whole));
    }
    result
}

} // verus!
