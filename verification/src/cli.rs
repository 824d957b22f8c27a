//! The command line: what each command does with the device and prints.

use vstd::prelude::*;
use vstd::string::*;

use crate::device::settings::{DpiAnswers, Sent};
use crate::device::status::{firmware_view, Answers, LightingView, Status, StatusView};
use crate::device::steps::{
    follows, lemma_follows_nothing, lemma_follows_then, Answer, Outcome, Step,
};
use crate::device::{took, Course, Device, DeviceView};
use crate::error::{error_message, result_view, Error, ErrorView};
use crate::gui::VENDOR_PREFIX;
use crate::protocol as p;
use crate::text::{
    cut, decimal, hex_word, join, joined, number, number_text, push_decimal, push_hex_word,
    read_number, strings, without,
};
use crate::transport::{Event, Transport};

pub mod laws;
pub mod light;
pub mod versions;

verus! {

// -- values -------------------------------------------------------------------

/// Why a value is refused that is not among those there are.
pub open spec fn possible_values(values: Seq<nat>) -> Seq<char> {
    "possible values: "@ + joined(values.map_values(|value: nat| decimal(value)), ", "@)
}

/// The report rates there are.
pub open spec fn rates() -> Seq<nat> {
    p::POLLING_RATES@.map_values(|rate: u32| rate as nat)
}

/// The brightness levels there are.
pub open spec fn levels() -> Seq<nat> {
    p::BRIGHTNESS_LEVELS@.map_values(|level: u8| level as nat)
}

/// The value that a text names, if it is one of `values`.
pub open spec fn chosen(text: Seq<char>, max: nat, values: Seq<nat>) -> Result<nat, Seq<char>> {
    match number(text, 10, max) {
        None => Err("invalid number "@ + text),
        Some(value) => if values.contains(value) {
            Ok(value)
        } else {
            Err(possible_values(values))
        },
    }
}

fn refuse(values: &Vec<u64>) -> (text: String)
    ensures
        text@ == possible_values(values@.map_values(|value: u64| value as nat)),
{
    let ghost all = values@.map_values(|value: u64| value as nat);
    let ghost f = |value: nat| decimal(value);
    let mut list: Vec<String> = Vec::new();
    let mut i: usize = 0;
    assert(strings(list@) =~= all.take(0).map_values(f));
    while i < values.len()
        invariant
            i <= values@.len(),
            all == values@.map_values(|value: u64| value as nat),
            f == |value: nat| decimal(value),
            strings(list@) == all.take(i as int).map_values(f),
        decreases values.len() - i,
    {
        let ghost before = list@;
        let mut text = String::new();
        push_decimal(&mut text, values[i]);
        assert(text@ =~= f(all[i as int]));
        list.push(text);
        assert(strings(list@) =~= strings(before).push(text@));
        assert(all.take(i + 1).map_values(f) =~= all.take(i as int).map_values(f).push(
            f(all[i as int]),
        ));
        i += 1;
    }
    assert(all.take(i as int) =~= all);
    let mut text = "possible values: ".to_owned();
    text.append(join(&list, ", ").as_str());
    text
}

fn choose_value(text: &str, max: u64, values: &Vec<u64>) -> (value: Result<u64, String>)
    ensures
        match value {
            Ok(value) => chosen(text@, max as nat, values@.map_values(|v: u64| v as nat)) == Ok::<
                nat,
                Seq<char>,
            >(value as nat) && value <= max,
            Err(why) => chosen(text@, max as nat, values@.map_values(|v: u64| v as nat)) == Err::<
                nat,
                Seq<char>,
            >(why@),
        },
{
    let ghost all = values@.map_values(|v: u64| v as nat);
    match read_number(text, 10, max) {
        None => {
            let mut why = "invalid number ".to_owned();
            why.append(text);
            Err(why)
        },
        Some(value) => {
            let mut i: usize = 0;
            while i < values.len()
                invariant
                    i <= values@.len(),
                    all == values@.map_values(|v: u64| v as nat),
                    number(text@, 10, max as nat) == Some(value as nat),
                    value <= max,
                    forall|j: int| 0 <= j < i ==> all[j] != value as nat,
                decreases values.len() - i,
            {
                if values[i] == value {
                    assert(all[i as int] == value as nat);
                    return Ok(value);
                }
                i += 1;
            }
            assert(!all.contains(value as nat));
            Err(refuse(values))
        },
    }
}

/// A report rate given on the command line.
pub fn parse_rate(value: &str) -> (rate: Result<u32, String>)
    ensures
        match rate {
            Ok(rate) => chosen(value@, u32::MAX as nat, rates()) == Ok::<nat, Seq<char>>(
                rate as nat,
            ),
            Err(why) => chosen(value@, u32::MAX as nat, rates()) == Err::<nat, Seq<char>>(why@),
        },
{
    let mut values: Vec<u64> = Vec::new();
    values.push(p::POLLING_RATES[0] as u64);
    values.push(p::POLLING_RATES[1] as u64);
    values.push(p::POLLING_RATES[2] as u64);
    values.push(p::POLLING_RATES[3] as u64);
    assert(values@.map_values(|v: u64| v as nat) =~= rates());
    match choose_value(value, u32::MAX as u64, &values) {
        Ok(rate) => Ok(rate as u32),
        Err(why) => Err(why),
    }
}

/// A brightness level given on the command line.
pub fn parse_brightness(value: &str) -> (level: Result<u8, String>)
    ensures
        match level {
            Ok(level) => chosen(value@, u8::MAX as nat, levels()) == Ok::<nat, Seq<char>>(
                level as nat,
            ),
            Err(why) => chosen(value@, u8::MAX as nat, levels()) == Err::<nat, Seq<char>>(why@),
        },
{
    let mut values: Vec<u64> = Vec::new();
    values.push(p::BRIGHTNESS_LEVELS[0] as u64);
    values.push(p::BRIGHTNESS_LEVELS[1] as u64);
    values.push(p::BRIGHTNESS_LEVELS[2] as u64);
    values.push(p::BRIGHTNESS_LEVELS[3] as u64);
    assert(values@.map_values(|v: u64| v as nat) =~= levels());
    match choose_value(value, u8::MAX as u64, &values) {
        Ok(level) => Ok(level as u8),
        Err(why) => Err(why),
    }
}

// -- output -------------------------------------------------------------------

/// What a command prints.
pub struct Output {
    pub lines: Vec<String>,
    pub errors: Vec<String>,
}

/// An [`Output`] as contracts see it.
#[verifier::ext_equal]
pub struct OutputView {
    pub lines: Seq<Seq<char>>,
    pub errors: Seq<Seq<char>>,
}

impl View for Output {
    type V = OutputView;

    open spec fn view(&self) -> OutputView {
        OutputView { lines: strings(self.lines@), errors: strings(self.errors@) }
    }
}

impl Output {
    pub fn new() -> (out: Self)
        ensures
            out@ == (OutputView { lines: Seq::empty(), errors: Seq::empty() }),
    {
        let out = Output { lines: Vec::new(), errors: Vec::new() };
        assert(out@ =~= (OutputView { lines: Seq::empty(), errors: Seq::empty() }));
        out
    }

    pub(crate) fn say(&mut self, line: String)
        ensures
            final(self)@ == (OutputView { lines: old(self)@.lines.push(line@), ..old(self)@ }),
    {
        let ghost before = self@;
        self.lines.push(line);
        assert(self@ =~= (OutputView { lines: before.lines.push(line@), ..before }));
    }

    fn complain(&mut self, line: String)
        ensures
            final(self)@ == (OutputView { errors: old(self)@.errors.push(line@), ..old(self)@ }),
    {
        let ghost before = self@;
        self.errors.push(line);
        assert(self@ =~= (OutputView { errors: before.errors.push(line@), ..before }));
    }
}

/// A before/after line, or a note that the device never confirmed, and the exit
/// code that goes with it.
pub open spec fn report_line(
    label: Seq<char>,
    before: Seq<char>,
    after: Option<Seq<char>>,
    unit: Seq<char>,
) -> (Seq<char>, u8) {
    match after {
        None => ("  "@ + label + ": device did not confirm"@, 1),
        Some(after) => (
            "  "@ + label + " "@ + before + unit + " → "@ + after + unit
                + "  ✓ confirmed by device"@,
            0,
        ),
    }
}

/// Print a before/after line, or note that the device never confirmed.
pub fn report(label: &str, before: &str, after: Option<&str>, unit: &str, out: &mut Output) -> (
    code: u8)
    ensures
        ({
            let shown = match after {
                Some(after) => Some(after@),
                None => None,
            };
            let (line, code_for) = report_line(label@, before@, shown, unit@);
            &&& final(out)@ == (OutputView { lines: old(out)@.lines.push(line), ..old(out)@ })
            &&& code == code_for
        }),
{
    let mut line = "  ".to_owned();
    line.append(label);
    match after {
        None => {
            line.append(": device did not confirm");
            out.say(line);
            1
        },
        Some(after) => {
            line.append(" ");
            line.append(before);
            line.append(unit);
            line.append(" → ");
            line.append(after);
            line.append(unit);
            line.append("  ✓ confirmed by device");
            out.say(line);
            0
        },
    }
}

/// The exit code of an error.
pub open spec fn exit_code_of(error: ErrorView) -> u8 {
    match error {
        ErrorView::DeviceNotFound => 2,
        ErrorView::PermissionDenied { .. } => 2,
        _ => 1,
    }
}

/// The exit code of an error: a user can fix an access problem, so it is told
/// apart from the rest.
pub fn exit_code(error: &Error) -> (code: u8)
    ensures
        code == exit_code_of(error@),
        code == if error@ is DeviceNotFound || error@ is PermissionDenied {
            2u8
        } else {
            1u8
        },
{
    if error.is_access_problem() {
        2
    } else {
        1
    }
}

/// The line that reports an error.
pub fn error_line(error: &Error) -> (line: String)
    ensures
        line@ == "error: "@ + error_message(error@),
{
    let mut line = "error: ".to_owned();
    line.append(error.message().as_str());
    line
}

// -- status -------------------------------------------------------------------

/// A DPI without its tenths.
pub open spec fn whole_dpi(tenths: u32) -> Seq<char> {
    decimal((tenths / 10) as nat)
}

/// The DPIs of several stages.
pub open spec fn stage_list(stages: Seq<u32>) -> Seq<char> {
    joined(stages.map_values(|tenths: u32| whole_dpi(tenths)), ", "@)
}

/// Parts and versions as one line.
pub open spec fn part_list(firmware: Seq<(Seq<char>, Seq<char>)>) -> Seq<char> {
    joined(
        firmware.map_values(|part: (Seq<char>, Seq<char>)| part.0 + " "@ + part.1),
        " · "@,
    )
}

/// A charge state.
pub open spec fn charge_text(charging: Option<bool>) -> Seq<char> {
    match charging {
        None => "charging status unavailable"@,
        Some(true) => "charging"@,
        Some(false) => "not charging"@,
    }
}

/// A line on the light.
pub open spec fn light_line(light: LightingView) -> Seq<char> {
    "  Light      "@ + light.mode + "  "@ + (match light.color {
        Some(color) => color,
        None => ""@,
    }) + "  "@ + (match light.brightness {
        Some(level) => decimal(level as nat) + "%"@,
        None => "—"@,
    })
}

impl StatusView {
    /// The lines that are always there.
    pub open spec fn first_lines(self) -> Seq<Seq<char>> {
        seq![
            "  "@ + cut(self.name, VENDOR_PREFIX@) + "  ("@ + self.path + ", "@ + hex_word(
                p::VENDOR_ID,
            ) + ":"@ + hex_word(self.product_id) + ")"@,
            match self.battery {
                Some(percent) => "  Battery    "@ + decimal(percent as nat) + "%   "@
                    + charge_text(self.charging),
                None => "  Battery    no reading   "@ + charge_text(self.charging),
            },
            "  DPI        "@ + (match self.dpi {
                Some(tenths) => whole_dpi(tenths),
                None => "—"@,
            }) + "  stage "@ + decimal((self.dpi_stage + 1) as nat) + " of "@ + decimal(
                self.dpi_stages.len(),
            ) + "   ["@ + stage_list(self.dpi_stages) + "]"@,
            "  Report     "@ + decimal(self.polling_rate as nat) + " Hz"@,
            "  Lift-off   "@ + (match self.lift_off {
                Some(value) => value,
                None => "—"@,
            }),
            "  Motion     "@ + (match self.motion_sync {
                Some(true) => "on"@,
                Some(false) => "off"@,
                None => "—"@,
            }),
        ]
    }

    /// The lines that are there where there is something to say.
    pub open spec fn last_lines(self) -> Seq<Seq<char>> {
        (match self.system_mode {
            Some(mode) => seq!["  Mode       "@ + mode],
            None => Seq::empty(),
        }) + (match self.lighting {
            Some(light) => seq![light_line(light)],
            None => Seq::empty(),
        }) + (if self.firmware.len() > 0 {
            seq!["  Firmware   "@ + part_list(self.firmware)]
        } else {
            Seq::empty()
        })
    }

    /// Everything, as `status` prints it.
    pub open spec fn lines(self) -> Seq<Seq<char>> {
        self.first_lines() + self.last_lines()
    }
}

fn stage_texts(stages: &Vec<u32>) -> (text: String)
    ensures
        text@ == stage_list(stages@),
{
    let ghost f = |tenths: u32| whole_dpi(tenths);
    let mut list: Vec<String> = Vec::new();
    let mut i: usize = 0;
    assert(strings(list@) =~= stages@.take(0).map_values(f));
    while i < stages.len()
        invariant
            i <= stages@.len(),
            f == |tenths: u32| whole_dpi(tenths),
            strings(list@) == stages@.take(i as int).map_values(f),
        decreases stages.len() - i,
    {
        let ghost before = list@;
        let text = number_text((stages[i] / 10) as u64);
        list.push(text);
        assert(strings(list@) =~= strings(before).push(text@));
        assert(stages@.take(i + 1).map_values(f) =~= stages@.take(i as int).map_values(f).push(
            f(stages@[i as int]),
        ));
        i += 1;
    }
    assert(stages@.take(i as int) =~= stages@);
    join(&list, ", ")
}

fn part_texts(firmware: &Vec<(&'static str, String)>) -> (text: String)
    ensures
        text@ == part_list(firmware_view(firmware@)),
{
    let ghost all = firmware_view(firmware@);
    let ghost f = |part: (Seq<char>, Seq<char>)| part.0 + " "@ + part.1;
    let mut list: Vec<String> = Vec::new();
    let mut i: usize = 0;
    assert(strings(list@) =~= all.take(0).map_values(f));
    while i < firmware.len()
        invariant
            i <= firmware@.len(),
            all == firmware_view(firmware@),
            f == |part: (Seq<char>, Seq<char>)| part.0 + " "@ + part.1,
            strings(list@) == all.take(i as int).map_values(f),
        decreases firmware.len() - i,
    {
        let ghost before = list@;
        let mut text = firmware[i].0.to_owned();
        text.append(" ");
        text.append(firmware[i].1.as_str());
        assert(text@ == f(all[i as int]));
        list.push(text);
        assert(strings(list@) =~= strings(before).push(text@));
        assert(all.take(i + 1).map_values(f) =~= all.take(i as int).map_values(f).push(
            f(all[i as int]),
        ));
        i += 1;
    }
    assert(all.take(i as int) =~= all);
    join(&list, " · ")
}

/// Print everything.
pub fn print_status(status: &Status, out: &mut Output)
    requires
        status@.dpi_stage < usize::MAX,
    ensures
        final(out)@ == (OutputView {
            lines: old(out)@.lines + status@.lines(),
            ..old(out)@
        }),
{
    let ghost start = out@;
    let ghost s = status@;
    let charge = match status.charging {
        None => "charging status unavailable",
        Some(true) => "charging",
        Some(false) => "not charging",
    };
    proof {
        reveal_strlit("Ninjutso Inc. ");
    }
    let mut line = "  ".to_owned();
    line.append(without(status.name.as_str(), VENDOR_PREFIX).as_str());
    line.append("  (");
    line.append(status.path.as_str());
    line.append(", ");
    push_hex_word(&mut line, p::VENDOR_ID);
    line.append(":");
    push_hex_word(&mut line, status.product_id);
    line.append(")");
    assert(line@ == s.first_lines()[0]);
    out.say(line);

    let line = match status.battery {
        Some(percent) => {
            let mut line = "  Battery    ".to_owned();
            push_decimal(&mut line, percent as u64);
            line.append("%   ");
            line.append(charge);
            line
        },
        None => {
            let mut line = "  Battery    no reading   ".to_owned();
            line.append(charge);
            line
        },
    };
    assert(line@ == s.first_lines()[1]);
    out.say(line);

    let mut line = "  DPI        ".to_owned();
    match status.dpi {
        Some(tenths) => {
            push_decimal(&mut line, (tenths / 10) as u64);
        },
        None => {
            line.append("—");
        },
    }
    line.append("  stage ");
    push_decimal(&mut line, (status.dpi_stage + 1) as u64);
    line.append(" of ");
    push_decimal(&mut line, status.dpi_stages.len() as u64);
    line.append("   [");
    line.append(stage_texts(&status.dpi_stages).as_str());
    line.append("]");
    assert(line@ == s.first_lines()[2]);
    out.say(line);

    let mut line = "  Report     ".to_owned();
    push_decimal(&mut line, status.polling_rate as u64);
    line.append(" Hz");
    assert(line@ == s.first_lines()[3]);
    out.say(line);

    let mut line = "  Lift-off   ".to_owned();
    line.append(
        match status.lift_off {
            Some(value) => value,
            None => "—",
        },
    );
    assert(line@ == s.first_lines()[4]);
    out.say(line);

    let mut line = "  Motion     ".to_owned();
    line.append(
        match status.motion_sync {
            Some(true) => "on",
            Some(false) => "off",
            None => "—",
        },
    );
    assert(line@ == s.first_lines()[5]);
    out.say(line);
    assert(out@ =~= (OutputView { lines: start.lines + s.first_lines(), ..start }));
    print_extras(status, out);
    assert(out@ =~= (OutputView { lines: start.lines + s.lines(), ..start }));
}

fn print_extras(status: &Status, out: &mut Output)
    ensures
        final(out)@ == (OutputView {
            lines: old(out)@.lines + status@.last_lines(),
            ..old(out)@
        }),
{
    let ghost start = out@;
    if let Some(mode) = status.system_mode {
        let mut line = "  Mode       ".to_owned();
        line.append(mode);
        out.say(line);
    }
    if let Some(light) = &status.lighting {
        let mut line = "  Light      ".to_owned();
        line.append(light.mode);
        line.append("  ");
        line.append(
            match &light.color {
                Some(color) => color.as_str(),
                None => "",
            },
        );
        line.append("  ");
        match light.brightness {
            Some(level) => {
                let mut bright = number_text(level as u64);
                bright.append("%");
                line.append(bright.as_str());
            },
            None => {
                line.append("—");
            },
        }
        assert(line@ == light_line(light@));
        out.say(line);
    }
    assert(status@.firmware.len() == status.firmware@.len());
    if status.firmware.len() > 0 {
        let mut line = "  Firmware   ".to_owned();
        line.append(part_texts(&status.firmware).as_str());
        out.say(line);
    }
    assert(out@ =~= (OutputView { lines: start.lines + status@.last_lines(), ..start }));
}

// -- sessions -----------------------------------------------------------------

/// What a command does over the channel, leaves behind, prints, and exits with.
pub struct Session {
    pub steps: Seq<Step>,
    pub device: DeviceView,
    pub lines: Seq<Seq<char>>,
    pub errors: Seq<Seq<char>>,
    pub result: Result<u8, ErrorView>,
}

/// A command ran like this.
pub open spec fn ran(
    before: Seq<Event>,
    after: Seq<Event>,
    device: DeviceView,
    printed: OutputView,
    out: OutputView,
    result: Result<u8, Error>,
    session: Session,
) -> bool {
    &&& follows(before, after, session.steps)
    &&& device == session.device
    &&& out.lines == printed.lines + session.lines
    &&& out.errors == printed.errors + session.errors
    &&& result_view(result) == session.result
}

impl Session {
    /// A session in which nothing has happened.
    pub open spec fn start(device: DeviceView) -> Session {
        Session {
            steps: Seq::empty(),
            device,
            lines: Seq::empty(),
            errors: Seq::empty(),
            result: Ok(0),
        }
    }

    /// A session goes on with an operation, unless it has failed: the operation
    /// fails, or adds a line, and the exit code is the worse of the two.
    pub open spec fn then_report<R>(
        self,
        course: Course<R>,
        line: spec_fn(R) -> (Seq<char>, u8),
    ) -> Session {
        match self.result {
            Err(_) => self,
            Ok(code) => match course.result {
                Err(error) => Session {
                    steps: self.steps + course.steps,
                    device: course.device,
                    result: Err(error),
                    ..self
                },
                Ok(value) => Session {
                    steps: self.steps + course.steps,
                    device: course.device,
                    lines: self.lines.push(line(value).0),
                    result: Ok(
                        if line(value).1 > code {
                            line(value).1
                        } else {
                            code
                        },
                    ),
                    ..self
                },
            },
        }
    }
}

impl DeviceView {
    /// A session that reads everything and goes on from there.
    pub open spec fn after_status(
        self,
        a: Answers,
        rest: Rest,
    ) -> Session {
        let course = self.status_course(a);
        match course.result {
            Err(error) => Session {
                steps: course.steps,
                result: Err(error),
                ..Session::start(course.device)
            },
            Ok(status) => {
                let session = rest(course.device, status);
                Session { steps: course.steps + session.steps, ..session }
            },
        }
    }

    /// `status`: print everything.
    pub open spec fn status_session(self, a: Answers) -> Session {
        self.after_status(a, printing())
    }

    /// `stages`: print every DPI stage.
    pub open spec fn stages_session(self, a: Answers) -> Session {
        self.after_status(a, listing())
    }

    /// `dpi`: set the DPI of a stage, or of the active one.
    pub open spec fn dpi_session(
        self,
        value: u32,
        stage: Option<u8>,
        a: Answers,
        b: DpiAnswers,
    ) -> Session {
        self.after_status(a, setting_dpi(value, stage, b))
    }

    /// `rate`: set the report rate.
    pub open spec fn rate_session(
        self,
        rate: u32,
        a: Answers,
        sent: Sent,
        confirmed: Answer,
    ) -> Session {
        self.after_status(a, setting_rate(rate, sent, confirmed))
    }

    /// `lod`: set the lift-off distance.
    pub open spec fn lod_session(
        self,
        value: Seq<char>,
        a: Answers,
        sent: Sent,
        confirmed: Answer,
    ) -> Session {
        self.after_status(a, setting_lod(value, sent, confirmed))
    }
}

/// How a session goes on once everything has been read.
pub type Rest = spec_fn(DeviceView, StatusView) -> Session;

/// Printing everything.
pub open spec fn printing() -> Rest {
    |device: DeviceView, status: StatusView|
        Session { lines: status.lines(), ..Session::start(device) }
}

/// Printing every DPI stage.
pub open spec fn listing() -> Rest {
    |device: DeviceView, status: StatusView|
        Session {
            lines: stage_lines(status.dpi_stages, status.dpi_stage as nat).push(
                "\n  * = active stage"@,
            ),
            ..Session::start(device)
        }
}

/// The stage that `dpi` is about: the one that was named, counted from 1, or the
/// active one.
pub open spec fn stage_index(stage: Option<u8>, status: StatusView) -> usize {
    match stage {
        Some(stage) => (stage - 1) as usize,
        None => status.dpi_stage,
    }
}

/// The line that reports a DPI.
pub open spec fn dpi_line(index: usize, status: StatusView) -> spec_fn(u32) -> (Seq<char>, u8) {
    let label = "Stage "@ + decimal((index + 1) as nat) + " DPI"@ + if index
        == status.dpi_stage {
        ""@
    } else {
        " (inactive)"@
    };
    let before = whole_dpi(status.dpi_stages[index as int]);
    |tenths: u32| report_line(label, before, Some(whole_dpi(tenths)), ""@)
}

/// Setting the DPI of a stage; a stage that the mouse does not have is refused.
pub open spec fn setting_dpi(value: u32, stage: Option<u8>, b: DpiAnswers) -> Rest {
    |device: DeviceView, status: StatusView|
        if stage_index(stage, status) >= status.dpi_stages.len() {
            Session {
                errors: seq![
                    "error: this mouse has "@ + decimal(status.dpi_stages.len()) + " DPI stages"@,
                ],
                result: Ok(2),
                ..Session::start(device)
            }
        } else {
            Session::start(device).then_report(
                device.dpi_course(value, Some(stage_index(stage, status)), b),
                dpi_line(stage_index(stage, status), status),
            )
        }
}

/// The line that reports a report rate.
pub open spec fn rate_line(status: StatusView) -> spec_fn(u32) -> (Seq<char>, u8) {
    |after: u32|
        report_line(
            "Report rate"@,
            decimal(status.polling_rate as nat),
            Some(decimal(after as nat)),
            " Hz"@,
        )
}

/// Setting the report rate.
pub open spec fn setting_rate(rate: u32, sent: Sent, confirmed: Answer) -> Rest {
    |device: DeviceView, status: StatusView|
        Session::start(device).then_report(
            device.polling_course(rate, sent, confirmed),
            rate_line(status),
        )
}

/// The line that reports a lift-off distance.
pub open spec fn lod_line(status: StatusView) -> spec_fn(Seq<char>) -> (Seq<char>, u8) {
    let before = match status.lift_off {
        Some(before) => before,
        None => "—"@,
    };
    |after: Seq<char>| report_line("Lift-off"@, before, Some(after), ""@)
}

/// Setting the lift-off distance.
pub open spec fn setting_lod(value: Seq<char>, sent: Sent, confirmed: Answer) -> Rest {
    |device: DeviceView, status: StatusView|
        Session::start(device).then_report(
            device.lift_off_course(value, sent, confirmed),
            lod_line(status),
        )
}

/// One line per DPI stage, the active one marked.
pub open spec fn stage_lines(stages: Seq<u32>, active: nat) -> Seq<Seq<char>> {
    Seq::new(
        stages.len(),
        |i: int|
            "  "@ + (if i == active {
                "*"@
            } else {
                " "@
            }) + " stage "@ + decimal((i + 1) as nat) + "   "@ + whole_dpi(stages[i]),
    )
}

fn read_status<T: Transport>(device: &mut Device<T>) -> (read: (
    Result<Status, Error>,
    Ghost<Answers>,
))
    ensures
        took(
            old(device).trace(),
            final(device).trace(),
            final(device)@,
            result_view(read.0),
            old(device)@.status_course(read.1@),
        ),
        read.0 matches Ok(status) ==> status@.dpi_stage <= 255,
{
    let ghost first = device@;
    let ghost start = device.trace();
    let read = device.status();
    let ghost a = choose|a: Answers|
        took(start, device.trace(), device@, result_view(read), #[trigger] first.status_course(a));
    proof {
        crate::device::laws::lemma_status_holds(first, a);
    }
    (read, Ghost(a))
}

/// Ending a session where reading everything failed.
proof fn lemma_unread(
    first: DeviceView,
    a: Answers,
    rest: Rest,
    before: Seq<Event>,
    after: Seq<Event>,
    device: DeviceView,
    out: OutputView,
    error: Error,
)
    requires
        took(before, after, device, Err(error@), first.status_course(a)),
    ensures
        ran(before, after, device, out, out, Err(error), first.after_status(a, rest)),
{
    let session = first.after_status(a, rest);
    assert(out.lines =~= out.lines + session.lines);
    assert(out.errors =~= out.errors + session.errors);
}

/// Going on with a session once everything has been read.
proof fn lemma_read_and_ran(
    first: DeviceView,
    a: Answers,
    rest: Rest,
    before: Seq<Event>,
    middle: Seq<Event>,
    after: Seq<Event>,
    second: DeviceView,
    device: DeviceView,
    printed: OutputView,
    out: OutputView,
    status: StatusView,
    result: Result<u8, Error>,
)
    requires
        took(before, middle, second, Ok(status), first.status_course(a)),
        ran(middle, after, device, printed, out, result, rest(second, status)),
    ensures
        ran(before, after, device, printed, out, result, first.after_status(a, rest)),
{
    lemma_follows_then(
        before,
        middle,
        after,
        first.status_course(a).steps,
        rest(second, status).steps,
    );
}

/// `status`: print everything.
pub fn cmd_status<T: Transport>(device: &mut Device<T>, out: &mut Output) -> (result: Result<
    u8,
    Error,
>)
    ensures
        exists|a: Answers|
            ran(
                old(device).trace(),
                final(device).trace(),
                final(device)@,
                old(out)@,
                final(out)@,
                result,
                #[trigger] old(device)@.status_session(a),
            ),
{
    let ghost first = device@;
    let ghost start = device.trace();
    let ghost printed = out@;
    let (read, Ghost(a)) = read_status(device);
    let ghost rest = printing();
    assert(first.status_session(a) == first.after_status(a, rest));
    let status = match read {
        Ok(status) => status,
        Err(error) => {
            proof {
                lemma_unread(first, a, rest, start, device.trace(), device@, out@, error);
            }
            return Err(error);
        },
    };
    print_status(&status, out);
    let result: Result<u8, Error> = Ok(0);
    proof {
        let now = device.trace();
        lemma_follows_nothing(now);
        assert(out@.errors =~= printed.errors + Seq::<Seq<char>>::empty());
        assert(ran(now, now, device@, printed, out@, result, rest(device@, status@)));
        lemma_read_and_ran(
            first,
            a,
            rest,
            start,
            now,
            now,
            device@,
            device@,
            printed,
            out@,
            status@,
            result,
        );
    }
    result
}

/// `stages`: print every DPI stage.
pub fn cmd_stages<T: Transport>(device: &mut Device<T>, out: &mut Output) -> (result: Result<
    u8,
    Error,
>)
    ensures
        exists|a: Answers|
            ran(
                old(device).trace(),
                final(device).trace(),
                final(device)@,
                old(out)@,
                final(out)@,
                result,
                #[trigger] old(device)@.stages_session(a),
            ),
{
    let ghost first = device@;
    let ghost start = device.trace();
    let ghost printed = out@;
    let (read, Ghost(a)) = read_status(device);
    let ghost rest = listing();
    assert(first.stages_session(a) == first.after_status(a, rest));
    let status = match read {
        Ok(status) => status,
        Err(error) => {
            proof {
                lemma_unread(first, a, rest, start, device.trace(), device@, out@, error);
            }
            return Err(error);
        },
    };
    print_stages(&status, out);
    let result: Result<u8, Error> = Ok(0);
    proof {
        let now = device.trace();
        lemma_follows_nothing(now);
        assert(out@.errors =~= printed.errors + Seq::<Seq<char>>::empty());
        assert(ran(now, now, device@, printed, out@, result, rest(device@, status@)));
        lemma_read_and_ran(
            first,
            a,
            rest,
            start,
            now,
            now,
            device@,
            device@,
            printed,
            out@,
            status@,
            result,
        );
    }
    result
}

fn print_stages(status: &Status, out: &mut Output)
    ensures
        final(out)@ == (OutputView {
            lines: old(out)@.lines + stage_lines(
                status@.dpi_stages,
                status@.dpi_stage as nat,
            ).push("\n  * = active stage"@),
            ..old(out)@
        }),
{
    let ghost start = out@;
    let ghost all = stage_lines(status@.dpi_stages, status@.dpi_stage as nat);
    let mut i: usize = 0;
    assert(out@ =~= (OutputView { lines: start.lines + all.take(0), ..start }));
    while i < status.dpi_stages.len()
        invariant
            i <= status.dpi_stages@.len(),
            all == stage_lines(status@.dpi_stages, status@.dpi_stage as nat),
            out@ == (OutputView { lines: start.lines + all.take(i as int), ..start }),
        decreases status.dpi_stages.len() - i,
    {
        let mut line = "  ".to_owned();
        line.append(
            if i == status.dpi_stage {
                "*"
            } else {
                " "
            },
        );
        line.append(" stage ");
        push_decimal(&mut line, (i as u64) + 1);
        line.append("   ");
        push_decimal(&mut line, (status.dpi_stages[i] / 10) as u64);
        assert(line@ == all[i as int]);
        out.say(line);
        assert(all.take(i + 1) =~= all.take(i as int).push(all[i as int]));
        assert(out@ =~= (OutputView { lines: start.lines + all.take(i + 1), ..start }));
        i += 1;
    }
    assert(all.take(i as int) =~= all);
    out.say("\n  * = active stage".to_owned());
    assert(out@ =~= (OutputView {
        lines: start.lines + all.push("\n  * = active stage"@),
        ..start
    }));
}

proof fn lemma_started(now: Seq<Event>, device: DeviceView, out: OutputView)
    ensures
        ran(now, now, device, out, out, Ok(0), Session::start(device)),
{
    lemma_follows_nothing(now);
    assert(out.lines + Seq::<Seq<char>>::empty() =~= out.lines);
    assert(out.errors + Seq::<Seq<char>>::empty() =~= out.errors);
}

/// Reporting on an operation that came back with a value.
pub(crate) proof fn lemma_reported<R>(
    before: Seq<Event>,
    middle: Seq<Event>,
    after: Seq<Event>,
    second: DeviceView,
    device: DeviceView,
    printed: OutputView,
    out: OutputView,
    out_after: OutputView,
    code: u8,
    value: R,
    session: Session,
    course: Course<R>,
    line: spec_fn(R) -> (Seq<char>, u8),
)
    requires
        ran(before, middle, second, printed, out, Ok(code), session),
        took(middle, after, device, Ok(value), course),
        out_after == (OutputView { lines: out.lines.push(line(value).0), ..out }),
    ensures
        ran(
            before,
            after,
            device,
            printed,
            out_after,
            Ok(
                if line(value).1 > code {
                    line(value).1
                } else {
                    code
                },
            ),
            session.then_report(course, line),
        ),
{
    lemma_follows_then(before, middle, after, session.steps, course.steps);
    assert(out_after.lines =~= printed.lines + session.lines.push(line(value).0));
}

/// Reporting on an operation that failed.
pub(crate) proof fn lemma_failed<R>(
    before: Seq<Event>,
    middle: Seq<Event>,
    after: Seq<Event>,
    second: DeviceView,
    device: DeviceView,
    printed: OutputView,
    out: OutputView,
    code: u8,
    error: Error,
    session: Session,
    course: Course<R>,
    line: spec_fn(R) -> (Seq<char>, u8),
)
    requires
        ran(before, middle, second, printed, out, Ok(code), session),
        took(middle, after, device, Err(error@), course),
    ensures
        ran(before, after, device, printed, out, Err(error), session.then_report(course, line)),
{
    lemma_follows_then(before, middle, after, session.steps, course.steps);
}

spec fn unanswered() -> Answer {
    Answer { outcome: Outcome::Ok(None), online: Outcome::Ok(None) }
}

/// `rate`: set the report rate.
pub fn cmd_rate<T: Transport>(device: &mut Device<T>, rate: u32, out: &mut Output) -> (result:
    Result<u8, Error>)
    ensures
        exists|a: Answers, sent: Sent, confirmed: Answer|
            ran(
                old(device).trace(),
                final(device).trace(),
                final(device)@,
                old(out)@,
                final(out)@,
                result,
                #[trigger] old(device)@.rate_session(rate, a, sent, confirmed),
            ),
{
    let ghost first = device@;
    let ghost start = device.trace();
    let ghost printed = out@;
    let (read, Ghost(a)) = read_status(device);
    let ghost middle = device.trace();
    let ghost second = device@;
    let status = match read {
        Ok(status) => status,
        Err(error) => {
            proof {
                let session = first.rate_session(rate, a, Ok(()), unanswered());
                let rest = setting_rate(rate, Ok(()), unanswered());
                lemma_unread(first, a, rest, start, middle, second, out@, error);
                assert(ran(start, middle, second, out@, out@, Err(error), session));
            }
            return Err(error);
        },
    };
    let set = device.set_polling_rate(rate);
    let ghost end = device.trace();
    let ghost (sent, confirmed) = choose|sent: Sent, confirmed: Answer|
        took(
            middle,
            end,
            device@,
            result_view(set),
            #[trigger] second.polling_course(rate, sent, confirmed),
        );
    let ghost line = rate_line(status@);
    let ghost course = second.polling_course(rate, sent, confirmed);
    let ghost started = Session::start(second);
    proof {
        lemma_started(middle, second, printed);
    }
    let result: Result<u8, Error> = match set {
        Ok(after) => {
            let before = number_text(status.polling_rate as u64);
            let now = number_text(after as u64);
            let code: u8 = report("Report rate", before.as_str(), Some(now.as_str()), " Hz", out);
            proof {
                lemma_reported(
                    middle,
                    middle,
                    end,
                    second,
                    device@,
                    printed,
                    printed,
                    out@,
                    0,
                    after,
                    started,
                    course,
                    line,
                );
            }
            Ok(code)
        },
        Err(error) => {
            proof {
                lemma_failed(
                    middle,
                    middle,
                    end,
                    second,
                    device@,
                    printed,
                    printed,
                    0,
                    error,
                    started,
                    course,
                    line,
                );
            }
            Err(error)
        },
    };
    proof {
        let rest = setting_rate(rate, sent, confirmed);
        lemma_read_and_ran(
            first,
            a,
            rest,
            start,
            middle,
            end,
            second,
            device@,
            printed,
            out@,
            status@,
            result,
        );
        let session = first.rate_session(rate, a, sent, confirmed);
        assert(ran(start, end, device@, printed, out@, result, session));
    }
    result
}

/// `lod`: set the lift-off distance.
pub fn cmd_lod<T: Transport>(device: &mut Device<T>, value: &str, out: &mut Output) -> (result:
    Result<u8, Error>)
    ensures
        exists|a: Answers, sent: Sent, confirmed: Answer|
            ran(
                old(device).trace(),
                final(device).trace(),
                final(device)@,
                old(out)@,
                final(out)@,
                result,
                #[trigger] old(device)@.lod_session(value@, a, sent, confirmed),
            ),
{
    let ghost first = device@;
    let ghost start = device.trace();
    let ghost printed = out@;
    let (read, Ghost(a)) = read_status(device);
    let ghost middle = device.trace();
    let ghost second = device@;
    let status = match read {
        Ok(status) => status,
        Err(error) => {
            proof {
                let session = first.lod_session(value@, a, Ok(()), unanswered());
                let rest = setting_lod(value@, Ok(()), unanswered());
                lemma_unread(first, a, rest, start, middle, second, out@, error);
                assert(ran(start, middle, second, out@, out@, Err(error), session));
            }
            return Err(error);
        },
    };
    let set = device.set_lift_off(value);
    let ghost end = device.trace();
    let ghost (sent, confirmed) = choose|sent: Sent, confirmed: Answer|
        took(
            middle,
            end,
            device@,
            result_view(set),
            #[trigger] second.lift_off_course(value@, sent, confirmed),
        );
    let ghost line = lod_line(status@);
    let ghost course = second.lift_off_course(value@, sent, confirmed);
    let ghost started = Session::start(second);
    proof {
        lemma_started(middle, second, printed);
    }
    let result: Result<u8, Error> = match set {
        Ok(after) => {
            let before = match status.lift_off {
                Some(before) => before,
                None => "—",
            };
            let code: u8 = report("Lift-off", before, Some(after), "", out);
            proof {
                lemma_reported(
                    middle,
                    middle,
                    end,
                    second,
                    device@,
                    printed,
                    printed,
                    out@,
                    0,
                    after@,
                    started,
                    course,
                    line,
                );
            }
            Ok(code)
        },
        Err(error) => {
            proof {
                lemma_failed(
                    middle,
                    middle,
                    end,
                    second,
                    device@,
                    printed,
                    printed,
                    0,
                    error,
                    started,
                    course,
                    line,
                );
            }
            Err(error)
        },
    };
    proof {
        let rest = setting_lod(value@, sent, confirmed);
        lemma_read_and_ran(
            first,
            a,
            rest,
            start,
            middle,
            end,
            second,
            device@,
            printed,
            out@,
            status@,
            result,
        );
        let session = first.lod_session(value@, a, sent, confirmed);
        assert(ran(start, end, device@, printed, out@, result, session));
    }
    result
}

/// `dpi`: set the DPI of a stage, counted from 1, or of the active one.
pub fn cmd_dpi<T: Transport>(
    device: &mut Device<T>,
    value: u32,
    stage: Option<u8>,
    out: &mut Output,
) -> (result: Result<u8, Error>)
    requires
        stage != Some(0u8),
    ensures
        exists|a: Answers, b: DpiAnswers|
            ran(
                old(device).trace(),
                final(device).trace(),
                final(device)@,
                old(out)@,
                final(out)@,
                result,
                #[trigger] old(device)@.dpi_session(value, stage, a, b),
            ),
{
    let ghost first = device@;
    let ghost start = device.trace();
    let ghost printed = out@;
    let ghost nothing = DpiAnswers {
        stage: unanswered(),
        paired: unanswered(),
        sent: Ok(()),
        confirmed: unanswered(),
    };
    let (read, Ghost(a)) = read_status(device);
    let ghost middle = device.trace();
    let ghost second = device@;
    let status = match read {
        Ok(status) => status,
        Err(error) => {
            proof {
                let session = first.dpi_session(value, stage, a, nothing);
                let rest = setting_dpi(value, stage, nothing);
                lemma_unread(first, a, rest, start, middle, second, out@, error);
                assert(ran(start, middle, second, out@, out@, Err(error), session));
            }
            return Err(error);
        },
    };
    let index: usize = match stage {
        Some(stage) => (stage - 1) as usize,
        None => status.dpi_stage,
    };
    assert(index == stage_index(stage, status@));
    if index >= status.dpi_stages.len() {
        let mut line = "error: this mouse has ".to_owned();
        push_decimal(&mut line, status.dpi_stages.len() as u64);
        line.append(" DPI stages");
        out.complain(line);
        let result: Result<u8, Error> = Ok(2);
        proof {
            let rest = setting_dpi(value, stage, nothing);
            let session = rest(second, status@);
            lemma_follows_nothing(middle);
            assert(out@.lines =~= printed.lines + session.lines);
            assert(out@.errors =~= printed.errors + session.errors);
            assert(ran(middle, middle, second, printed, out@, result, session));
            lemma_read_and_ran(
                first,
                a,
                rest,
                start,
                middle,
                middle,
                second,
                second,
                printed,
                out@,
                status@,
                result,
            );
            let whole = first.dpi_session(value, stage, a, nothing);
            assert(ran(start, middle, second, printed, out@, result, whole));
        }
        return result;
    }
    let set = device.set_dpi(value, Some(index));
    let ghost end = device.trace();
    let ghost b = choose|b: DpiAnswers|
        took(
            middle,
            end,
            device@,
            result_view(set),
            #[trigger] second.dpi_course(value, Some(index), b),
        );
    let ghost line = dpi_line(index, status@);
    let ghost course = second.dpi_course(value, Some(index), b);
    let ghost started = Session::start(second);
    proof {
        lemma_started(middle, second, printed);
    }
    let result: Result<u8, Error> = match set {
        Ok(after) => {
            let mut label = "Stage ".to_owned();
            push_decimal(&mut label, (index + 1) as u64);
            label.append(" DPI");
            label.append(
                if index == status.dpi_stage {
                    ""
                } else {
                    " (inactive)"
                },
            );
            let before = number_text((status.dpi_stages[index] / 10) as u64);
            let now = number_text((after / 10) as u64);
            let code: u8 = report(label.as_str(), before.as_str(), Some(now.as_str()), "", out);
            proof {
                lemma_reported(
                    middle,
                    middle,
                    end,
                    second,
                    device@,
                    printed,
                    printed,
                    out@,
                    0,
                    after,
                    started,
                    course,
                    line,
                );
            }
            Ok(code)
        },
        Err(error) => {
            proof {
                lemma_failed(
                    middle,
                    middle,
                    end,
                    second,
                    device@,
                    printed,
                    printed,
                    0,
                    error,
                    started,
                    course,
                    line,
                );
            }
            Err(error)
        },
    };
    proof {
        let rest = setting_dpi(value, stage, b);
        lemma_read_and_ran(
            first,
            a,
            rest,
            start,
            middle,
            end,
            second,
            device@,
            printed,
            out@,
            status@,
            result,
        );
        let session = first.dpi_session(value, stage, a, b);
        assert(ran(start, end, device@, printed, out@, result, session));
    }
    result
}

} // verus!
