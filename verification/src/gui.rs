//! The window: what a reading means for its widgets, what the device thread does
//! for it, and what its command line asks for.

use vstd::prelude::*;
use vstd::string::*;

use crate::device::status::{firmware_view, Lighting, LightingView, Status, StatusView};
use crate::error::{error_message, Error, ErrorView};
use crate::protocol as p;
use crate::text::{
    cut, decimal, has_prefix, join, joined, lemma_decimal_starts, position, position_of,
    push_decimal, same, starts_plain, strings, strip_prefix, text_view, title, title_case, without,
};

pub mod laws;
pub mod worker;

verus! {

pub const APP_ID: &'static str = "co.ninjutso.Configurator";

pub const UDEV_HINT: &'static str = "Install the udev rule, then replug the receiver:\n\nsudo install -m644 70-ninjutso.rules /etc/udev/rules.d/\nsudo udevadm control --reload && sudo udevadm trigger --settle";

pub const USAGE: &'static str = "usage: ninjutso-gui [--device PATH]\n\n  --device PATH   hidraw node to use instead of the first one found";

/// What vendors put before a device's name.
pub const VENDOR_PREFIX: &'static str = "Ninjutso Inc. ";

// -- widgets ------------------------------------------------------------------

/// What a status reading means for the widgets, worked out before any of them
/// are touched.
#[derive(Debug)]
pub struct Panel {
    pub title: String,
    pub subtitle: String,
    pub connection: String,
    pub battery: String,
    pub battery_class: Option<&'static str>,
    /// lower, upper, step -- set on the adjustment *before* the value, or it
    /// clamps a reading the row then reports as the device's own.
    pub dpi_range: (u32, u32, u32),
    /// In tenths of a DPI.
    pub dpi: Option<u32>,
    pub dpi_subtitle: String,
    pub rate_index: Option<usize>,
    pub lod_index: Option<usize>,
    /// Left as it is where it was not read.
    pub motion_sync: Option<bool>,
    pub light: Option<LightPanel>,
    pub firmware: String,
}

/// What a light reading means for the widgets.
#[derive(Debug)]
pub struct LightPanel {
    pub mode_index: Option<usize>,
    pub color: Option<String>,
    pub brightness: Option<u8>,
}

/// A [`Panel`] as contracts see it.
pub struct PanelView {
    pub title: Seq<char>,
    pub subtitle: Seq<char>,
    pub connection: Seq<char>,
    pub battery: Seq<char>,
    pub battery_class: Option<Seq<char>>,
    pub dpi_range: (u32, u32, u32),
    pub dpi: Option<u32>,
    pub dpi_subtitle: Seq<char>,
    pub rate_index: Option<nat>,
    pub lod_index: Option<nat>,
    pub motion_sync: Option<bool>,
    pub light: Option<LightPanelView>,
    pub firmware: Seq<char>,
}

/// A [`LightPanel`] as contracts see it.
pub struct LightPanelView {
    pub mode_index: Option<nat>,
    pub color: Option<Seq<char>>,
    pub brightness: Option<u8>,
}

/// An index as contracts see it.
pub open spec fn index_view(index: Option<usize>) -> Option<nat> {
    match index {
        Some(index) => Some(index as nat),
        None => None,
    }
}

impl View for LightPanel {
    type V = LightPanelView;

    open spec fn view(&self) -> LightPanelView {
        LightPanelView {
            mode_index: index_view(self.mode_index),
            color: text_view(self.color),
            brightness: self.brightness,
        }
    }
}

impl View for Panel {
    type V = PanelView;

    open spec fn view(&self) -> PanelView {
        PanelView {
            title: self.title@,
            subtitle: self.subtitle@,
            connection: self.connection@,
            battery: self.battery@,
            battery_class: match self.battery_class {
                Some(class) => Some(class@),
                None => None,
            },
            dpi_range: self.dpi_range,
            dpi: self.dpi,
            dpi_subtitle: self.dpi_subtitle@,
            rate_index: index_view(self.rate_index),
            lod_index: index_view(self.lod_index),
            motion_sync: self.motion_sync,
            light: match self.light {
                Some(light) => Some(light@),
                None => None,
            },
            firmware: self.firmware@,
        }
    }
}

/// A battery label; no answer is not a flat battery, and is not dressed as one.
pub open spec fn battery_label(battery: Option<u8>, charging: Option<bool>) -> Seq<char> {
    match battery {
        None => "—"@,
        Some(percent) => decimal(percent as nat) + "%"@ + if charging == Some(true) {
            " ⚡"@
        } else {
            ""@
        },
    }
}

/// The style of a battery label.
pub open spec fn battery_style(battery: Option<u8>) -> Option<Seq<char>> {
    match battery {
        None => None,
        Some(percent) => Some(
            if percent < 20 {
                "battery-low"@
            } else {
                "battery-good"@
            },
        ),
    }
}

/// The DPIs a mouse can be set to: lowest, highest and step.
pub open spec fn dpi_range(direct: bool) -> (u32, u32, u32) {
    if direct {
        (p::DPI_MIN_DIRECT, p::DPI_MAX_DIRECT, 1)
    } else {
        (p::DPI_MIN, p::DPI_MAX, 50)
    }
}

/// A part and its version.
pub open spec fn part_text(part: (Seq<char>, Seq<char>)) -> Seq<char> {
    title(part.0) + " "@ + part.1
}

/// Firmware versions as one line.
pub open spec fn firmware_line(firmware: Seq<(Seq<char>, Seq<char>)>) -> Seq<char> {
    joined(firmware.map_values(|part: (Seq<char>, Seq<char>)| part_text(part)), " · "@)
}

/// Every part has a name.
pub open spec fn parts_named(firmware: Seq<(Seq<char>, Seq<char>)>) -> bool {
    forall|i: int| 0 <= i < firmware.len() ==> starts_plain((#[trigger] firmware[i]).0)
}

/// Where a report rate stands among those there are.
pub open spec fn rate_index(rate: u32) -> Option<nat> {
    match p::polling_code(rate) {
        Some(code) => Some((code - 1) as nat),
        None => None,
    }
}

impl LightingView {
    pub open spec fn panel(self) -> LightPanelView {
        LightPanelView {
            mode_index: position_of(p::LIGHT_MODES@, self.mode),
            color: self.color,
            brightness: self.brightness,
        }
    }
}

impl StatusView {
    pub open spec fn panel(self) -> PanelView {
        let link = if self.is_receiver {
            "Receiver"@
        } else {
            "Wired"@
        };
        PanelView {
            title: cut(self.name, VENDOR_PREFIX@),
            subtitle: link + " · profile "@ + decimal(self.profile as nat),
            connection: link + " · "@ + self.path,
            battery: battery_label(self.battery, self.charging),
            battery_class: battery_style(self.battery),
            dpi_range: dpi_range(self.direct),
            dpi: self.dpi,
            dpi_subtitle: "Stage "@ + decimal((self.dpi_stage + 1) as nat) + " of "@ + decimal(
                self.dpi_stages.len(),
            ),
            rate_index: rate_index(self.polling_rate),
            lod_index: match self.lift_off {
                Some(value) => position_of(p::LOD_VALUES@, value),
                None => None,
            },
            motion_sync: self.motion_sync,
            light: match self.lighting {
                Some(light) => Some(light.panel()),
                None => None,
            },
            firmware: firmware_line(self.firmware),
        }
    }
}

fn find_rate(rate: u32) -> (index: Option<usize>)
    ensures
        index_view(index) == rate_index(rate),
{
    match p::encode_polling(rate) {
        Ok(code) => Some((code - 1) as usize),
        Err(_) => None,
    }
}

fn battery_text(battery: Option<u8>, charging: Option<bool>) -> (text: String)
    ensures
        text@ == battery_label(battery, charging),
{
    match battery {
        None => "—".to_owned(),
        Some(percent) => {
            let mut text = String::new();
            push_decimal(&mut text, percent as u64);
            text.append("%");
            text.append(
                if charging == Some(true) {
                    " ⚡"
                } else {
                    ""
                },
            );
            assert(text@ =~= battery_label(battery, charging));
            text
        },
    }
}

pub(crate) fn firmware_text(firmware: &Vec<(&'static str, String)>) -> (text: String)
    requires
        parts_named(firmware_view(firmware@)),
    ensures
        text@ == firmware_line(firmware_view(firmware@)),
{
    let ghost all = firmware_view(firmware@);
    let ghost f = |part: (Seq<char>, Seq<char>)| part_text(part);
    let mut parts: Vec<String> = Vec::new();
    let mut i: usize = 0;
    assert(strings(parts@) =~= all.take(0).map_values(f));
    while i < firmware.len()
        invariant
            i <= firmware@.len(),
            all == firmware_view(firmware@),
            parts_named(all),
            f == |part: (Seq<char>, Seq<char>)| part_text(part),
            strings(parts@) == all.take(i as int).map_values(f),
        decreases firmware.len() - i,
    {
        let ghost before = parts@;
        assert(all[i as int] == (firmware@[i as int].0@, firmware@[i as int].1@));
        let mut text = title_case(firmware[i].0);
        text.append(" ");
        text.append(firmware[i].1.as_str());
        parts.push(text);
        assert(strings(parts@) =~= strings(before).push(text@));
        assert(all.take(i + 1).map_values(f) =~= all.take(i as int).map_values(f).push(
            f(all[i as int]),
        ));
        i += 1;
    }
    assert(all.take(i as int) =~= all);
    join(&parts, " · ")
}

pub(crate) fn copy_text(text: &Option<String>) -> (copy: Option<String>)
    ensures
        text_view(copy) == text_view(*text),
{
    match text {
        Some(text) => Some(text.clone()),
        None => None,
    }
}

fn light_panel(light: &Lighting) -> (panel: LightPanel)
    ensures
        panel@ == light@.panel(),
{
    LightPanel {
        mode_index: position(p::LIGHT_MODES.as_slice(), light.mode),
        color: copy_text(&light.color),
        brightness: light.brightness,
    }
}

/// What a status reading means for the widgets.
pub fn panel(status: &Status) -> (panel: Panel)
    requires
        status@.dpi_stage < usize::MAX,
        parts_named(status@.firmware),
    ensures
        panel@ == status@.panel(),
{
    let link = if status.is_receiver {
        "Receiver"
    } else {
        "Wired"
    };
    let mut subtitle = link.to_owned();
    subtitle.append(" · profile ");
    push_decimal(&mut subtitle, status.profile as u64);
    let mut connection = link.to_owned();
    connection.append(" · ");
    connection.append(status.path.as_str());
    let mut dpi_subtitle = "Stage ".to_owned();
    push_decimal(&mut dpi_subtitle, (status.dpi_stage + 1) as u64);
    dpi_subtitle.append(" of ");
    push_decimal(&mut dpi_subtitle, status.dpi_stages.len() as u64);
    proof {
        reveal_strlit("Ninjutso Inc. ");
    }
    Panel {
        title: without(status.name.as_str(), VENDOR_PREFIX),
        subtitle,
        connection,
        battery: battery_text(status.battery, status.charging),
        battery_class: match status.battery {
            Some(percent) => Some(
                if percent < 20 {
                    "battery-low"
                } else {
                    "battery-good"
                },
            ),
            None => None,
        },
        dpi_range: if status.direct {
            (p::DPI_MIN_DIRECT, p::DPI_MAX_DIRECT, 1)
        } else {
            (p::DPI_MIN, p::DPI_MAX, 50)
        },
        dpi: status.dpi,
        dpi_subtitle,
        rate_index: find_rate(status.polling_rate),
        lod_index: match status.lift_off {
            Some(value) => position(p::LOD_VALUES.as_slice(), value),
            None => None,
        },
        motion_sync: status.motion_sync,
        light: match &status.lighting {
            Some(light) => Some(light_panel(light)),
            None => None,
        },
        firmware: firmware_text(&status.firmware),
    }
}

// -- errors -------------------------------------------------------------------

/// The headline and the text of the error page.
pub open spec fn description(error: ErrorView) -> (Seq<char>, Seq<char>) {
    match error {
        ErrorView::PermissionDenied { .. } => (
            "Permission denied"@,
            error_message(error) + "\n\n"@ + UDEV_HINT@,
        ),
        ErrorView::DeviceNotFound => ("No Ninjutso device"@, error_message(error)),
        ErrorView::Offline => (
            "Mouse is asleep"@,
            error_message(error) + "\n\nClick the mouse, then press Refresh."@,
        ),
        _ => ("Could not talk to the device"@, error_message(error)),
    }
}

/// The headline and the text of the error page.
///
/// Where the receiver is fine and only the mouse has dozed off, the user fixes
/// that by touching the mouse; reporting it as a fault in the software would
/// send them looking in the wrong place.
pub fn describe(error: &Error) -> (page: (String, String))
    ensures
        (page.0@, page.1@) == description(error@),
{
    let mut detail = error.message();
    match error {
        Error::PermissionDenied { .. } => {
            detail.append("\n\n");
            detail.append(UDEV_HINT);
            ("Permission denied".to_owned(), detail)
        },
        Error::DeviceNotFound => ("No Ninjutso device".to_owned(), detail),
        Error::Offline => {
            detail.append("\n\nClick the mouse, then press Refresh.");
            ("Mouse is asleep".to_owned(), detail)
        },
        _ => ("Could not talk to the device".to_owned(), detail),
    }
}

// -- command line -------------------------------------------------------------

/// The device that arguments name, if they name one. An empty error is a request
/// for help; what is not understood is left alone.
pub open spec fn named_device(args: Seq<Seq<char>>) -> Result<Option<Seq<char>>, Seq<char>>
    decreases args.len(),
{
    if args.len() == 0 {
        Ok(None)
    } else if args[0] == "--help"@ || args[0] == "-h"@ {
        Err(Seq::empty())
    } else if args[0] == "--device"@ {
        if args.len() < 2 {
            Err("--device needs a path"@)
        } else {
            Ok(Some(args[1]))
        }
    } else if has_prefix(args[0], "--device="@) {
        Ok(Some(args[0].skip("--device="@.len() as int)))
    } else {
        named_device(args.skip(1))
    }
}

/// `--device PATH`, matching the command line's own flag. Anything else is left
/// for the toolkit's own option handling.
pub fn device_arg(args: &[String]) -> (path: Result<Option<String>, String>)
    ensures
        match path {
            Ok(path) => named_device(strings(args@)) == Ok::<Option<Seq<char>>, Seq<char>>(
                text_view(path),
            ),
            Err(text) => named_device(strings(args@)) == Err::<Option<Seq<char>>, Seq<char>>(
                text@,
            ),
        },
{
    let ghost all = strings(args@);
    let mut i: usize = 0;
    assert(all.skip(0) =~= all);
    while i < args.len()
        invariant
            i <= args@.len(),
            all == strings(args@),
            named_device(all) == named_device(all.skip(i as int)),
        decreases args.len() - i,
    {
        let arg = args[i].as_str();
        let ghost left = all.skip(i as int);
        assert(left[0] == arg@);
        assert(left.skip(1) =~= all.skip(i + 1));
        if same(arg, "--help") || same(arg, "-h") {
            return Err(String::new());
        }
        if same(arg, "--device") {
            if args.len() - i < 2 {
                return Err("--device needs a path".to_owned());
            }
            assert(left[1] == args@[i + 1]@);
            return Ok(Some(args[i + 1].clone()));
        }
        if let Some(path) = strip_prefix(arg, "--device=") {
            return Ok(Some(path.to_owned()));
        }
        i += 1;
    }
    Ok(None)
}

// -- laws ---------------------------------------------------------------------

/// The range that is offered holds exactly the DPIs the sensor takes.
pub proof fn lemma_dpi_range(dpi: u32, direct: bool)
    ensures
        ({
            let (lower, upper, step) = dpi_range(direct);
            p::valid_dpi(dpi, direct) <==> lower <= dpi <= upper && dpi % step == 0
        }),
{
}

/// A battery that did not answer is told apart from every level, and carries no
/// style.
pub proof fn lemma_missing_battery(
    charging: Option<bool>,
    percent: u8,
    other: Option<bool>,
)
    ensures
        battery_label(None, charging) != battery_label(Some(percent), other),
        battery_style(None) is None,
        battery_style(Some(percent)) is Some,
{
    reveal_strlit("—");
    lemma_decimal_starts(percent as nat);
    assert(battery_label(Some(percent), other)[0] == decimal(percent as nat)[0]);
}

/// The arguments that say something about the device, or ask for help.
pub open spec fn is_understood(arg: Seq<char>) -> bool {
    arg == "--help"@ || arg == "-h"@ || arg == "--device"@ || has_prefix(arg, "--device="@)
}

/// The first argument that is understood decides: what follows `--device`, as an
/// argument of its own or behind an equals sign, is the device's path, and a
/// request for help is an empty refusal.
pub proof fn lemma_named_device(args: Seq<Seq<char>>, i: int, path: Seq<char>)
    requires
        0 <= i < args.len(),
        forall|j: int| 0 <= j < i ==> !is_understood(#[trigger] args[j]),
    ensures
        args[i] == "--device"@ && i + 1 < args.len() ==> named_device(args) == Ok::<_, Seq<char>>(
            Some(args[i + 1]),
        ),
        args[i] == "--device"@ && i + 1 == args.len() ==> named_device(args) == Err::<
            Option<Seq<char>>,
            _,
        >("--device needs a path"@),
        args[i] == "--device="@ + path ==> named_device(args) == Ok::<_, Seq<char>>(Some(path)),
        args[i] == "--help"@ || args[i] == "-h"@ ==> named_device(args) == Err::<
            Option<Seq<char>>,
            _,
        >(Seq::<char>::empty()),
    decreases i,
{
    if i > 0 {
        let rest = args.skip(1);
        assert(!is_understood(args[0]));
        assert forall|j: int| 0 <= j < i - 1 implies !is_understood(#[trigger] rest[j]) by {
            assert(rest[j] == args[j + 1]);
        }
        lemma_named_device(rest, i - 1, path);
    } else {
        reveal_strlit("--device");
        reveal_strlit("--device=");
        reveal_strlit("--help");
        reveal_strlit("-h");
        assert("--device"@.len() == 8 && "--help"@.len() == 6 && "-h"@.len() == 2);
        if args[0] == "--device="@ + path {
            assert(args[0].len() >= 9);
            assert(args[0].take("--device="@.len() as int) =~= "--device="@);
            assert(args[0].skip("--device="@.len() as int) =~= path);
        }
    }
}

/// Where nothing is understood, no device is named.
pub proof fn lemma_no_device(args: Seq<Seq<char>>)
    requires
        forall|j: int| 0 <= j < args.len() ==> !is_understood(#[trigger] args[j]),
    ensures
        named_device(args) == Ok::<Option<Seq<char>>, Seq<char>>(None),
    decreases args.len(),
{
    if args.len() > 0 {
        let rest = args.skip(1);
        assert(!is_understood(args[0]));
        assert forall|j: int| 0 <= j < rest.len() implies !is_understood(#[trigger] rest[j]) by {
            assert(rest[j] == args[j + 1]);
        }
        lemma_no_device(rest);
    }
}

/// The error page starts with the error's own message. A mouse that is asleep, a
/// mouse that is not there and one that may not be opened each have a headline of
/// their own, which no other error has; what to do about it is added to the first
/// and the last.
pub proof fn lemma_error_page(error: ErrorView)
    ensures
        has_prefix(description(error).1, error_message(error)),
        description(error).0 == "Mouse is asleep"@ <==> error is Offline,
        description(error).0 == "No Ninjutso device"@ <==> error is DeviceNotFound,
        description(error).0 == "Permission denied"@ <==> error is PermissionDenied,
        description(error).0 == "Could not talk to the device"@ <==> !(error is Offline || error
            is DeviceNotFound || error is PermissionDenied),
        description(error).1.skip(error_message(error).len() as int) == match error {
            ErrorView::PermissionDenied { .. } => "\n\n"@ + UDEV_HINT@,
            ErrorView::Offline => "\n\nClick the mouse, then press Refresh."@,
            _ => Seq::<char>::empty(),
        },
{
    reveal_strlit("Mouse is asleep");
    reveal_strlit("No Ninjutso device");
    reveal_strlit("Permission denied");
    reveal_strlit("Could not talk to the device");
    assert("Mouse is asleep"@[0] == 'M' && "No Ninjutso device"@[0] == 'N'
        && "Permission denied"@[0] == 'P' && "Could not talk to the device"@[0] == 'C');
    let message = error_message(error);
    let text = description(error).1;
    assert(text.take(message.len() as int) =~= message);
    assert(text.skip(message.len() as int) =~= match error {
        ErrorView::PermissionDenied { .. } => "\n\n"@ + UDEV_HINT@,
        ErrorView::Offline => "\n\nClick the mouse, then press Refresh."@,
        _ => Seq::<char>::empty(),
    });
}

} // verus!
