//! The battery tray: what it shows for a reading, when it warns, and what its
//! command line asks for.

use std::collections::HashSet;

use vstd::prelude::*;
use vstd::string::*;

use crate::icons::{image, lemma_charging_shows, reading_pixmap};
use crate::text::{
    decimal, lemma_decimal_reads_back, number, push_decimal, read_number, same, strings, text_view,
};
use crate::tray::{
    action_for, entries_view, lemma_no_row, lemma_root, lemma_row_by_id, lemma_unknown_id, property,
    Action, MenuEntry, MenuEntryView, Pixmap, PropertyView,
};

verus! {

pub const APP_ID: &'static str = "co.ninjutso.Configurator";

/// Warn once as the battery falls past each of these.
pub const THRESHOLDS: [u8; 3] = [20, 10, 5];

pub const ICON_SIZES: [i32; 3] = [22, 32, 48];

pub const USAGE: &'static str = "usage: ninjutso-tray [--poll MINUTES] [--gui PATH] [--device PATH]\n\n  --poll MINUTES  how often to read the battery (1-1440, default 10)\n  --gui PATH      ninjutso-gui to launch from the menu\n  --device PATH   hidraw node to use instead of the first one found";

// -- command line -------------------------------------------------------------

/// What the command line asks for.
#[derive(Debug, Clone)]
pub struct Args {
    pub poll_minutes: u64,
    pub gui_path: Option<String>,
    pub device_path: Option<String>,
}

/// An [`Args`] as contracts see it.
pub struct ArgsView {
    pub poll_minutes: u64,
    pub gui_path: Option<Seq<char>>,
    pub device_path: Option<Seq<char>>,
}

impl View for Args {
    type V = ArgsView;

    open spec fn view(&self) -> ArgsView {
        ArgsView {
            poll_minutes: self.poll_minutes,
            gui_path: text_view(self.gui_path),
            device_path: text_view(self.device_path),
        }
    }
}

/// A text in double quotes, as `{:?}` writes it.
pub uninterp spec fn debug_text(text: Seq<char>) -> Seq<char>;

/// A text that needs no escaping between double quotes.
pub open spec fn is_plain(text: Seq<char>) -> bool {
    forall|i: int|
        0 <= i < text.len() ==> 0x20 <= #[trigger] text[i] <= 0x7E && text[i] != '"' && text[i]
            != '\\'
}

/// A text in double quotes: `format!` with std's `Debug` for `str`, which
/// escapes what cannot stand between quotes. It depends on the text alone;
/// printable ASCII other than quotes and backslashes stands as it is. What
/// else is escaped, and how, is not stated.
#[verifier::external_body]
fn quoted(text: &str) -> (out: String)
    ensures
        out@ == debug_text(text@),
        is_plain(text@) ==> out@ == seq!['"'] + text@ + seq!['"'],
{
    format!("{text:?}")
}

/// A text in double quotes: as it is where it needs no escaping.
pub open spec fn in_quotes(text: Seq<char>) -> Seq<char> {
    if is_plain(text) {
        seq!['"'] + text + seq!['"']
    } else {
        debug_text(text)
    }
}

/// What the arguments ask for, on top of what was asked for before them. An
/// empty error is a request for help.
pub open spec fn arguments(args: Seq<Seq<char>>, asked: ArgsView) -> Result<ArgsView, Seq<char>>
    decreases args.len(),
{
    if args.len() == 0 {
        Ok(asked)
    } else if args[0] == "--help"@ || args[0] == "-h"@ {
        Err(Seq::empty())
    } else if args[0] == "--poll"@ {
        if args.len() < 2 {
            Err("--poll needs a number of minutes"@)
        } else {
            match number(args[1], 10, u64::MAX as nat) {
                None => Err("--poll wants a number, not "@ + in_quotes(args[1])),
                Some(minutes) => if 1 <= minutes <= 1440 {
                    arguments(args.skip(2), ArgsView { poll_minutes: minutes as u64, ..asked })
                } else {
                    Err("--poll must be between 1 and 1440, not "@ + decimal(minutes))
                },
            }
        }
    } else if args[0] == "--gui"@ {
        if args.len() < 2 {
            Err("--gui needs a path"@)
        } else {
            arguments(args.skip(2), ArgsView { gui_path: Some(args[1]), ..asked })
        }
    } else if args[0] == "--device"@ {
        if args.len() < 2 {
            Err("--device needs a path"@)
        } else {
            arguments(args.skip(2), ArgsView { device_path: Some(args[1]), ..asked })
        }
    } else {
        Err("unknown argument "@ + in_quotes(args[0]))
    }
}

/// What is asked for where nothing is said.
pub open spec fn defaults() -> ArgsView {
    ArgsView { poll_minutes: 10, gui_path: None, device_path: None }
}

fn glued(head: &str, tail: &str) -> (text: String)
    ensures
        text@ == head@ + tail@,
{
    let mut text = head.to_owned();
    text.append(tail);
    text
}

/// Parse the arguments, rejecting anything unrecognised.
///
/// A tray is started from a generated `.desktop` file, so a typo here is
/// invisible unless it is reported.
pub fn parse_args(args: &[String]) -> (parsed: Result<Args, String>)
    ensures
        match parsed {
            Ok(asked) => arguments(strings(args@), defaults()) == Ok::<ArgsView, Seq<char>>(
                asked@,
            ),
            Err(text) => arguments(strings(args@), defaults()) == Err::<ArgsView, Seq<char>>(
                text@,
            ),
        },
{
    let mut asked = Args { poll_minutes: 10, gui_path: None, device_path: None };
    let ghost all = strings(args@);
    let mut i: usize = 0;
    assert(all.skip(0) =~= all);
    while i < args.len()
        invariant
            i <= args@.len(),
            all == strings(args@),
            arguments(all, defaults()) == arguments(all.skip(i as int), asked@),
        decreases args.len() - i,
    {
        let arg = args[i].as_str();
        let ghost left = all.skip(i as int);
        assert(left[0] == arg@);
        if same(arg, "--help") || same(arg, "-h") {
            return Err(String::new());
        }
        let poll = same(arg, "--poll");
        let gui = same(arg, "--gui");
        let device = same(arg, "--device");
        if !poll && !gui && !device {
            return Err(glued("unknown argument ", quoted(arg).as_str()));
        }
        if args.len() - i < 2 {
            return Err(
                if poll {
                    "--poll needs a number of minutes".to_owned()
                } else if gui {
                    "--gui needs a path".to_owned()
                } else {
                    "--device needs a path".to_owned()
                },
            );
        }
        let value = args[i + 1].as_str();
        assert(left[1] == value@);
        assert(left.skip(2) =~= all.skip(i + 2));
        if poll {
            match read_number(value, 10, u64::MAX) {
                Some(minutes) => {
                    // Clamped rather than merely non-zero: a fat-fingered value
                    // would otherwise overflow the seconds.
                    if minutes < 1 || minutes > 1440 {
                        let mut text = "--poll must be between 1 and 1440, not ".to_owned();
                        push_decimal(&mut text, minutes);
                        return Err(text);
                    }
                    asked.poll_minutes = minutes;
                },
                None => {
                    return Err(glued("--poll wants a number, not ", quoted(value).as_str()));
                },
            }
        } else if gui {
            asked.gui_path = Some(value.to_owned());
        } else {
            asked.device_path = Some(value.to_owned());
        }
        i += 2;
    }
    assert(all.skip(i as int) =~= Seq::empty());
    Ok(asked)
}

/// How long to wait between two readings, in seconds.
pub open spec fn interval(poll_minutes: u64) -> int {
    if poll_minutes == 0 {
        60
    } else if poll_minutes <= 1440 {
        60 * poll_minutes
    } else {
        86400
    }
}

/// Readings are as many minutes apart as was asked for, but at least a minute and
/// at most a day; asking for more never brings them closer together.
pub proof fn lemma_interval(poll_minutes: u64, more: u64)
    ensures
        60 <= interval(poll_minutes) <= 24 * 60 * 60,
        1 <= poll_minutes <= 1440 ==> interval(poll_minutes) == 60 * poll_minutes,
        poll_minutes <= more ==> interval(poll_minutes) <= interval(more),
{
}

/// How long to wait between two readings, in seconds.
pub fn poll_seconds(poll_minutes: u64) -> (seconds: u64)
    ensures
        seconds == interval(poll_minutes),
        seconds == 60 * if poll_minutes < 1 {
            1
        } else if poll_minutes > 1440 {
            1440
        } else {
            poll_minutes as int
        },
{
    let minutes: u64 = if poll_minutes < 1 {
        1
    } else if poll_minutes > 1440 {
        1440
    } else {
        poll_minutes
    };
    minutes * 60
}

// -- laws of the command line -------------------------------------------------

/// The poll interval that is asked for is always one that can be kept.
pub proof fn lemma_poll_bounds(args: Seq<Seq<char>>, asked: ArgsView)
    requires
        1 <= asked.poll_minutes <= 1440,
    ensures
        arguments(args, asked) matches Ok(parsed) ==> 1 <= parsed.poll_minutes <= 1440,
    decreases args.len(),
{
    if args.len() >= 2 {
        let rest = args.skip(2);
        if let Some(minutes) = number(args[1], 10, u64::MAX as nat) {
            if 1 <= minutes <= 1440 {
                lemma_poll_bounds(rest, ArgsView { poll_minutes: minutes as u64, ..asked });
            }
        }
        lemma_poll_bounds(rest, ArgsView { gui_path: Some(args[1]), ..asked });
        lemma_poll_bounds(rest, ArgsView { device_path: Some(args[1]), ..asked });
    }
}

/// A flag that takes a value.
pub open spec fn is_flag(arg: Seq<char>) -> bool {
    arg == "--poll"@ || arg == "--gui"@ || arg == "--device"@
}

/// Nothing is ever silently ignored: where arguments are accepted, they are
/// flags that are known, each with its value.
pub proof fn lemma_nothing_ignored(args: Seq<Seq<char>>, asked: ArgsView, i: int)
    requires
        arguments(args, asked) is Ok,
        0 <= i,
        2 * i < args.len(),
    ensures
        2 * i + 1 < args.len(),
        is_flag(args[2 * i]),
    decreases args.len(),
{
    let rest = args.skip(2);
    if i > 0 {
        let next = if args[0] == "--poll"@ {
            ArgsView {
                poll_minutes: number(args[1], 10, u64::MAX as nat)->0 as u64,
                ..asked
            }
        } else if args[0] == "--gui"@ {
            ArgsView { gui_path: Some(args[1]), ..asked }
        } else {
            ArgsView { device_path: Some(args[1]), ..asked }
        };
        assert(arguments(rest, next) is Ok);
        lemma_nothing_ignored(rest, next, i - 1);
        assert(rest[2 * (i - 1)] == args[2 * i]);
    }
}

/// Arguments are read from left to right: what accepted arguments ask for is
/// what the rest of them starts from.
proof fn lemma_read_in_turn(args: Seq<Seq<char>>, rest: Seq<Seq<char>>, asked: ArgsView)
    requires
        arguments(args, asked) is Ok,
    ensures
        arguments(args + rest, asked) == arguments(rest, arguments(args, asked)->Ok_0),
    decreases args.len(),
{
    let all = args + rest;
    if args.len() == 0 {
        assert(all =~= rest);
    } else {
        assert(args.len() >= 2);
        assert(all[0] == args[0] && all[1] == args[1]);
        assert(all.skip(2) =~= args.skip(2) + rest);
        let next = if args[0] == "--poll"@ {
            ArgsView {
                poll_minutes: number(args[1], 10, u64::MAX as nat)->0 as u64,
                ..asked
            }
        } else if args[0] == "--gui"@ {
            ArgsView { gui_path: Some(args[1]), ..asked }
        } else {
            ArgsView { device_path: Some(args[1]), ..asked }
        };
        lemma_read_in_turn(args.skip(2), rest, next);
    }
}

proof fn lemma_flags_differ()
    ensures
        "--poll"@ != "--gui"@,
        "--poll"@ != "--device"@,
        "--gui"@ != "--device"@,
        !is_flag("--help"@),
        !is_flag("-h"@),
{
    reveal_strlit("--poll");
    reveal_strlit("--gui");
    reveal_strlit("--device");
    reveal_strlit("--help");
    reveal_strlit("-h");
    assert("--poll"@[2] == 'p' && "--help"@[2] == 'h');
    assert("--gui"@.len() == 5 && "--device"@.len() == 8 && "-h"@.len() == 2);
    assert("--poll"@.len() == 6 && "--help"@.len() == 6);
}

/// A flag behind arguments that were accepted has the last word on what it is
/// about and changes nothing else: the window's program, the mouse, or the poll
/// interval in minutes. Where nothing is said, the interval is 10 minutes.
pub proof fn lemma_last_word(args: Seq<Seq<char>>, asked: ArgsView, value: Seq<char>, minutes: nat)
    requires
        arguments(args, asked) is Ok,
    ensures
        ({
            let before = arguments(args, asked)->Ok_0;
            &&& arguments(args + seq!["--gui"@, value], asked) == Ok::<_, Seq<char>>(
                ArgsView { gui_path: Some(value), ..before },
            )
            &&& arguments(args + seq!["--device"@, value], asked) == Ok::<_, Seq<char>>(
                ArgsView { device_path: Some(value), ..before },
            )
            &&& 1 <= minutes <= 1440 ==> arguments(
                args + seq!["--poll"@, decimal(minutes)],
                asked,
            ) == Ok::<_, Seq<char>>(ArgsView { poll_minutes: minutes as u64, ..before })
        }),
        arguments(Seq::empty(), defaults()) == Ok::<_, Seq<char>>(
            ArgsView { poll_minutes: 10, gui_path: None, device_path: None },
        ),
{
    lemma_flags_differ();
    lemma_decimal_reads_back(minutes, u64::MAX as nat);
    let gui = seq!["--gui"@, value];
    let device = seq!["--device"@, value];
    let poll = seq!["--poll"@, decimal(minutes)];
    lemma_read_in_turn(args, gui, asked);
    lemma_read_in_turn(args, device, asked);
    lemma_read_in_turn(args, poll, asked);
    assert(gui.skip(2) =~= Seq::empty());
    assert(device.skip(2) =~= Seq::empty());
    assert(poll.skip(2) =~= Seq::empty());
    reveal_with_fuel(arguments, 2);
}

/// Behind arguments that were accepted, a request for help is an empty refusal
/// whatever follows it, and each mistake is refused for what it is: an interval
/// out of bounds, one that is no number, a flag without its value, an argument
/// that is not known.
pub proof fn lemma_refused(
    args: Seq<Seq<char>>,
    asked: ArgsView,
    value: Seq<char>,
    minutes: nat,
    rest: Seq<Seq<char>>,
)
    requires
        arguments(args, asked) is Ok,
    ensures
        arguments(args + (seq!["--help"@] + rest), asked) == Err::<ArgsView, _>(
            Seq::<char>::empty(),
        ),
        arguments(args + (seq!["-h"@] + rest), asked) == Err::<ArgsView, _>(Seq::<char>::empty()),
        minutes <= u64::MAX && (minutes < 1 || minutes > 1440) ==> arguments(
            args + (seq!["--poll"@, decimal(minutes)] + rest),
            asked,
        ) == Err::<ArgsView, _>(
            "--poll must be between 1 and 1440, not "@ + decimal(minutes),
        ),
        arguments(args + seq!["--poll"@], asked) == Err::<ArgsView, _>(
            "--poll needs a number of minutes"@,
        ),
        arguments(args + seq!["--gui"@], asked) == Err::<ArgsView, _>("--gui needs a path"@),
        arguments(args + seq!["--device"@], asked) == Err::<ArgsView, _>(
            "--device needs a path"@,
        ),
        !is_flag(value) && value != "--help"@ && value != "-h"@ ==> arguments(
            args + (seq![value] + rest),
            asked,
        ) == Err::<ArgsView, _>("unknown argument "@ + in_quotes(value)),
{
    lemma_flags_differ();
    lemma_decimal_reads_back(minutes, u64::MAX as nat);
    let help = seq!["--help"@] + rest;
    let short = seq!["-h"@] + rest;
    let poll = seq!["--poll"@, decimal(minutes)] + rest;
    let other = seq![value] + rest;
    lemma_read_in_turn(args, help, asked);
    lemma_read_in_turn(args, short, asked);
    lemma_read_in_turn(args, poll, asked);
    lemma_read_in_turn(args, other, asked);
    lemma_read_in_turn(args, seq!["--poll"@], asked);
    lemma_read_in_turn(args, seq!["--gui"@], asked);
    lemma_read_in_turn(args, seq!["--device"@], asked);
    assert(help[0] == "--help"@ && short[0] == "-h"@ && other[0] == value);
    assert(poll[0] == "--poll"@ && poll[1] == decimal(minutes));
}

// -- what the icon shows ------------------------------------------------------

/// A level rounded up to the next 5%.
pub open spec fn rounded_up(percent: u8) -> u8 {
    ((percent + 4) / 5 * 5) as u8
}

/// How the icon looks for a reading.
pub open spec fn look_of(percent: Option<u8>, charging: Option<bool>) -> (
    Option<u8>,
    Option<bool>,
) {
    match percent {
        Some(value) => (Some(rounded_up(value)), charging),
        None => (None, charging),
    }
}

/// How the icon looks: level rounded to 5%, and the charge state. Repainting
/// only when this changes keeps three pixmaps from being redrawn every poll.
pub fn render_key(percent: Option<u8>, charging: Option<bool>) -> (key: (
    Option<u8>,
    Option<bool>,
))
    ensures
        key == look_of(percent, charging),
{
    match percent {
        Some(value) => (Some((((value as u16) + 4) / 5 * 5) as u8), charging),
        None => (None, charging),
    }
}

// -- when to warn -------------------------------------------------------------

/// What has been warned about and has not recovered: a warning is only rearmed
/// once the level is 5 points past its threshold.
pub open spec fn still_warned(warned: Set<u8>, percent: u8) -> Set<u8> {
    warned.filter(|threshold: u8| percent <= threshold + 5)
}

/// A threshold is crossed that has not been warned about.
pub open spec fn freshly_crossed(warned: Set<u8>, percent: u8, threshold: u8) -> bool {
    percent <= threshold && !still_warned(warned, percent).contains(threshold)
}

/// What has been warned about after a reading. Every crossed threshold is
/// marked, so a drop straight past two of them reports the lower one and stays
/// quiet about the other; charging forgets them all, and an unknown charge state
/// changes nothing.
pub open spec fn warned_after(warned: Set<u8>, percent: u8, charging: Option<bool>) -> Set<u8> {
    match charging {
        Some(true) => Set::empty(),
        None => warned,
        Some(false) => still_warned(warned, percent).union(
            Set::new(|t: u8| THRESHOLDS@.contains(t) && percent <= t),
        ),
    }
}

/// The threshold to warn about: the lowest that is freshly crossed while the
/// mouse is known not to be charging.
pub open spec fn warning(warned: Set<u8>, percent: u8, charging: Option<bool>) -> Option<u8> {
    if charging != Some(false) {
        None
    } else if freshly_crossed(warned, percent, 5) {
        Some(5)
    } else if freshly_crossed(warned, percent, 10) {
        Some(10)
    } else if freshly_crossed(warned, percent, 20) {
        Some(20)
    } else {
        None
    }
}

/// What has been warned about, once everything below `t` that has recovered is
/// left out.
spec fn sifted(warned: Set<u8>, percent: u8, t: int) -> Set<u8> {
    warned.filter(|u: u8| u >= t || percent <= u + 5)
}

proof fn lemma_sifted_step(warned: Set<u8>, percent: u8, t: u8)
    ensures
        sifted(warned, percent, t + 1) == if percent > t + 5 {
            sifted(warned, percent, t as int).remove(t)
        } else {
            sifted(warned, percent, t as int)
        },
{
    assert(sifted(warned, percent, t + 1) =~= if percent > t + 5 {
        sifted(warned, percent, t as int).remove(t)
    } else {
        sifted(warned, percent, t as int)
    });
}

proof fn lemma_sifted_ends(warned: Set<u8>, percent: u8)
    requires
        forall|u: u8| #[trigger] warned.contains(u) ==> u <= 250,
    ensures
        sifted(warned, percent, 0) == warned,
        sifted(warned, percent, 251) == still_warned(warned, percent),
{
    assert(sifted(warned, percent, 0) =~= warned);
    assert(sifted(warned, percent, 251) =~= still_warned(warned, percent));
}

/// The threshold to warn about, if any, updating what has already been warned.
///
/// Picks the *lowest* threshold crossed, so starting the tray with the mouse
/// already at 4% gives the critical warning rather than the 20% one.
pub fn warn_threshold(warned: &mut HashSet<u8>, percent: u8, charging: Option<bool>) -> (
    threshold: Option<u8>)
    requires
        charging == Some(false) ==> forall|t: u8| #[trigger]
            old(warned)@.contains(t) ==> t <= 250,
    ensures
        threshold == warning(old(warned)@, percent, charging),
        final(warned)@ == warned_after(old(warned)@, percent, charging),
{
    broadcast use vstd::std_specs::hash::group_hash_axioms;
    // Unknown charge state is not evidence of discharging; staying quiet beats
    // crying "critical" at a mouse sitting on the charger.

    match charging {
        Some(true) => {
            warned.clear();
            return None;
        },
        None => {
            return None;
        },
        Some(false) => {},
    }
    let ghost before = warned@;
    proof {
        lemma_sifted_ends(before, percent);
    }
    let mut t: u8 = 0;
    while t <= 250
        invariant
            t <= 251,
            warned@ == sifted(before, percent, t as int),
        decreases 251 - t,
    {
        proof {
            lemma_sifted_step(before, percent, t);
        }
        if percent as u16 > t as u16 + 5 {
            warned.remove(&t);
        }
        t += 1;
    }
    let mut lowest: Option<u8> = None;
    if percent <= 20 && warned.insert(20) {
        lowest = Some(20);
    }
    if percent <= 10 && warned.insert(10) {
        lowest = Some(10);
    }
    if percent <= 5 && warned.insert(5) {
        lowest = Some(5);
    }
    proof {
        assert(THRESHOLDS@[0] == 20 && THRESHOLDS@[1] == 10 && THRESHOLDS@[2] == 5);
        assert(warned@ =~= warned_after(before, percent, charging));
    }
    lowest
}

// -- laws of the warnings -----------------------------------------------------

/// A warning is about a threshold that is crossed, is remembered, and is not
/// repeated while the level stays within 5 points of that threshold, on the
/// charger or off it and whether or not the charge state is known.
pub proof fn lemma_warned_once(
    warned: Set<u8>,
    percent: u8,
    later: u8,
    charging: Option<bool>,
    later_charging: Option<bool>,
)
    ensures
        warning(warned, percent, charging) matches Some(threshold) ==> {
            &&& percent <= threshold
            &&& THRESHOLDS@.contains(threshold)
            &&& warned_after(warned, percent, charging).contains(threshold)
            &&& later <= threshold + 5 ==> warning(
                warned_after(warned, percent, charging),
                later,
                later_charging,
            ) != Some(threshold)
        },
{
    assert(THRESHOLDS@[0] == 20 && THRESHOLDS@[1] == 10 && THRESHOLDS@[2] == 5);
}

/// From a fresh start the warning is the lowest threshold that is crossed.
pub proof fn lemma_lowest_threshold(percent: u8)
    ensures
        warning(Set::empty(), percent, Some(false)) == if percent <= 5 {
            Some(5u8)
        } else if percent <= 10 {
            Some(10u8)
        } else if percent <= 20 {
            Some(20u8)
        } else {
            None
        },
{
}

/// A threshold is rearmed by a level more than 5 points past it, and a level
/// within those 5 points keeps it quiet.
pub proof fn lemma_rearmed(warned: Set<u8>, percent: u8, threshold: u8)
    requires
        warned.contains(threshold),
    ensures
        warned_after(warned, percent, Some(false)).contains(threshold) <==> percent <= threshold
            + 5,
{
}

/// Charging and an unknown charge state never warn; charging forgets what was
/// warned about, an unknown charge state does not.
pub proof fn lemma_quiet(warned: Set<u8>, percent: u8)
    ensures
        warning(warned, percent, Some(true)) is None,
        warning(warned, percent, None) is None,
        warned_after(warned, percent, Some(true)) == Set::<u8>::empty(),
        warned_after(warned, percent, None) == warned,
{
}

/// The icon looks the same within a 5% band, and different in another band, in
/// another charge state, or without a reading.
pub proof fn lemma_bands(a: u8, b: u8, charging: Option<bool>, other: Option<bool>)
    ensures
        look_of(Some(a), charging) == look_of(Some(b), charging) <==> (a + 4) / 5 == (b + 4) / 5,
        charging != other ==> look_of(Some(a), charging) != look_of(Some(b), other),
        look_of(None, charging) != look_of(Some(a), other),
{
}

// -- the tray -----------------------------------------------------------------

/// The rows of the tray's menu.
pub open spec fn menu_rows() -> Seq<MenuEntryView> {
    seq![
        MenuEntryView {
            id: 1,
            label: Some("Open Ninjutso"@),
            action: Some(Action::OpenGui),
        },
        MenuEntryView { id: 2, label: None, action: None },
        MenuEntryView { id: 3, label: Some("Refresh now"@), action: Some(Action::Refresh) },
        MenuEntryView { id: 4, label: None, action: None },
        MenuEntryView { id: 5, label: Some("Quit"@), action: Some(Action::Quit) },
    ]
}

/// A click opens the window, reads the battery or quits, by the row's label;
/// nothing else in the menu does anything.
pub proof fn lemma_menu(id: i32)
    ensures
        action_for(menu_rows(), id, "clicked"@) matches Some(action) ==> property(
            menu_rows(),
            id,
            "label"@,
        ) == Ok::<_, Seq<char>>(
            PropertyView::Text(
                match action {
                    Action::OpenGui => "Open Ninjutso"@,
                    Action::Refresh => "Refresh now"@,
                    Action::Quit => "Quit"@,
                },
            ),
        ),
        action_for(menu_rows(), id, "clicked"@) is Some <==> id == 1 || id == 3 || id == 5,
        property(menu_rows(), id, "type"@) is Ok <==> id == 2 || id == 4,
{
    let rows = menu_rows();
    if 1 <= id <= 5 {
        let i = id - 1;
        assert(rows[0].id == 1 && rows[1].id == 2 && rows[2].id == 3 && rows[3].id == 4
            && rows[4].id == 5);
        assert(rows[i].id == id);
        lemma_row_by_id(rows, i, 0, Seq::empty(), "clicked"@);
        assert(i == 0 || i == 1 || i == 2 || i == 3 || i == 4);
    } else if id != 0 {
        lemma_unknown_id(rows, id, 0, Seq::empty(), "label"@, "clicked"@);
        lemma_unknown_id(rows, id, 0, Seq::empty(), "type"@, "clicked"@);
    } else {
        lemma_no_row(rows, 0);
        lemma_root(rows, 0, Seq::empty(), "type"@);
        reveal_strlit("type");
        reveal_strlit("children-display");
        assert("type"@.len() == 4 && "children-display"@.len() == 16);
    }
}

pub fn menu_items() -> (items: Vec<MenuEntry>)
    ensures
        entries_view(items@) == menu_rows(),
{
    let mut items: Vec<MenuEntry> = Vec::new();
    items.push(MenuEntry::item(1, "Open Ninjutso", Action::OpenGui));
    items.push(MenuEntry::separator(2));
    items.push(MenuEntry::item(3, "Refresh now", Action::Refresh));
    items.push(MenuEntry::separator(4));
    items.push(MenuEntry::item(5, "Quit", Action::Quit));
    assert(entries_view(items@) =~= menu_rows());
    items
}

/// What came of a poll: nothing where the device could not be opened, else the
/// battery's level and charge state as far as they answered.
pub type Reading = Option<(Option<u8>, Option<bool>)>;

/// A notification that the battery is low.
#[derive(Debug, Clone)]
pub struct Warning {
    /// The notification it takes the place of, or 0.
    pub replaces: u32,
    pub threshold: u8,
    /// 1 is normal, 2 is critical.
    pub urgency: u8,
    pub body: String,
}

/// A [`Warning`] as contracts see it.
pub struct WarningView {
    pub replaces: u32,
    pub threshold: u8,
    pub urgency: u8,
    pub body: Seq<char>,
}

impl View for Warning {
    type V = WarningView;

    open spec fn view(&self) -> WarningView {
        WarningView {
            replaces: self.replaces,
            threshold: self.threshold,
            urgency: self.urgency,
            body: self.body@,
        }
    }
}

/// What a poll changes on the screen.
pub struct Update {
    /// The icon in every size, where it looks different from the last one.
    pub pixmaps: Option<Vec<Pixmap>>,
    pub tooltip: String,
    pub warning: Option<Warning>,
    /// A notification that no longer describes the situation.
    pub withdrawn: Option<u32>,
}

/// An icon as contracts see it.
pub type PixmapView = (i32, i32, Seq<u8>);

/// An [`Update`] as contracts see it.
pub struct UpdateView {
    pub pixmaps: Option<Seq<PixmapView>>,
    pub tooltip: Seq<char>,
    pub warning: Option<WarningView>,
    pub withdrawn: Option<u32>,
}

pub open spec fn pixmaps_view(pixmaps: Seq<Pixmap>) -> Seq<PixmapView> {
    pixmaps.map_values(|icon: Pixmap| (icon.0, icon.1, icon.2@))
}

impl View for Update {
    type V = UpdateView;

    open spec fn view(&self) -> UpdateView {
        UpdateView {
            pixmaps: match self.pixmaps {
                Some(pixmaps) => Some(pixmaps_view(pixmaps@)),
                None => None,
            },
            tooltip: self.tooltip@,
            warning: match self.warning {
                Some(warning) => Some(warning@),
                None => None,
            },
            withdrawn: self.withdrawn,
        }
    }
}

/// The tray's tooltip for a reading.
pub open spec fn tooltip(reading: Reading) -> Seq<char> {
    match reading {
        None => "Ninjutso — receiver not connected"@,
        Some((None, _)) => "Ninjutso — no battery reading"@,
        Some((Some(level), charging)) => "Ninjutso\n"@ + decimal(level as nat) + "% "@
            + match charging {
            Some(true) => "charging"@,
            Some(false) => "battery"@,
            None => "battery, charging status unavailable"@,
        },
    }
}

/// The icon in every size.
pub open spec fn icons_for(percent: Option<u8>, charging: bool) -> Seq<PixmapView> {
    ICON_SIZES@.map_values(|size: i32| (size, size, image(percent, charging, size as int)))
}

/// The state a tray keeps between polls.
pub struct BatteryTray {
    warned: HashSet<u8>,
    last_render: Option<(Option<u8>, Option<bool>)>,
    notify_id: u32,
    shown: Option<u8>,
    failures: u8,
}

/// A [`BatteryTray`] as contracts see it.
#[verifier::ext_equal]
pub struct TrayView {
    /// The thresholds that have been warned about.
    pub warned: Set<u8>,
    /// How the icon last looked.
    pub last_render: Option<(Option<u8>, Option<bool>)>,
    /// The last notification, or 0.
    pub notify_id: u32,
    /// The threshold that the notification on the screen is about.
    pub shown: Option<u8>,
    /// How many signals in a row could not be sent.
    pub failures: u8,
}

impl View for BatteryTray {
    type V = TrayView;

    closed spec fn view(&self) -> TrayView {
        TrayView {
            warned: self.warned@,
            last_render: self.last_render,
            notify_id: self.notify_id,
            shown: self.shown,
            failures: self.failures,
        }
    }
}

impl TrayView {
    /// Only thresholds are ever warned about.
    pub open spec fn well_formed(self) -> bool {
        forall|t: u8| #[trigger] self.warned.contains(t) ==> THRESHOLDS@.contains(t)
    }

    /// What a reading says about the level.
    pub open spec fn percent(reading: Reading) -> Option<u8> {
        match reading {
            Some((percent, _)) => percent,
            None => None,
        }
    }

    /// What a reading says about the charge state.
    pub open spec fn charging(reading: Reading) -> Option<bool> {
        match reading {
            Some((_, charging)) => charging,
            None => None,
        }
    }

    /// What has been warned about after a reading; no level changes nothing.
    pub open spec fn warned_then(self, reading: Reading) -> Set<u8> {
        match Self::percent(reading) {
            Some(level) => warned_after(self.warned, level, Self::charging(reading)),
            None => self.warned,
        }
    }

    /// The warning a reading calls for.
    pub open spec fn warning_for(self, reading: Reading) -> Option<WarningView> {
        match Self::percent(reading) {
            Some(level) => match warning(self.warned, level, Self::charging(reading)) {
                Some(threshold) => Some(
                    WarningView {
                        replaces: self.notify_id,
                        threshold,
                        urgency: if threshold <= 10 {
                            2
                        } else {
                            1
                        },
                        body: "Your Ninjutso mouse is at "@ + decimal(level as nat)
                            + "%. Plug it in to keep using it."@,
                    },
                ),
                None => None,
            },
            None => None,
        }
    }

    /// A warning on the screen no longer describes the situation: the mouse is
    /// charging, or the warning's threshold is armed again and no other warning
    /// takes its place.
    pub open spec fn is_stale(self, reading: Reading) -> bool {
        self.warning_for(reading) is None && match self.shown {
            Some(threshold) => Self::charging(reading) == Some(true) || !self.warned_then(
                reading,
            ).contains(threshold),
            None => false,
        }
    }

    /// What a reading changes on the screen.
    pub open spec fn update(self, reading: Reading) -> UpdateView {
        let look = look_of(Self::percent(reading), Self::charging(reading));
        UpdateView {
            pixmaps: if self.last_render == Some(look) {
                None
            } else {
                Some(
                    icons_for(Self::percent(reading), Self::charging(reading) == Some(true)),
                )
            },
            tooltip: tooltip(reading),
            warning: self.warning_for(reading),
            withdrawn: if self.is_stale(reading) {
                Some(self.notify_id)
            } else {
                None
            },
        }
    }

    /// The tray after a signal was sent, or could not be.
    pub open spec fn after_signal(self, sent: bool) -> TrayView {
        TrayView {
            failures: if sent {
                0
            } else if self.failures < 255 {
                (self.failures + 1) as u8
            } else {
                255
            },
            ..self
        }
    }

    /// A session bus that has gone away presents as three failures in a row.
    pub open spec fn gives_up(self) -> bool {
        self.failures >= 3
    }

    /// The tray after a reading.
    pub open spec fn after(self, reading: Reading) -> TrayView {
        TrayView {
            warned: self.warned_then(reading),
            last_render: Some(look_of(Self::percent(reading), Self::charging(reading))),
            notify_id: if self.is_stale(reading) {
                0
            } else {
                self.notify_id
            },
            shown: if self.is_stale(reading) {
                None
            } else {
                self.shown
            },
            failures: self.failures,
        }
    }
}

fn draw_icons(percent: Option<u8>, charging: bool) -> (icons: Vec<Pixmap>)
    ensures
        pixmaps_view(icons@) == icons_for(percent, charging),
{
    let mut icons: Vec<Pixmap> = Vec::new();
    icons.push(reading_pixmap(percent, charging, 22));
    icons.push(reading_pixmap(percent, charging, 32));
    icons.push(reading_pixmap(percent, charging, 48));
    proof {
        assert(ICON_SIZES@[0] == 22 && ICON_SIZES@[1] == 32 && ICON_SIZES@[2] == 48);
        assert(pixmaps_view(icons@) =~= icons_for(percent, charging));
    }
    icons
}

fn tooltip_text(reading: Reading) -> (text: String)
    ensures
        text@ == tooltip(reading),
{
    match reading {
        None => "Ninjutso — receiver not connected".to_owned(),
        Some((None, _)) => "Ninjutso — no battery reading".to_owned(),
        Some((Some(level), charging)) => {
            let mut text = "Ninjutso\n".to_owned();
            push_decimal(&mut text, level as u64);
            text.append("% ");
            text.append(
                match charging {
                    Some(true) => "charging",
                    Some(false) => "battery",
                    None => "battery, charging status unavailable",
                },
            );
            text
        },
    }
}

impl BatteryTray {
    #[verifier::type_invariant]
    spec fn inv(self) -> bool {
        self@.well_formed()
    }

    /// A tray that has shown nothing yet.
    pub fn new() -> (tray: Self)
        ensures
            tray@ == (TrayView {
                warned: Set::empty(),
                last_render: None,
                notify_id: 0,
                shown: None,
                failures: 0,
            }),
            tray@.well_formed(),
    {
        BatteryTray {
            warned: HashSet::new(),
            last_render: None,
            notify_id: 0,
            shown: None,
            failures: 0,
        }
    }

    /// What a reading changes on the screen.
    pub fn poll_device(&mut self, reading: Reading) -> (update: Update)
        ensures
            update@ == old(self)@.update(reading),
            final(self)@ == old(self)@.after(reading),
            final(self)@.well_formed(),
    {
        broadcast use vstd::std_specs::hash::group_hash_axioms;

        proof {
            use_type_invariant(&*self);
        }
        let ghost before = self@;
        let mut warned: HashSet<u8> = HashSet::new();
        std::mem::swap(&mut warned, &mut self.warned);
        let (percent, charging) = match reading {
            Some(reading) => reading,
            None => (None, None),
        };
        let key = render_key(percent, charging);
        let same_look = match self.last_render {
            Some(last) => last.0 == key.0 && last.1 == key.1,
            None => false,
        };
        let pixmaps = if same_look {
            None
        } else {
            Some(draw_icons(percent, charging == Some(true)))
        };
        self.last_render = Some(key);
        proof {
            assert(THRESHOLDS@[0] == 20 && THRESHOLDS@[1] == 10 && THRESHOLDS@[2] == 5);
        }
        let warning = match percent {
            Some(level) => match warn_threshold(&mut warned, level, charging) {
                Some(threshold) => {
                    let mut body = "Your Ninjutso mouse is at ".to_owned();
                    push_decimal(&mut body, level as u64);
                    body.append("%. Plug it in to keep using it.");
                    let urgency: u8 = if threshold <= 10 {
                        2
                    } else {
                        1
                    };
                    Some(Warning { replaces: self.notify_id, threshold, urgency, body })
                },
                None => None,
            },
            None => None,
        };
        let stale = match (&warning, self.shown) {
            (None, Some(threshold)) => charging == Some(true) || !warned.contains(&threshold),
            _ => false,
        };
        self.warned = warned;
        let withdrawn = if stale {
            let id = self.notify_id;
            self.notify_id = 0;
            self.shown = None;
            Some(id)
        } else {
            None
        };
        assert(self@ =~= before.after(reading));
        Update { pixmaps, tooltip: tooltip_text(reading), warning, withdrawn }
    }

    /// A notification went up.
    pub fn notified(&mut self, threshold: u8, id: u32)
        ensures
            final(self)@ == (TrayView { notify_id: id, shown: Some(threshold), ..old(self)@ }),
    {
        proof {
            use_type_invariant(&*self);
        }
        self.notify_id = id;
        self.shown = Some(threshold);
    }

    /// A signal was sent, or could not be. Whether to give up: a session bus
    /// that has gone away presents as three failures in a row.
    pub fn signalled(&mut self, sent: bool) -> (give_up: bool)
        ensures
            final(self)@ == old(self)@.after_signal(sent),
            give_up == final(self)@.gives_up(),
    {
        proof {
            use_type_invariant(&*self);
        }
        if sent {
            self.failures = 0;
        } else if self.failures < 255 {
            self.failures = self.failures + 1;
        }
        self.failures >= 3
    }
}

// -- the loop -----------------------------------------------------------------

/// What a tray waits for.
#[derive(Debug, Clone, Copy)]
pub enum Wake {
    /// Somebody clicked, or the machine woke up.
    Asked(Action),
    /// The poll interval elapsed with nothing clicked.
    Elapsed,
    /// Nobody can ask any more.
    Disconnected,
}

/// What a tray does next.
#[derive(Debug, Clone, Copy, PartialEq, Eq, Structural)]
pub enum Next {
    OpenGui,
    Poll,
    Exit,
}

/// What to do about what woke the tray.
pub fn next_step(wake: Wake) -> (next: Next)
    ensures
        next == match wake {
            Wake::Asked(Action::OpenGui) => Next::OpenGui,
            Wake::Asked(Action::Refresh) => Next::Poll,
            Wake::Asked(Action::Quit) => Next::Exit,
            Wake::Elapsed => Next::Poll,
            Wake::Disconnected => Next::Exit,
        },
{
    match wake {
        Wake::Asked(Action::OpenGui) => Next::OpenGui,
        Wake::Asked(Action::Refresh) => Next::Poll,
        Wake::Asked(Action::Quit) => Next::Exit,
        Wake::Elapsed => Next::Poll,
        Wake::Disconnected => Next::Exit,
    }
}

/// What logind announces about sleep: the machine is about to suspend, or has
/// just resumed. A resume asks for a poll.
pub fn on_sleep_signal(about_to_suspend: bool) -> (action: Option<Action>)
    ensures
        action == if about_to_suspend {
            None
        } else {
            Some(Action::Refresh)
        },
{
    if about_to_suspend {
        None
    } else {
        Some(Action::Refresh)
    }
}

// -- laws of the tray ---------------------------------------------------------

/// A reading that does not answer is never shown as a level: the tooltip says
/// so, the icon is drawn without one, and nothing is warned about or forgotten.
pub proof fn lemma_no_reading(tray: TrayView, reading: Reading)
    requires
        TrayView::percent(reading) is None,
    ensures
        tray.update(reading).warning is None,
        tray.after(reading).warned == tray.warned,
        tray.after(reading).last_render matches Some((None, _)),
        tray.update(reading).pixmaps matches Some(icons) ==> icons == icons_for(
            None,
            TrayView::charging(reading) == Some(true),
        ),
{
}

/// Icons that are sent are pictures of the reading, in each of three sizes: of its
/// level, and of charging exactly where the reading says so. The first reading
/// always sends them.
pub proof fn lemma_icons_show_the_reading(tray: TrayView, reading: Reading)
    ensures
        tray.last_render is None ==> tray.update(reading).pixmaps is Some,
        tray.update(reading).pixmaps matches Some(icons) ==> {
            let (level, charging) = match reading {
                Some((level, Some(true))) => (level, true),
                Some((level, _)) => (level, false),
                None => (None, false),
            };
            &&& icons.len() == 3
            &&& icons[0] == (22i32, 22i32, image(level, charging, 22))
            &&& icons[1] == (32i32, 32i32, image(level, charging, 32))
            &&& icons[2] == (48i32, 48i32, image(level, charging, 48))
        },
{
    assert(ICON_SIZES@[0] == 22 && ICON_SIZES@[1] == 32 && ICON_SIZES@[2] == 48);
}

/// A mouse on the charger looks different from one that is off it, or of which
/// that is not known, in every size and at whatever levels.
pub proof fn lemma_charging_is_drawn(
    tray: TrayView,
    other: TrayView,
    level: Option<u8>,
    off: Reading,
    i: int,
)
    requires
        !(off matches Some((_, Some(true)))),
        0 <= i < 3,
        tray.update(Some((level, Some(true)))).pixmaps is Some,
        other.update(off).pixmaps is Some,
    ensures
        tray.update(Some((level, Some(true)))).pixmaps->0[i].2 != other.update(off).pixmaps->0[i].2,
{
    let other_level = match off {
        Some((level, _)) => level,
        None => None,
    };
    lemma_icons_show_the_reading(tray, Some((level, Some(true))));
    lemma_icons_show_the_reading(other, off);
    lemma_charging_shows(level, other_level, 22);
    lemma_charging_shows(level, other_level, 32);
    lemma_charging_shows(level, other_level, 48);
}

/// The tooltip says the level that was read and what is known of the charge, and
/// tells a receiver that is gone from a battery that does not answer.
pub proof fn lemma_tooltip(tray: TrayView, level: u8, charging: Option<bool>)
    ensures
        ({
            let text = tray.update(Some((Some(level), charging))).tooltip;
            let head = "Ninjutso\n"@ + decimal(level as nat) + "% "@;
            &&& charging == Some(true) ==> text == head + "charging"@
            &&& charging == Some(false) ==> text == head + "battery"@
            &&& charging is None ==> text == head + "battery, charging status unavailable"@
        }),
        tray.update(Some((None, charging))).tooltip == "Ninjutso — no battery reading"@,
        tray.update(None).tooltip == "Ninjutso — receiver not connected"@,
{
}

/// A warning goes up for a reading only where the mouse is known not to be
/// charging and its level is at or below a threshold. It says the level, takes the
/// place of the last notification, and is critical at 10% and below.
pub proof fn lemma_warning_text(tray: TrayView, reading: Reading)
    ensures
        tray.update(reading).warning matches Some(warning) ==> {
            &&& reading matches Some((Some(level), Some(false)))
            &&& level <= warning.threshold
            &&& warning.threshold == 5 || warning.threshold == 10 || warning.threshold == 20
            &&& warning.replaces == tray.notify_id
            &&& warning.urgency == if warning.threshold == 20 {
                1u8
            } else {
                2u8
            }
            &&& warning.body == "Your Ninjutso mouse is at "@ + decimal(level as nat)
                + "%. Plug it in to keep using it."@
            &&& tray.update(reading).withdrawn is None
        },
{
}

/// A level at or below a threshold that has not been warned about is warned about
/// at once, while the mouse is known not to be charging; and everything it has
/// crossed is warned about with it.
pub proof fn lemma_warned_in_time(tray: TrayView, level: u8, threshold: u8)
    requires
        threshold == 5 || threshold == 10 || threshold == 20,
        level <= threshold,
    ensures
        ({
            let reading: Reading = Some((Some(level), Some(false)));
            &&& !tray.warned.contains(threshold) ==> tray.update(reading).warning is Some
                && tray.update(reading).warning->0.threshold <= threshold
            &&& tray.after(reading).warned.contains(threshold)
            &&& tray.after(reading).update(reading).warning is None
        }),
{
    assert(THRESHOLDS@[0] == 20 && THRESHOLDS@[1] == 10 && THRESHOLDS@[2] == 5);
}

/// A warning on the screen stays up while the level is within 5 points of its
/// threshold and the mouse is not known to be charging, and as long as nothing is
/// read at all.
pub proof fn lemma_not_withdrawn(tray: TrayView, threshold: u8, level: u8, charging: Option<bool>)
    requires
        tray.shown == Some(threshold),
        tray.warned.contains(threshold),
        level <= threshold + 5,
        charging != Some(true),
    ensures
        tray.update(Some((Some(level), charging))).withdrawn is None,
        tray.update(Some((None, charging))).withdrawn is None,
        tray.update(None).withdrawn is None,
{
}

/// The icon is drawn again exactly when it would look different.
pub proof fn lemma_redrawn(tray: TrayView, first: Reading, second: Reading)
    ensures
        tray.after(first).update(second).pixmaps is None <==> look_of(
            TrayView::percent(first),
            TrayView::charging(first),
        ) == look_of(TrayView::percent(second), TrayView::charging(second)),
{
}

/// A warning on the screen is withdrawn once charging starts, whether or not the
/// level is known, and once the level is more than 5 points past its threshold.
pub proof fn lemma_withdrawn(
    tray: TrayView,
    threshold: u8,
    percent: Option<u8>,
    level: u8,
    charging: bool,
)
    requires
        tray.shown == Some(threshold),
    ensures
        tray.update(Some((percent, Some(true)))).withdrawn == Some(tray.notify_id),
        tray.after(Some((percent, Some(true)))).shown is None,
        level > threshold + 5 ==> {
            let reading: Reading = Some((Some(level), Some(charging)));
            ||| tray.update(reading).withdrawn == Some(tray.notify_id)
            ||| tray.update(reading).warning is Some
        },
{
}

/// A warning stays on the screen until it is withdrawn, and is withdrawn at most
/// once: the next reading finds none. Only a reading that the icon looks different
/// for has it drawn, and the one after that, if it looks the same, does not.
pub proof fn lemma_until_withdrawn(tray: TrayView, reading: Reading, next: Reading)
    ensures
        tray.update(reading).withdrawn is None ==> tray.after(reading).shown == tray.shown
            && tray.after(reading).notify_id == tray.notify_id,
        tray.update(reading).withdrawn matches Some(id) ==> id == tray.notify_id && tray.shown
            is Some && tray.after(reading).shown is None && tray.after(reading).notify_id == 0
            && tray.after(reading).update(next).withdrawn is None,
        tray.after(reading).update(reading).pixmaps is None,
        tray.after(reading).failures == tray.failures,
{
}

/// It takes three failures in a row to give up: one that succeeds starts the
/// count again.
pub proof fn lemma_three_failures(tray: TrayView)
    ensures
        ({
            let fresh = tray.after_signal(true);
            &&& !fresh.gives_up()
            &&& !fresh.after_signal(false).gives_up()
            &&& !fresh.after_signal(false).after_signal(false).gives_up()
            &&& fresh.after_signal(false).after_signal(false).after_signal(false).gives_up()
        }),
        tray.after_signal(false).after_signal(false).after_signal(false).gives_up(),
{
}

} // verus!
