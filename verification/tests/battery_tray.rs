use std::collections::HashSet;

use ninjutso::battery_tray::{
    menu_items, next_step, on_sleep_signal, parse_args, poll_seconds, render_key, warn_threshold,
    BatteryTray, Next, Wake,
};
use ninjutso::icons::reading_pixmap;
use ninjutso::tray::Action;

fn args(list: &[&str]) -> Vec<String> {
    list.iter().map(|s| s.to_string()).collect()
}

#[test]
fn poll_is_parsed_and_bad_values_are_refused() {
    assert_eq!(parse_args(&args(&[])).unwrap().poll_minutes, 10);
    assert_eq!(parse_args(&args(&["--poll", "3"])).unwrap().poll_minutes, 3);
    assert!(parse_args(&args(&["--poll", "abc"])).is_err());
    assert!(parse_args(&args(&["--poll"])).is_err());
    assert!(parse_args(&args(&["--poll", "0"])).is_err());
    // Would overflow `minutes * 60` seconds.
    assert!(parse_args(&args(&["--poll", "400000000000000000"])).is_err());
    assert!(parse_args(&args(&["--wat"])).is_err());
}

#[test]
fn gui_path_is_optional() {
    assert_eq!(parse_args(&args(&[])).unwrap().gui_path, None);
    assert_eq!(
        parse_args(&args(&["--gui", "/usr/bin/x"])).unwrap().gui_path,
        Some("/usr/bin/x".to_string())
    );
}

#[test]
fn refusals_say_what_was_wrong() {
    let why = |list: &[&str]| parse_args(&args(list)).unwrap_err();
    assert_eq!(why(&["--help"]), "");
    assert_eq!(why(&["--gui", "x", "-h"]), "");
    assert_eq!(why(&["--poll"]), "--poll needs a number of minutes");
    assert_eq!(why(&["--poll", "abc"]), "--poll wants a number, not \"abc\"");
    assert_eq!(why(&["--poll", "a\"\n\\"]), "--poll wants a number, not \"a\\\"\\n\\\\\"");
    assert_eq!(why(&["--poll", "18446744073709551616"]), "--poll wants a number, not \"18446744073709551616\"");
    assert_eq!(why(&["--poll", "1441"]), "--poll must be between 1 and 1440, not 1441");
    assert_eq!(why(&["--gui"]), "--gui needs a path");
    assert_eq!(why(&["--device"]), "--device needs a path");
    assert_eq!(why(&["--wat"]), "unknown argument \"--wat\"");
}

#[test]
fn the_last_value_of_a_flag_counts() {
    let asked = parse_args(&args(&["--poll", "+5", "--device", "/dev/hidraw3", "--poll", "7"])).unwrap();
    assert_eq!(asked.poll_minutes, 7);
    assert_eq!(asked.device_path, Some("/dev/hidraw3".to_string()));
    assert_eq!(poll_seconds(7), 420);
    assert_eq!(poll_seconds(0), 60);
    assert_eq!(poll_seconds(u64::MAX), 86_400);
}

#[test]
fn the_icon_is_only_redrawn_when_it_would_look_different() {
    assert_eq!(render_key(Some(61), Some(false)), render_key(Some(65), Some(false)));
    assert_ne!(render_key(Some(61), Some(false)), render_key(Some(66), Some(false)));
    assert_ne!(render_key(Some(61), Some(false)), render_key(Some(61), Some(true)));
    // No reading is its own state, not 0%.
    assert_ne!(render_key(None, None), render_key(Some(0), None));
}

#[test]
fn a_level_is_rounded_up_to_the_next_five() {
    assert_eq!(render_key(Some(0), None).0, Some(0));
    assert_eq!(render_key(Some(1), None).0, Some(5));
    assert_eq!(render_key(Some(100), None).0, Some(100));
    assert_eq!(render_key(Some(255), None).0, Some(255));
}

#[test]
fn each_threshold_warns_once_per_descent() {
    let mut warned = HashSet::new();
    assert_eq!(warn_threshold(&mut warned, 25, Some(false)), None);
    assert_eq!(warn_threshold(&mut warned, 19, Some(false)), Some(20));
    assert_eq!(warn_threshold(&mut warned, 18, Some(false)), None);
    assert_eq!(warn_threshold(&mut warned, 9, Some(false)), Some(10));
    assert_eq!(warn_threshold(&mut warned, 4, Some(false)), Some(5));
    assert_eq!(warn_threshold(&mut warned, 3, Some(false)), None);
}

#[test]
fn a_low_start_warns_at_the_level_it_is_actually_at() {
    let mut warned = HashSet::new();
    assert_eq!(warn_threshold(&mut warned, 4, Some(false)), Some(5));
}

#[test]
fn charging_and_unknown_charge_never_warn() {
    let mut warned = HashSet::new();
    assert_eq!(warn_threshold(&mut warned, 4, Some(true)), None);
    assert_eq!(warn_threshold(&mut warned, 4, None), None);
    // ...and an unknown state does not clear what a discharge armed.
    assert_eq!(warn_threshold(&mut warned, 4, Some(false)), Some(5));
    assert_eq!(warn_threshold(&mut warned, 4, None), None);
    assert_eq!(warn_threshold(&mut warned, 4, Some(false)), None);
}

#[test]
fn a_warning_rearms_only_after_a_real_recovery() {
    let mut warned = HashSet::new();
    assert_eq!(warn_threshold(&mut warned, 9, Some(false)), Some(10));
    // Still inside the band: no repeat.
    assert_eq!(warn_threshold(&mut warned, 14, Some(false)), None);
    // Recovered past it, then fell again.
    assert_eq!(warn_threshold(&mut warned, 16, Some(false)), None);
    assert_eq!(warn_threshold(&mut warned, 9, Some(false)), Some(10));
}

#[test]
fn a_poll_says_what_was_read_and_no_more() {
    let mut tray = BatteryTray::new();
    let update = tray.poll_device(None);
    assert_eq!(update.tooltip, "Ninjutso — receiver not connected");
    let icons = update.pixmaps.unwrap();
    assert_eq!(icons.iter().map(|icon| icon.0).collect::<Vec<i32>>(), [22, 32, 48]);
    assert_eq!(icons[0], reading_pixmap(None, false, 22));

    let update = tray.poll_device(Some((None, None)));
    assert_eq!(update.tooltip, "Ninjutso — no battery reading");
    assert!(update.pixmaps.is_none(), "looks the same as before");

    let update = tray.poll_device(Some((Some(73), Some(false))));
    assert_eq!(update.tooltip, "Ninjutso\n73% battery");
    assert_eq!(update.pixmaps.unwrap()[1], reading_pixmap(Some(73), false, 32));
    assert!(update.warning.is_none());

    let update = tray.poll_device(Some((Some(71), Some(false))));
    assert!(update.pixmaps.is_none());
    let update = tray.poll_device(Some((Some(71), Some(true))));
    assert_eq!(update.tooltip, "Ninjutso\n71% charging");
    assert!(update.pixmaps.is_some());
    let update = tray.poll_device(Some((Some(71), None)));
    assert_eq!(update.tooltip, "Ninjutso\n71% battery, charging status unavailable");
}

#[test]
fn a_warning_is_withdrawn_once_it_no_longer_holds() {
    let mut tray = BatteryTray::new();
    let warning = tray.poll_device(Some((Some(19), Some(false)))).warning.unwrap();
    assert_eq!((warning.threshold, warning.urgency, warning.replaces), (20, 1, 0));
    assert_eq!(
        warning.body,
        "Your Ninjutso mouse is at 19%. Plug it in to keep using it."
    );
    tray.notified(warning.threshold, 41);

    // A worse one takes its place rather than standing beside it.
    let warning = tray.poll_device(Some((Some(8), Some(false)))).warning.unwrap();
    assert_eq!((warning.threshold, warning.urgency, warning.replaces), (10, 2, 41));
    tray.notified(warning.threshold, 41);

    // Still low, or unknown: it stays up.
    assert_eq!(tray.poll_device(Some((Some(14), Some(false)))).withdrawn, None);
    assert_eq!(tray.poll_device(None).withdrawn, None);
    // Recovered.
    assert_eq!(tray.poll_device(Some((Some(16), Some(false)))).withdrawn, Some(41));
    assert_eq!(tray.poll_device(Some((Some(16), Some(false)))).withdrawn, None);

    let warning = tray.poll_device(Some((Some(4), Some(false)))).warning.unwrap();
    assert_eq!(warning.replaces, 0);
    tray.notified(warning.threshold, 42);
    // On the charger.
    assert_eq!(tray.poll_device(Some((Some(4), Some(true)))).withdrawn, Some(42));

    let warning = tray.poll_device(Some((Some(9), Some(false)))).warning.unwrap();
    tray.notified(warning.threshold, 43);
    // No level, and the charge state is not known either: it stays up.
    assert_eq!(tray.poll_device(Some((None, None))).withdrawn, None);
    assert_eq!(tray.poll_device(Some((None, Some(false)))).withdrawn, None);
    // On the charger, though nothing is said of the level.
    assert_eq!(tray.poll_device(Some((None, Some(true)))).withdrawn, Some(43));
    assert_eq!(tray.poll_device(Some((None, Some(true)))).withdrawn, None);
}

#[test]
fn three_failures_in_a_row_are_the_end() {
    let mut tray = BatteryTray::new();
    assert!(!tray.signalled(false));
    assert!(!tray.signalled(false));
    assert!(!tray.signalled(true));
    assert!(!tray.signalled(false));
    assert!(!tray.signalled(false));
    assert!(tray.signalled(false));
}

#[test]
fn a_click_a_timer_and_a_resume_all_lead_somewhere() {
    assert_eq!(next_step(Wake::Asked(Action::OpenGui)), Next::OpenGui);
    assert_eq!(next_step(Wake::Asked(Action::Refresh)), Next::Poll);
    assert_eq!(next_step(Wake::Asked(Action::Quit)), Next::Exit);
    assert_eq!(next_step(Wake::Elapsed), Next::Poll);
    assert_eq!(next_step(Wake::Disconnected), Next::Exit);
    assert_eq!(on_sleep_signal(true), None);
    assert_eq!(on_sleep_signal(false), Some(Action::Refresh));
}

#[test]
fn the_menu_offers_the_window_a_refresh_and_the_way_out() {
    let items = menu_items();
    let labels: Vec<Option<&str>> = items.iter().map(|item| item.label.as_deref()).collect();
    assert_eq!(
        labels,
        [Some("Open Ninjutso"), None, Some("Refresh now"), None, Some("Quit")]
    );
    assert_eq!(items[2].action, Some(Action::Refresh));
    assert_eq!(items.iter().map(|item| item.id).collect::<Vec<i32>>(), [1, 2, 3, 4, 5]);
}
