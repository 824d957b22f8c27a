use ninjutso::device::discovery::Node;
use ninjutso::device::status::{Lighting, Status};
use ninjutso::device::Device;
use ninjutso::gui::worker::{failed, perform, rereads, Command, Reply};
use ninjutso::gui::{describe, device_arg, panel};
use ninjutso::protocol::cmd;
use ninjutso::transport::fake::Fake;
use ninjutso::Error;

/// A Ten as `status()` reports it. Only the fields a test varies are
/// interesting; the rest just have to be present.
fn ten() -> Status {
    Status {
        name: "Ninjutso Inc. Ten".to_string(),
        path: "/dev/hidraw3".to_string(),
        product_id: 0xEB01,
        effective_product_id: 0xE020,
        direct: false,
        profile: 1,
        dpi_stage: 0,
        dpi_stages: vec![16000, 32000, 64000, 128000],
        dpi: Some(16000),
        polling_rate: 1000,
        lift_off: Some("Medium"),
        motion_sync: Some(true),
        angle_tuning: Some(false),
        system_mode: Some("High Speed"),
        sleep_minutes: Some(2),
        battery: Some(73),
        charging: Some(false),
        is_receiver: true,
        firmware: vec![("mouse", "1.3".to_string())],
        lighting: Some(Lighting {
            mode: "Static",
            color: Some("#36ad6a".to_string()),
            speed: Some(10),
            brightness: None,
        }),
    }
}

#[test]
fn a_sora_v3_gets_a_range_that_can_hold_its_dpi() {
    let mut status = ten();
    status.direct = true;
    status.dpi = Some(360000);
    let view = panel(&status);
    // 36000 is above the stepped ceiling: a range that stops at 30000
    // would clamp it, and the row would then report a DPI the mouse does
    // not hold as if the user had chosen it.
    assert_eq!(view.dpi_range, (1, 45000, 1));
    assert!(view.dpi.unwrap() <= view.dpi_range.1 * 10);
}

#[test]
fn a_ten_is_held_to_multiples_of_fifty() {
    assert_eq!(panel(&ten()).dpi_range, (50, 30000, 50));
}

#[test]
fn a_missing_battery_is_shown_as_unknown_not_as_flat() {
    let mut status = ten();
    status.battery = None;
    let view = panel(&status);
    assert_eq!(view.battery, "—");
    // No colour class either: red would read as critically low.
    assert_eq!(view.battery_class, None);
}

#[test]
fn battery_colouring_follows_the_level_and_marks_charging() {
    assert_eq!(panel(&ten()).battery_class, Some("battery-good"));
    let mut status = ten();
    status.battery = Some(19);
    assert_eq!(panel(&status).battery_class, Some("battery-low"));
    status.charging = Some(true);
    assert_eq!(panel(&status).battery, "19% ⚡");
    // An unknown charge state is not evidence of charging.
    status.charging = None;
    assert_eq!(panel(&status).battery, "19%");
}

#[test]
fn selections_map_to_the_right_toggle() {
    let view = panel(&ten());
    assert_eq!(view.rate_index, Some(0));
    assert_eq!(view.lod_index, Some(1));
    assert_eq!(
        view.light.as_ref().and_then(|light| light.mode_index),
        Some(1)
    );
    assert_eq!(
        view.light.and_then(|light| light.color),
        Some("#36ad6a".to_string())
    );
}

#[test]
fn a_wired_mouse_hides_the_receiver_only_controls() {
    let mut status = ten();
    status.is_receiver = false;
    status.lighting = None;
    let view = panel(&status);
    assert!(view.light.is_none());
    assert!(view.subtitle.starts_with("Wired"));
}

#[test]
fn firmware_reads_as_a_sentence_and_says_so_when_absent() {
    assert_eq!(panel(&ten()).firmware, "Mouse 1.3");
    let mut status = ten();
    status.firmware = vec![("mouse", "1.3".into()), ("receiver", "2.7".into())];
    assert_eq!(panel(&status).firmware, "Mouse 1.3 · Receiver 2.7");
    status.firmware = vec![];
    assert!(panel(&status).firmware.is_empty());
}

#[test]
fn the_device_flag_matches_the_cli_and_refuses_a_dangling_value() {
    let args = |list: &[&str]| -> Vec<String> {
        list.iter().map(|s| s.to_string()).collect()
    };
    assert_eq!(device_arg(&args(&[])).unwrap(), None);
    assert_eq!(
        device_arg(&args(&["--device", "/dev/hidraw3"])).unwrap(),
        Some("/dev/hidraw3".to_string())
    );
    assert_eq!(
        device_arg(&args(&["--device=/dev/hidraw3"])).unwrap(),
        Some("/dev/hidraw3".to_string())
    );
    // Used to be silently ignored, and the GUI opened on the wrong mouse.
    assert!(device_arg(&args(&["--device"])).is_err());
    // GTK's own options are still GTK's business.
    assert_eq!(device_arg(&args(&["--gdk-debug=misc"])).unwrap(), None);
}

#[test]
fn a_request_for_help_is_an_empty_refusal() {
    let args: Vec<String> = vec!["--gdk-debug=misc".to_string(), "-h".to_string()];
    assert_eq!(device_arg(&args).unwrap_err(), "");
    let args: Vec<String> = vec!["--device".to_string()];
    assert_eq!(device_arg(&args).unwrap_err(), "--device needs a path");
}

#[test]
fn a_sleeping_mouse_is_reported_as_asleep_rather_than_as_a_fault() {
    let (title, detail) = describe(&Error::Offline);
    assert_eq!(title, "Mouse is asleep");
    assert!(detail.contains("Refresh"), "tell them how to wake it");
    // A real fault still reads as one.
    assert_eq!(describe(&Error::Timeout(4)).0, "Could not talk to the device");
}

#[test]
fn access_problems_say_what_to_do() {
    let (title, detail) = describe(&Error::PermissionDenied {
        path: "/dev/hidraw0".to_string(),
    });
    assert_eq!(title, "Permission denied");
    assert!(detail.starts_with("/dev/hidraw0 is not readable by you"));
    assert!(detail.ends_with("trigger --settle"));
    assert_eq!(describe(&Error::DeviceNotFound).0, "No Ninjutso device");
}

#[test]
fn every_label_is_exact() {
    let mut status = ten();
    status.name = "Ninjutso Inc. Ninjutso Inc. Ten Ninjutso Inc.".to_string();
    status.dpi_stage = 2;
    status.polling_rate = 8000;
    status.lift_off = None;
    let view = panel(&status);
    assert_eq!(view.title, "Ten Ninjutso Inc.");
    assert_eq!(view.subtitle, "Receiver · profile 1");
    assert_eq!(view.connection, "Receiver · /dev/hidraw3");
    assert_eq!(view.battery, "73%");
    assert_eq!(view.dpi_subtitle, "Stage 3 of 4");
    assert_eq!(view.rate_index, Some(3));
    assert_eq!(view.lod_index, None);
    status.polling_rate = 500;
    assert_eq!(panel(&status).rate_index, None);
}

fn device(fake: Fake) -> Device<Fake> {
    let node = Node {
        path: "/dev/hidraw9".to_string(),
        product_id: 0xEB01,
        name: "Ten".to_string(),
    };
    Device::open_node(node, fake)
}

#[test]
fn a_setting_that_landed_is_shown_as_the_device_holds_it() {
    let mut held = device(Fake::sora_v3());
    let says = |held: &mut Device<Fake>, command: Command| {
        let answered = perform(held, command);
        assert!(answered.held);
        match answered.reply {
            Reply::Toast(text) => text,
            other => panic!("{other:?}"),
        }
    };
    assert_eq!(says(&mut held, Command::SetDpi(1601)), "DPI → 1601");
    assert_eq!(says(&mut held, Command::SetRate(2000)), "Report rate → 2000 Hz");
    assert_eq!(says(&mut held, Command::SetLod("Low".to_string())), "Lift-off → Low");
    assert_eq!(says(&mut held, Command::SetMotion(false)), "Motion Sync → off");
    assert_eq!(
        says(&mut held, Command::SetLightMode("Cycling".to_string())),
        "Light mode → Cycling"
    );
    assert_eq!(
        says(&mut held, Command::SetColor("FFFFFF".to_string())),
        "Light colour → #ffffff"
    );
    assert_eq!(says(&mut held, Command::SetBrightness(75)), "Brightness → 75");
    let answered = perform(&mut held, Command::Refresh);
    assert!(answered.held);
    assert!(matches!(answered.reply, Reply::Status(status) if status.polling_rate == 2000));
}

#[test]
fn a_setting_that_failed_is_rejected_and_lets_the_device_go() {
    let mut fake = Fake::ten();
    fake.silence(cmd::POLLING_RATE);
    fake.silence(cmd::LIGHTING_STATE);
    let mut held = device(fake);
    let answered = perform(&mut held, Command::SetRate(2000));
    assert!(!answered.held);
    assert!(matches!(
        answered.reply,
        Reply::Rejected(text) if text == "Report rate failed: device did not answer command 0x06"
    ));
    let answered = perform(&mut held, Command::SetColor("#ffffff".to_string()));
    assert!(!answered.held);
    assert!(matches!(
        answered.reply,
        Reply::Rejected(text) if text == "Light colour failed: device did not confirm"
    ));
    // Hardware that simply has no such thing is still there.
    let answered = perform(&mut held, Command::SetBrightness(50));
    assert!(answered.held);
    assert!(matches!(answered.reply, Reply::Rejected(_)));
    let answered = perform(&mut held, Command::Refresh);
    assert!(!answered.held);
    assert!(matches!(answered.reply, Reply::Failed { .. }));
    assert!(matches!(
        failed(&Error::Offline),
        Reply::Failed { title, .. } if title == "Mouse is asleep"
    ));
}

#[test]
fn only_a_rejected_setting_is_read_again() {
    assert!(rereads(&Reply::Rejected("DPI failed".to_string())));
    assert!(!rereads(&Reply::Toast("DPI → 800".to_string())));
    assert!(!rereads(&Reply::Status(ten())));
    assert!(!rereads(&failed(&Error::Offline)));
}

#[test]
fn a_switch_that_was_not_read_is_left_alone() {
    let mut status = ten();
    assert_eq!(panel(&status).motion_sync, Some(true));
    status.motion_sync = None;
    assert_eq!(panel(&status).motion_sync, None);
}
