use ninjutso::cli::light::{cmd_light, LightArgs};
use ninjutso::cli::versions::{queries, report_versions};
use ninjutso::cli::{
    cmd_dpi, cmd_lod, cmd_rate, cmd_stages, cmd_status, error_line, exit_code, parse_brightness,
    parse_rate, report, Output,
};
use ninjutso::device::discovery::Node;
use ninjutso::device::Device;
use ninjutso::firmware::{latest_for, request_url, Reply};
use ninjutso::protocol::cmd;
use ninjutso::transport::fake::Fake;
use ninjutso::Error;

fn device(fake: Fake) -> Device<Fake> {
    let node = Node {
        path: "/dev/hidraw9".to_string(),
        product_id: 0xEB01,
        name: "Ninjutso Inc. Ten".to_string(),
    };
    Device::open_node(node, fake)
}

#[test]
fn rates_and_levels_are_those_there_are() {
    assert_eq!(parse_rate("4000"), Ok(4000));
    assert_eq!(parse_rate("+1000"), Ok(1000));
    assert_eq!(
        parse_rate("500"),
        Err("possible values: 1000, 2000, 4000, 8000".to_string())
    );
    assert_eq!(parse_rate("fast"), Err("invalid number fast".to_string()));
    assert_eq!(parse_rate(""), Err("invalid number ".to_string()));
    assert_eq!(
        parse_rate("4294967296"),
        Err("invalid number 4294967296".to_string())
    );
    assert_eq!(parse_brightness("75"), Ok(75));
    assert_eq!(
        parse_brightness("0"),
        Err("possible values: 25, 50, 75, 100".to_string())
    );
    assert_eq!(parse_brightness("256"), Err("invalid number 256".to_string()));
}

#[test]
fn a_report_says_whether_the_device_confirmed() {
    let mut out = Output::new();
    assert_eq!(report("Report rate", "1000", Some("2000"), " Hz", &mut out), 0);
    assert_eq!(report("Colour", "—", None, "", &mut out), 1);
    assert_eq!(
        out.lines,
        [
            "  Report rate 1000 Hz → 2000 Hz  ✓ confirmed by device",
            "  Colour: device did not confirm",
        ]
    );
}

#[test]
fn errors_exit_by_kind() {
    assert_eq!(exit_code(&Error::DeviceNotFound), 2);
    assert_eq!(exit_code(&Error::PermissionDenied { path: String::new() }), 2);
    assert_eq!(exit_code(&Error::Offline), 1);
    assert_eq!(error_line(&Error::Timeout(4)), "error: device did not answer command 0x04");
}

#[test]
fn status_prints_everything() {
    let mut out = Output::new();
    assert_eq!(cmd_status(&mut device(Fake::ten()), &mut out).unwrap(), 0);
    assert_eq!(
        out.lines,
        [
            "  Ten  (/dev/hidraw9, 093a:eb01)",
            "  Battery    73%   not charging",
            "  DPI        1600  stage 1 of 4   [1600, 1600, 1600, 1600]",
            "  Report     1000 Hz",
            "  Lift-off   Medium",
            "  Motion     on",
            "  Mode       High Speed",
            "  Light      Static  #36ad6a  —",
            "  Firmware   mouse 000103 · receiver 000207",
        ]
    );
}

#[test]
fn status_does_not_print_what_it_did_not_read() {
    let mut fake = Fake::ten();
    for command in [
        cmd::BATTERY_PERCENT,
        cmd::BATTERY_CHARGING,
        cmd::LIFT_OFF,
        cmd::MOTION_SYNC,
        cmd::SYSTEM_MODE,
        cmd::LIGHTING_STATE,
        cmd::FIRMWARE,
    ] {
        fake.silence(command);
    }
    let mut out = Output::new();
    cmd_status(&mut device(fake), &mut out).unwrap();
    assert_eq!(out.lines.len(), 6);
    assert_eq!(out.lines[1], "  Battery    no reading   charging status unavailable");
    assert_eq!(out.lines[4], "  Lift-off   —");
    assert_eq!(out.lines[5], "  Motion     —");

    // The stage that is active lies past those that were read.
    let mut fake = Fake::ten();
    fake.set(cmd::ACTIVE_DPI_STAGE, 0, &[3]);
    fake.set(cmd::DPI_STAGE_COUNT, 0, &[2]);
    let mut out = Output::new();
    cmd_status(&mut device(fake), &mut out).unwrap();
    assert_eq!(out.lines[2], "  DPI        —  stage 4 of 2   [1600, 1600]");

    let mut fake = Fake::ten();
    fake.silence(cmd::PROFILE);
    let mut out = Output::new();
    assert!(cmd_status(&mut device(fake), &mut out).is_err());
    assert!(out.lines.is_empty());
}

#[test]
fn stages_marks_the_active_one() {
    let mut fake = Fake::ten();
    fake.set(cmd::ACTIVE_DPI_STAGE, 0, &[1]);
    fake.set(cmd::DPI_STAGE_COUNT, 0, &[2]);
    fake.set(cmd::DPI, 0, &[15, 0, 0]);
    let mut out = Output::new();
    assert_eq!(cmd_stages(&mut device(fake), &mut out).unwrap(), 0);
    assert_eq!(
        out.lines,
        ["    stage 1   800", "  * stage 2   1600", "\n  * = active stage"]
    );
}

#[test]
fn dpi_sets_the_active_stage_or_the_one_that_is_named() {
    let mut held = device(Fake::ten());
    let mut out = Output::new();
    assert_eq!(cmd_dpi(&mut held, 800, None, &mut out).unwrap(), 0);
    assert_eq!(cmd_dpi(&mut held, 400, Some(3), &mut out).unwrap(), 0);
    assert_eq!(
        out.lines,
        [
            "  Stage 1 DPI 1600 → 800  ✓ confirmed by device",
            "  Stage 3 DPI (inactive) 1600 → 400  ✓ confirmed by device",
        ]
    );
    assert!(out.errors.is_empty());
    let mut fake = Fake::ten();
    fake.set(cmd::DPI_STAGE_COUNT, 0, &[2]);
    let mut held = device(fake);
    assert_eq!(cmd_dpi(&mut held, 800, Some(3), &mut out).unwrap(), 2);
    assert_eq!(out.errors, ["error: this mouse has 2 DPI stages"]);
    assert_eq!(held.transport().wrote(cmd::SET_DPI), None);
    assert!(cmd_dpi(&mut held, 801, None, &mut out).is_err());
}

#[test]
fn rate_and_lift_off_report_before_and_after() {
    let mut held = device(Fake::ten());
    let mut out = Output::new();
    assert_eq!(cmd_rate(&mut held, 8000, &mut out).unwrap(), 0);
    assert_eq!(cmd_lod(&mut held, "High", &mut out).unwrap(), 0);
    assert_eq!(
        out.lines,
        [
            "  Report rate 1000 Hz → 8000 Hz  ✓ confirmed by device",
            "  Lift-off Medium → High  ✓ confirmed by device",
        ]
    );
    assert!(cmd_lod(&mut held, "Highest", &mut out).is_err());
    let mut fake = Fake::ten();
    fake.silence(cmd::PROFILE);
    assert!(cmd_rate(&mut device(fake), 8000, &mut out).is_err());
    assert_eq!(out.lines.len(), 2);
}

fn light(mode: Option<&str>, color: Option<&str>, brightness: Option<u8>) -> LightArgs {
    LightArgs {
        mode: mode.map(str::to_string),
        color: color.map(str::to_string),
        brightness,
    }
}

#[test]
fn light_changes_what_was_asked_for() {
    let mut held = device(Fake::sora_v3());
    let mut out = Output::new();
    let all = light(Some("Wave"), Some("#0c7a43"), Some(100));
    assert_eq!(cmd_light(&mut held, &all, &mut out).unwrap(), 0);
    assert_eq!(
        out.lines,
        [
            "  Light mode Static → Wave  ✓ confirmed by device",
            "  Colour #36ad6a → #0c7a43  ✓ confirmed by device",
            "  Brightness 50% → 100%  ✓ confirmed by device",
        ]
    );
    let mut out = Output::new();
    assert_eq!(cmd_light(&mut held, &light(None, None, None), &mut out).unwrap(), 0);
    assert!(out.lines.is_empty());
}

#[test]
fn light_says_what_did_not_work_and_keeps_what_did() {
    let mut out = Output::new();
    let mut held = device(Fake::ten());
    let args = light(Some("Wave"), None, Some(50));
    assert_eq!(cmd_light(&mut held, &args, &mut out).unwrap(), 1);
    assert_eq!(out.lines[0], "  Light mode Static → Wave  ✓ confirmed by device");
    assert!(out.lines[1].starts_with("  This receiver has no brightness control"));

    let mut fake = Fake::ten();
    fake.silence(cmd::LIGHTING_STATE);
    let mut out = Output::new();
    assert_eq!(cmd_light(&mut device(fake), &args, &mut out).unwrap(), 1);
    assert_eq!(out.lines[0], "  Light mode: device did not confirm");

    let mut out = Output::new();
    let args = light(Some("Wave"), Some("green"), Some(50));
    assert!(cmd_light(&mut held, &args, &mut out).is_err());
    assert_eq!(out.lines.len(), 1, "what was done before is still reported");
    assert!(cmd_light(&mut held, &light(Some("Disco"), None, None), &mut out).is_err());
}

#[test]
fn firmware_exits_non_zero_only_for_an_update() {
    let status = device(Fake::ten()).status().unwrap();
    assert_eq!(queries(&status, false), [0xE020, 0xEB01]);
    assert!(queries(&status, true).is_empty());

    let mut out = Output::new();
    let latest = vec![Some("000103".to_string()), Some("000208".to_string())];
    assert_eq!(report_versions(&status, false, &latest, &mut out), 1);
    assert_eq!(
        out.lines,
        [
            "  Mouse     000103   latest 000103   up to date",
            "  Receiver  000207   latest 000208   UPDATE AVAILABLE",
            "\n  Updating is Windows-only -- Ninjutso ship firmware as an .exe.\n  This tool never writes firmware.",
        ]
    );

    let mut out = Output::new();
    let latest = vec![None, Some("000207".to_string())];
    assert_eq!(report_versions(&status, false, &latest, &mut out), 0);
    assert_eq!(
        out.lines,
        [
            "  Mouse     000103  (latest unknown)",
            "  Receiver  000207   latest 000207   up to date",
            "\n  Could not reach Ninjutso's version service; installed versions shown above.",
            "\n  This tool never writes firmware; flashing is Windows-only.",
        ]
    );

    let mut out = Output::new();
    assert_eq!(report_versions(&status, true, &Vec::new(), &mut out), 0);
    assert_eq!(out.lines[0], "  Mouse     000103");
    assert_eq!(out.lines.len(), 3);

    let mut fake = Fake::ten();
    fake.silence(cmd::FIRMWARE);
    let status = device(fake).status().unwrap();
    let mut out = Output::new();
    assert_eq!(report_versions(&status, false, &Vec::new(), &mut out), 0);
    assert_eq!(out.lines, ["  no firmware version reported"]);
}

#[test]
fn the_version_service_is_asked_in_decimal_and_believed_in_upper_case() {
    assert_eq!(
        request_url(0xE020),
        "https://api.ninjaforce.co/firmware/get_latest_version?pid=57376"
    );
    let reply = |success: bool, data: Option<&str>| {
        latest_for(Some(Reply {
            success,
            data: data.map(str::to_string),
        }))
    };
    assert_eq!(reply(true, Some("ae1613")), Some("AE1613".to_string()));
    assert_eq!(reply(true, Some("größe")), Some("GRÖSSE".to_string()));
    assert_eq!(reply(true, Some("")), None);
    assert_eq!(reply(true, None), None);
    assert_eq!(reply(false, Some("ae1613")), None);
    assert_eq!(latest_for(None), None);
}
