use ninjutso::device::discovery::{
    find_nodes, first_node, lookup, node_at, open_failure, uevent, Entry, Node,
};
use ninjutso::device::Device;
use ninjutso::protocol::{self as p, cmd};
use ninjutso::transport::fake::Fake;
use ninjutso::transport::Transport;
use ninjutso::Error;

fn device_with(product_id: u16, fake: Fake) -> Device<Fake> {
    let node = Node {
        path: "/dev/hidraw9".to_string(),
        product_id,
        name: "Ninjutso Inc. Ten".to_string(),
    };
    Device::open_node(node, fake)
}

fn receiver(fake: Fake) -> Device<Fake> {
    device_with(0xEB01, fake)
}

/// A channel on which nothing works.
struct Broken;

impl Transport for Broken {
    fn set_feature(&mut self, _report_id: u8, _payload: &[u8]) -> Result<(), Error> {
        Err(Error::Io("No such device".to_string()))
    }

    fn get_feature(&mut self, _report_id: u8, _length: usize) -> Result<Vec<u8>, Error> {
        Err(Error::Io("No such device".to_string()))
    }

    fn sleep(&mut self, _millis: u64) {}
}

// -- discovery ----------------------------------------------------------------

#[test]
fn uevent_parsing_survives_junk_lines() {
    let fields = vec![("HID_ID".to_string(), "0003:0000093A:0000EB01".to_string())];
    assert_eq!(lookup(&fields, "HID_ID"), Some("0003:0000093A:0000EB01"));
    assert_eq!(lookup(&fields, "HID_NAME"), None);
}

#[test]
fn uevent_lines_without_an_equals_sign_are_passed_over() {
    let fields = uevent("junk\nHID_ID=a=b\r\n\nHID_NAME=\nHID_ID=second\r");
    let expected: Vec<(String, String)> = [("HID_ID", "a=b"), ("HID_NAME", ""), ("HID_ID", "second\r")]
        .iter()
        .map(|(k, v)| (k.to_string(), v.to_string()))
        .collect();
    assert_eq!(fields, expected);
    assert_eq!(lookup(&fields, "HID_ID"), Some("a=b"));
}

const DESCRIPTOR: [u8; 12] = [
    0x05, 0x06, 0x01, 0xFF, 0x09, 0x01, 0xA1, 0x01, 0x85, 0x06, 0x95, 0x0F,
];

fn entry(name: &str, uevent: &str, descriptor: Option<&[u8]>) -> Entry {
    Entry {
        name: name.to_string(),
        uevent: uevent.to_string(),
        descriptor: descriptor.map(|bytes| bytes.to_vec()),
    }
}

#[test]
fn only_the_config_interface_of_the_vendor_is_found() {
    let id = "HID_ID=0003:0000093A:0000EB01\nHID_NAME=Ninjutso Inc. Ten\n";
    let entries = vec![
        entry("hidraw2", id, Some(&DESCRIPTOR)),
        entry("hidraw10", "HID_ID=0003:0001093A:0002EB02", Some(&DESCRIPTOR)),
        entry("hidraw0", id, Some(&DESCRIPTOR[2..])),
        entry("hidraw1", id, None),
        entry("hidraw3", "HID_ID=0003:0000093B:0000EB01", Some(&DESCRIPTOR)),
        entry("hidraw4", "HID_ID=0003:0000093A", Some(&DESCRIPTOR)),
        entry("hidraw5", "HID_ID=0003:0000093A:EB01:0", Some(&DESCRIPTOR)),
        entry("hidraw6", "HID_ID=0003:10000093A:EB01", Some(&DESCRIPTOR)),
        entry("hidraw7", "HID_ID=0003:0000093A:", Some(&DESCRIPTOR)),
        entry("hidraw8", "HID_NAME=nothing else", Some(&DESCRIPTOR)),
        entry("hidraw9", "HID_ID=3:+93a:eb01", Some(&DESCRIPTOR[..10])),
    ];
    let nodes = find_nodes(&entries, p::VENDOR_ID);
    let found: Vec<(&str, u16, &str)> = nodes
        .iter()
        .map(|node| (node.path.as_str(), node.product_id, node.name.as_str()))
        .collect();
    assert_eq!(
        found,
        [
            ("/dev/hidraw10", 0xEB02, "Ninjutso device"),
            ("/dev/hidraw2", 0xEB01, "Ninjutso Inc. Ten"),
            ("/dev/hidraw9", 0xEB01, "Ninjutso device"),
        ]
    );
    assert_eq!(first_node(nodes.clone()).unwrap().path, "/dev/hidraw10");
    assert_eq!(node_at(nodes.clone(), "/dev/hidraw2".to_string()).product_id, 0xEB01);
    let unknown = node_at(nodes, "/dev/hidraw77".to_string());
    assert_eq!(unknown.path, "/dev/hidraw77");
    assert_eq!(unknown.product_id, 0);
    assert_eq!(unknown.name, "Ninjutso device");
}

#[test]
fn a_path_is_known_however_it_is_written() {
    let nodes = vec![Node {
        path: "/dev/hidraw3".to_string(),
        product_id: 0xEB01,
        name: "Ninjutso Inc. Ten".to_string(),
    }];
    for path in ["/dev/hidraw3", "/dev//hidraw3", "/dev/./hidraw3", "//dev/hidraw3/", "/./dev/hidraw3/."] {
        let node = node_at(nodes.clone(), path.to_string());
        assert_eq!(node.product_id, 0xEB01, "{path}");
        assert_eq!(node.path, "/dev/hidraw3");
    }
    for path in ["", "/", "dev/hidraw3", "./dev/hidraw3", "/dev/hidraw", "/dev/../dev/hidraw3", "/dev/hidraw3/x"] {
        let node = node_at(nodes.clone(), path.to_string());
        assert_eq!(node.product_id, 0, "{path}");
        assert_eq!(node.path, path);
    }
    let here = vec![Node { path: "./hidraw3".to_string(), product_id: 0xEB02, name: String::new() }];
    assert_eq!(node_at(here.clone(), ".//hidraw3".to_string()).product_id, 0xEB02);
    assert_eq!(node_at(here, "hidraw3".to_string()).product_id, 0);
}

#[test]
fn nothing_attached_is_an_access_problem() {
    let error = first_node(find_nodes(&Vec::new(), p::VENDOR_ID)).unwrap_err();
    assert!(matches!(error, Error::DeviceNotFound));
}

#[test]
fn a_node_that_cannot_be_opened_says_why() {
    let path = "/dev/hidraw1".to_string();
    let denied = open_failure(path.clone(), true, "nope".to_string());
    assert!(matches!(denied, Error::PermissionDenied { path } if path == "/dev/hidraw1"));
    let gone = open_failure(path, false, "No such file".to_string());
    assert!(matches!(gone, Error::Io(text) if text == "No such file"));
}

// -- status -------------------------------------------------------------------

#[test]
fn a_ten_reports_everything_it_holds() {
    let mut device = receiver(Fake::ten());
    let status = device.status().unwrap();
    assert_eq!(status.name, "Ninjutso Inc. Ten");
    assert_eq!(status.path, "/dev/hidraw9");
    assert_eq!(status.product_id, 0xEB01);
    assert_eq!(status.effective_product_id, 0xE020);
    assert!(!status.direct);
    assert_eq!(status.profile, 1);
    assert_eq!(status.dpi_stage, 0);
    assert_eq!(status.dpi_stages, [16000; 4]);
    assert_eq!(status.dpi, Some(16000));
    assert_eq!(status.polling_rate, 1000);
    assert_eq!(status.lift_off, Some("Medium"));
    assert_eq!(status.motion_sync, Some(true));
    assert_eq!(status.angle_tuning, Some(false));
    assert_eq!(status.system_mode, Some("High Speed"));
    assert_eq!(status.sleep_minutes, Some(2));
    assert_eq!(status.battery, Some(73));
    assert_eq!(status.charging, Some(false));
    assert!(status.is_receiver);
    assert_eq!(status.firmware[0], ("mouse", "000103".to_string()));
    assert_eq!(status.firmware[1], ("receiver", "000207".to_string()));
    let light = status.lighting.unwrap();
    assert_eq!(light.mode, "Static");
    assert_eq!(light.color.as_deref(), Some("#36ad6a"));
    assert_eq!(light.speed, Some(10));
    assert_eq!(light.brightness, None);
}

#[test]
fn a_full_status_costs_twenty_one_round_trips_and_a_battery_two() {
    let mut device = receiver(Fake::ten());
    device.status().unwrap();
    let first = device.transport().requests();
    device.status().unwrap();
    // The paired product id is read once and kept.
    assert_eq!(first, 22);
    assert_eq!(device.transport().requests() - first, 21);

    let mut device = receiver(Fake::ten());
    assert_eq!(device.battery(), (Some(73), Some(false)));
    assert_eq!(device.transport().requests(), 2);
    assert_eq!(device.transport().elapsed(), 60);
}

#[test]
fn a_sora_v3_reads_past_the_tens_ceiling() {
    let mut device = receiver(Fake::sora_v3());
    let status = device.status().unwrap();
    assert!(status.direct);
    assert_eq!(status.dpi, Some(360_000));
    assert_eq!(status.lighting.unwrap().brightness, Some(50));
}

#[test]
fn a_wired_mouse_has_no_receiver_parts() {
    let mut device = device_with(0xE020, Fake::ten());
    let status = device.status().unwrap();
    assert!(!status.is_receiver);
    assert_eq!(status.effective_product_id, 0xE020);
    assert_eq!(status.firmware.len(), 1);
    assert!(status.lighting.is_none());
}

#[test]
fn an_unanswered_battery_is_no_reading() {
    let mut fake = Fake::ten();
    fake.silence(cmd::BATTERY_PERCENT);
    fake.silence(cmd::BATTERY_CHARGING);
    let mut device = receiver(fake);
    assert_eq!(device.battery(), (None, None));
    let status = device.status().unwrap();
    assert_eq!(status.battery, None);
    assert_eq!(status.charging, None);
}

#[test]
fn a_battery_never_reads_past_full() {
    let mut fake = Fake::ten();
    fake.set(cmd::BATTERY_PERCENT, 0, &[250]);
    let mut device = receiver(fake);
    assert_eq!(device.battery().0, Some(100));
    assert_eq!(device.status().unwrap().battery, Some(100));
}

#[test]
fn the_profile_that_is_read_goes_out_with_what_follows() {
    let mut fake = Fake::ten();
    fake.set(cmd::PROFILE, 0, &[0]);
    let mut device = receiver(fake);
    assert_eq!(device.status().unwrap().profile, 1);
    let mut fake = Fake::ten();
    fake.set(cmd::PROFILE, 0, &[3]);
    let mut device = receiver(fake);
    assert_eq!(device.status().unwrap().profile, 3);
}

#[test]
fn stages_end_at_the_first_that_is_not_answered() {
    let mut fake = Fake::new();
    fake.set(cmd::PROFILE, 0, &[1]);
    fake.set(cmd::PAIRED_PRODUCT_ID, 0, &[0x20, 0xE0]);
    fake.set(cmd::ACTIVE_DPI_STAGE, 0, &[3]);
    fake.set(cmd::DPI_STAGE_COUNT, 0, &[9]);
    fake.set(cmd::POLLING_RATE, 0, &[4]);
    fake.set(cmd::DPI, 0, &[15, 0, 0]);
    fake.set(cmd::DPI, 1, &[31, 0, 0]);
    fake.set(cmd::DPI, 3, &[63, 0, 0]);
    let mut device = receiver(fake);
    let status = device.status().unwrap();
    assert_eq!(status.dpi_stages, [8000, 16000]);
    assert_eq!(status.dpi_stage, 3);
    assert_eq!(status.dpi, None);
    assert_eq!(status.polling_rate, 8000);
    assert!(status.firmware.is_empty());
}

// -- asleep or dead -----------------------------------------------------------

#[test]
fn a_sleeping_mouse_is_told_apart_from_a_dead_receiver() {
    let mut fake = Fake::ten();
    fake.silence(cmd::PROFILE);
    fake.set(cmd::ONLINE, 0, &[0]);
    let mut device = receiver(fake);
    assert!(device.status().unwrap_err().is_offline());

    let mut fake = Fake::ten();
    fake.silence(cmd::PROFILE);
    fake.silence(cmd::ONLINE);
    let mut device = receiver(fake);
    assert!(matches!(device.status().unwrap_err(), Error::Timeout(cmd::PROFILE)));

    let mut fake = Fake::ten();
    fake.silence(cmd::PROFILE);
    let mut device = receiver(fake);
    assert!(matches!(device.status().unwrap_err(), Error::Timeout(cmd::PROFILE)));

    // A wired mouse has nobody to ask.
    let mut fake = Fake::ten();
    fake.silence(cmd::PROFILE);
    fake.set(cmd::ONLINE, 0, &[0]);
    let mut device = device_with(0xE020, fake);
    assert!(matches!(device.status().unwrap_err(), Error::Timeout(cmd::PROFILE)));
}

#[test]
fn a_read_is_retried_within_its_budget() {
    let mut fake = Fake::ten();
    fake.silence(cmd::POLLING_RATE);
    let mut device = device_with(0xE020, fake);
    assert!(device.read(cmd::POLLING_RATE, &[], 4).is_err());
    assert_eq!(device.transport().requests(), 4);
    assert_eq!(device.transport().elapsed(), 30 + 60 + 60 + 60);
    assert!(device.read_optional(cmd::POLLING_RATE, &[]).is_none());
    assert_eq!(device.transport().requests(), 5);
    assert_eq!(device.read(cmd::LIFT_OFF, &[], 1).unwrap(), [1, 0, 0, 0, 0, 0, 0, 0]);
    assert!(matches!(
        device.read(cmd::LIFT_OFF, &[0; 9], 1).unwrap_err(),
        Error::Protocol(_)
    ));
}

#[test]
fn a_broken_channel_is_reported_as_it_is() {
    let node = Node {
        path: "/dev/hidraw0".to_string(),
        product_id: 0xEB01,
        name: "x".to_string(),
    };
    let mut device = Device::open_node(node, Broken);
    assert!(matches!(device.status().unwrap_err(), Error::Io(_)));
    assert!(matches!(device.set_polling_rate(1000).unwrap_err(), Error::Io(_)));
    assert!(matches!(device.set_control(true).unwrap_err(), Error::Io(_)));
    assert_eq!(device.battery(), (None, None));
}

// -- setters ------------------------------------------------------------------

#[test]
fn setting_a_dpi_reads_it_back() {
    let mut device = receiver(Fake::ten());
    assert_eq!(device.set_dpi(800, None).unwrap(), 8000);
    assert_eq!(device.transport().wrote(cmd::SET_DPI), Some(vec![0, 15, 0, 0]));
    assert_eq!(device.set_dpi(400, Some(2)).unwrap(), 4000);
    assert_eq!(device.transport().wrote(cmd::SET_DPI), Some(vec![2, 7, 0, 0]));
    let status = device.status().unwrap();
    assert_eq!(status.dpi_stages, [8000, 16000, 4000, 16000]);
    assert!(matches!(device.set_dpi(825, None).unwrap_err(), Error::Protocol(_)));
    assert!(matches!(device.set_dpi(0, None).unwrap_err(), Error::Protocol(_)));
}

#[test]
fn a_sora_v3_takes_single_steps_past_thirty_thousand() {
    let mut device = receiver(Fake::sora_v3());
    assert_eq!(device.set_dpi(44_999, Some(1)).unwrap(), 449_990);
    assert_eq!(
        device.transport().wrote(cmd::SET_DPI),
        Some(vec![1, 0xC7, 0xAF, 0])
    );
}

#[test]
fn every_other_setter_reads_back_too() {
    let mut device = receiver(Fake::sora_v3());
    assert_eq!(device.set_polling_rate(4000).unwrap(), 4000);
    assert_eq!(device.transport().wrote(cmd::SET_POLLING_RATE), Some(vec![3]));
    assert_eq!(device.set_lift_off("High").unwrap(), "High");
    assert!(!device.set_motion_sync(false).unwrap());
    assert!(device.set_motion_sync(true).unwrap());
    assert_eq!(device.set_brightness(75).unwrap(), Some(75));
    assert_eq!(device.set_light_mode("Wave").unwrap(), Some("Wave"));
    assert_eq!(device.transport().wrote(cmd::SET_LIGHTING_STATE), Some(vec![1]));
    assert_eq!(device.transport().wrote(cmd::SET_LIGHTING_MODE), Some(vec![3]));
    assert_eq!(device.set_color("#0c7a43").unwrap().as_deref(), Some("#0c7a43"));
    assert_eq!(device.set_light_mode("Off").unwrap(), Some("Off"));
    assert_eq!(device.transport().wrote(cmd::SET_LIGHTING_STATE), Some(vec![0]));
}

#[test]
fn what_no_device_takes_is_refused_before_anything_is_written() {
    let mut device = receiver(Fake::ten());
    assert_eq!(
        device.set_lift_off("Lowest").unwrap_err().message(),
        "unknown lift-off distance Lowest"
    );
    assert_eq!(
        device.set_light_mode("Disco").unwrap_err().message(),
        "unknown light mode Disco"
    );
    assert_eq!(
        device.set_color("green").unwrap_err().message(),
        "colour must be six hex digits"
    );
    assert!(device.set_polling_rate(500).is_err());
    assert_eq!(device.transport().requests(), 0);
}

#[test]
fn a_ten_has_no_brightness() {
    let mut device = receiver(Fake::ten());
    assert!(!device.supports_brightness().unwrap());
    let error = device.set_brightness(50).unwrap_err();
    assert!(matches!(error, Error::Unsupported(_)));
    assert_eq!(
        error.message(),
        "This receiver has no brightness control -- the TEN answers lighting state, mode, colour \
         and speed, but not brightness."
    );
    assert_eq!(device.transport().wrote(cmd::SET_LIGHTING_BRIGHTNESS), None);
}

#[test]
fn a_write_that_is_not_confirmed_is_not_a_success() {
    let mut fake = Fake::ten();
    fake.silence(cmd::POLLING_RATE);
    let mut device = receiver(fake);
    assert!(matches!(
        device.set_polling_rate(2000).unwrap_err(),
        Error::Timeout(cmd::POLLING_RATE)
    ));
    let mut fake = Fake::ten();
    fake.silence(cmd::LIGHTING_STATE);
    let mut device = receiver(fake);
    assert_eq!(device.set_light_mode("Wave").unwrap(), None);
    assert_eq!(device.set_color("#ffffff").unwrap(), None);
    let mut fake = Fake::ten();
    fake.silence(cmd::LIGHTING_COLOR);
    let mut device = receiver(fake);
    assert_eq!(device.set_color("#ffffff").unwrap(), None);
}

#[test]
fn an_unknown_lighting_mode_reads_as_static() {
    let mut fake = Fake::ten();
    fake.set(cmd::LIGHTING_MODE, 0, &[0]);
    assert_eq!(receiver(fake).read_lighting().unwrap().unwrap().mode, "Static");
    let mut fake = Fake::ten();
    fake.set(cmd::LIGHTING_MODE, 0, &[9]);
    assert_eq!(receiver(fake).read_lighting().unwrap().unwrap().mode, "Static");
    let mut fake = Fake::ten();
    fake.set(cmd::LIGHTING_SPEED, 0, &[30]);
    assert_eq!(receiver(fake).read_lighting().unwrap().unwrap().speed, Some(0));
}

#[test]
fn the_control_report_is_not_a_request() {
    let mut device = receiver(Fake::ten());
    device.set_control(false).unwrap();
    assert_eq!(device.transport().requests(), 0);
    assert_eq!(device.transport().elapsed(), 30);
    device.write(cmd::SET_LIFT_OFF, &[2]).unwrap();
    assert_eq!(device.transport().wrote(cmd::SET_LIFT_OFF), Some(vec![2]));
}
