use ninjutso::protocol::{
    build_request, cmd, control_payload, decode_dpi, decode_firmware, decode_polling, encode_dpi,
    encode_polling, hex_to_rgb, is_profile_command, response_value, rgb_to_hex, PAYLOAD_LEN,
    POLLING_RATES, REPORT_ID,
};
use ninjutso::transport::{hidiocgfeature, hidiocsfeature};
use ninjutso::Error;

#[test]
fn device_ioctl_requests_match_the_kernel_definitions() {
    // HIDIOCSFEATURE(16) / HIDIOCGFEATURE(16) as the hidraw uapi header
    // spells them: _IOC(_IOC_WRITE|_IOC_READ, 'H', 0x06|0x07, len).
    assert_eq!(hidiocsfeature(16), 0xC010_4806);
    assert_eq!(hidiocgfeature(16), 0xC010_4807);
}

#[test]
fn transport_ioctl_requests_match_the_kernel_definitions() {
    assert_eq!(hidiocsfeature(16), 0xC010_4806);
    assert_eq!(hidiocgfeature(16), 0xC010_4807);
}

#[test]
fn request_header_matches_the_web_panel() {
    let request = build_request(cmd::DPI, 1, &[2]).unwrap();
    assert_eq!(&request[..8], &[cmd::DPI, 0, 0, 1, 0, 1, 1, 2]);
    assert_eq!(request.len(), PAYLOAD_LEN);
}

#[test]
fn request_rejects_more_than_eight_arguments() {
    assert!(build_request(cmd::DPI, 0, &[0; 9]).is_err());
}

#[test]
fn eight_arguments_fill_a_request() {
    let request = build_request(cmd::SET_DPI, 3, &[1, 2, 3, 4, 5, 6, 7, 8]).unwrap();
    assert_eq!(request, [cmd::SET_DPI, 0, 0, 1, 0, 8, 3, 1, 2, 3, 4, 5, 6, 7, 8]);
    let error = build_request(cmd::DPI, 0, &[0; 9]).unwrap_err();
    assert_eq!(error.message(), "at most eight argument bytes");
    assert!(matches!(error, Error::Protocol(_)));
}

#[test]
fn different_requests_go_out_as_different_reports() {
    let sent = |command: u8, profile: u8, args: &[u8]| build_request(command, profile, args).unwrap();
    assert_ne!(sent(4, 1, &[0]), sent(4, 1, &[]));
    assert_ne!(sent(4, 1, &[2]), sent(4, 2, &[2]));
    assert_ne!(sent(4, 1, &[2]), sent(6, 1, &[2]));
}

#[test]
fn response_is_matched_by_command() {
    let mut buf = [0u8; 16];
    buf[0] = REPORT_ID;
    buf[1] = cmd::BATTERY_PERCENT;
    buf[8] = 82;
    assert_eq!(response_value(&buf, cmd::BATTERY_PERCENT).unwrap()[0], 82);
    assert!(response_value(&buf, cmd::DPI).is_none());
    assert!(response_value(&buf[..4], cmd::BATTERY_PERCENT).is_none());
}

#[test]
fn a_response_is_everything_behind_the_header() {
    let buf = [6u8, 4, 2, 3, 4, 5, 6, 7, 8, 9];
    assert_eq!(response_value(&buf, 4).unwrap(), &[8, 9]);
    assert_eq!(response_value(&buf[..9], 4).unwrap(), &[8]);
    assert!(response_value(&buf[..8], 4).is_none());
}

#[test]
fn dpi_round_trips_in_both_encodings() {
    let [low, high, tenth] = encode_dpi(1600, false).unwrap();
    assert_eq!(decode_dpi(low, high, tenth, false), 16000);
    let [low, high, tenth] = encode_dpi(1601, true).unwrap();
    assert_eq!(decode_dpi(low, high, tenth, true), 16010);
}

#[test]
fn dpi_bounds_and_step_are_enforced() {
    assert!(encode_dpi(1625, false).is_err()); // not a multiple of 50
    assert!(encode_dpi(30_050, false).is_err()); // above the ceiling
    assert!(encode_dpi(1625, true).is_ok()); // Sora V3 takes 1-DPI steps
}

#[test]
fn dpi_bytes_are_exact() {
    assert_eq!(encode_dpi(1600, false).unwrap(), [31, 0, 0]);
    assert_eq!(encode_dpi(30_000, false).unwrap(), [0x57, 0x02, 0]);
    assert_eq!(encode_dpi(36_000, true).unwrap(), [0xA0, 0x8C, 0]);
    assert_eq!(decode_dpi(0x64, 0x00, 5, true), 1005);
    assert_eq!(decode_dpi(31, 0, 5, false), 16000);
}

#[test]
fn polling_rate_round_trips_and_falls_back() {
    for rate in POLLING_RATES {
        assert_eq!(decode_polling(encode_polling(rate).unwrap()), rate);
    }
    assert_eq!(decode_polling(0), 1000); // out of range -> documented default
    assert_eq!(decode_polling(9), 1000);
    assert!(encode_polling(500).is_err());
}

#[test]
fn firmware_bytes_are_reversed_into_a_version() {
    assert_eq!(decode_firmware(&[0x13, 0x16, 0xAE, 0x00]), "AE1613");
    assert_eq!(decode_firmware(&[0x07, 0x02]), "0207");
}

#[test]
fn colours_round_trip() {
    assert_eq!(hex_to_rgb("#36ad6a").unwrap(), [0x36, 0xAD, 0x6A]);
    assert_eq!(rgb_to_hex(0x36, 0xAD, 0x6A), "#36ad6a");
    assert!(hex_to_rgb("#36ad6").is_err());
}

#[test]
fn colours_are_read_in_either_case_and_without_a_hash() {
    assert_eq!(hex_to_rgb("36AD6A").unwrap(), [0x36, 0xAD, 0x6A]);
    for text in ["", "#", "#36ad6a0", "##36ad6", "#36ad6g", "36é6a", "#+1+2+3", "+f00ff"] {
        assert_eq!(
            hex_to_rgb(text).unwrap_err().message(),
            "colour must be six hex digits"
        );
    }
}

#[test]
fn only_profile_commands_are_scoped() {
    assert!(is_profile_command(cmd::DPI));
    assert!(is_profile_command(cmd::LIGHTING_BRIGHTNESS));
    assert!(!is_profile_command(cmd::BATTERY_PERCENT));
    assert!(!is_profile_command(cmd::ONLINE));
}

#[test]
fn the_control_report_is_mostly_padding() {
    let payload = control_payload(true);
    assert_eq!(payload.len(), 63);
    assert_ne!(payload, control_payload(false));
}

#[test]
fn every_error_reads_as_a_sentence() {
    let path = "/dev/hidraw3".to_string();
    assert_eq!(
        Error::DeviceNotFound.message(),
        "No Ninjutso config interface found. Is the receiver plugged in?"
    );
    assert_eq!(
        Error::PermissionDenied { path }.message(),
        "/dev/hidraw3 is not readable by you -- install 70-ninjutso.rules and replug the receiver."
    );
    assert_eq!(Error::Timeout(0x1c).message(), "device did not answer command 0x1c");
    assert_eq!(
        Error::Offline.message(),
        "mouse is not connected to the receiver -- move or click it to wake it"
    );
    assert_eq!(Error::Io("gone".to_string()).message(), "gone");
    assert!(Error::DeviceNotFound.is_access_problem());
    assert!(!Error::Offline.is_access_problem());
    assert!(Error::Offline.is_offline());
    assert!(!Error::Timeout(1).is_offline());
}
