//! Ninjutso HID protocol (Sora V3 / TEN family, "current" generation).
//!
//! Packet layout, as the TEN receiver's own report descriptor declares it:
//!
//! ```text
//! 06 01 ff  09 01  a1 01  85 06  ... 95 0f ... b1 02
//! vendor page FF01, report ID 6, 15-byte Feature report
//! ```
//!
//! Command numbering follows the NinjaForce web panel.

use vstd::prelude::*;
use vstd::string::*;
use vstd::utf8::*;

use crate::error::{Error, ErrorView};
use crate::text::{
    decimal, has_prefix, has_suffix, hex_byte, lemma_decimals_differ, push_decimal, push_hex_byte,
    push_upper_hex_byte, upper_hex_byte,
};

pub mod cmd;

verus! {

pub const REPORT_ID: u8 = 6;

pub const PAYLOAD_LEN: usize = 15;

pub const CONTROL_REPORT_ID: u8 = 3;

pub const CONTROL_PAYLOAD_LEN: usize = 63;

pub const VENDOR_ID: u16 = 0x093A;

pub const TEN_IDS: [u16; 2] = [0xE020, 0xEA01];

pub const TEN_RECEIVER_IDS: [u16; 1] = [0xEB01];

pub const SORA_V3_IDS: [u16; 2] = [0xE010, 0xEB02];

/// Commands scoped to the active profile; everything else is sent with profile 0.
pub const PROFILE_COMMANDS: [u8; 17] = [
    cmd::ACTIVE_DPI_STAGE,
    cmd::DPI_STAGE_COUNT,
    cmd::DPI,
    cmd::POLLING_RATE,
    cmd::LIFT_OFF,
    cmd::ANGLE_TUNING,
    cmd::MOTION_SYNC,
    cmd::SYSTEM_MODE,
    cmd::HYPER_CLICK,
    cmd::SLAM_CLICK,
    cmd::OPTICAL_ENGINE,
    cmd::SLEEP_MINUTES,
    cmd::LIGHTING_MODE,
    cmd::LIGHTING_COLOR,
    cmd::LIGHTING_STATE,
    cmd::LIGHTING_SPEED,
    cmd::LIGHTING_BRIGHTNESS,
];

pub const POLLING_RATES: [u32; 4] = [1000, 2000, 4000, 8000];

pub const LOD_VALUES: [&'static str; 3] = ["Low", "Medium", "High"];

pub const SYSTEM_MODES: [&'static str; 3] = ["High Speed", "Competitive", "Ultra"];

pub const LIGHT_MODES: [&'static str; 4] = ["Off", "Static", "Cycling", "Wave"];

pub const BRIGHTNESS_LEVELS: [u8; 4] = [25, 50, 75, 100];

// -- scope of a command -------------------------------------------------------

/// Whether a command is scoped to the active profile.
pub fn is_profile_command(command: u8) -> (answer: bool)
    ensures
        answer == PROFILE_COMMANDS@.contains(command),
{
    let mut i: usize = 0;
    while i < PROFILE_COMMANDS.len()
        invariant
            i <= PROFILE_COMMANDS@.len(),
            forall|j: int| 0 <= j < i ==> PROFILE_COMMANDS@[j] != command,
        decreases PROFILE_COMMANDS@.len() - i,
    {
        if PROFILE_COMMANDS[i] == command {
            assert(PROFILE_COMMANDS@[i as int] == command);
            return true;
        }
        i += 1;
    }
    false
}

/// Whether a product id is among `ids`.
pub fn one_of(ids: &[u16], id: u16) -> (answer: bool)
    ensures
        answer == ids@.contains(id),
{
    let mut i: usize = 0;
    while i < ids.len()
        invariant
            i <= ids@.len(),
            forall|j: int| 0 <= j < i ==> ids@[j] != id,
        decreases ids@.len() - i,
    {
        if ids[i] == id {
            assert(ids@[i as int] == id);
            return true;
        }
        i += 1;
    }
    false
}

// -- packets ------------------------------------------------------------------

/// A request as it goes out: the command, the argument count, the profile and
/// the arguments, padded with zeros to the length of the report.
pub open spec fn request_payload(command: u8, profile: u8, args: Seq<u8>) -> Seq<u8> {
    seq![command, 0, 0, 1, 0, args.len() as u8, profile] + args + Seq::new(
        (8 - args.len()) as nat,
        |i: int| 0u8,
    )
}

pub fn build_request(command: u8, profile: u8, args: &[u8]) -> (request: Result<
    [u8; PAYLOAD_LEN],
    Error,
>)
    ensures
        args@.len() <= 8 <==> request is Ok,
        request matches Ok(payload) ==> payload@ == request_payload(command, profile, args@),
        request matches Err(error) ==> error@ == ErrorView::Protocol(
            "at most eight argument bytes"@,
        ),
{
    if args.len() > 8 {
        return Err(Error::Protocol("at most eight argument bytes".to_owned()));
    }
    let mut payload: [u8; PAYLOAD_LEN] = [0u8; PAYLOAD_LEN];
    payload[0] = command;
    payload[3] = 1;
    payload[5] = args.len() as u8;
    payload[6] = profile;
    let mut i: usize = 0;
    while i < args.len()
        invariant
            i <= args.len() <= 8,
            payload@.len() == 15,
            payload@[0] == command,
            payload@[1] == 0,
            payload@[2] == 0,
            payload@[3] == 1,
            payload@[4] == 0,
            payload@[5] == args@.len() as u8,
            payload@[6] == profile,
            forall|j: int| 0 <= j < i ==> payload@[7 + j] == args@[j],
            forall|j: int| 7 + i <= j < 15 ==> payload@[j] == 0,
        decreases args.len() - i,
    {
        payload[7 + i] = args[i];
        i += 1;
    }
    assert forall|j: int| 0 <= j < 15 implies #[trigger] payload@[j] == request_payload(
        command,
        profile,
        args@,
    )[j] by {
        if 7 <= j < 7 + args@.len() {
            assert(payload@[7 + (j - 7)] == args@[j - 7]);
        }
    }
    assert(payload@ =~= request_payload(command, profile, args@));
    Ok(payload)
}

/// Whether a raw report answers `command`.
pub open spec fn answers(buf: Seq<u8>, command: u8) -> bool {
    buf.len() >= 9 && buf[1] == command
}

/// Value bytes of a reply, or `None` if it is not an answer to `command`.
///
/// `buf` is the raw hidraw buffer, so `buf[0]` is the report ID and the payload
/// starts at `buf[1]` -- the same indexing the WebHID DataView uses.
pub fn response_value(buf: &[u8], command: u8) -> (value: Option<&[u8]>)
    ensures
        answers(buf@, command) <==> value is Some,
        value matches Some(bytes) ==> bytes@ == buf@.skip(8),
{
    if buf.len() < 9 || buf[1] != command {
        return None;
    }
    let value = vstd::slice::slice_subrange(buf, 8, buf.len());
    assert(value@ =~= buf@.skip(8));
    Some(value)
}

/// The control report that suspends or resumes the device's own handling.
pub open spec fn control_bytes(resume: bool) -> Seq<u8> {
    (if resume {
        seq![28u8, 27, 0, 0, 1]
    } else {
        seq![27u8, 26, 0, 0, 1]
    }) + Seq::new(58, |i: int| 0u8)
}

pub fn control_payload(resume: bool) -> (payload: [u8; CONTROL_PAYLOAD_LEN])
    ensures
        payload@ == control_bytes(resume),
{
    let mut payload: [u8; CONTROL_PAYLOAD_LEN] = [0u8; CONTROL_PAYLOAD_LEN];
    payload[0] = if resume { 28 } else { 27 };
    payload[1] = if resume { 27 } else { 26 };
    payload[4] = 1;
    assert(payload@ =~= control_bytes(resume));
    payload
}

// -- DPI ----------------------------------------------------------------------

/// What the sensor accepts: multiples of 50 up to [`DPI_MAX`], or -- on a Sora
/// V3, which takes 1-DPI steps -- anything up to [`DPI_MAX_DIRECT`]. The front
/// ends bound their own inputs by these so they cannot offer an impossible DPI.
pub const DPI_MIN: u32 = 50;

pub const DPI_MAX: u32 = 30_000;

pub const DPI_MIN_DIRECT: u32 = 1;

pub const DPI_MAX_DIRECT: u32 = 45_000;

/// Whether the sensor can be set to `dpi`.
pub open spec fn valid_dpi(dpi: u32, direct: bool) -> bool {
    if direct {
        DPI_MIN_DIRECT <= dpi <= DPI_MAX_DIRECT
    } else {
        DPI_MIN <= dpi <= DPI_MAX && dpi % 50 == 0
    }
}

/// The number that stands for a DPI on the wire.
pub open spec fn dpi_code(dpi: u32, direct: bool) -> int {
    if direct {
        dpi as int
    } else {
        dpi / 50 - 1
    }
}

/// The bytes that stand for a DPI on the wire: its code, low byte first, and no
/// tenths.
pub open spec fn dpi_bytes(dpi: u32, direct: bool) -> Seq<u8> {
    seq![(dpi_code(dpi, direct) % 256) as u8, (dpi_code(dpi, direct) / 256) as u8, 0u8]
}

/// Why a DPI is refused.
pub open spec fn dpi_refusal(direct: bool) -> Seq<char> {
    if direct {
        "DPI must be "@ + decimal(DPI_MIN_DIRECT as nat) + "-"@ + decimal(DPI_MAX_DIRECT as nat)
    } else {
        "DPI must be "@ + decimal(DPI_MIN as nat) + "-"@ + decimal(DPI_MAX as nat)
            + " in steps of 50"@
    }
}

pub fn encode_dpi(dpi: u32, direct: bool) -> (bytes: Result<[u8; 3], Error>)
    ensures
        valid_dpi(dpi, direct) <==> bytes is Ok,
        bytes matches Ok(bytes) ==> bytes@ == dpi_bytes(dpi, direct),
        bytes matches Err(error) ==> error@ == ErrorView::Protocol(dpi_refusal(direct)),
{
    let low: u32 = if direct { DPI_MIN_DIRECT } else { DPI_MIN };
    let high: u32 = if direct { DPI_MAX_DIRECT } else { DPI_MAX };
    let step: u32 = if direct { 1 } else { 50 };
    if dpi < low || dpi > high || dpi % step != 0 {
        let mut text = "DPI must be ".to_owned();
        push_decimal(&mut text, low as u64);
        text.append("-");
        push_decimal(&mut text, high as u64);
        if !direct {
            text.append(" in steps of 50");
        }
        return Err(Error::Protocol(text));
    }
    let enc: u32 = if direct { dpi } else { dpi / 50 - 1 };
    let bytes: [u8; 3] = [(enc % 256) as u8, (enc / 256) as u8, 0];
    assert(bytes@ =~= dpi_bytes(dpi, direct));
    Ok(bytes)
}

/// The DPI that three bytes stand for, in tenths.
pub open spec fn dpi_tenths(low: u8, high: u8, tenth: u8, direct: bool) -> int {
    let enc = high * 256 + low;
    if direct {
        enc * 10 + tenth
    } else {
        (enc + 1) * 500
    }
}

/// The DPI that three bytes stand for, in tenths of a DPI: only a Sora V3 has
/// tenths at all.
pub fn decode_dpi(low: u8, high: u8, tenth: u8, direct: bool) -> (tenths: u32)
    ensures
        tenths == dpi_tenths(low, high, tenth, direct),
{
    let enc: u32 = high as u32 * 256 + low as u32;
    if direct {
        enc * 10 + tenth as u32
    } else {
        (enc + 1) * 500
    }
}

// -- report rate --------------------------------------------------------------

/// The code that stands for a report rate on the wire, if it has one.
pub open spec fn polling_code(rate: u32) -> Option<u8> {
    if rate == 1000 {
        Some(1u8)
    } else if rate == 2000 {
        Some(2u8)
    } else if rate == 4000 {
        Some(3u8)
    } else if rate == 8000 {
        Some(4u8)
    } else {
        None
    }
}

/// Why a report rate is refused.
pub open spec fn polling_refusal(rate: u32) -> Seq<char> {
    "unsupported report rate "@ + decimal(rate as nat)
}

pub fn encode_polling(rate: u32) -> (code: Result<u8, Error>)
    ensures
        code matches Ok(code) ==> polling_code(rate) == Some(code),
        code matches Err(error) ==> polling_code(rate) is None && error@ == ErrorView::Protocol(
            polling_refusal(rate),
        ),
{
    let mut i: usize = 0;
    while i < POLLING_RATES.len()
        invariant
            i <= POLLING_RATES@.len(),
            forall|j: int| 0 <= j < i ==> POLLING_RATES@[j] != rate,
        decreases POLLING_RATES@.len() - i,
    {
        if POLLING_RATES[i] == rate {
            return Ok(i as u8 + 1);
        }
        i += 1;
    }
    assert(POLLING_RATES@[0] != rate);
    assert(POLLING_RATES@[1] != rate);
    assert(POLLING_RATES@[2] != rate);
    assert(POLLING_RATES@[3] != rate);
    let mut text = "unsupported report rate ".to_owned();
    push_decimal(&mut text, rate as u64);
    Err(Error::Protocol(text))
}

/// The report rate a code stands for; a code that stands for none reads as the
/// slowest rate.
pub open spec fn polling_rate(code: u8) -> u32 {
    if 1 <= code <= 4 {
        POLLING_RATES@[code - 1]
    } else {
        1000
    }
}

pub fn decode_polling(code: u8) -> (rate: u32)
    ensures
        rate == polling_rate(code),
{
    if code >= 1 && code <= 4 {
        POLLING_RATES[(code - 1) as usize]
    } else {
        1000
    }
}

// -- firmware versions --------------------------------------------------------

/// Bytes in upper-case hex, last byte first.
pub open spec fn reversed_hex(bytes: Seq<u8>) -> Seq<char>
    decreases bytes.len(),
{
    if bytes.len() == 0 {
        Seq::empty()
    } else {
        upper_hex_byte(bytes.last()) + reversed_hex(bytes.drop_last())
    }
}

/// The version a firmware reply stands for: its first three bytes, reversed.
pub open spec fn firmware_version(value: Seq<u8>) -> Seq<char> {
    reversed_hex(
        if value.len() > 3 {
            value.take(3)
        } else {
            value
        },
    )
}

pub fn decode_firmware(value: &[u8]) -> (version: String)
    ensures
        version@ == firmware_version(value@),
{
    let count: usize = if value.len() > 3 { 3 } else { value.len() };
    let mut version = String::new();
    let mut left: usize = count;
    let ghost whole = value@.take(count as int);
    assert(whole =~= if value@.len() > 3 { value@.take(3) } else { value@ });
    assert(whole.take(count as int) =~= whole);
    while left > 0
        invariant
            left <= count <= value@.len(),
            whole == value@.take(count as int),
            version@ + reversed_hex(whole.take(left as int)) == reversed_hex(whole),
        decreases left,
    {
        let ghost before = whole.take(left as int);
        push_upper_hex_byte(&mut version, value[left - 1]);
        left -= 1;
        assert(before.drop_last() =~= whole.take(left as int));
        assert(version@ + reversed_hex(whole.take(left as int)) =~= reversed_hex(whole));
    }
    assert(version@ =~= reversed_hex(whole));
    version
}

// -- colours ------------------------------------------------------------------

/// A colour as `#rrggbb`.
pub open spec fn colour_text(r: u8, g: u8, b: u8) -> Seq<char> {
    "#"@ + hex_byte(r) + hex_byte(g) + hex_byte(b)
}

pub fn rgb_to_hex(r: u8, g: u8, b: u8) -> (text: String)
    ensures
        text@ == colour_text(r, g, b),
{
    let mut text = "#".to_owned();
    push_hex_byte(&mut text, r);
    push_hex_byte(&mut text, g);
    push_hex_byte(&mut text, b);
    text
}

/// The value of a hex digit, in either case.
pub open spec fn hex_digit_value(byte: u8) -> Option<u8> {
    if 0x30 <= byte <= 0x39 {
        Some((byte - 0x30) as u8)
    } else if 0x41 <= byte <= 0x46 {
        Some((byte - 0x37) as u8)
    } else if 0x61 <= byte <= 0x66 {
        Some((byte - 0x57) as u8)
    } else {
        None
    }
}

pub fn hex_digit(byte: u8) -> (value: Option<u8>)
    ensures
        value == hex_digit_value(byte),
        value matches Some(v) ==> v < 16,
{
    if 0x30 <= byte && byte <= 0x39 {
        Some(byte - 0x30)
    } else if 0x41 <= byte && byte <= 0x46 {
        Some(byte - 0x37)
    } else if 0x61 <= byte && byte <= 0x66 {
        Some(byte - 0x57)
    } else {
        None
    }
}

/// The number that two hex digits spell.
pub open spec fn hex_pair_value(first: u8, second: u8) -> Option<u8> {
    match (hex_digit_value(first), hex_digit_value(second)) {
        (Some(high), Some(low)) => Some((high * 16 + low) as u8),
        _ => None,
    }
}

fn hex_pair(first: u8, second: u8) -> (value: Option<u8>)
    ensures
        value == hex_pair_value(first, second),
{
    match (hex_digit(first), hex_digit(second)) {
        (Some(high), Some(low)) => Some(high * 16 + low),
        _ => None,
    }
}

/// A colour's text without the `#` it may start with.
pub open spec fn without_hash(value: Seq<char>) -> Seq<char> {
    if value.len() > 0 && value[0] == '#' {
        value.skip(1)
    } else {
        value
    }
}

/// The colour that a text spells, if it is six hex digits.
pub open spec fn colour_value(value: Seq<char>) -> Option<Seq<u8>> {
    let v = encode_utf8(without_hash(value));
    if v.len() != 6 {
        None
    } else {
        match (
            hex_pair_value(v[0], v[1]),
            hex_pair_value(v[2], v[3]),
            hex_pair_value(v[4], v[5]),
        ) {
            (Some(r), Some(g), Some(b)) => Some(seq![r, g, b]),
            _ => None,
        }
    }
}

pub fn hex_to_rgb(value: &str) -> (colour: Result<[u8; 3], Error>)
    ensures
        colour matches Ok(rgb) ==> colour_value(value@) == Some(rgb@),
        colour matches Err(error) ==> colour_value(value@) is None && error@
            == ErrorView::Protocol("colour must be six hex digits"@),
{
    let count: usize = value.unicode_len();
    let v = if count > 0 && value.get_char(0) == '#' {
        value.substring_char(1, count)
    } else {
        value
    };
    assert(v@ =~= without_hash(value@));
    let bytes = v.as_bytes();
    if bytes.len() == 6 {
        if let (Some(r), Some(g), Some(b)) = (
            hex_pair(bytes[0], bytes[1]),
            hex_pair(bytes[2], bytes[3]),
            hex_pair(bytes[4], bytes[5]),
        ) {
            let rgb: [u8; 3] = [r, g, b];
            assert(rgb@ =~= seq![r, g, b]);
            return Ok(rgb);
        }
    }
    Err(Error::Protocol("colour must be six hex digits".to_owned()))
}

// -- laws ---------------------------------------------------------------------

/// A DPI that can be set reads back as itself.
pub proof fn lemma_dpi_round_trip(dpi: u32, direct: bool)
    requires
        valid_dpi(dpi, direct),
    ensures
        ({
            let bytes = dpi_bytes(dpi, direct);
            dpi_tenths(bytes[0], bytes[1], bytes[2], direct) == dpi * 10
        }),
{
}

/// A report rate that can be set reads back as itself, and so does a code that
/// stands for one.
pub proof fn lemma_polling_round_trip(rate: u32, code: u8)
    ensures
        polling_code(rate) matches Some(sent) ==> polling_rate(sent) == rate,
        1 <= code <= 4 ==> polling_code(polling_rate(code)) == Some(code),
{
}

/// A colour that is written down reads as itself.
pub proof fn lemma_colour_round_trip(r: u8, g: u8, b: u8)
    ensures
        colour_value(colour_text(r, g, b)) == Some(seq![r, g, b]),
{
    reveal_strlit("#");
    let text = colour_text(r, g, b);
    let digits = without_hash(text);
    assert(digits =~= hex_byte(r) + hex_byte(g) + hex_byte(b));
    assert(is_ascii_chars(digits)) by {
        assert forall|i: int| 0 <= i < digits.len() implies 0 <= #[trigger] digits[i] < 128 by {}
    }
    is_ascii_chars_encode_utf8(digits);
    let v = encode_utf8(digits);
    assert(v.len() == 6);
    assert(hex_pair_value(v[0], v[1]) == Some(r));
    assert(hex_pair_value(v[2], v[3]) == Some(g));
    assert(hex_pair_value(v[4], v[5]) == Some(b));
}

/// A reply answers at most one command.
pub proof fn lemma_one_answer(buf: Seq<u8>, first: u8, second: u8)
    requires
        answers(buf, first),
        answers(buf, second),
    ensures
        first == second,
{
}

/// Different requests go out as different reports.
pub proof fn lemma_requests_differ(
    command: u8,
    profile: u8,
    args: Seq<u8>,
    other_command: u8,
    other_profile: u8,
    other_args: Seq<u8>,
)
    requires
        args.len() <= 8,
        other_args.len() <= 8,
        request_payload(command, profile, args) == request_payload(
            other_command,
            other_profile,
            other_args,
        ),
    ensures
        command == other_command,
        profile == other_profile,
        args == other_args,
{
    let one = request_payload(command, profile, args);
    let other = request_payload(other_command, other_profile, other_args);
    assert(one[0] == command && other[0] == other_command);
    assert(one[5] == args.len() as u8 && other[5] == other_args.len() as u8);
    assert(one[6] == profile && other[6] == other_profile);
    assert forall|i: int| 0 <= i < args.len() implies args[i] == other_args[i] by {
        assert(one[7 + i] == args[i]);
        assert(other[7 + i] == other_args[i]);
    }
    assert(args =~= other_args);
}

/// Every request is as long as the report.
pub proof fn lemma_request_length(command: u8, profile: u8, args: Seq<u8>)
    requires
        args.len() <= 8,
    ensures
        request_payload(command, profile, args).len() == PAYLOAD_LEN,
{
}

/// What a byte counts as in hex: a digit, or a letter up to `f` in either case.
pub open spec fn in_hex(byte: u8) -> Option<int> {
    if 0x30 <= byte < 0x3A {
        Some(byte - 0x30)
    } else if 0x41 <= byte < 0x47 {
        Some(byte - 0x41 + 10)
    } else if 0x61 <= byte < 0x67 {
        Some(byte - 0x61 + 10)
    } else {
        None
    }
}

/// The bytes of a text behind the `#` that it may start with.
pub open spec fn behind_hash(text: Seq<char>) -> Seq<u8> {
    encode_utf8(
        if text.len() > 0 && text[0] == '#' {
            text.skip(1)
        } else {
            text
        },
    )
}

/// A colour is six hex digits behind one `#` or none: two digits each of red, green
/// and blue, the high one first. Nothing else is a colour.
pub proof fn lemma_colours(text: Seq<char>)
    ensures
        ({
            let digits = behind_hash(text);
            let spelled = digits.len() == 6 && forall|i: int|
                0 <= i < 6 ==> in_hex(#[trigger] digits[i]) is Some;
            match colour_value(text) {
                Some(rgb) => {
                    &&& spelled
                    &&& rgb.len() == 3
                    &&& rgb[0] == 16 * in_hex(digits[0])->0 + in_hex(digits[1])->0
                    &&& rgb[1] == 16 * in_hex(digits[2])->0 + in_hex(digits[3])->0
                    &&& rgb[2] == 16 * in_hex(digits[4])->0 + in_hex(digits[5])->0
                },
                None => !spelled,
            }
        }),
{
    let digits = behind_hash(text);
    let spelled = digits.len() == 6 && forall|i: int|
        0 <= i < 6 ==> in_hex(#[trigger] digits[i]) is Some;
    if spelled {
        assert(in_hex(digits[0]) is Some && in_hex(digits[1]) is Some);
        assert(in_hex(digits[2]) is Some && in_hex(digits[3]) is Some);
        assert(in_hex(digits[4]) is Some && in_hex(digits[5]) is Some);
        assert(colour_value(text) is Some);
    }
    if let Some(rgb) = colour_value(text) {
        assert forall|i: int| 0 <= i < 6 implies in_hex(#[trigger] digits[i]) is Some by {
            assert(i == 0 || i == 1 || i == 2 || i == 3 || i == 4 || i == 5);
        }
    }
}

/// The control report holds one number for resuming and the one below it for
/// suspending, the number below that in byte 1, a 1 in byte 4, and nothing else.
pub proof fn lemma_control(resume: bool)
    ensures
        control_bytes(resume).len() == 63,
        control_bytes(resume)[0] == if resume {
            28u8
        } else {
            27u8
        },
        control_bytes(resume)[1] + 1 == control_bytes(resume)[0],
        control_bytes(resume)[4] == 1,
        forall|i: int|
            2 <= i < 63 && i != 4 ==> #[trigger] control_bytes(resume)[i] == 0,
{
}

/// A DPI is refused with the range that the sensor has, and a report rate by
/// naming it.
pub proof fn lemma_refusals(direct: bool, rate: u32, other: u32)
    ensures
        dpi_refusal(direct) == if direct {
            "DPI must be 1-45000"@
        } else {
            "DPI must be 50-30000 in steps of 50"@
        },
        has_prefix(polling_refusal(rate), "unsupported report rate "@),
        has_suffix(polling_refusal(rate), decimal(rate as nat)),
        rate != other ==> polling_refusal(rate) != polling_refusal(other),
{
    reveal_strlit("DPI must be ");
    reveal_strlit("-");
    reveal_strlit(" in steps of 50");
    reveal_strlit("DPI must be 1-45000");
    reveal_strlit("DPI must be 50-30000 in steps of 50");
    reveal_with_fuel(decimal, 6);
    if direct {
        assert(dpi_refusal(direct) =~= "DPI must be 1-45000"@);
    } else {
        assert(dpi_refusal(direct) =~= "DPI must be 50-30000 in steps of 50"@);
    }
    let head = "unsupported report rate "@;
    let text = polling_refusal(rate);
    assert(text.take(head.len() as int) =~= head);
    assert(text.skip(head.len() as int) =~= decimal(rate as nat));
    assert(polling_refusal(other).skip(head.len() as int) =~= decimal(other as nat));
    if decimal(rate as nat) == decimal(other as nat) {
        lemma_decimals_differ(rate as nat, other as nat);
    }
}

/// A version is its first three bytes in upper-case hex, the last of them first.
pub proof fn lemma_version_text(value: Seq<u8>)
    requires
        value.len() >= 3,
    ensures
        firmware_version(value) == upper_hex_byte(value[2]) + upper_hex_byte(value[1])
            + upper_hex_byte(value[0]),
{
    reveal_with_fuel(reversed_hex, 4);
    let bytes = value.take(3);
    assert(value.len() == 3 ==> value =~= bytes);
    assert(bytes.drop_last().drop_last().drop_last() =~= Seq::empty());
    assert(firmware_version(value) =~= upper_hex_byte(value[2]) + upper_hex_byte(value[1])
        + upper_hex_byte(value[0]));
}

} // verus!
