//! Setting a device. Every setter writes, reads back, and reports what the
//! device actually confirmed.

use vstd::prelude::*;
use vstd::string::*;

use crate::device::status::{dark, light_brightness, LightAnswers};
use crate::device::steps::{
    follows, lemma_follows_nothing, lemma_follows_one_more, lemma_follows_then, Answer, Outcome,
    Step,
};
use crate::device::{no_args, one_arg, took, Course, Device, DeviceView};
use crate::error::{result_view, Error, ErrorView};
use crate::protocol::{self as p, cmd};
use crate::text::{position, position_of};
use crate::transport::Transport;

verus! {

/// What came of sending a setting.
pub type Sent = Result<(), ErrorView>;

impl DeviceView {
    /// The steps of writing a setting, giving the device time, and then -- only
    /// if the write went out -- reading with `reading`.
    pub open spec fn write_steps(
        self,
        command: u8,
        args: Seq<u8>,
        sent: Sent,
        reading: Seq<Step>,
    ) -> Seq<Step> {
        if sent is Ok {
            seq![self.tell(command, args, sent), Step::Paused] + reading
        } else {
            seq![self.tell(command, args, sent)]
        }
    }
}

// -- report rate --------------------------------------------------------------

impl DeviceView {
    /// Setting the report rate: what comes back is the rate the device reads
    /// back.
    pub open spec fn polling_course(self, rate: u32, sent: Sent, confirmed: Answer) -> Course<u32> {
        match p::polling_code(rate) {
            None => Course {
                steps: Seq::empty(),
                device: self,
                result: Err(ErrorView::Protocol(p::polling_refusal(rate))),
            },
            Some(code) => {
                let reading = self.read_steps(cmd::POLLING_RATE, Seq::empty(), 4, confirmed);
                Course {
                    steps: self.write_steps(cmd::SET_POLLING_RATE, seq![code], sent, reading),
                    device: self,
                    result: match sent {
                        Err(error) => Err(error),
                        Ok(_) => match self.read_result(cmd::POLLING_RATE, confirmed) {
                            Err(error) => Err(error),
                            Ok(value) => Ok(p::polling_rate(value[0])),
                        },
                    },
                }
            },
        }
    }
}

impl<T: Transport> Device<T> {
    /// Write a setting and, if it went out, give the device time.
    fn write_and_pause(&mut self, command: u8, args: &[u8]) -> (result: Result<(), Error>)
        ensures
            final(self)@ == old(self)@,
            follows(
                old(self).trace(),
                final(self).trace(),
                old(self)@.write_steps(command, args@, result_view(result), Seq::empty()),
            ),
    {
        let ghost start = self.trace();
        let result = self.write(command, args);
        let ghost told = self@.tell(command, args@, result_view(result));
        let ghost middle = self.trace();
        proof {
            lemma_follows_nothing(start);
            lemma_follows_one_more(start, start, middle, Seq::empty(), told);
            assert(Seq::empty().push(told) =~= seq![told]);
        }
        if result.is_ok() {
            self.pause();
            proof {
                lemma_follows_one_more(start, middle, self.trace(), seq![told], Step::Paused);
                assert(seq![told].push(Step::Paused) =~= seq![told, Step::Paused] + Seq::empty());
            }
        }
        result
    }

    /// Write a setting and read it back.
    fn write_and_read(&mut self, command: u8, args: &[u8], getter: u8, getter_args: &[u8]) -> (result:
        (Result<Vec<u8>, Error>, Ghost<Sent>, Ghost<Answer>))
        ensures
            final(self)@ == old(self)@,
            follows(
                old(self).trace(),
                final(self).trace(),
                old(self)@.write_steps(
                    command,
                    args@,
                    result.1@,
                    old(self)@.read_steps(getter, getter_args@, 4, result.2@),
                ),
            ),
            result_view(result.0) == match result.1@ {
                Err(error) => Err(error),
                Ok(_) => old(self)@.read_result(getter, result.2@),
            },
            result.0 matches Ok(value) ==> value@.len() == 8,
    {
        let ghost start = self.trace();
        let ghost nothing: Answer = Answer { outcome: Outcome::Ok(None), online: Outcome::Ok(None) };
        if let Err(error) = self.write_and_pause(command, args) {
            return (Err(error), Ghost(Err(error@)), Ghost(nothing));
        }
        let ghost middle = self.trace();
        let (value, Ghost(answer)) = self.read_answer(getter, getter_args, 4);
        proof {
            let head = seq![self@.tell(command, args@, Ok(())), Step::Paused] + Seq::empty();
            let reading = self@.read_steps(getter, getter_args@, 4, answer);
            lemma_follows_then(start, middle, self.trace(), head, reading);
            assert(head + reading =~= seq![self@.tell(command, args@, Ok(())), Step::Paused]
                + reading);
        }
        (value, Ghost(Ok(())), Ghost(answer))
    }

    pub fn set_polling_rate(&mut self, rate: u32) -> (result: Result<u32, Error>)
        ensures
            exists|sent: Sent, confirmed: Answer|
                took(
                    old(self).trace(),
                    final(self).trace(),
                    final(self)@,
                    result_view(result),
                    #[trigger] old(self)@.polling_course(rate, sent, confirmed),
                ),
    {
        let ghost first = self@;
        let ghost start = self.trace();
        let ghost nothing: Answer = Answer { outcome: Outcome::Ok(None), online: Outcome::Ok(None) };
        let code = match p::encode_polling(rate) {
            Ok(code) => code,
            Err(error) => {
                proof {
                    lemma_follows_nothing(start);
                    let course = first.polling_course(rate, Ok(()), nothing);
                    assert(took(start, self.trace(), self@, Err(error@), course));
                }
                return Err(error);
            },
        };
        let arg = one_arg(code);
        let (value, Ghost(sent), Ghost(confirmed)) = self.write_and_read(
            cmd::SET_POLLING_RATE,
            arg.as_slice(),
            cmd::POLLING_RATE,
            no_args(),
        );
        let result = match value {
            Ok(value) => Ok(p::decode_polling(value[0])),
            Err(error) => Err(error),
        };
        assert(took(
            start,
            self.trace(),
            self@,
            result_view(result),
            first.polling_course(rate, sent, confirmed),
        ));
        result
    }
}

// -- DPI ----------------------------------------------------------------------

/// What comes back while the DPI is set.
pub struct DpiAnswers {
    pub stage: Answer,
    pub paired: Answer,
    pub sent: Sent,
    pub confirmed: Answer,
}

/// A stage as one argument byte.
pub open spec fn stage_byte(stage: usize) -> u8 {
    (stage % 256) as u8
}

impl DeviceView {
    /// Setting the DPI of a stage, or of the active one: what comes back, in
    /// tenths, is the DPI the device reads back for that stage.
    pub open spec fn dpi_course(self, dpi: u32, stage: Option<usize>, a: DpiAnswers) -> Course<
        u32,
    > {
        match stage {
            Some(stage) => self.stage_dpi_course(dpi, stage, a, Seq::empty()),
            None => {
                let steps = self.read_steps(cmd::ACTIVE_DPI_STAGE, Seq::empty(), 4, a.stage);
                match self.read_result(cmd::ACTIVE_DPI_STAGE, a.stage) {
                    Err(error) => Course { steps, device: self, result: Err(error) },
                    Ok(value) => self.stage_dpi_course(dpi, value[0] as usize, a, steps),
                }
            },
        }
    }

    /// Setting the DPI of a stage, after `before`.
    pub open spec fn stage_dpi_course(
        self,
        dpi: u32,
        stage: usize,
        a: DpiAnswers,
        before: Seq<Step>,
    ) -> Course<u32> {
        let s1 = before + self.pairing_steps(a.paired);
        let device = self.pairing_after(a.paired);
        match self.direct_result(a.paired) {
            Err(error) => Course { steps: s1, device, result: Err(error) },
            Ok(direct) => if !p::valid_dpi(dpi, direct) {
                Course {
                    steps: s1,
                    device,
                    result: Err(ErrorView::Protocol(p::dpi_refusal(direct))),
                }
            } else {
                let args = seq![stage_byte(stage)] + p::dpi_bytes(dpi, direct);
                let reading = device.read_steps(
                    cmd::DPI,
                    seq![stage_byte(stage)],
                    4,
                    a.confirmed,
                );
                Course {
                    steps: s1 + device.write_steps(cmd::SET_DPI, args, a.sent, reading),
                    device,
                    result: match a.sent {
                        Err(error) => Err(error),
                        Ok(_) => match device.read_result(cmd::DPI, a.confirmed) {
                            Err(error) => Err(error),
                            Ok(value) => Ok(
                                p::dpi_tenths(value[0], value[1], value[2], direct) as u32,
                            ),
                        },
                    },
                }
            },
        }
    }
}

impl<T: Transport> Device<T> {
    /// Set the DPI of a stage, or of the active one where none is given, and
    /// give back the DPI the device confirms, in tenths.
    pub fn set_dpi(&mut self, dpi: u32, stage: Option<usize>) -> (result: Result<u32, Error>)
        ensures
            exists|answers: DpiAnswers|
                took(
                    old(self).trace(),
                    final(self).trace(),
                    final(self)@,
                    result_view(result),
                    #[trigger] old(self)@.dpi_course(dpi, stage, answers),
                ),
    {
        let ghost first = self@;
        let ghost start = self.trace();
        let ghost nothing: Answer = Answer { outcome: Outcome::Ok(None), online: Outcome::Ok(None) };
        let ghost mut a: DpiAnswers = DpiAnswers {
            stage: nothing,
            paired: nothing,
            sent: Ok(()),
            confirmed: nothing,
        };
        let ghost mut s0: Seq<Step> = Seq::empty();
        proof {
            lemma_follows_nothing(start);
        }
        let chosen: usize = match stage {
            Some(stage) => stage,
            None => {
                let (value, Ghost(answer)) = self.read_answer(
                    cmd::ACTIVE_DPI_STAGE,
                    no_args(),
                    4,
                );
                proof {
                    a.stage = answer;
                    s0 = first.read_steps(cmd::ACTIVE_DPI_STAGE, Seq::empty(), 4, answer);
                }
                match value {
                    Ok(value) => value[0] as usize,
                    Err(error) => {
                        assert(took(
                            start,
                            self.trace(),
                            self@,
                            Err(error@),
                            first.dpi_course(dpi, stage, a),
                        ));
                        return Err(error);
                    },
                }
            },
        };
        let ghost t0 = self.trace();
        let (direct, Ghost(paired)) = self.pairing_direct();
        let ghost t1 = self.trace();
        let ghost s1 = s0 + first.pairing_steps(paired);
        proof {
            a.paired = paired;
            lemma_follows_then(start, t0, t1, s0, first.pairing_steps(paired));
        }
        let direct = match direct {
            Ok(direct) => direct,
            Err(error) => {
                assert(took(
                    start,
                    self.trace(),
                    self@,
                    Err(error@),
                    first.dpi_course(dpi, stage, a),
                ));
                return Err(error);
            },
        };
        let bytes = match p::encode_dpi(dpi, direct) {
            Ok(bytes) => bytes,
            Err(error) => {
                assert(took(
                    start,
                    self.trace(),
                    self@,
                    Err(error@),
                    first.dpi_course(dpi, stage, a),
                ));
                return Err(error);
            },
        };
        let ghost device = self@;
        let index: u8 = (chosen % 256) as u8;
        let args: [u8; 4] = [index, bytes[0], bytes[1], bytes[2]];
        assert(args@ =~= seq![stage_byte(chosen)] + p::dpi_bytes(dpi, direct));
        let arg = one_arg(index);
        let (value, Ghost(sent), Ghost(confirmed)) = self.write_and_read(
            cmd::SET_DPI,
            args.as_slice(),
            cmd::DPI,
            arg.as_slice(),
        );
        proof {
            a.sent = sent;
            a.confirmed = confirmed;
            let reading = device.read_steps(cmd::DPI, seq![index], 4, confirmed);
            lemma_follows_then(
                start,
                t1,
                self.trace(),
                s1,
                device.write_steps(cmd::SET_DPI, args@, sent, reading),
            );
        }
        let result = match value {
            Ok(value) => Ok(p::decode_dpi(value[0], value[1], value[2], direct)),
            Err(error) => Err(error),
        };
        assert(took(
            start,
            self.trace(),
            self@,
            result_view(result),
            first.dpi_course(dpi, stage, a),
        ));
        result
    }
}

// -- lift-off distance --------------------------------------------------------

impl DeviceView {
    /// Setting the lift-off distance: what comes back is the distance the device
    /// reads back, if it is one.
    pub open spec fn lift_off_course(
        self,
        value: Seq<char>,
        sent: Sent,
        confirmed: Answer,
    ) -> Course<Seq<char>> {
        match position_of(p::LOD_VALUES@, value) {
            None => Course {
                steps: Seq::empty(),
                device: self,
                result: Err(ErrorView::Protocol("unknown lift-off distance "@ + value)),
            },
            Some(index) => {
                let reading = self.read_steps(cmd::LIFT_OFF, Seq::empty(), 4, confirmed);
                Course {
                    steps: self.write_steps(cmd::SET_LIFT_OFF, seq![index as u8], sent, reading),
                    device: self,
                    result: match sent {
                        Err(error) => Err(error),
                        Ok(_) => match self.read_result(cmd::LIFT_OFF, confirmed) {
                            Err(error) => Err(error),
                            Ok(value) => if value[0] < p::LOD_VALUES@.len() {
                                Ok(p::LOD_VALUES@[value[0] as int]@)
                            } else {
                                Err(ErrorView::Timeout(cmd::LIFT_OFF))
                            },
                        },
                    },
                }
            },
        }
    }

    /// Switching motion sync: what comes back is what the device reads back.
    pub open spec fn motion_sync_course(
        self,
        enabled: bool,
        sent: Sent,
        confirmed: Answer,
    ) -> Course<bool> {
        let args = seq![
            if enabled {
                1u8
            } else {
                0u8
            },
        ];
        let reading = self.read_steps(cmd::MOTION_SYNC, Seq::empty(), 4, confirmed);
        Course {
            steps: self.write_steps(cmd::SET_MOTION_SYNC, args, sent, reading),
            device: self,
            result: match sent {
                Err(error) => Err(error),
                Ok(_) => match self.read_result(cmd::MOTION_SYNC, confirmed) {
                    Err(error) => Err(error),
                    Ok(value) => Ok(value[0] != 0),
                },
            },
        }
    }
}

impl<T: Transport> Device<T> {
    pub fn set_lift_off(&mut self, value: &str) -> (result: Result<&'static str, Error>)
        ensures
            exists|sent: Sent, confirmed: Answer|
                took(
                    old(self).trace(),
                    final(self).trace(),
                    final(self)@,
                    result_view(result),
                    #[trigger] old(self)@.lift_off_course(value@, sent, confirmed),
                ),
    {
        let ghost first = self@;
        let ghost start = self.trace();
        let ghost nothing: Answer = Answer { outcome: Outcome::Ok(None), online: Outcome::Ok(None) };
        let index: usize = match position(p::LOD_VALUES.as_slice(), value) {
            Some(index) => index,
            None => {
                let mut text = "unknown lift-off distance ".to_owned();
                text.append(value);
                let error = Error::Protocol(text);
                proof {
                    lemma_follows_nothing(start);
                    let course = first.lift_off_course(value@, Ok(()), nothing);
                    assert(took(start, self.trace(), self@, Err(error@), course));
                }
                return Err(error);
            },
        };
        let arg = one_arg(index as u8);
        let (read, Ghost(sent), Ghost(confirmed)) = self.write_and_read(
            cmd::SET_LIFT_OFF,
            arg.as_slice(),
            cmd::LIFT_OFF,
            no_args(),
        );
        let result: Result<&'static str, Error> = match read {
            Ok(read) => if (read[0] as usize) < p::LOD_VALUES.len() {
                Ok(p::LOD_VALUES[read[0] as usize])
            } else {
                Err(Error::Timeout(cmd::LIFT_OFF))
            },
            Err(error) => Err(error),
        };
        assert(took(
            start,
            self.trace(),
            self@,
            result_view(result),
            first.lift_off_course(value@, sent, confirmed),
        ));
        result
    }

    pub fn set_motion_sync(&mut self, enabled: bool) -> (result: Result<bool, Error>)
        ensures
            exists|sent: Sent, confirmed: Answer|
                took(
                    old(self).trace(),
                    final(self).trace(),
                    final(self)@,
                    result_view(result),
                    #[trigger] old(self)@.motion_sync_course(enabled, sent, confirmed),
                ),
    {
        let ghost first = self@;
        let ghost start = self.trace();
        let arg = one_arg(
            if enabled {
                1
            } else {
                0
            },
        );
        let (value, Ghost(sent), Ghost(confirmed)) = self.write_and_read(
            cmd::SET_MOTION_SYNC,
            arg.as_slice(),
            cmd::MOTION_SYNC,
            no_args(),
        );
        let result = match value {
            Ok(value) => Ok(value[0] != 0),
            Err(error) => Err(error),
        };
        assert(took(
            start,
            self.trace(),
            self@,
            result_view(result),
            first.motion_sync_course(enabled, sent, confirmed),
        ));
        result
    }
}

// -- light --------------------------------------------------------------------

/// Why brightness is refused where the hardware has none.
pub open spec fn no_brightness() -> ErrorView {
    ErrorView::Unsupported(
        "This receiver has no brightness control -- the TEN answers lighting state, mode, colour and speed, but not brightness."@,
    )
}

/// What reading the light's brightness back comes to.
pub open spec fn optional_view<R: View>(result: Result<Option<R>, Error>) -> Result<
    Option<R::V>,
    ErrorView,
> {
    match result {
        Ok(Some(value)) => Ok(Some(value@)),
        Ok(None) => Ok(None),
        Err(error) => Err(error@),
    }
}

impl DeviceView {
    /// Setting the light's brightness: what comes back is the brightness the
    /// device reads back, or nothing where it does not confirm.
    pub open spec fn brightness_course(
        self,
        percent: u8,
        paired: Answer,
        sent: Sent,
        confirmed: Outcome,
    ) -> Course<Option<u8>> {
        let s1 = self.pairing_steps(paired);
        let device = self.pairing_after(paired);
        match self.direct_result(paired) {
            Err(error) => Course { steps: s1, device, result: Err(error) },
            Ok(false) => Course { steps: s1, device, result: Err(no_brightness()) },
            Ok(true) => {
                let reading = seq![
                    device.ask(cmd::LIGHTING_BRIGHTNESS, Seq::empty(), 1, confirmed),
                ];
                Course {
                    steps: s1 + device.write_steps(
                        cmd::SET_LIGHTING_BRIGHTNESS,
                        seq![(percent / 25) as u8],
                        sent,
                        reading,
                    ),
                    device,
                    result: match sent {
                        Err(error) => Err(error),
                        Ok(_) => Ok(light_brightness(confirmed)),
                    },
                }
            },
        }
    }

    /// Reading the light back after a write, as far as it went.
    pub open spec fn light_course<R>(
        self,
        before: Seq<Step>,
        light: LightAnswers,
        result: Result<R, ErrorView>,
    ) -> Course<R> {
        Course {
            steps: before + self.light_steps(light),
            device: self.light_after(light),
            result,
        }
    }

    /// The mode a light reads back, or nothing where it does not confirm.
    pub open spec fn light_mode_result(self, light: LightAnswers) -> Result<
        Option<Seq<char>>,
        ErrorView,
    > {
        match self.light_result(light) {
            Err(error) => Err(error),
            Ok(Some(light)) => Ok(Some(light.mode)),
            Ok(None) => Ok(None),
        }
    }

    /// The colour a light reads back, or nothing where it does not confirm.
    pub open spec fn light_colour_result(self, light: LightAnswers) -> Result<
        Option<Seq<char>>,
        ErrorView,
    > {
        match self.light_result(light) {
            Err(error) => Err(error),
            Ok(Some(light)) => Ok(light.color),
            Ok(None) => Ok(None),
        }
    }

    /// Setting the light's mode: switching it off is one write, any other mode
    /// switches it on and then selects the mode.
    pub open spec fn light_mode_course(
        self,
        mode: Seq<char>,
        state_sent: Sent,
        mode_sent: Sent,
        light: LightAnswers,
    ) -> Course<Option<Seq<char>>> {
        match position_of(p::LIGHT_MODES@, mode) {
            None => Course {
                steps: Seq::empty(),
                device: self,
                result: Err(ErrorView::Protocol("unknown light mode "@ + mode)),
            },
            Some(index) => {
                let state = if index == 0 {
                    0u8
                } else {
                    1u8
                };
                let s1 = seq![self.tell(cmd::SET_LIGHTING_STATE, seq![state], state_sent)];
                match state_sent {
                    Err(error) => Course { steps: s1, device: self, result: Err(error) },
                    Ok(_) => if index == 0 {
                        self.light_course(
                            s1.push(Step::Paused),
                            light,
                            self.light_mode_result(light),
                        )
                    } else {
                        let s2 = s1.push(
                            self.tell(cmd::SET_LIGHTING_MODE, seq![index as u8], mode_sent),
                        );
                        match mode_sent {
                            Err(error) => Course { steps: s2, device: self, result: Err(error) },
                            Ok(_) => self.light_course(
                                s2.push(Step::Paused),
                                light,
                                self.light_mode_result(light),
                            ),
                        }
                    },
                }
            },
        }
    }

    /// Setting the light's colour: what comes back is the colour the device
    /// reads back, or nothing where it does not confirm.
    pub open spec fn colour_course(
        self,
        colour: Seq<char>,
        sent: Sent,
        light: LightAnswers,
    ) -> Course<Option<Seq<char>>> {
        match p::colour_value(colour) {
            None => Course {
                steps: Seq::empty(),
                device: self,
                result: Err(ErrorView::Protocol("colour must be six hex digits"@)),
            },
            Some(rgb) => {
                let s1 = self.write_steps(cmd::SET_LIGHTING_COLOR, rgb, sent, Seq::empty());
                match sent {
                    Err(error) => Course { steps: s1, device: self, result: Err(error) },
                    Ok(_) => self.light_course(s1, light, self.light_colour_result(light)),
                }
            },
        }
    }
}

impl<T: Transport> Device<T> {
    /// Set the light's brightness; only a Sora V3's receiver has one.
    pub fn set_brightness(&mut self, percent: u8) -> (result: Result<Option<u8>, Error>)
        ensures
            exists|paired: Answer, sent: Sent, confirmed: Outcome|
                took(
                    old(self).trace(),
                    final(self).trace(),
                    final(self)@,
                    optional_view(result),
                    #[trigger] old(self)@.brightness_course(percent, paired, sent, confirmed),
                ),
    {
        let ghost first = self@;
        let ghost start = self.trace();
        let ghost nothing = Outcome::Ok(None);
        let (supported, Ghost(paired)) = self.pairing_direct();
        let supported = match supported {
            Ok(supported) => supported,
            Err(error) => {
                assert(took(
                    start,
                    self.trace(),
                    self@,
                    Err(error@),
                    first.brightness_course(percent, paired, Ok(()), nothing),
                ));
                return Err(error);
            },
        };
        if !supported {
            let error = Error::Unsupported(
                "This receiver has no brightness control -- the TEN answers lighting state, mode, colour and speed, but not brightness.".to_owned(),
            );
            assert(took(
                start,
                self.trace(),
                self@,
                Err(error@),
                first.brightness_course(percent, paired, Ok(()), nothing),
            ));
            return Err(error);
        }
        let ghost s1 = first.pairing_steps(paired);
        let ghost device = self@;
        let ghost t1 = self.trace();
        let arg = one_arg(percent / 25);
        let written = self.write_and_pause(cmd::SET_LIGHTING_BRIGHTNESS, arg.as_slice());
        let ghost t2 = self.trace();
        let ghost wrote = device.write_steps(
            cmd::SET_LIGHTING_BRIGHTNESS,
            seq![(percent / 25) as u8],
            result_view(written),
            Seq::empty(),
        );
        proof {
            lemma_follows_then(start, t1, t2, s1, wrote);
        }
        if let Err(error) = written {
            assert(took(
                start,
                self.trace(),
                self@,
                Err(error@),
                first.brightness_course(percent, paired, Err(error@), nothing),
            ));
            return Err(error);
        }
        let (value, Ghost(confirmed)) = self.ask_optional(cmd::LIGHTING_BRIGHTNESS, no_args());
        proof {
            let asked = device.ask(cmd::LIGHTING_BRIGHTNESS, Seq::empty(), 1, confirmed);
            lemma_follows_one_more(start, t2, self.trace(), s1 + wrote, asked);
            assert((s1 + wrote).push(asked) =~= s1 + device.write_steps(
                cmd::SET_LIGHTING_BRIGHTNESS,
                seq![(percent / 25) as u8],
                Ok(()),
                seq![asked],
            ));
        }
        let result: Result<Option<u8>, Error> = Ok(
            match value {
                Some(value) => Some(
                    if value[0] > 10 {
                        255
                    } else {
                        value[0] * 25
                    },
                ),
                None => None,
            },
        );
        assert(took(
            start,
            self.trace(),
            self@,
            optional_view(result),
            first.brightness_course(percent, paired, Ok(()), confirmed),
        ));
        result
    }

    pub fn set_light_mode(&mut self, mode: &str) -> (result: Result<Option<&'static str>, Error>)
        ensures
            exists|state_sent: Sent, mode_sent: Sent, light: LightAnswers|
                took(
                    old(self).trace(),
                    final(self).trace(),
                    final(self)@,
                    optional_view(result),
                    #[trigger] old(self)@.light_mode_course(mode@, state_sent, mode_sent, light),
                ),
    {
        let ghost first = self@;
        let ghost start = self.trace();
        proof {
            lemma_follows_nothing(start);
        }
        let index: usize = match position(p::LIGHT_MODES.as_slice(), mode) {
            Some(index) => index,
            None => {
                let mut text = "unknown light mode ".to_owned();
                text.append(mode);
                let error = Error::Protocol(text);
                assert(took(
                    start,
                    self.trace(),
                    self@,
                    Err(error@),
                    first.light_mode_course(mode@, Ok(()), Ok(()), dark()),
                ));
                return Err(error);
            },
        };
        let state: u8 = if index == 0 {
            0
        } else {
            1
        };
        let arg = one_arg(state);
        let written = self.write(cmd::SET_LIGHTING_STATE, arg.as_slice());
        let ghost told = first.tell(cmd::SET_LIGHTING_STATE, seq![state], result_view(written));
        let ghost mut steps = seq![told];
        let ghost mut now = self.trace();
        proof {
            lemma_follows_one_more(start, start, now, Seq::empty(), told);
            assert(Seq::empty().push(told) =~= steps);
        }
        if let Err(error) = written {
            assert(took(
                start,
                self.trace(),
                self@,
                Err(error@),
                first.light_mode_course(mode@, Err(error@), Ok(()), dark()),
            ));
            return Err(error);
        }
        if index != 0 {
            let arg = one_arg(index as u8);
            let written = self.write(cmd::SET_LIGHTING_MODE, arg.as_slice());
            let ghost told = first.tell(
                cmd::SET_LIGHTING_MODE,
                seq![index as u8],
                result_view(written),
            );
            proof {
                lemma_follows_one_more(start, now, self.trace(), steps, told);
                steps = steps.push(told);
                now = self.trace();
            }
            if let Err(error) = written {
                assert(took(
                    start,
                    self.trace(),
                    self@,
                    Err(error@),
                    first.light_mode_course(mode@, Ok(()), Err(error@), dark()),
                ));
                return Err(error);
            }
        }
        self.pause();
        proof {
            lemma_follows_one_more(start, now, self.trace(), steps, Step::Paused);
            steps = steps.push(Step::Paused);
            now = self.trace();
        }
        let (light, Ghost(answers)) = self.light_answers();
        proof {
            lemma_follows_then(start, now, self.trace(), steps, first.light_steps(answers));
        }
        let result: Result<Option<&'static str>, Error> = match light {
            Ok(Some(light)) => Ok(Some(light.mode)),
            Ok(None) => Ok(None),
            Err(error) => Err(error),
        };
        assert(took(
            start,
            self.trace(),
            self@,
            optional_view(result),
            first.light_mode_course(mode@, Ok(()), Ok(()), answers),
        ));
        result
    }

    pub fn set_color(&mut self, hex_colour: &str) -> (result: Result<Option<String>, Error>)
        ensures
            exists|sent: Sent, light: LightAnswers|
                took(
                    old(self).trace(),
                    final(self).trace(),
                    final(self)@,
                    optional_view(result),
                    #[trigger] old(self)@.colour_course(hex_colour@, sent, light),
                ),
    {
        let ghost first = self@;
        let ghost start = self.trace();
        let rgb = match p::hex_to_rgb(hex_colour) {
            Ok(rgb) => rgb,
            Err(error) => {
                proof {
                    lemma_follows_nothing(start);
                }
                assert(took(
                    start,
                    self.trace(),
                    self@,
                    Err(error@),
                    first.colour_course(hex_colour@, Ok(()), dark()),
                ));
                return Err(error);
            },
        };
        if let Err(error) = self.write_and_pause(cmd::SET_LIGHTING_COLOR, rgb.as_slice()) {
            assert(took(
                start,
                self.trace(),
                self@,
                Err(error@),
                first.colour_course(hex_colour@, Err(error@), dark()),
            ));
            return Err(error);
        }
        let ghost middle = self.trace();
        let ghost steps = first.write_steps(
            cmd::SET_LIGHTING_COLOR,
            rgb@,
            Ok(()),
            Seq::empty(),
        );
        let (light, Ghost(answers)) = self.light_answers();
        proof {
            lemma_follows_then(start, middle, self.trace(), steps, first.light_steps(answers));
        }
        let result: Result<Option<String>, Error> = match light {
            Ok(Some(light)) => Ok(light.color),
            Ok(None) => Ok(None),
            Err(error) => Err(error),
        };
        assert(took(
            start,
            self.trace(),
            self@,
            optional_view(result),
            first.colour_course(hex_colour@, Ok(()), answers),
        ));
        result
    }
}

} // verus!
