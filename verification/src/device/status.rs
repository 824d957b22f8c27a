//! Reading a device: who it is, how it is set and how its battery is.

use vstd::prelude::*;

use crate::device::steps::{
    answered, follows, lemma_follows_nothing, lemma_follows_one_more, lemma_follows_then, Answer,
    Outcome, Step,
};
use crate::device::{no_args, one_arg, took, Course, Device, DeviceView};
use crate::error::{result_view, Error, ErrorView};
use crate::protocol::{self as p, cmd};
use crate::text::text_view;
use crate::transport::{Event, Transport};

verus! {

// -- the paired mouse ---------------------------------------------------------

impl DeviceView {
    /// The steps of finding out which mouse is paired.
    pub open spec fn pairing_steps(self, paired: Answer) -> Seq<Step> {
        if self.effective_pid is None && self.is_receiver() {
            self.read_steps(cmd::PAIRED_PRODUCT_ID, Seq::empty(), 4, paired)
        } else {
            Seq::empty()
        }
    }

    /// The product id of the mouse itself: what was read before, what the
    /// receiver says (low byte first), or this interface's own.
    pub open spec fn pairing_result(self, paired: Answer) -> Result<u16, ErrorView> {
        match self.effective_pid {
            Some(pid) => Ok(pid),
            None => if self.is_receiver() {
                match self.read_result(cmd::PAIRED_PRODUCT_ID, paired) {
                    Ok(value) => Ok((value[1] * 256 + value[0]) as u16),
                    Err(error) => Err(error),
                }
            } else {
                Ok(self.product_id)
            },
        }
    }

    /// The device once the paired mouse has been asked for: it remembers the
    /// answer.
    pub open spec fn pairing_after(self, paired: Answer) -> DeviceView {
        match self.pairing_result(paired) {
            Ok(pid) => DeviceView { effective_pid: Some(pid), ..self },
            Err(_) => self,
        }
    }
}

/// Whether a mouse takes 1-DPI steps and has a Sora V3's feature set.
pub open spec fn is_direct(pid: u16) -> bool {
    p::SORA_V3_IDS@.contains(pid)
}

impl<T: Transport> Device<T> {
    pub(crate) fn pairing(&mut self) -> (result: (Result<u16, Error>, Ghost<Answer>))
        ensures
            follows(old(self).trace(), final(self).trace(), old(self)@.pairing_steps(result.1@)),
            result_view(result.0) == old(self)@.pairing_result(result.1@),
            final(self)@ == old(self)@.pairing_after(result.1@),
    {
        let ghost paired: Answer = Answer { outcome: Outcome::Ok(None), online: Outcome::Ok(None) };
        proof {
            lemma_follows_nothing(self.trace());
        }
        if let Some(pid) = self.effective_pid {
            return (Ok(pid), Ghost(paired));
        }
        if !self.is_receiver() {
            let pid = self.product_id;
            self.effective_pid = Some(pid);
            return (Ok(pid), Ghost(paired));
        }
        let (value, Ghost(paired)) = self.read_answer(cmd::PAIRED_PRODUCT_ID, no_args(), 4);
        match value {
            Err(error) => (Err(error), Ghost(paired)),
            Ok(value) => {
                let pid: u16 = value[1] as u16 * 256 + value[0] as u16;
                self.effective_pid = Some(pid);
                (Ok(pid), Ghost(paired))
            },
        }
    }

    /// Product id of the mouse actually paired to this receiver.
    pub fn effective_product_id(&mut self) -> (result: Result<u16, Error>)
        ensures
            exists|paired: Answer|
                {
                    &&& follows(
                        old(self).trace(),
                        final(self).trace(),
                        old(self)@.pairing_steps(paired),
                    )
                    &&& result_view(result) == #[trigger] old(self)@.pairing_result(paired)
                    &&& final(self)@ == old(self)@.pairing_after(paired)
                },
    {
        let (result, Ghost(paired)) = self.pairing();
        assert(result_view(result) == old(self)@.pairing_result(paired));
        result
    }

    pub(crate) fn pairing_direct(&mut self) -> (result: (Result<bool, Error>, Ghost<Answer>))
        ensures
            follows(old(self).trace(), final(self).trace(), old(self)@.pairing_steps(result.1@)),
            result_view(result.0) == old(self)@.direct_result(result.1@),
            final(self)@ == old(self)@.pairing_after(result.1@),
    {
        let (result, Ghost(paired)) = self.pairing();
        match result {
            Ok(pid) => (Ok(p::one_of(p::SORA_V3_IDS.as_slice(), pid)), Ghost(paired)),
            Err(error) => (Err(error), Ghost(paired)),
        }
    }

    /// Sora V3 uses 1-DPI steps and a different feature set; TEN does not.
    pub fn direct(&mut self) -> (result: Result<bool, Error>)
        ensures
            exists|paired: Answer|
                {
                    &&& follows(
                        old(self).trace(),
                        final(self).trace(),
                        old(self)@.pairing_steps(paired),
                    )
                    &&& result_view(result) == #[trigger] old(self)@.direct_result(paired)
                    &&& final(self)@ == old(self)@.pairing_after(paired)
                },
    {
        let (result, Ghost(paired)) = self.pairing_direct();
        assert(result_view(result) == old(self)@.direct_result(paired));
        result
    }

    /// Whether the receiver has a brightness control: only a Sora V3's answers
    /// that command.
    pub fn supports_brightness(&mut self) -> (result: Result<bool, Error>)
        ensures
            exists|paired: Answer|
                {
                    &&& follows(
                        old(self).trace(),
                        final(self).trace(),
                        old(self)@.pairing_steps(paired),
                    )
                    &&& result_view(result) == #[trigger] old(self)@.direct_result(paired)
                    &&& final(self)@ == old(self)@.pairing_after(paired)
                },
    {
        self.direct()
    }
}

impl DeviceView {
    /// Whether the paired mouse takes 1-DPI steps.
    pub open spec fn direct_result(self, paired: Answer) -> Result<bool, ErrorView> {
        match self.pairing_result(paired) {
            Ok(pid) => Ok(is_direct(pid)),
            Err(error) => Err(error),
        }
    }
}

// -- battery ------------------------------------------------------------------

/// A battery reply as a percentage.
pub open spec fn battery_level(outcome: Outcome) -> Option<u8> {
    match answered(outcome) {
        Some(value) => Some(
            if value[0] > 100 {
                100
            } else {
                value[0]
            },
        ),
        None => None,
    }
}

/// A reply whose first byte is a switch.
pub open spec fn switch(outcome: Outcome) -> Option<bool> {
    match answered(outcome) {
        Some(value) => Some(value[0] != 0),
        None => None,
    }
}

fn read_level(value: &Option<Vec<u8>>, outcome: Ghost<Outcome>) -> (level: Option<u8>)
    requires
        reads(*value, outcome@),
    ensures
        level == battery_level(outcome@),
{
    match value {
        Some(value) => Some(
            if value[0] > 100 {
                100
            } else {
                value[0]
            },
        ),
        None => None,
    }
}

fn read_switch(value: &Option<Vec<u8>>, outcome: Ghost<Outcome>) -> (on: Option<bool>)
    requires
        reads(*value, outcome@),
    ensures
        on == switch(outcome@),
{
    match value {
        Some(value) => Some(value[0] != 0),
        None => None,
    }
}

/// `value` is what an outcome holds, eight bytes where it was answered.
pub(crate) open spec fn reads(value: Option<Vec<u8>>, outcome: Outcome) -> bool {
    match value {
        Some(value) => answered(outcome) == Some(value@) && value@.len() == 8,
        None => answered(outcome) is None,
    }
}

impl<T: Transport> Device<T> {
    /// Battery percent and charging flag -- two round-trips, ~60 ms.
    ///
    /// Deliberately avoids [`Device::status`], which costs 21 round-trips and
    /// wakes the 2.4 GHz link for far longer than a tray poll needs.
    pub fn battery(&mut self) -> (reading: (Option<u8>, Option<bool>))
        ensures
            final(self)@ == old(self)@,
            exists|percent: Outcome, charging: Outcome|
                {
                    &&& follows(
                        old(self).trace(),
                        final(self).trace(),
                        seq![
                            old(self)@.ask(cmd::BATTERY_PERCENT, Seq::empty(), 1, percent),
                            old(self)@.ask(cmd::BATTERY_CHARGING, Seq::empty(), 1, charging),
                        ],
                    )
                    &&& reading == (#[trigger] battery_level(percent), #[trigger] switch(charging))
                },
    {
        let ghost start = self.trace();
        let (percent, Ghost(o1)) = self.ask_optional(cmd::BATTERY_PERCENT, no_args());
        let ghost middle = self.trace();
        let (charging, Ghost(o2)) = self.ask_optional(cmd::BATTERY_CHARGING, no_args());
        proof {
            let a = self@.ask(cmd::BATTERY_PERCENT, Seq::empty(), 1, o1);
            let b = self@.ask(cmd::BATTERY_CHARGING, Seq::empty(), 1, o2);
            lemma_follows_nothing(start);
            lemma_follows_one_more(start, start, middle, Seq::empty(), a);
            lemma_follows_one_more(start, middle, self.trace(), Seq::empty().push(a), b);
            assert(Seq::empty().push(a).push(b) =~= seq![a, b]);
        }
        (read_level(&percent, Ghost(o1)), read_switch(&charging, Ghost(o2)))
    }
}

// -- lighting -----------------------------------------------------------------

/// How the receiver's light is set.
#[derive(Debug, Clone)]
pub struct Lighting {
    pub mode: &'static str,
    pub color: Option<String>,
    pub speed: Option<u8>,
    pub brightness: Option<u8>,
}

/// A [`Lighting`] as contracts see it.
pub struct LightingView {
    pub mode: Seq<char>,
    pub color: Option<Seq<char>>,
    pub speed: Option<u8>,
    pub brightness: Option<u8>,
}

impl View for Lighting {
    type V = LightingView;

    open spec fn view(&self) -> LightingView {
        LightingView {
            mode: self.mode@,
            color: text_view(self.color),
            speed: self.speed,
            brightness: self.brightness,
        }
    }
}

/// What comes back when the light is read.
pub struct LightAnswers {
    pub state: Outcome,
    pub mode: Outcome,
    pub speed: Outcome,
    pub colour: Outcome,
    pub paired: Answer,
    pub bright: Outcome,
}

/// Nothing comes back of the light.
pub open spec fn dark() -> LightAnswers {
    let nothing = Outcome::Ok(None);
    LightAnswers {
        state: nothing,
        mode: nothing,
        speed: nothing,
        colour: nothing,
        paired: Answer { outcome: nothing, online: nothing },
        bright: nothing,
    }
}

/// The light's mode: off where its state says so, else the mode it is in, which
/// is Static unless it says Cycling or Wave.
pub open spec fn light_mode(state: Seq<u8>, mode: Outcome) -> Seq<char> {
    if state[0] == 0 {
        "Off"@
    } else {
        match answered(mode) {
            Some(value) => if value[0] == 2 {
                "Cycling"@
            } else if value[0] == 3 {
                "Wave"@
            } else {
                "Static"@
            },
            None => "Static"@,
        }
    }
}

/// The light's colour as `#rrggbb`.
pub open spec fn light_colour(outcome: Outcome) -> Option<Seq<char>> {
    match answered(outcome) {
        Some(value) => Some(p::colour_text(value[0], value[1], value[2])),
        None => None,
    }
}

/// The light's speed; the wire counts the other way, down from 20.
pub open spec fn light_speed(outcome: Outcome) -> Option<u8> {
    match answered(outcome) {
        Some(value) => Some(
            if value[0] >= 20 {
                0
            } else {
                (20 - value[0]) as u8
            },
        ),
        None => None,
    }
}

/// The light's brightness in percent; the wire counts quarters.
pub open spec fn light_brightness(outcome: Outcome) -> Option<u8> {
    match answered(outcome) {
        Some(value) => Some(
            if value[0] * 25 > 255 {
                255
            } else {
                (value[0] * 25) as u8
            },
        ),
        None => None,
    }
}

impl DeviceView {
    /// The steps of reading the light. Nothing more is asked of a receiver that
    /// does not answer for its light's state, and only a Sora V3's is asked for
    /// the brightness.
    pub open spec fn light_steps(self, light: LightAnswers) -> Seq<Step> {
        let none = Seq::<u8>::empty();
        let s1 = seq![self.ask(cmd::LIGHTING_STATE, none, 1, light.state)];
        if answered(light.state) is None {
            s1
        } else {
            let s2 = s1.push(self.ask(cmd::LIGHTING_MODE, none, 1, light.mode)).push(
                self.ask(cmd::LIGHTING_SPEED, none, 1, light.speed),
            ).push(self.ask(cmd::LIGHTING_COLOR, none, 1, light.colour)) + self.pairing_steps(
                light.paired,
            );
            if self.direct_result(light.paired) == Ok::<bool, ErrorView>(true) {
                s2.push(self.ask(cmd::LIGHTING_BRIGHTNESS, none, 1, light.bright))
            } else {
                s2
            }
        }
    }

    /// What reading the light gives back.
    pub open spec fn light_result(self, light: LightAnswers) -> Result<
        Option<LightingView>,
        ErrorView,
    > {
        match answered(light.state) {
            None => Ok(None),
            Some(state) => match self.direct_result(light.paired) {
                Err(error) => Err(error),
                Ok(direct) => Ok(
                    Some(
                        LightingView {
                            mode: light_mode(state, light.mode),
                            color: light_colour(light.colour),
                            speed: light_speed(light.speed),
                            brightness: if direct {
                                light_brightness(light.bright)
                            } else {
                                None
                            },
                        },
                    ),
                ),
            },
        }
    }

    /// The device once its light has been read.
    pub open spec fn light_after(self, light: LightAnswers) -> DeviceView {
        if answered(light.state) is None {
            self
        } else {
            self.pairing_after(light.paired)
        }
    }
}

/// What reading the light gave back, as contracts see it.
pub open spec fn light_view(result: Result<Option<Lighting>, Error>) -> Result<
    Option<LightingView>,
    ErrorView,
> {
    match result {
        Ok(Some(light)) => Ok(Some(light@)),
        Ok(None) => Ok(None),
        Err(error) => Err(error@),
    }
}

impl<T: Transport> Device<T> {
    pub(crate) fn light_answers(&mut self) -> (result: (
        Result<Option<Lighting>, Error>,
        Ghost<LightAnswers>,
    ))
        ensures
            follows(old(self).trace(), final(self).trace(), old(self)@.light_steps(result.1@)),
            light_view(result.0) == old(self)@.light_result(result.1@),
            final(self)@ == old(self)@.light_after(result.1@),
    {
        let ghost device = self@;
        let ghost none = Seq::<u8>::empty();
        let ghost t0 = self.trace();
        let (state, Ghost(o1)) = self.ask_optional(cmd::LIGHTING_STATE, no_args());
        let ghost steps: Seq<Step> = seq![device.ask(cmd::LIGHTING_STATE, none, 1, o1)];
        let ghost t1 = self.trace();
        proof {
            lemma_follows_nothing(t0);
            lemma_follows_one_more(
                t0,
                t0,
                t1,
                Seq::empty(),
                device.ask(cmd::LIGHTING_STATE, none, 1, o1),
            );
            assert(Seq::empty().push(device.ask(cmd::LIGHTING_STATE, none, 1, o1)) =~= steps);
        }
        let ghost unread: Answer = Answer { outcome: Outcome::Ok(None), online: Outcome::Ok(None) };
        let state = match state {
            Some(state) => state,
            None => {
                let ghost light = LightAnswers {
                    state: o1,
                    mode: Outcome::Ok(None),
                    speed: Outcome::Ok(None),
                    colour: Outcome::Ok(None),
                    paired: unread,
                    bright: Outcome::Ok(None),
                };
                return (Ok(None), Ghost(light));
            },
        };
        let (mode, Ghost(o2)) = self.ask_optional(cmd::LIGHTING_MODE, no_args());
        let ghost t2 = self.trace();
        let (speed, Ghost(o3)) = self.ask_optional(cmd::LIGHTING_SPEED, no_args());
        let ghost t3 = self.trace();
        let (colour, Ghost(o4)) = self.ask_optional(cmd::LIGHTING_COLOR, no_args());
        let ghost t4 = self.trace();
        let (direct, Ghost(paired)) = self.pairing_direct();
        let ghost t5 = self.trace();
        let ghost before = steps.push(device.ask(cmd::LIGHTING_MODE, none, 1, o2)).push(
            device.ask(cmd::LIGHTING_SPEED, none, 1, o3),
        ).push(device.ask(cmd::LIGHTING_COLOR, none, 1, o4));
        proof {
            let a = device.ask(cmd::LIGHTING_MODE, none, 1, o2);
            let b = device.ask(cmd::LIGHTING_SPEED, none, 1, o3);
            let c = device.ask(cmd::LIGHTING_COLOR, none, 1, o4);
            lemma_follows_one_more(t0, t1, t2, steps, a);
            lemma_follows_one_more(t0, t2, t3, steps.push(a), b);
            lemma_follows_one_more(t0, t3, t4, steps.push(a).push(b), c);
            lemma_follows_then(t0, t4, t5, before, device.pairing_steps(paired));
        }
        let direct = match direct {
            Ok(direct) => direct,
            Err(error) => {
                let ghost light = LightAnswers {
                    state: o1,
                    mode: o2,
                    speed: o3,
                    colour: o4,
                    paired,
                    bright: Outcome::Ok(None),
                };
                return (Err(error), Ghost(light));
            },
        };
        let ghost mut o5: Outcome = Outcome::Ok(None);
        let mut brightness: Option<u8> = None;
        if direct {
            let (bright, Ghost(o)) = self.ask_optional(cmd::LIGHTING_BRIGHTNESS, no_args());
            proof {
                o5 = o;
                lemma_follows_one_more(
                    t0,
                    t5,
                    self.trace(),
                    before + device.pairing_steps(paired),
                    device.ask(cmd::LIGHTING_BRIGHTNESS, none, 1, o),
                );
            }
            brightness = match bright {
                Some(value) => Some(
                    if value[0] > 10 {
                        255
                    } else {
                        value[0] * 25
                    },
                ),
                None => None,
            };
        }
        let selected: &'static str = if state[0] == 0 {
            "Off"
        } else {
            match mode {
                Some(value) => if value[0] == 2 {
                    "Cycling"
                } else if value[0] == 3 {
                    "Wave"
                } else {
                    "Static"
                },
                None => "Static",
            }
        };
        let color = match colour {
            Some(value) => Some(p::rgb_to_hex(value[0], value[1], value[2])),
            None => None,
        };
        let speed: Option<u8> = match speed {
            Some(value) => Some(
                if value[0] >= 20 {
                    0
                } else {
                    20 - value[0]
                },
            ),
            None => None,
        };
        let ghost light = LightAnswers {
            state: o1,
            mode: o2,
            speed: o3,
            colour: o4,
            paired,
            bright: o5,
        };
        (Ok(Some(Lighting { mode: selected, color, speed, brightness })), Ghost(light))
    }

    /// How the receiver's light is set; `None` where it has no light.
    pub fn read_lighting(&mut self) -> (result: Result<Option<Lighting>, Error>)
        ensures
            exists|light: LightAnswers|
                {
                    &&& follows(
                        old(self).trace(),
                        final(self).trace(),
                        old(self)@.light_steps(light),
                    )
                    &&& light_view(result) == #[trigger] old(self)@.light_result(light)
                    &&& final(self)@ == old(self)@.light_after(light)
                },
    {
        let (result, Ghost(light)) = self.light_answers();
        assert(light_view(result) == old(self)@.light_result(light));
        result
    }
}

// -- DPI stages ---------------------------------------------------------------

/// The reply for stage `index`: the one already at hand for the active stage,
/// else what asking for it came to.
pub open spec fn stage_reply(
    active: nat,
    now: Seq<u8>,
    stages: Seq<Outcome>,
    index: int,
) -> Option<Seq<u8>> {
    if index == active {
        Some(now)
    } else {
        answered(stages[index])
    }
}

/// How many of the first `count` stages are read before one does not answer.
pub open spec fn stages_read(active: nat, now: Seq<u8>, stages: Seq<Outcome>, count: nat) -> nat
    decreases count,
{
    if count == 0 {
        0
    } else {
        let before = stages_read(active, now, stages, (count - 1) as nat);
        if before == count - 1 && stage_reply(active, now, stages, count - 1) is Some {
            count
        } else {
            before
        }
    }
}

/// The DPI of a stage, in tenths.
pub open spec fn stage_dpi(value: Seq<u8>, direct: bool) -> u32 {
    p::dpi_tenths(value[0], value[1], value[2], direct) as u32
}

/// The DPIs of the stages that were read, in tenths.
pub open spec fn stage_dpis(
    active: nat,
    now: Seq<u8>,
    stages: Seq<Outcome>,
    count: nat,
    direct: bool,
) -> Seq<u32> {
    Seq::new(
        stages_read(active, now, stages, count),
        |i: int| stage_dpi(stage_reply(active, now, stages, i)->0, direct),
    )
}

impl DeviceView {
    /// The steps of reading the first `count` stages: each but the active one is
    /// asked for, until one does not answer.
    pub open spec fn stage_steps(
        self,
        active: nat,
        now: Seq<u8>,
        stages: Seq<Outcome>,
        count: nat,
    ) -> Seq<Step>
        decreases count,
    {
        if count == 0 {
            Seq::empty()
        } else {
            let index = (count - 1) as nat;
            let before = self.stage_steps(active, now, stages, index);
            if stages_read(active, now, stages, index) == index && index != active {
                before.push(self.ask(cmd::DPI, seq![index as u8], 1, stages[index as int]))
            } else {
                before
            }
        }
    }
}

/// Outcomes of stages that are never looked at change nothing.
proof fn lemma_stages_of_prefix(
    device: DeviceView,
    active: nat,
    now: Seq<u8>,
    a: Seq<Outcome>,
    b: Seq<Outcome>,
    count: nat,
)
    requires
        count <= a.len(),
        count <= b.len(),
        forall|i: int| 0 <= i < count ==> a[i] == b[i],
    ensures
        stages_read(active, now, a, count) == stages_read(active, now, b, count),
        device.stage_steps(active, now, a, count) == device.stage_steps(active, now, b, count),
    decreases count,
{
    if count > 0 {
        lemma_stages_of_prefix(device, active, now, a, b, (count - 1) as nat);
    }
}

/// Once a stage does not answer, later ones are not read.
proof fn lemma_stages_stop(
    device: DeviceView,
    active: nat,
    now: Seq<u8>,
    stages: Seq<Outcome>,
    stopped: nat,
    count: nat,
)
    requires
        stopped <= count,
        stages_read(active, now, stages, stopped) < stopped,
    ensures
        stages_read(active, now, stages, count) == stages_read(active, now, stages, stopped),
        device.stage_steps(active, now, stages, count) == device.stage_steps(
            active,
            now,
            stages,
            stopped,
        ),
    decreases count,
{
    if stopped < count {
        lemma_stages_stop(device, active, now, stages, stopped, (count - 1) as nat);
    }
}

impl<T: Transport> Device<T> {
    fn read_stages(&mut self, active: usize, now: &Vec<u8>, count: usize, direct: bool) -> (result:
        (Vec<u32>, Ghost<Seq<Outcome>>))
        requires
            now@.len() == 8,
            count <= 4,
        ensures
            final(self)@ == old(self)@,
            result.1@.len() == count,
            follows(
                old(self).trace(),
                final(self).trace(),
                old(self)@.stage_steps(active as nat, now@, result.1@, count as nat),
            ),
            result.0@ == stage_dpis(active as nat, now@, result.1@, count as nat, direct),
    {
        let ghost device = self@;
        let ghost start = self.trace();
        let mut dpis: Vec<u32> = Vec::new();
        let ghost mut stages: Seq<Outcome> = Seq::new(count as nat, |i: int| Outcome::Ok(None));
        let mut index: usize = 0;
        proof {
            lemma_follows_nothing(start);
        }
        while index < count
            invariant
                index <= count <= 4,
                now@.len() == 8,
                self@ == device,
                device == old(self)@,
                start == old(self).trace(),
                stages.len() == count,
                follows(
                    start,
                    self.trace(),
                    device.stage_steps(active as nat, now@, stages, index as nat),
                ),
                stages_read(active as nat, now@, stages, index as nat) == index,
                dpis@ == stage_dpis(active as nat, now@, stages, index as nat, direct),
            decreases count - index,
        {
            let ghost earlier = stages;
            let ghost middle = self.trace();
            if index == active {
                dpis.push(p::decode_dpi(now[0], now[1], now[2], direct));
                index += 1;
                assert(dpis@ =~= stage_dpis(active as nat, now@, stages, index as nat, direct));
                continue;
            }
            let arg = one_arg(index as u8);
            let (value, Ghost(outcome)) = self.ask_optional(cmd::DPI, arg.as_slice());
            proof {
                stages = stages.update(index as int, outcome);
                lemma_stages_of_prefix(
                    device,
                    active as nat,
                    now@,
                    earlier,
                    stages,
                    index as nat,
                );
                lemma_follows_one_more(
                    start,
                    middle,
                    self.trace(),
                    device.stage_steps(active as nat, now@, stages, index as nat),
                    device.ask(cmd::DPI, seq![index as u8], 1, outcome),
                );
                assert(stage_dpis(active as nat, now@, earlier, index as nat, direct)
                    =~= stage_dpis(active as nat, now@, stages, index as nat, direct)) by {
                    assert forall|i: int| 0 <= i < index implies #[trigger] stages[i]
                        == earlier[i] by {}
                }
            }
            match value {
                Some(value) => {
                    dpis.push(p::decode_dpi(value[0], value[1], value[2], direct));
                    index += 1;
                    assert(dpis@ =~= stage_dpis(active as nat, now@, stages, index as nat, direct));
                },
                None => {
                    proof {
                        lemma_stages_stop(
                            device,
                            active as nat,
                            now@,
                            stages,
                            (index + 1) as nat,
                            count as nat,
                        );
                        assert(dpis@ =~= stage_dpis(
                            active as nat,
                            now@,
                            stages,
                            count as nat,
                            direct,
                        ));
                    }
                    return (dpis, Ghost(stages));
                },
            }
        }
        (dpis, Ghost(stages))
    }
}

// -- everything at once -------------------------------------------------------

/// Everything [`Device::status`] reads in one pass.
#[derive(Debug, Clone)]
pub struct Status {
    pub name: String,
    pub path: String,
    pub product_id: u16,
    pub effective_product_id: u16,
    pub direct: bool,
    pub profile: u8,
    pub dpi_stage: usize,
    /// In tenths of a DPI.
    pub dpi_stages: Vec<u32>,
    /// The active stage's DPI in tenths, where that stage was read.
    pub dpi: Option<u32>,
    pub polling_rate: u32,
    pub lift_off: Option<&'static str>,
    pub motion_sync: Option<bool>,
    pub angle_tuning: Option<bool>,
    pub system_mode: Option<&'static str>,
    pub sleep_minutes: Option<u8>,
    /// `None` where the battery did not answer: no reading is not 0%.
    pub battery: Option<u8>,
    pub charging: Option<bool>,
    pub is_receiver: bool,
    /// (part, version), the mouse before the receiver.
    pub firmware: Vec<(&'static str, String)>,
    pub lighting: Option<Lighting>,
}

/// A [`Status`] as contracts see it.
pub struct StatusView {
    pub name: Seq<char>,
    pub path: Seq<char>,
    pub product_id: u16,
    pub effective_product_id: u16,
    pub direct: bool,
    pub profile: u8,
    pub dpi_stage: usize,
    pub dpi_stages: Seq<u32>,
    pub dpi: Option<u32>,
    pub polling_rate: u32,
    pub lift_off: Option<Seq<char>>,
    pub motion_sync: Option<bool>,
    pub angle_tuning: Option<bool>,
    pub system_mode: Option<Seq<char>>,
    pub sleep_minutes: Option<u8>,
    pub battery: Option<u8>,
    pub charging: Option<bool>,
    pub is_receiver: bool,
    pub firmware: Seq<(Seq<char>, Seq<char>)>,
    pub lighting: Option<LightingView>,
}

/// An optional name as contracts see it.
pub open spec fn name_view(name: Option<&'static str>) -> Option<Seq<char>> {
    match name {
        Some(name) => Some(name@),
        None => None,
    }
}

/// Firmware versions as contracts see them.
pub open spec fn firmware_view(firmware: Seq<(&'static str, String)>) -> Seq<
    (Seq<char>, Seq<char>),
> {
    firmware.map_values(|part: (&'static str, String)| (part.0@, part.1@))
}

impl View for Status {
    type V = StatusView;

    open spec fn view(&self) -> StatusView {
        StatusView {
            name: self.name@,
            path: self.path@,
            product_id: self.product_id,
            effective_product_id: self.effective_product_id,
            direct: self.direct,
            profile: self.profile,
            dpi_stage: self.dpi_stage,
            dpi_stages: self.dpi_stages@,
            dpi: self.dpi,
            polling_rate: self.polling_rate,
            lift_off: name_view(self.lift_off),
            motion_sync: self.motion_sync,
            angle_tuning: self.angle_tuning,
            system_mode: name_view(self.system_mode),
            sleep_minutes: self.sleep_minutes,
            battery: self.battery,
            charging: self.charging,
            is_receiver: self.is_receiver,
            firmware: firmware_view(self.firmware@),
            lighting: match self.lighting {
                Some(light) => Some(light@),
                None => None,
            },
        }
    }
}

/// What comes back when everything is read.
pub struct Answers {
    pub profile: Answer,
    pub paired: Answer,
    pub stage: Answer,
    pub dpi: Answer,
    pub stage_count: Outcome,
    pub stages: Seq<Outcome>,
    pub battery: Outcome,
    pub charging: Outcome,
    pub lift_off: Outcome,
    pub system_mode: Outcome,
    pub mouse_firmware: Outcome,
    pub receiver_firmware: Outcome,
    pub light: LightAnswers,
    pub polling: Answer,
    pub motion_sync: Outcome,
    pub angle_tuning: Outcome,
    pub sleep_minutes: Outcome,
}

/// The profile a reply names; an unset one reads as the first.
pub open spec fn active_profile(value: Seq<u8>) -> u8 {
    if value[0] == 0 {
        1
    } else {
        value[0]
    }
}

/// How many stages a device has: between one and four, and one where it does
/// not say.
pub open spec fn stage_total(outcome: Outcome) -> nat {
    match answered(outcome) {
        Some(value) => if value[0] < 1 {
            1
        } else if value[0] > 4 {
            4
        } else {
            value[0] as nat
        },
        None => 1,
    }
}

/// The name a reply's first byte selects, where it selects one.
pub open spec fn selected_name(names: Seq<&'static str>, outcome: Outcome) -> Option<Seq<char>> {
    match answered(outcome) {
        Some(value) => if value[0] < names.len() {
            Some(names[value[0] as int]@)
        } else {
            None
        },
        None => None,
    }
}

/// The first byte of a reply.
pub open spec fn first_byte(outcome: Outcome) -> Option<u8> {
    match answered(outcome) {
        Some(value) => Some(value[0]),
        None => None,
    }
}

/// The firmware versions that were answered for, the mouse before the receiver.
pub open spec fn firmware_parts(
    mouse: Outcome,
    receiver: Outcome,
    is_receiver: bool,
) -> Seq<(Seq<char>, Seq<char>)> {
    let first = match answered(mouse) {
        Some(value) => seq![("mouse"@, p::firmware_version(value))],
        None => Seq::empty(),
    };
    if is_receiver {
        match answered(receiver) {
            Some(value) => first.push(("receiver"@, p::firmware_version(value))),
            None => first,
        }
    } else {
        first
    }
}

impl DeviceView {
    /// Reading everything: the active profile, the paired mouse, the active
    /// stage and its DPI come first, and each must be answered.
    pub open spec fn status_course(self, a: Answers) -> Course<StatusView> {
        let none = Seq::<u8>::empty();
        let s1 = self.read_steps(cmd::PROFILE, none, 4, a.profile);
        match self.read_result(cmd::PROFILE, a.profile) {
            Err(error) => Course { steps: s1, device: self, result: Err(error) },
            Ok(value) => {
                let d1 = DeviceView { profile: active_profile(value), ..self };
                let s2 = s1 + d1.pairing_steps(a.paired);
                let d2 = d1.pairing_after(a.paired);
                match d1.direct_result(a.paired) {
                    Err(error) => Course { steps: s2, device: d2, result: Err(error) },
                    Ok(direct) => {
                        let s3 = s2 + d2.read_steps(cmd::ACTIVE_DPI_STAGE, none, 4, a.stage);
                        match d2.read_result(cmd::ACTIVE_DPI_STAGE, a.stage) {
                            Err(error) => Course { steps: s3, device: d2, result: Err(error) },
                            Ok(stage) => {
                                let s4 = s3 + d2.read_steps(cmd::DPI, seq![stage[0]], 4, a.dpi);
                                match d2.read_result(cmd::DPI, a.dpi) {
                                    Err(error) => Course {
                                        steps: s4,
                                        device: d2,
                                        result: Err(error),
                                    },
                                    Ok(now) => d2.settings_course(a, s4, direct, stage[0], now),
                                }
                            },
                        }
                    },
                }
            },
        }
    }

    /// The rest of reading everything, after `before`: the other stages, the
    /// battery, the settings, the firmware and the light.
    pub open spec fn settings_course(
        self,
        a: Answers,
        before: Seq<Step>,
        direct: bool,
        stage: u8,
        now: Seq<u8>,
    ) -> Course<StatusView> {
        let none = Seq::<u8>::empty();
        let count = stage_total(a.stage_count);
        let s1 = before.push(self.ask(cmd::DPI_STAGE_COUNT, none, 1, a.stage_count))
            + self.stage_steps(stage as nat, now, a.stages, count);
        let s2 = s1.push(self.ask(cmd::BATTERY_PERCENT, none, 1, a.battery)).push(
            self.ask(cmd::BATTERY_CHARGING, none, 1, a.charging),
        ).push(self.ask(cmd::LIFT_OFF, none, 1, a.lift_off)).push(
            self.ask(cmd::SYSTEM_MODE, none, 1, a.system_mode),
        ).push(self.ask(cmd::FIRMWARE, seq![0u8], 1, a.mouse_firmware));
        let s3 = if self.is_receiver() {
            s2.push(self.ask(cmd::FIRMWARE, seq![1u8], 1, a.receiver_firmware))
                + self.light_steps(a.light)
        } else {
            s2
        };
        let lighting = if self.is_receiver() {
            self.light_result(a.light)
        } else {
            Ok(None)
        };
        match lighting {
            Err(error) => Course { steps: s3, device: self, result: Err(error) },
            Ok(lighting) => {
                let s4 = s3 + self.read_steps(cmd::POLLING_RATE, none, 4, a.polling);
                match self.read_result(cmd::POLLING_RATE, a.polling) {
                    Err(error) => Course { steps: s4, device: self, result: Err(error) },
                    Ok(polling) => {
                        let s5 = s4.push(self.ask(cmd::MOTION_SYNC, none, 1, a.motion_sync)).push(
                            self.ask(cmd::ANGLE_TUNING, none, 1, a.angle_tuning),
                        ).push(self.ask(cmd::SLEEP_MINUTES, none, 1, a.sleep_minutes));
                        Course {
                            steps: s5,
                            device: self,
                            result: Ok(self.status_view(a, direct, stage, now, polling, lighting)),
                        }
                    },
                }
            },
        }
    }

    /// The status that a pass over this device comes to.
    pub open spec fn status_view(
        self,
        a: Answers,
        direct: bool,
        stage: u8,
        now: Seq<u8>,
        polling: Seq<u8>,
        lighting: Option<LightingView>,
    ) -> StatusView {
        let dpis = stage_dpis(stage as nat, now, a.stages, stage_total(a.stage_count), direct);
        StatusView {
            name: self.name,
            path: self.path,
            product_id: self.product_id,
            effective_product_id: self.effective_pid->0,
            direct,
            profile: self.profile,
            dpi_stage: stage as usize,
            dpi_stages: dpis,
            dpi: if stage < dpis.len() {
                Some(dpis[stage as int])
            } else {
                None
            },
            polling_rate: p::polling_rate(polling[0]),
            lift_off: selected_name(p::LOD_VALUES@, a.lift_off),
            motion_sync: switch(a.motion_sync),
            angle_tuning: switch(a.angle_tuning),
            system_mode: selected_name(p::SYSTEM_MODES@, a.system_mode),
            sleep_minutes: first_byte(a.sleep_minutes),
            battery: battery_level(a.battery),
            charging: switch(a.charging),
            is_receiver: self.is_receiver(),
            firmware: firmware_parts(a.mouse_firmware, a.receiver_firmware, self.is_receiver()),
            lighting,
        }
    }
}

fn read_name(
    names: &[&'static str],
    value: &Option<Vec<u8>>,
    outcome: Ghost<Outcome>,
) -> (name: Option<&'static str>)
    requires
        reads(*value, outcome@),
    ensures
        name_view(name) == selected_name(names@, outcome@),
{
    match value {
        Some(value) => if (value[0] as usize) < names.len() {
            Some(names[value[0] as usize])
        } else {
            None
        },
        None => None,
    }
}

/// Answers of a pass in which nothing has been read yet.
spec fn unread() -> Answers {
    let nothing = Outcome::Ok(None);
    let no_answer = Answer { outcome: nothing, online: nothing };
    Answers {
        profile: no_answer,
        paired: no_answer,
        stage: no_answer,
        dpi: no_answer,
        stage_count: nothing,
        stages: Seq::empty(),
        battery: nothing,
        charging: nothing,
        lift_off: nothing,
        system_mode: nothing,
        mouse_firmware: nothing,
        receiver_firmware: nothing,
        light: LightAnswers {
            state: nothing,
            mode: nothing,
            speed: nothing,
            colour: nothing,
            paired: no_answer,
            bright: nothing,
        },
        polling: no_answer,
        motion_sync: nothing,
        angle_tuning: nothing,
        sleep_minutes: nothing,
    }
}

impl<T: Transport> Device<T> {
    /// Everything about the device, in one pass.
    pub fn status(&mut self) -> (result: Result<Status, Error>)
        ensures
            exists|answers: Answers|
                took(
                    old(self).trace(),
                    final(self).trace(),
                    final(self)@,
                    result_view(result),
                    #[trigger] old(self)@.status_course(answers),
                ),
    {
        let ghost first = self@;
        let ghost start = self.trace();
        let ghost mut a: Answers = unread();

        let (profile, Ghost(a1)) = self.read_answer(cmd::PROFILE, no_args(), 4);
        proof {
            a.profile = a1;
        }
        let profile = match profile {
            Ok(profile) => profile,
            Err(error) => {
                assert(took(start, self.trace(), self@, Err(error@), first.status_course(a)));
                return Err(error);
            },
        };
        self.profile = if profile[0] == 0 {
            1
        } else {
            profile[0]
        };
        let ghost s1 = first.read_steps(cmd::PROFILE, Seq::empty(), 4, a1);
        let ghost d1 = self@;
        let ghost t1 = self.trace();

        let (direct, Ghost(a2)) = self.pairing_direct();
        let ghost s2 = s1 + d1.pairing_steps(a2);
        let ghost t2 = self.trace();
        proof {
            a.paired = a2;
            lemma_follows_then(start, t1, t2, s1, d1.pairing_steps(a2));
        }
        let direct = match direct {
            Ok(direct) => direct,
            Err(error) => {
                assert(took(start, self.trace(), self@, Err(error@), first.status_course(a)));
                return Err(error);
            },
        };

        let ghost d2 = self@;
        let (stage, Ghost(a3)) = self.read_answer(cmd::ACTIVE_DPI_STAGE, no_args(), 4);
        let ghost s3 = s2 + d2.read_steps(cmd::ACTIVE_DPI_STAGE, Seq::empty(), 4, a3);
        let ghost t3 = self.trace();
        proof {
            a.stage = a3;
            lemma_follows_then(
                start,
                t2,
                t3,
                s2,
                d2.read_steps(cmd::ACTIVE_DPI_STAGE, Seq::empty(), 4, a3),
            );
        }
        let stage: u8 = match stage {
            Ok(stage) => stage[0],
            Err(error) => {
                assert(took(start, self.trace(), self@, Err(error@), first.status_course(a)));
                return Err(error);
            },
        };

        let arg = one_arg(stage);
        let (now, Ghost(a4)) = self.read_answer(cmd::DPI, arg.as_slice(), 4);
        let ghost s4 = s3 + d2.read_steps(cmd::DPI, seq![stage], 4, a4);
        let ghost t4 = self.trace();
        proof {
            a.dpi = a4;
            lemma_follows_then(start, t3, t4, s3, d2.read_steps(cmd::DPI, seq![stage], 4, a4));
        }
        let now = match now {
            Ok(now) => now,
            Err(error) => {
                assert(took(start, self.trace(), self@, Err(error@), first.status_course(a)));
                return Err(error);
            },
        };
        let (result, Ghost(rest)) = self.settings(
            direct,
            stage,
            &now,
            Ghost(a),
            Ghost(s4),
            Ghost(start),
        );
        assert(first.status_course(rest) == d2.settings_course(rest, s4, direct, stage, now@));
        assert(took(start, self.trace(), self@, result_view(result), first.status_course(rest)));
        result
    }

    #[verifier::spinoff_prover]
    #[verifier::rlimit(60)]
    fn settings(
        &mut self,
        direct: bool,
        stage: u8,
        now: &Vec<u8>,
        known: Ghost<Answers>,
        before: Ghost<Seq<Step>>,
        start: Ghost<Seq<Event>>,
    ) -> (result: (Result<Status, Error>, Ghost<Answers>))
        requires
            now@.len() == 8,
            old(self)@.effective_pid is Some,
            follows(start@, old(self).trace(), before@),
        ensures
            took(
                start@,
                final(self).trace(),
                final(self)@,
                result_view(result.0),
                old(self)@.settings_course(result.1@, before@, direct, stage, now@),
            ),
            result.1@.profile == known@.profile,
            result.1@.paired == known@.paired,
            result.1@.stage == known@.stage,
            result.1@.dpi == known@.dpi,
    {
        let ghost mut a: Answers = known@;
        let ghost device = self@;
        let ghost none = Seq::<u8>::empty();
        let ghost t0 = self.trace();

        let (count, Ghost(o1)) = self.ask_optional(cmd::DPI_STAGE_COUNT, no_args());
        let ghost t1 = self.trace();
        let total: usize = match count {
            Some(value) => if value[0] < 1 {
                1
            } else if value[0] > 4 {
                4
            } else {
                value[0] as usize
            },
            None => 1,
        };
        let (dpis, Ghost(stages)) = self.read_stages(stage as usize, now, total, direct);
        let ghost t2 = self.trace();
        let ghost c = device.ask(cmd::DPI_STAGE_COUNT, none, 1, o1);
        let ghost w = device.stage_steps(stage as nat, now@, stages, total as nat);
        let ghost s1 = before@.push(c) + w;
        proof {
            a.stage_count = o1;
            a.stages = stages;
            lemma_follows_one_more(start@, t0, t1, before@, c);
            lemma_follows_then(start@, t1, t2, before@.push(c), w);
        }

        let (battery, Ghost(o2)) = self.ask_optional(cmd::BATTERY_PERCENT, no_args());
        let ghost t3 = self.trace();
        let (charging, Ghost(o3)) = self.ask_optional(cmd::BATTERY_CHARGING, no_args());
        let ghost t4 = self.trace();
        let (lod, Ghost(o4)) = self.ask_optional(cmd::LIFT_OFF, no_args());
        let ghost t5 = self.trace();
        let (system, Ghost(o5)) = self.ask_optional(cmd::SYSTEM_MODE, no_args());
        let ghost t6 = self.trace();
        let arg = one_arg(0);
        let (mouse, Ghost(o6)) = self.ask_optional(cmd::FIRMWARE, arg.as_slice());
        let ghost t7 = self.trace();
        let ghost k2 = device.ask(cmd::BATTERY_PERCENT, none, 1, o2);
        let ghost k3 = device.ask(cmd::BATTERY_CHARGING, none, 1, o3);
        let ghost k4 = device.ask(cmd::LIFT_OFF, none, 1, o4);
        let ghost k5 = device.ask(cmd::SYSTEM_MODE, none, 1, o5);
        let ghost k6 = device.ask(cmd::FIRMWARE, seq![0u8], 1, o6);
        let ghost s2 = s1.push(k2).push(k3).push(k4).push(k5).push(k6);
        proof {
            a.battery = o2;
            a.charging = o3;
            a.lift_off = o4;
            a.system_mode = o5;
            a.mouse_firmware = o6;
            lemma_follows_one_more(start@, t2, t3, s1, k2);
            lemma_follows_one_more(start@, t3, t4, s1.push(k2), k3);
            lemma_follows_one_more(start@, t4, t5, s1.push(k2).push(k3), k4);
            lemma_follows_one_more(start@, t5, t6, s1.push(k2).push(k3).push(k4), k5);
            lemma_follows_one_more(start@, t6, t7, s1.push(k2).push(k3).push(k4).push(k5), k6);
        }

        let mut firmware: Vec<(&'static str, String)> = Vec::new();
        if let Some(value) = mouse {
            firmware.push(("mouse", p::decode_firmware(value.as_slice())));
        }
        let ghost mut s3 = s2;
        let mut lighting: Option<Lighting> = None;
        let is_receiver = self.is_receiver();
        if is_receiver {
            let arg = one_arg(1);
            let (receiver, Ghost(o7)) = self.ask_optional(cmd::FIRMWARE, arg.as_slice());
            let ghost t8 = self.trace();
            if let Some(value) = receiver {
                firmware.push(("receiver", p::decode_firmware(value.as_slice())));
            }
            let (light, Ghost(o8)) = self.light_answers();
            let ghost t9 = self.trace();
            proof {
                let k7 = device.ask(cmd::FIRMWARE, seq![1u8], 1, o7);
                a.receiver_firmware = o7;
                a.light = o8;
                lemma_follows_one_more(start@, t7, t8, s2, k7);
                lemma_follows_then(start@, t8, t9, s2.push(k7), device.light_steps(o8));
                s3 = s2.push(k7) + device.light_steps(o8);
            }
            match light {
                Ok(light) => {
                    lighting = light;
                },
                Err(error) => {
                    return (Err(error), Ghost(a));
                },
            }
        }
        assert(firmware_view(firmware@) =~= firmware_parts(
            a.mouse_firmware,
            a.receiver_firmware,
            is_receiver,
        ));
        let ghost t9 = self.trace();

        let (polling, Ghost(a5)) = self.read_answer(cmd::POLLING_RATE, no_args(), 4);
        let ghost r5 = device.read_steps(cmd::POLLING_RATE, none, 4, a5);
        let ghost s4 = s3 + r5;
        let ghost t10 = self.trace();
        proof {
            a.polling = a5;
            lemma_follows_then(start@, t9, t10, s3, r5);
        }
        let polling = match polling {
            Ok(polling) => polling,
            Err(error) => {
                return (Err(error), Ghost(a));
            },
        };
        let (motion, Ghost(o9)) = self.ask_optional(cmd::MOTION_SYNC, no_args());
        let ghost t11 = self.trace();
        let (angle, Ghost(o10)) = self.ask_optional(cmd::ANGLE_TUNING, no_args());
        let ghost t12 = self.trace();
        let (sleep, Ghost(o11)) = self.ask_optional(cmd::SLEEP_MINUTES, no_args());
        proof {
            let k9 = device.ask(cmd::MOTION_SYNC, none, 1, o9);
            let k10 = device.ask(cmd::ANGLE_TUNING, none, 1, o10);
            let k11 = device.ask(cmd::SLEEP_MINUTES, none, 1, o11);
            a.motion_sync = o9;
            a.angle_tuning = o10;
            a.sleep_minutes = o11;
            lemma_follows_one_more(start@, t10, t11, s4, k9);
            lemma_follows_one_more(start@, t11, t12, s4.push(k9), k10);
            lemma_follows_one_more(start@, t12, self.trace(), s4.push(k9).push(k10), k11);
        }
        let effective_product_id: u16 = match self.effective_pid {
            Some(pid) => pid,
            None => self.product_id,
        };
        let dpi: Option<u32> = if (stage as usize) < dpis.len() {
            Some(dpis[stage as usize])
        } else {
            None
        };
        let status = Status {
            name: self.name.clone(),
            path: self.path.clone(),
            product_id: self.product_id,
            effective_product_id,
            direct,
            profile: self.profile,
            dpi_stage: stage as usize,
            dpi_stages: dpis,
            dpi,
            polling_rate: p::decode_polling(polling[0]),
            lift_off: read_name(p::LOD_VALUES.as_slice(), &lod, Ghost(o4)),
            motion_sync: read_switch(&motion, Ghost(o9)),
            angle_tuning: read_switch(&angle, Ghost(o10)),
            system_mode: read_name(p::SYSTEM_MODES.as_slice(), &system, Ghost(o5)),
            sleep_minutes: match sleep {
                Some(value) => Some(value[0]),
                None => None,
            },
            battery: read_level(&battery, Ghost(o2)),
            charging: read_switch(&charging, Ghost(o3)),
            is_receiver,
            firmware,
            lighting,
        };
        assert(status@ == device.status_view(a, direct, stage, now@, polling@, status@.lighting));
        (Ok(status), Ghost(a))
    }
}

} // verus!
