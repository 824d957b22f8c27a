//! A scripted stand-in for a mouse.

use std::collections::{HashMap, HashSet};

use vstd::prelude::*;
use vstd::string::*;

use crate::error::{result_view, Error, ErrorView};
use crate::protocol::{self as p, cmd};
use crate::transport::{Event, Transport};

verus! {

/// A scripted stand-in for a mouse.
///
/// It holds the device's readable state keyed by command and argument, applies
/// writes to it through the pairing of [`getter_of`], and answers the last
/// request it was given -- which is all the real protocol is. A command left out
/// of the state is simply never answered, which is exactly how an unimplemented
/// command and a sleeping mouse both present on the wire.
pub struct Fake {
    script: Script,
    history: Ghost<Seq<Event>>,
}

/// What a [`Fake`] holds, apart from its history.
struct Script {
    state: HashMap<u16, Vec<u8>>,
    silent: HashSet<u8>,
    pending: Option<(u8, u8)>,
    writes: Vec<(u8, Vec<u8>)>,
    clock: u64,
}

/// A [`Fake`] as contracts see it.
#[verifier::ext_equal]
pub struct FakeView {
    /// What each command reads, by command and first argument.
    pub state: Map<(u8, u8), Seq<u8>>,
    /// Commands that go unanswered even though they have state -- a mouse that
    /// has gone to sleep behind a receiver that is still talking.
    pub silent: Set<u8>,
    /// The command and the first argument of the last request.
    pub pending: Option<(u8, u8)>,
    /// Every request so far: its command and its arguments.
    pub writes: Seq<(u8, Seq<u8>)>,
    /// How many milliseconds the caller has waited.
    pub clock: u64,
}

spec fn key(command: u8, arg: u8) -> u16 {
    (command * 256 + arg) as u16
}

spec fn state_view(state: Map<u16, Vec<u8>>) -> Map<(u8, u8), Seq<u8>> {
    Map::new(
        |k: (u8, u8)| state.dom().contains(key(k.0, k.1)),
        |k: (u8, u8)| state[key(k.0, k.1)]@,
    )
}

spec fn writes_view(writes: Seq<(u8, Vec<u8>)>) -> Seq<(u8, Seq<u8>)> {
    writes.map_values(|write: (u8, Vec<u8>)| (write.0, write.1@))
}

impl View for Fake {
    type V = FakeView;

    closed spec fn view(&self) -> FakeView {
        self.script@
    }
}

impl View for Script {
    type V = FakeView;

    closed spec fn view(&self) -> FakeView {
        FakeView {
            state: state_view(self.state@),
            silent: self.silent@,
            pending: self.pending,
            writes: writes_view(self.writes@),
            clock: self.clock,
        }
    }
}

/// The getter that must report what a setter wrote, and whether the setter's
/// first argument selects which of several values it writes.
pub open spec fn getter_of(setter: u8) -> Option<(u8, bool)> {
    if setter == cmd::SET_DPI {
        Some((cmd::DPI, true))
    } else if setter == cmd::SET_POLLING_RATE {
        Some((cmd::POLLING_RATE, false))
    } else if setter == cmd::SET_LIFT_OFF {
        Some((cmd::LIFT_OFF, false))
    } else if setter == cmd::SET_MOTION_SYNC {
        Some((cmd::MOTION_SYNC, false))
    } else if setter == cmd::SET_LIGHTING_STATE {
        Some((cmd::LIGHTING_STATE, false))
    } else if setter == cmd::SET_LIGHTING_MODE {
        Some((cmd::LIGHTING_MODE, false))
    } else if setter == cmd::SET_LIGHTING_COLOR {
        Some((cmd::LIGHTING_COLOR, false))
    } else if setter == cmd::SET_LIGHTING_BRIGHTNESS {
        Some((cmd::LIGHTING_BRIGHTNESS, false))
    } else {
        None
    }
}

fn getter(setter: u8) -> (link: Option<(u8, bool)>)
    ensures
        link == getter_of(setter),
{
    if setter == cmd::SET_DPI {
        Some((cmd::DPI, true))
    } else if setter == cmd::SET_POLLING_RATE {
        Some((cmd::POLLING_RATE, false))
    } else if setter == cmd::SET_LIFT_OFF {
        Some((cmd::LIFT_OFF, false))
    } else if setter == cmd::SET_MOTION_SYNC {
        Some((cmd::MOTION_SYNC, false))
    } else if setter == cmd::SET_LIGHTING_STATE {
        Some((cmd::LIGHTING_STATE, false))
    } else if setter == cmd::SET_LIGHTING_MODE {
        Some((cmd::LIGHTING_MODE, false))
    } else if setter == cmd::SET_LIGHTING_COLOR {
        Some((cmd::LIGHTING_COLOR, false))
    } else if setter == cmd::SET_LIGHTING_BRIGHTNESS {
        Some((cmd::LIGHTING_BRIGHTNESS, false))
    } else {
        None
    }
}

/// A report is a request: it has the length of one and holds the arguments it
/// counts, among them the one that a setter of several values selects by.
pub open spec fn is_request(payload: Seq<u8>) -> bool {
    &&& payload.len() == p::PAYLOAD_LEN
    &&& payload[5] <= 8
    &&& getter_of(payload[0]) matches Some((_, true)) ==> payload[5] > 0
}

/// The arguments of a request.
pub open spec fn request_args(payload: Seq<u8>) -> Seq<u8> {
    payload.subrange(7, 7 + payload[5])
}

impl FakeView {
    /// What state a request leaves behind.
    pub open spec fn state_after(self, command: u8, args: Seq<u8>) -> Map<(u8, u8), Seq<u8>> {
        match getter_of(command) {
            None => self.state,
            Some((getter, true)) => self.state.insert((getter, args[0]), args.skip(1)),
            Some((getter, false)) => self.state.insert((getter, 0), args),
        }
    }

    /// What a report does to the stand-in.
    pub open spec fn after_report(self, report_id: u8, payload: Seq<u8>) -> (
        Result<(), ErrorView>,
        FakeView,
    ) {
        if report_id == p::CONTROL_REPORT_ID {
            (Ok(()), self)
        } else if !is_request(payload) {
            (Err(ErrorView::Protocol("short request"@)), self)
        } else {
            let command = payload[0];
            let args = request_args(payload);
            let first = if args.len() > 0 {
                args[0]
            } else {
                0
            };
            (
                Ok(()),
                FakeView {
                    state: self.state_after(command, args),
                    pending: Some((command, first)),
                    writes: self.writes.push((command, args)),
                    ..self
                },
            )
        }
    }

    /// What waiting does to the stand-in.
    pub open spec fn after_wait(self, millis: u64) -> FakeView {
        FakeView {
            clock: if self.clock + millis <= u64::MAX {
                (self.clock + millis) as u64
            } else {
                u64::MAX
            },
            ..self
        }
    }

    /// What the stand-in has to say to the last request, if anything.
    pub open spec fn answer(self) -> Option<(u8, Seq<u8>)> {
        match self.pending {
            Some((command, arg)) => if !self.silent.contains(command)
                && self.state.dom().contains((command, arg)) {
                Some((command, self.state[(command, arg)]))
            } else {
                None
            },
            None => None,
        }
    }

    /// The report that is read next: the answer, as far as it fits, or a blank.
    pub open spec fn reply(self, report_id: u8, length: nat) -> Seq<u8> {
        match self.answer() {
            Some((command, value)) => if length >= 7 {
                Seq::new(
                    length + 1,
                    |i: int|
                        if i == 0 {
                            report_id
                        } else if i == 1 {
                            command
                        } else if 8 <= i < 8 + value.len() {
                            value[i - 8]
                        } else {
                            0
                        },
                )
            } else {
                seq![report_id] + Seq::new(length, |i: int| 0u8)
            },
            None => seq![report_id] + Seq::new(length, |i: int| 0u8),
        }
    }
}

// -- records ------------------------------------------------------------------

impl FakeView {
    /// A stand-in that answers nothing yet.
    pub open spec fn blank() -> FakeView {
        FakeView {
            state: Map::empty(),
            silent: Set::empty(),
            pending: None,
            writes: Seq::empty(),
            clock: 0,
        }
    }

    /// What an event does to the stand-in.
    pub open spec fn after_event(self, event: Event) -> FakeView {
        match event {
            Event::Staged { command, arg, value } => FakeView {
                state: self.state.insert((command, arg), value),
                ..self
            },
            Event::Silenced { command } => FakeView { silent: self.silent.insert(command), ..self },
            Event::Written { report_id, payload, .. } => self.after_report(report_id, payload).1,
            Event::Fetched { .. } => self,
            Event::Slept { millis } => self.after_wait(millis),
        }
    }

    /// An event came out as the stand-in has it.
    pub open spec fn plays(self, event: Event) -> bool {
        match event {
            Event::Written { report_id, payload, sent } => sent == self.after_report(
                report_id,
                payload,
            ).0,
            Event::Fetched { report_id, length, reply } => reply == Ok::<Seq<u8>, ErrorView>(
                self.reply(report_id, length),
            ),
            _ => true,
        }
    }

    /// The stand-in after a run of events.
    pub open spec fn after_run(self, run: Seq<Event>) -> FakeView
        decreases run.len(),
    {
        if run.len() == 0 {
            self
        } else {
            self.after_event(run[0]).after_run(run.skip(1))
        }
    }

    /// Every event of a run came out as the stand-in has it.
    pub open spec fn plays_run(self, run: Seq<Event>) -> bool
        decreases run.len(),
    {
        run.len() == 0 || (self.plays(run[0]) && self.after_event(run[0]).plays_run(run.skip(1)))
    }
}

/// The last request among `writes` that was `command`.
pub open spec fn last_written(writes: Seq<(u8, Seq<u8>)>, command: u8) -> Option<Seq<u8>>
    decreases writes.len(),
{
    if writes.len() == 0 {
        None
    } else if writes.last().0 == command {
        Some(writes.last().1)
    } else {
        last_written(writes.drop_last(), command)
    }
}

/// A run with one more event.
pub proof fn lemma_one_more(fake: FakeView, run: Seq<Event>, event: Event)
    ensures
        fake.after_run(run.push(event)) == fake.after_run(run).after_event(event),
        fake.plays_run(run.push(event)) <==> fake.plays_run(run) && fake.after_run(run).plays(
            event,
        ),
    decreases run.len(),
{
    let longer = run.push(event);
    if run.len() == 0 {
        assert(longer.skip(1) =~= Seq::empty());
        reveal_with_fuel(FakeView::after_run, 2);
        reveal_with_fuel(FakeView::plays_run, 2);
    } else {
        assert(longer.skip(1) =~= run.skip(1).push(event));
        lemma_one_more(fake.after_event(run[0]), run.skip(1), event);
    }
}

impl Script {
    fn new() -> (script: Self)
        ensures
            script@ == FakeView::blank(),
    {
        let script = Script {
            state: HashMap::new(),
            silent: HashSet::new(),
            pending: None,
            writes: Vec::new(),
            clock: 0,
        };
        assert(state_view(script.state@) =~= Map::empty());
        assert(writes_view(script.writes@) =~= Seq::empty());
        script
    }

    fn set(&mut self, command: u8, arg: u8, value: &[u8])
        ensures
            final(self)@ == (FakeView {
                state: old(self)@.state.insert((command, arg), value@),
                ..old(self)@
            }),
    {
        broadcast use vstd::std_specs::hash::group_hash_axioms;

        let ghost before = state_view(self.state@);
        let k: u16 = (command as u16) * 256 + (arg as u16);
        self.state.insert(k, vstd::slice::slice_to_vec(value));
        assert(state_view(self.state@) =~= before.insert((command, arg), value@));
    }

    fn silence(&mut self, command: u8)
        ensures
            final(self)@ == (FakeView {
                silent: old(self)@.silent.insert(command),
                ..old(self)@
            }),
    {
        broadcast use vstd::std_specs::hash::group_hash_axioms;

        self.silent.insert(command);
    }

    fn write(&mut self, report_id: u8, payload: &[u8]) -> (result: Result<(), Error>)
        ensures
            result_view(result) == old(self)@.after_report(report_id, payload@).0,
            final(self)@ == old(self)@.after_report(report_id, payload@).1,
    {
        let ghost before = self@;
        if report_id == p::CONTROL_REPORT_ID {
            Ok(())
        } else if payload.len() != p::PAYLOAD_LEN || payload[5] > 8 {
            Err(Error::Protocol("short request".to_owned()))
        } else {
            let command: u8 = payload[0];
            let count: usize = payload[5] as usize;
            let args = vstd::slice::slice_subrange(payload, 7, 7 + count);
            assert(args@ =~= request_args(payload@));
            let link = getter(command);
            let first: u8 = if count > 0 {
                args[0]
            } else {
                0
            };
            match link {
                Some((_, true)) if count == 0 => Err(Error::Protocol("short request".to_owned())),
                _ => {
                    match link {
                        Some((getter, true)) => {
                            let value = vstd::slice::slice_subrange(args, 1, args.len());
                            assert(value@ =~= args@.skip(1));
                            self.set(getter, first, value);
                        },
                        Some((getter, false)) => {
                            self.set(getter, 0, args);
                        },
                        None => {},
                    }
                    let ghost writes = self.writes@;
                    self.writes.push((command, vstd::slice::slice_to_vec(args)));
                    assert(writes_view(self.writes@) =~= writes_view(writes).push((command, args@)));
                    // Whatever this was, the device now owes an answer to it.
                    self.pending = Some((command, first));
                    assert(self@ =~= before.after_report(report_id, payload@).1);
                    Ok(())
                },
            }
        }
    }

    fn read(&self, report_id: u8, length: usize) -> (buf: Vec<u8>)
        requires
            length < usize::MAX,
        ensures
            buf@ == self@.reply(report_id, length as nat),
            buf@.len() == length + 1,
    {
        broadcast use vstd::std_specs::hash::group_hash_axioms;

        let mut buf: Vec<u8> = Vec::new();
        buf.push(report_id);
        while buf.len() <= length
            invariant
                1 <= buf@.len() <= length + 1,
                length < usize::MAX,
                buf@[0] == report_id,
                forall|i: int| 1 <= i < buf@.len() ==> buf@[i] == 0,
            decreases length + 1 - buf.len(),
        {
            buf.push(0);
        }
        let ghost blank = buf@;
        assert(blank =~= seq![report_id] + Seq::new(length as nat, |i: int| 0u8));
        if length >= 7 {
            if let Some((command, arg)) = self.pending {
                let k: u16 = (command as u16) * 256 + (arg as u16);
                assert(k == key(command, arg));
                assert(self.state@.dom().contains(k) == self@.state.dom().contains((command, arg)));
                if !self.silent.contains(&command) {
                    if let Some(value) = self.state.get(&k) {
                        buf.set(1, command);
                        let mut i: usize = 0;
                        while i < value.len() && i < length - 7
                            invariant
                                i <= value@.len(),
                                i <= length - 7,
                                7 <= length < usize::MAX,
                                buf@.len() == length + 1,
                                forall|j: int|
                                    0 <= j < buf@.len() ==> #[trigger] buf@[j] == if j == 0 {
                                        report_id
                                    } else if j == 1 {
                                        command
                                    } else if 8 <= j < 8 + i {
                                        value@[j - 8]
                                    } else {
                                        0
                                    },
                            decreases value.len() - i,
                        {
                            buf.set(8 + i, value[i]);
                            i += 1;
                        }
                    }
                }
            }
        }
        assert(buf@ =~= self@.reply(report_id, length as nat));
        buf
    }

    fn wait(&mut self, millis: u64)
        ensures
            final(self)@ == old(self)@.after_wait(millis),
    {
        self.clock = self.clock.saturating_add(millis);
    }
}

impl Fake {
    /// The history says all there is to say: every event in it came out as the
    /// stand-in had it, and together they made it what it is.
    #[verifier::type_invariant]
    pub closed spec fn is_recorded(self) -> bool {
        &&& FakeView::blank().plays_run(self.history@)
        &&& self.script@ == FakeView::blank().after_run(self.history@)
    }

    fn take(&mut self) -> (taken: (Script, Ghost<Seq<Event>>))
        ensures
            taken.0@ == old(self)@,
            taken.1@ == old(self).history(),
            FakeView::blank().plays_run(taken.1@),
            taken.0@ == FakeView::blank().after_run(taken.1@),
    {
        proof {
            use_type_invariant(&*self);
        }
        let mut taken = Fake::new();
        std::mem::swap(self, &mut taken);
        (taken.script, taken.history)
    }

    /// A stand-in that answers nothing yet.
    pub fn new() -> (fake: Self)
        ensures
            fake@ == FakeView::blank(),
            fake.history() == Seq::<Event>::empty(),
    {
        Fake { script: Script::new(), history: Ghost(Seq::empty()) }
    }

    /// Let `command`, asked with `arg`, read `value`.
    pub fn set(&mut self, command: u8, arg: u8, value: &[u8])
        ensures
            final(self)@ == (FakeView {
                state: old(self)@.state.insert((command, arg), value@),
                ..old(self)@
            }),
            final(self).history() == old(self).history().push(
                Event::Staged { command, arg, value: value@ },
            ),
    {
        let (mut script, Ghost(history)) = self.take();
        script.set(command, arg, value);
        let ghost event = Event::Staged { command, arg, value: value@ };
        proof {
            lemma_one_more(FakeView::blank(), history, event);
        }
        *self = Fake { script, history: Ghost(history.push(event)) };
    }

    /// Stop answering `command`, as a mouse does when it goes to sleep.
    pub fn silence(&mut self, command: u8)
        ensures
            final(self)@ == (FakeView {
                silent: old(self)@.silent.insert(command),
                ..old(self)@
            }),
            final(self).history() == old(self).history().push(Event::Silenced { command }),
    {
        let (mut script, Ghost(history)) = self.take();
        script.silence(command);
        let ghost event = Event::Silenced { command };
        proof {
            lemma_one_more(FakeView::blank(), history, event);
        }
        *self = Fake { script, history: Ghost(history.push(event)) };
    }

    /// How many milliseconds the caller has waited.
    pub fn elapsed(&self) -> (millis: u64)
        ensures
            millis == self@.clock,
    {
        self.script.clock
    }

    /// The arguments of the last request that was `command`.
    pub fn wrote(&self, command: u8) -> (args: Option<Vec<u8>>)
        ensures
            match args {
                Some(args) => last_written(self@.writes, command) == Some(args@),
                None => last_written(self@.writes, command) is None,
            },
    {
        let writes = &self.script.writes;
        let mut i: usize = writes.len();
        let ghost all = self@.writes;
        assert(all.take(i as int) =~= all);
        while i > 0
            invariant
                i <= writes@.len(),
                all == writes_view(writes@),
                all == self@.writes,
                last_written(all, command) == last_written(all.take(i as int), command),
            decreases i,
        {
            assert(all.take(i as int).drop_last() =~= all.take(i - 1));
            i -= 1;
            if writes[i].0 == command {
                return Some(vstd::slice::slice_to_vec(writes[i].1.as_slice()));
            }
        }
        None
    }

    /// How many requests there have been.
    pub fn requests(&self) -> (count: usize)
        ensures
            count == self@.writes.len(),
    {
        self.script.writes.len()
    }
}

/// What a Ninjutso Ten answers: 1600 DPI across four stages, 1 kHz, lighting
/// present, no brightness command.
pub open spec fn ten_state() -> Map<(u8, u8), Seq<u8>> {
    // 1600 DPI stepped: 1600/50 - 1 = 31.
    Map::empty()
        .insert((cmd::PROFILE, 0), seq![1u8])
        .insert((cmd::PAIRED_PRODUCT_ID, 0), seq![0x20u8, 0xE0])
        .insert((cmd::ACTIVE_DPI_STAGE, 0), seq![0u8])
        .insert((cmd::DPI_STAGE_COUNT, 0), seq![4u8])
        .insert((cmd::POLLING_RATE, 0), seq![0u8])
        .insert((cmd::LIFT_OFF, 0), seq![1u8])
        .insert((cmd::MOTION_SYNC, 0), seq![1u8])
        .insert((cmd::ANGLE_TUNING, 0), seq![0u8])
        .insert((cmd::SYSTEM_MODE, 0), seq![0u8])
        .insert((cmd::SLEEP_MINUTES, 0), seq![2u8])
        .insert((cmd::BATTERY_PERCENT, 0), seq![73u8])
        .insert((cmd::BATTERY_CHARGING, 0), seq![0u8])
        .insert((cmd::ONLINE, 0), seq![1u8])
        .insert((cmd::FIRMWARE, 0), seq![0x03u8, 0x01, 0x00])
        .insert((cmd::FIRMWARE, 1), seq![0x07u8, 0x02, 0x00])
        .insert((cmd::LIGHTING_STATE, 0), seq![1u8])
        .insert((cmd::LIGHTING_MODE, 0), seq![1u8])
        .insert((cmd::LIGHTING_COLOR, 0), seq![0x36u8, 0xAD, 0x6A])
        .insert((cmd::LIGHTING_SPEED, 0), seq![10u8])
        .insert((cmd::DPI, 0), seq![31u8, 0, 0])
        .insert((cmd::DPI, 1), seq![31u8, 0, 0])
        .insert((cmd::DPI, 2), seq![31u8, 0, 0])
        .insert((cmd::DPI, 3), seq![31u8, 0, 0])
}

/// What a Sora V3 answers: 1-DPI steps, and the brightness command the Ten does
/// not implement.
pub open spec fn sora_v3_state() -> Map<(u8, u8), Seq<u8>> {
    // 36000 DPI direct -- past the Ten's ceiling on purpose.
    ten_state()
        .insert((cmd::PAIRED_PRODUCT_ID, 0), seq![0x10u8, 0xE0])
        .insert((cmd::LIGHTING_BRIGHTNESS, 0), seq![2u8])
        .insert((cmd::DPI, 0), seq![0xA0u8, 0x8C, 0])
        .insert((cmd::DPI, 1), seq![0xA0u8, 0x8C, 0])
        .insert((cmd::DPI, 2), seq![0xA0u8, 0x8C, 0])
        .insert((cmd::DPI, 3), seq![0xA0u8, 0x8C, 0])
}

impl Fake {
    fn answer<const N: usize>(&mut self, command: u8, arg: u8, value: [u8; N])
        ensures
            final(self)@ == (FakeView {
                state: old(self)@.state.insert((command, arg), value@),
                ..old(self)@
            }),
    {
        self.set(command, arg, value.as_slice());
    }

    /// A Ninjutso Ten as it actually answers.
    pub fn ten() -> (fake: Self)
        ensures
            fake@ == (FakeView { state: ten_state(), ..FakeView::blank() }),
    {
        let mut fake = Fake::new();
        fake.answer(cmd::PROFILE, 0, [1]);
        fake.answer(cmd::PAIRED_PRODUCT_ID, 0, [0x20, 0xE0]);
        fake.answer(cmd::ACTIVE_DPI_STAGE, 0, [0]);
        fake.answer(cmd::DPI_STAGE_COUNT, 0, [4]);
        fake.answer(cmd::POLLING_RATE, 0, [0]);
        fake.answer(cmd::LIFT_OFF, 0, [1]);
        fake.answer(cmd::MOTION_SYNC, 0, [1]);
        fake.answer(cmd::ANGLE_TUNING, 0, [0]);
        fake.answer(cmd::SYSTEM_MODE, 0, [0]);
        fake.answer(cmd::SLEEP_MINUTES, 0, [2]);
        fake.answer(cmd::BATTERY_PERCENT, 0, [73]);
        fake.answer(cmd::BATTERY_CHARGING, 0, [0]);
        fake.answer(cmd::ONLINE, 0, [1]);
        fake.answer(cmd::FIRMWARE, 0, [0x03, 0x01, 0x00]);
        fake.answer(cmd::FIRMWARE, 1, [0x07, 0x02, 0x00]);
        fake.answer(cmd::LIGHTING_STATE, 0, [1]);
        fake.answer(cmd::LIGHTING_MODE, 0, [1]);
        fake.answer(cmd::LIGHTING_COLOR, 0, [0x36, 0xAD, 0x6A]);
        fake.answer(cmd::LIGHTING_SPEED, 0, [10]);
        fake.answer(cmd::DPI, 0, [31, 0, 0]);
        fake.answer(cmd::DPI, 1, [31, 0, 0]);
        fake.answer(cmd::DPI, 2, [31, 0, 0]);
        fake.answer(cmd::DPI, 3, [31, 0, 0]);
        assert(fake@.state =~~= ten_state());
        fake
    }

    /// A Sora V3 as it answers.
    pub fn sora_v3() -> (fake: Self)
        ensures
            fake@ == (FakeView { state: sora_v3_state(), ..FakeView::blank() }),
    {
        let mut fake = Fake::ten();
        fake.answer(cmd::PAIRED_PRODUCT_ID, 0, [0x10, 0xE0]);
        fake.answer(cmd::LIGHTING_BRIGHTNESS, 0, [2]);
        fake.answer(cmd::DPI, 0, [0xA0, 0x8C, 0]);
        fake.answer(cmd::DPI, 1, [0xA0, 0x8C, 0]);
        fake.answer(cmd::DPI, 2, [0xA0, 0x8C, 0]);
        fake.answer(cmd::DPI, 3, [0xA0, 0x8C, 0]);
        assert(fake@.state =~~= sora_v3_state());
        fake
    }
}

impl Transport for Fake {
    closed spec fn history(&self) -> Seq<Event> {
        self.history@
    }

    fn set_feature(&mut self, report_id: u8, payload: &[u8]) -> (result: Result<(), Error>)
        ensures
            result_view(result) == old(self)@.after_report(report_id, payload@).0,
            final(self)@ == old(self)@.after_report(report_id, payload@).1,
    {
        let (mut script, Ghost(history)) = self.take();
        let result = script.write(report_id, payload);
        let ghost event = Event::Written {
            report_id,
            payload: payload@,
            sent: result_view(result),
        };
        proof {
            lemma_one_more(FakeView::blank(), history, event);
        }
        *self = Fake { script, history: Ghost(history.push(event)) };
        result
    }

    fn get_feature(&mut self, report_id: u8, length: usize) -> (result: Result<Vec<u8>, Error>)
        ensures
            result_view(result) == Ok::<Seq<u8>, ErrorView>(
                old(self)@.reply(report_id, length as nat),
            ),
            final(self)@ == old(self)@,
    {
        let (script, Ghost(history)) = self.take();
        let result: Result<Vec<u8>, Error> = Ok(script.read(report_id, length));
        let ghost event = Event::Fetched {
            report_id,
            length: length as nat,
            reply: result_view(result),
        };
        proof {
            lemma_one_more(FakeView::blank(), history, event);
        }
        *self = Fake { script, history: Ghost(history.push(event)) };
        result
    }

    /// Advance the virtual clock instead of actually waiting.
    fn sleep(&mut self, millis: u64)
        ensures
            final(self)@ == old(self)@.after_wait(millis),
    {
        let (mut script, Ghost(history)) = self.take();
        script.wait(millis);
        let ghost event = Event::Slept { millis };
        proof {
            lemma_one_more(FakeView::blank(), history, event);
        }
        *self = Fake { script, history: Ghost(history.push(event)) };
    }
}

// -- laws ---------------------------------------------------------------------

/// A stand-in's history says all there is to say of it.
pub proof fn lemma_recorded(fake: Fake)
    requires
        fake.is_recorded(),
    ensures
        FakeView::blank().plays_run(fake.history()),
        fake@ == FakeView::blank().after_run(fake.history()),
{
}

/// What is written is what is read back: once a setter has gone out, its getter
/// is answered with the value that was written.
pub proof fn lemma_write_reads_back(
    fake: FakeView,
    setter: u8,
    args: Seq<u8>,
    profile: u8,
    asking_profile: u8,
)
    requires
        getter_of(setter) matches Some((getter, keyed)) && !fake.silent.contains(getter) && (keyed
            ==> args.len() > 0),
        args.len() <= 8,
    ensures
        ({
            let (getter, keyed) = getter_of(setter)->0;
            let selector = if keyed {
                seq![args[0]]
            } else {
                Seq::empty()
            };
            let value = if keyed {
                args.skip(1)
            } else {
                args
            };
            let told = fake.after_report(
                p::REPORT_ID,
                p::request_payload(setter, profile, args),
            ).1;
            let asked = told.after_report(
                p::REPORT_ID,
                p::request_payload(getter, asking_profile, selector),
            ).1;
            let reply = asked.reply(p::REPORT_ID, p::PAYLOAD_LEN as nat);
            &&& p::answers(reply, getter)
            &&& reply.subrange(8, (8 + value.len()) as int) == value
        }),
{
    let (getter, keyed) = getter_of(setter)->0;
    let selector = if keyed {
        seq![args[0]]
    } else {
        Seq::empty()
    };
    let value = if keyed {
        args.skip(1)
    } else {
        args
    };
    let first = p::request_payload(setter, profile, args);
    let told = fake.after_report(p::REPORT_ID, first).1;
    let second = p::request_payload(getter, asking_profile, selector);
    let asked = told.after_report(p::REPORT_ID, second).1;
    assert(request_args(first) =~= args);
    assert(request_args(second) =~= selector);
    let key = if keyed {
        args[0]
    } else {
        0u8
    };
    assert(told.state == fake.state.insert((getter, key), value));
    assert(asked.answer() == Some((getter, value)));
    let reply = asked.reply(p::REPORT_ID, p::PAYLOAD_LEN as nat);
    assert(reply.subrange(8, (8 + value.len()) as int) =~= value);
}

/// Time only goes forward, by what is waited, and waiting does nothing else; at
/// the end of time the clock stands still.
pub proof fn lemma_waiting(fake: FakeView, first: u64, second: u64)
    ensures
        fake.clock + first <= u64::MAX ==> fake.after_wait(first).clock == fake.clock + first,
        fake.after_wait(first).clock >= fake.clock,
        first <= second ==> fake.after_wait(first).clock <= fake.after_wait(second).clock,
        fake.after_wait(first) == (FakeView { clock: fake.after_wait(first).clock, ..fake }),
        fake.clock + first + second <= u64::MAX ==> fake.after_wait(first).after_wait(second)
            == fake.after_wait((first + second) as u64),
{
}

/// What is not a request is refused and changes nothing, and neither does a
/// control report, which is taken. A request always is, and is kept.
pub proof fn lemma_reports(fake: FakeView, payload: Seq<u8>)
    ensures
        fake.after_report(3, payload) == (Ok::<(), ErrorView>(()), fake),
        payload.len() != 15 || payload[5] > 8 ==> fake.after_report(6, payload) == (
            Err::<(), ErrorView>(ErrorView::Protocol("short request"@)),
            fake,
        ),
        payload.len() == 15 && 1 <= payload[5] <= 8 ==> {
            let after = fake.after_report(6, payload);
            &&& after.0 is Ok
            &&& after.1.writes.len() == fake.writes.len() + 1
            &&& after.1.writes.last() == (payload[0], payload.subrange(7, 7 + payload[5]))
            &&& after.1.writes.drop_last() == fake.writes
            &&& after.1.silent == fake.silent
            &&& after.1.clock == fake.clock
        },
{
    if payload.len() == 15 && 1 <= payload[5] <= 8 {
        assert(fake.after_report(6, payload).1.writes.drop_last() =~= fake.writes);
    }
}

/// A command that was silenced, and one that nothing is known of, is answered with
/// a blank report, which answers no command.
pub proof fn lemma_silenced(fake: FakeView, command: u8, arg: u8, asked: u8, length: nat)
    requires
        fake.pending == Some((command, arg)),
        fake.silent.contains(command) || !fake.state.dom().contains((command, arg)),
        asked != 0,
    ensures
        !p::answers(fake.reply(6, length), asked),
        fake.reply(6, length).len() == length + 1,
        fake.reply(6, length)[0] == 6,
        forall|i: int|
            1 <= i <= length ==> (#[trigger] fake.reply(6, length)[i]) == 0,
{
}

} // verus!
