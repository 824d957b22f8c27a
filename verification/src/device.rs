//! The command layer: one open Ninjutso config interface.

use vstd::prelude::*;

use crate::error::{result_view, Error, ErrorView};
use crate::protocol::{
    self as p, build_request, cmd, is_profile_command, response_value, PAYLOAD_LEN,
    PROFILE_COMMANDS, REPORT_ID,
};
use crate::transport::{Event, Transport};

pub mod discovery;
pub mod laws;
pub mod outcomes;
pub mod holds;
pub mod round_trip;
pub mod settings;
pub mod status;
pub mod steps;
pub mod wire;

use steps::{
    answered, asking, follows, lemma_follows_nothing, lemma_follows_one_more, lemma_steps_to,
    outcome_view, steps_to, Answer, Outcome, Step,
};

verus! {

// -- the device ---------------------------------------------------------------

/// One open Ninjutso config interface.
pub struct Device<T: Transport> {
    transport: T,
    pub path: String,
    pub product_id: u16,
    pub name: String,
    profile: u8,
    effective_pid: Option<u16>,
}

/// What a device knows about itself.
pub struct DeviceView {
    pub path: Seq<char>,
    pub product_id: u16,
    pub name: Seq<char>,
    /// The profile that profile-scoped commands are sent with.
    pub profile: u8,
    /// The paired mouse's product id, once it has been read.
    pub effective_pid: Option<u16>,
}

impl<T: Transport> View for Device<T> {
    type V = DeviceView;

    closed spec fn view(&self) -> DeviceView {
        DeviceView {
            path: self.path@,
            product_id: self.product_id,
            name: self.name@,
            profile: self.profile,
            effective_pid: self.effective_pid,
        }
    }
}

/// What an operation on a device does, leaves behind and gives back.
pub struct Course<R> {
    pub steps: Seq<Step>,
    pub device: DeviceView,
    pub result: Result<R, ErrorView>,
}

/// An operation took this course: the trace grew by its steps and by nothing
/// else, and the device and the result are what it says.
pub open spec fn took<R>(
    before: Seq<Event>,
    after: Seq<Event>,
    device: DeviceView,
    result: Result<R, ErrorView>,
    course: Course<R>,
) -> bool {
    &&& follows(before, after, course.steps)
    &&& device == course.device
    &&& result == course.result
}

impl DeviceView {
    /// The profile that goes out with a command that is asked.
    pub open spec fn asking_profile(self, command: u8) -> u8 {
        if PROFILE_COMMANDS@.contains(command) {
            self.profile
        } else {
            0
        }
    }

    /// Asking a command, as a step of this device.
    pub open spec fn ask(
        self,
        command: u8,
        args: Seq<u8>,
        attempts: nat,
        outcome: Outcome,
    ) -> Step {
        Step::Asked { command, profile: self.asking_profile(command), args, attempts, outcome }
    }

    /// Sending a command without waiting for a reply, as a step of this device.
    pub open spec fn tell(
        self,
        command: u8,
        args: Seq<u8>,
        sent: Result<(), ErrorView>,
    ) -> Step {
        Step::Told { command, profile: self.profile, args, sent }
    }
}

impl DeviceView {
    /// Whether this interface is a receiver rather than a wired mouse.
    pub open spec fn is_receiver(self) -> bool {
        p::TEN_RECEIVER_IDS@.contains(self.product_id) || self.product_id == 0xEB02
    }

    /// The steps of reading a command that must be answered.
    pub open spec fn read_steps(
        self,
        command: u8,
        args: Seq<u8>,
        attempts: nat,
        answer: Answer,
    ) -> Seq<Step> {
        let asked = self.ask(command, args, attempts, answer.outcome);
        if self.is_receiver() && answer.outcome == Outcome::Ok(None) {
            seq![asked, self.ask(cmd::ONLINE, Seq::empty(), 1, answer.online)]
        } else {
            seq![asked]
        }
    }

    /// What reading a command that must be answered gives back. A command that
    /// nobody answers is the mouse being asleep where the receiver says so, and
    /// a timeout otherwise.
    pub open spec fn read_result(self, command: u8, answer: Answer) -> Result<Seq<u8>, ErrorView> {
        match answer.outcome {
            Ok(Some(value)) => Ok(value),
            Err(error) => Err(error),
            Ok(None) => match answered(answer.online) {
                Some(online) => if self.is_receiver() && online[0] == 0 {
                    Err(ErrorView::Offline)
                } else {
                    Err(ErrorView::Timeout(command))
                },
                None => Err(ErrorView::Timeout(command)),
            },
        }
    }
}

pub(crate) fn no_args() -> (args: &'static [u8])
    ensures
        args@ == Seq::<u8>::empty(),
{
    let args: &'static [u8; 0] = &[];
    assert(args@ =~= Seq::<u8>::empty());
    args
}

pub(crate) fn one_arg(arg: u8) -> (args: [u8; 1])
    ensures
        args@ == seq![arg],
{
    let args: [u8; 1] = [arg];
    assert(args@ =~= seq![arg]);
    args
}

impl<T: Transport> Device<T> {
    /// What has happened on this device's channel so far.
    pub closed spec fn trace(&self) -> Seq<Event> {
        self.transport.history()
    }

    /// What this device talks through.
    pub closed spec fn inner(&self) -> T {
        self.transport
    }

    /// What this device talks through.
    pub fn transport(&self) -> (transport: &T)
        ensures
            *transport == self.inner(),
            transport.history() == self.trace(),
    {
        &self.transport
    }

    pub(crate) fn new(transport: T, path: String, product_id: u16, name: String) -> (device: Self)
        ensures
            device@ == (DeviceView {
                path: path@,
                product_id,
                name: name@,
                profile: 1,
                effective_pid: None,
            }),
            device.inner() == transport,
            device.trace() == transport.history(),
    {
        Device { transport, path, product_id, name, profile: 1, effective_pid: None }
    }

    /// Send a command until the reply's command byte matches.
    ///
    /// The device answers asynchronously and will hand back a stale reply if
    /// asked too soon, so each attempt re-sends and re-reads.
    pub(crate) fn ask(&mut self, command: u8, args: &[u8], attempts: u32) -> (result: Result<
        Option<Vec<u8>>,
        Error,
    >)
        ensures
            final(self)@ == old(self)@,
            steps_to(
                old(self).trace(),
                final(self).trace(),
                old(self)@.ask(command, args@, attempts as nat, outcome_view(result)),
            ),
            result matches Ok(Some(value)) ==> value@.len() == 8,
    {
        let profile: u8 = if is_profile_command(command) {
            self.profile
        } else {
            0
        };
        let ghost start = self.trace();
        let request = match build_request(command, profile, args) {
            Ok(request) => request,
            Err(error) => {
                proof {
                    assert(start + Seq::<Event>::empty() =~= start);
                    lemma_steps_to(
                        start,
                        Seq::empty(),
                        self@.ask(command, args@, attempts as nat, Outcome::Err(error@)),
                    );
                }
                return Err(error);
            },
        };
        let result = self.ask_request(&request, command, attempts, 30);
        proof {
            let run = choose|run: Seq<Event>|
                self.trace() == start + run && #[trigger] asking(
                    run,
                    request@,
                    command,
                    attempts as nat,
                    30,
                    outcome_view(result),
                );
            lemma_steps_to(
                start,
                run,
                self@.ask(command, args@, attempts as nat, outcome_view(result)),
            );
        }
        result
    }

    fn ask_request(
        &mut self,
        request: &[u8; PAYLOAD_LEN],
        command: u8,
        attempts: u32,
        wait: u64,
    ) -> (result: Result<Option<Vec<u8>>, Error>)
        ensures
            final(self)@ == old(self)@,
            exists|run: Seq<Event>|
                final(self).trace() == old(self).trace() + run && #[trigger] asking(
                    run,
                    request@,
                    command,
                    attempts as nat,
                    wait,
                    outcome_view(result),
                ),
            result matches Ok(Some(value)) ==> value@.len() == 8,
        decreases attempts,
    {
        let ghost start = self.trace();
        if attempts == 0 {
            proof {
                let run = Seq::<Event>::empty();
                assert(start + run =~= start);
                assert(asking(run, request@, command, attempts as nat, wait, Outcome::Ok(None)));
            }
            return Ok(None);
        }
        let sent = self.transport.set_feature(REPORT_ID, request.as_slice());
        let ghost written = Event::Written {
            report_id: REPORT_ID,
            payload: request@,
            sent: result_view(sent),
        };
        if let Err(error) = sent {
            proof {
                let run = seq![written];
                assert(start + run =~= start.push(written));
                assert(asking(
                    run,
                    request@,
                    command,
                    attempts as nat,
                    wait,
                    Outcome::Err(error@),
                ));
            }
            return Err(error);
        }
        self.transport.sleep(wait);
        let reply = self.transport.get_feature(REPORT_ID, PAYLOAD_LEN);
        let ghost head = seq![
            written,
            Event::Slept { millis: wait },
            Event::Fetched {
                report_id: REPORT_ID,
                length: PAYLOAD_LEN as nat,
                reply: result_view(reply),
            },
        ];
        assert(self.trace() =~= start + head);
        let buf = match reply {
            Ok(buf) => buf,
            Err(error) => {
                assert(asking(
                    head,
                    request@,
                    command,
                    attempts as nat,
                    wait,
                    Outcome::Err(error@),
                ));
                return Err(error);
            },
        };
        if let Some(value) = response_value(buf.as_slice(), command) {
            let value = vstd::slice::slice_to_vec(value);
            assert(asking(
                head,
                request@,
                command,
                attempts as nat,
                wait,
                Outcome::Ok(Some(value@)),
            ));
            return Ok(Some(value));
        }
        let ghost middle = self.trace();
        let result = self.ask_request(request, command, attempts - 1, 60);
        proof {
            let rest = choose|run: Seq<Event>|
                self.trace() == middle + run && #[trigger] asking(
                    run,
                    request@,
                    command,
                    (attempts - 1) as nat,
                    60,
                    outcome_view(result),
                );
            let run = head + rest;
            assert(run.skip(3) =~= rest);
            assert(start + run =~= middle + rest);
            assert(asking(run, request@, command, attempts as nat, wait, outcome_view(result)));
        }
        result
    }

    pub(crate) fn ask_optional(&mut self, command: u8, args: &[u8]) -> (result: (
        Option<Vec<u8>>,
        Ghost<Outcome>,
    ))
        ensures
            final(self)@ == old(self)@,
            steps_to(
                old(self).trace(),
                final(self).trace(),
                old(self)@.ask(command, args@, 1, result.1@),
            ),
            match result.0 {
                Some(value) => answered(result.1@) == Some(value@) && value@.len() == 8,
                None => answered(result.1@) is None,
            },
    {
        let result = self.ask(command, args, 1);
        let ghost outcome = outcome_view(result);
        match result {
            Ok(Some(value)) => (Some(value), Ghost(outcome)),
            _ => (None, Ghost(outcome)),
        }
    }

    pub(crate) fn read_answer(&mut self, command: u8, args: &[u8], attempts: u32) -> (result: (
        Result<Vec<u8>, Error>,
        Ghost<Answer>,
    ))
        ensures
            final(self)@ == old(self)@,
            follows(
                old(self).trace(),
                final(self).trace(),
                old(self)@.read_steps(command, args@, attempts as nat, result.1@),
            ),
            result_view(result.0) == old(self)@.read_result(command, result.1@),
            result.0 matches Ok(value) ==> value@.len() == 8,
    {
        let ghost start = self.trace();
        let result = self.ask(command, args, attempts);
        let ghost outcome = outcome_view(result);
        let ghost asked = self@.ask(command, args@, attempts as nat, outcome);
        proof {
            lemma_follows_nothing(start);
            lemma_follows_one_more(start, start, self.trace(), Seq::empty(), asked);
            assert(Seq::<Step>::empty().push(asked) =~= seq![asked]);
        }
        let ghost middle = self.trace();
        match result {
            Ok(Some(value)) => {
                let ghost answer = Answer { outcome, online: Outcome::Ok(None) };
                (Ok(value), Ghost(answer))
            },
            Err(error) => {
                let ghost answer = Answer { outcome, online: Outcome::Ok(None) };
                (Err(error), Ghost(answer))
            },
            Ok(None) => {
                if !self.is_receiver() {
                    let ghost answer = Answer { outcome, online: Outcome::Ok(None) };
                    return (Err(Error::Timeout(command)), Ghost(answer));
                }
                let (online, Ghost(reply)) = self.ask_optional(cmd::ONLINE, no_args());
                let ghost answer = Answer { outcome, online: reply };
                proof {
                    let probe = self@.ask(cmd::ONLINE, Seq::empty(), 1, reply);
                    lemma_follows_one_more(start, middle, self.trace(), seq![asked], probe);
                    assert(seq![asked].push(probe) =~= seq![asked, probe]);
                }
                if let Some(online) = online {
                    if online[0] == 0 {
                        return (Err(Error::Offline), Ghost(answer));
                    }
                }
                (Err(Error::Timeout(command)), Ghost(answer))
            },
        }
    }

    /// Send a command and wait for the matching reply.
    ///
    /// A command that stays unanswered is [`Error::Timeout`], unless the
    /// receiver is answering and says that the mouse is not on the air: then it
    /// is [`Error::Offline`].
    pub fn read(&mut self, command: u8, args: &[u8], attempts: u32) -> (result: Result<
        Vec<u8>,
        Error,
    >)
        ensures
            final(self)@ == old(self)@,
            exists|answer: Answer|
                {
                    &&& follows(
                        old(self).trace(),
                        final(self).trace(),
                        #[trigger] old(self)@.read_steps(command, args@, attempts as nat, answer),
                    )
                    &&& result_view(result) == old(self)@.read_result(command, answer)
                },
    {
        let (result, Ghost(answer)) = self.read_answer(command, args, attempts);
        assert(follows(
            old(self).trace(),
            self.trace(),
            old(self)@.read_steps(command, args@, attempts as nat, answer),
        ));
        result
    }

    /// Read a command the device may not implement; `None` if unsupported.
    pub fn read_optional(&mut self, command: u8, args: &[u8]) -> (value: Option<Vec<u8>>)
        ensures
            final(self)@ == old(self)@,
            exists|outcome: Outcome|
                {
                    &&& steps_to(
                        old(self).trace(),
                        final(self).trace(),
                        old(self)@.ask(command, args@, 1, outcome),
                    )
                    &&& #[trigger] answered(outcome) == match value {
                        Some(value) => Some(value@),
                        None => None,
                    }
                },
    {
        let (value, Ghost(outcome)) = self.ask_optional(command, args);
        assert(answered(outcome) == match value {
            Some(value) => Some(value@),
            None => None::<Seq<u8>>,
        });
        value
    }

    /// Send a command without waiting for a reply.
    pub fn write(&mut self, command: u8, args: &[u8]) -> (result: Result<(), Error>)
        ensures
            final(self)@ == old(self)@,
            steps_to(
                old(self).trace(),
                final(self).trace(),
                old(self)@.tell(command, args@, result_view(result)),
            ),
    {
        let ghost start = self.trace();
        match build_request(command, self.profile, args) {
            Ok(request) => {
                let result = self.transport.set_feature(REPORT_ID, request.as_slice());
                proof {
                    let step = self@.tell(command, args@, result_view(result));
                    let run = seq![
                        Event::Written {
                            report_id: REPORT_ID,
                            payload: request@,
                            sent: result_view(result),
                        },
                    ];
                    assert(self.trace() =~= start + run);
                    lemma_steps_to(start, run, step);
                }
                result
            },
            Err(error) => {
                proof {
                    let step = self@.tell(command, args@, Err(error@));
                    assert(self.trace() =~= start + Seq::<Event>::empty());
                    lemma_steps_to(start, Seq::empty(), step);
                }
                Err(error)
            },
        }
    }

    /// Suspend or resume the device's own handling, and give it time to do so.
    pub fn set_control(&mut self, resume: bool) -> (result: Result<(), Error>)
        ensures
            final(self)@ == old(self)@,
            steps_to(
                old(self).trace(),
                final(self).trace(),
                Step::Controlled { resume, sent: result_view(result) },
            ),
    {
        let ghost start = self.trace();
        let payload = p::control_payload(resume);
        let result = self.transport.set_feature(p::CONTROL_REPORT_ID, payload.as_slice());
        let ghost written = Event::Written {
            report_id: p::CONTROL_REPORT_ID,
            payload: payload@,
            sent: result_view(result),
        };
        let ghost step = Step::Controlled { resume, sent: result_view(result) };
        if let Err(error) = result {
            proof {
                assert(self.trace() =~= start + seq![written]);
                lemma_steps_to(start, seq![written], step);
            }
            return Err(error);
        }
        self.transport.sleep(30);
        proof {
            let run = seq![written, Event::Slept { millis: 30 }];
            assert(self.trace() =~= start + run);
            lemma_steps_to(start, run, step);
        }
        Ok(())
    }

    pub(crate) fn pause(&mut self)
        ensures
            final(self)@ == old(self)@,
            steps_to(old(self).trace(), final(self).trace(), Step::Paused),
    {
        let ghost start = self.trace();
        self.transport.sleep(30);
        proof {
            let run = seq![Event::Slept { millis: 30 }];
            assert(self.trace() =~= start + run);
            lemma_steps_to(start, run, Step::Paused);
        }
    }

    /// Whether this interface is a receiver rather than a wired mouse.
    pub fn is_receiver(&self) -> (answer: bool)
        ensures
            answer == self@.is_receiver(),
    {
        p::one_of(p::TEN_RECEIVER_IDS.as_slice(), self.product_id) || self.product_id == 0xEB02
    }
}

} // verus!
