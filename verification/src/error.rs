//! Everything that can go wrong talking to a mouse.

use vstd::prelude::*;
use vstd::string::*;

use crate::text::{has_prefix, has_suffix, hex_byte, push_hex_byte};

verus! {

/// Everything that can go wrong talking to a mouse.
#[derive(Debug)]
pub enum Error {
    /// No config interface is attached.
    DeviceNotFound,
    /// The hidraw node is there, but may not be opened.
    PermissionDenied { path: String },
    /// The device never answered this command.
    Timeout(u8),
    /// The receiver is answering, but the mouse is not on the air.
    Offline,
    /// The connected hardware does not implement this command.
    Unsupported(String),
    /// A value that the protocol cannot carry.
    Protocol(String),
    /// What the operating system said about a failed call.
    Io(String),
}

/// An [`Error`] as contracts see it: texts are sequences of characters.
pub enum ErrorView {
    DeviceNotFound,
    PermissionDenied { path: Seq<char> },
    Timeout(u8),
    Offline,
    Unsupported(Seq<char>),
    Protocol(Seq<char>),
    Io(Seq<char>),
}

impl View for Error {
    type V = ErrorView;

    open spec fn view(&self) -> ErrorView {
        match self {
            Error::DeviceNotFound => ErrorView::DeviceNotFound,
            Error::PermissionDenied { path } => ErrorView::PermissionDenied { path: path@ },
            Error::Timeout(command) => ErrorView::Timeout(*command),
            Error::Offline => ErrorView::Offline,
            Error::Unsupported(text) => ErrorView::Unsupported(text@),
            Error::Protocol(text) => ErrorView::Protocol(text@),
            Error::Io(text) => ErrorView::Io(text@),
        }
    }
}

/// A result as contracts see it.
pub open spec fn result_view<T: View>(result: Result<T, Error>) -> Result<T::V, ErrorView> {
    match result {
        Ok(value) => Ok(value@),
        Err(error) => Err(error@),
    }
}

/// The sentence a user is shown for an error.
pub open spec fn error_message(error: ErrorView) -> Seq<char> {
    match error {
        ErrorView::DeviceNotFound =>
            "No Ninjutso config interface found. Is the receiver plugged in?"@,
        ErrorView::PermissionDenied { path } => path
            + " is not readable by you -- install 70-ninjutso.rules and replug the receiver."@,
        ErrorView::Timeout(command) => "device did not answer command 0x"@ + hex_byte(command),
        ErrorView::Offline =>
            "mouse is not connected to the receiver -- move or click it to wake it"@,
        ErrorView::Unsupported(text) => text,
        ErrorView::Protocol(text) => text,
        ErrorView::Io(text) => text,
    }
}

impl Error {
    /// True for the two failures a user can actually fix (replug, or install
    /// the udev rule), which the front ends report differently from a bug.
    pub fn is_access_problem(&self) -> (answer: bool)
        ensures
            answer == (self@ is DeviceNotFound || self@ is PermissionDenied),
    {
        matches!(self, Error::DeviceNotFound | Error::PermissionDenied { .. })
    }

    /// True when the receiver is fine and only the mouse is asleep, which the
    /// user fixes by touching the mouse rather than by touching the software.
    pub fn is_offline(&self) -> (answer: bool)
        ensures
            answer == (self@ is Offline),
    {
        matches!(self, Error::Offline)
    }

    /// The sentence a user is shown for this error.
    pub fn message(&self) -> (text: String)
        ensures
            text@ == error_message(self@),
    {
        match self {
            Error::DeviceNotFound =>
                "No Ninjutso config interface found. Is the receiver plugged in?".to_owned(),
            Error::PermissionDenied { path } => {
                let mut text = path.clone();
                text.append(
                    " is not readable by you -- install 70-ninjutso.rules and replug the receiver.",
                );
                text
            },
            Error::Timeout(command) => {
                let mut text = "device did not answer command 0x".to_owned();
                push_hex_byte(&mut text, *command);
                text
            },
            Error::Offline =>
                "mouse is not connected to the receiver -- move or click it to wake it".to_owned(),
            Error::Unsupported(text) => text.clone(),
            Error::Protocol(text) => text.clone(),
            Error::Io(text) => text.clone(),
        }
    }
}

// -- laws ---------------------------------------------------------------------

/// Errors say what they are about: a path that cannot be read is named first, a
/// command that went unanswered last and in hex, and a text is handed on as it is.
pub proof fn lemma_messages(path: Seq<char>, command: u8, text: Seq<char>)
    ensures
        has_prefix(error_message(ErrorView::PermissionDenied { path }), path),
        has_suffix(error_message(ErrorView::Timeout(command)), "0x"@ + hex_byte(command)),
        error_message(ErrorView::Unsupported(text)) == text,
        error_message(ErrorView::Protocol(text)) == text,
        error_message(ErrorView::Io(text)) == text,
{
    reveal_strlit("device did not answer command 0x");
    reveal_strlit("0x");
    let denied = error_message(ErrorView::PermissionDenied { path });
    assert(denied.take(path.len() as int) =~= path);
    let late = error_message(ErrorView::Timeout(command));
    let tail = "0x"@ + hex_byte(command);
    assert(late.skip(late.len() - tail.len()) =~= tail);
}

/// Commands that went unanswered are told apart.
pub proof fn lemma_timeouts_differ(one: u8, other: u8)
    requires
        error_message(ErrorView::Timeout(one)) == error_message(ErrorView::Timeout(other)),
    ensures
        one == other,
{
    let head = "device did not answer command 0x"@;
    let (a, b) = (head + hex_byte(one), head + hex_byte(other));
    let n = head.len() as int;
    assert(a[n] == hex_byte(one)[0] && a[n + 1] == hex_byte(one)[1]);
    assert(b[n] == hex_byte(other)[0] && b[n + 1] == hex_byte(other)[1]);
}

} // verus!
