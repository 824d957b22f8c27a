//! What [`crate::device::Device`] talks through: 16-byte HID feature reports.
//!
//! Splitting this out from the device logic is what lets a wrong DPI encoding
//! or a mis-read battery be caught without plugging a mouse in: everything
//! above [`Transport`] runs unchanged against a scripted stand-in.

use vstd::prelude::*;

use crate::error::{result_view, Error, ErrorView};

pub mod fake;

verus! {

// -- ioctl requests -----------------------------------------------------------

/// `_IOC(READ|WRITE, 'H', nr, size)` as the kernel header packs it: direction,
/// size, type and number, from the top bits down.
pub open spec fn ioc_request(nr: u32, size: u32) -> u32 {
    (3u32 << 30) | (size << 16) | (0x48u32 << 8) | nr
}

fn ioc(nr: u32, size: u32) -> (request: u64)
    ensures
        request == ioc_request(nr, size),
{
    ((3u32 << 30) | (size << 16) | (0x48u32 << 8) | nr) as u64
}

/// The request that writes a feature report of `size` bytes.
pub fn hidiocsfeature(size: u32) -> (request: u64)
    ensures
        request == ioc_request(0x06, size),
        size < 0x4000 ==> request == 0xC000_4806 + size * 0x1_0000,
{
    assert(size < 0x4000 ==> (3u32 << 30) | (size << 16) | (0x48u32 << 8) | 0x06u32 == 0xC000_4806
        + size * 0x1_0000) by (bit_vector);
    ioc(0x06, size)
}

/// The request that reads a feature report of `size` bytes.
pub fn hidiocgfeature(size: u32) -> (request: u64)
    ensures
        request == ioc_request(0x07, size),
        size < 0x4000 ==> request == 0xC000_4807 + size * 0x1_0000,
{
    assert(size < 0x4000 ==> (3u32 << 30) | (size << 16) | (0x48u32 << 8) | 0x07u32 == 0xC000_4807
        + size * 0x1_0000) by (bit_vector);
    ioc(0x07, size)
}

// -- the channel --------------------------------------------------------------

/// One thing that happened on a channel, with what came of it.
pub enum Event {
    /// A feature report was written.
    Written { report_id: u8, payload: Seq<u8>, sent: Result<(), ErrorView> },
    /// A feature report was asked for.
    Fetched { report_id: u8, length: nat, reply: Result<Seq<u8>, ErrorView> },
    /// The caller waited.
    Slept { millis: u64 },
    /// A stand-in was given what a command, asked with an argument, is to read.
    Staged { command: u8, arg: u8, value: Seq<u8> },
    /// A stand-in was told to stop answering a command.
    Silenced { command: u8 },
}

/// One request/response channel to a device.
pub trait Transport {
    /// Everything that went over this channel so far, in order. A channel to
    /// hardware keeps no record of it, and leaves it unsaid what it is.
    open spec fn history(&self) -> Seq<Event> {
        (arbitrary::<spec_fn(&Self) -> Seq<Event>>())(self)
    }

    /// Write a feature report (`HIDIOCSFEATURE`).
    fn set_feature(&mut self, report_id: u8, payload: &[u8]) -> (result: Result<(), Error>)
        ensures
            final(self).history() == old(self).history().push(
                Event::Written { report_id, payload: payload@, sent: result_view(result) },
            ),
    ;

    /// Read the report the device prepared for the last request
    /// (`HIDIOCGFEATURE`). The returned buffer leads with the report ID and
    /// holds `length` bytes after it.
    fn get_feature(&mut self, report_id: u8, length: usize) -> (result: Result<Vec<u8>, Error>)
        requires
            length < usize::MAX,
        ensures
            final(self).history() == old(self).history().push(
                Event::Fetched { report_id, length: length as nat, reply: result_view(result) },
            ),
            result matches Ok(buf) ==> buf@.len() == length + 1,
    ;

    /// Wait for the device to catch up.
    ///
    /// Time is part of the channel so that a stand-in can run a virtual clock.
    fn sleep(&mut self, millis: u64)
        ensures
            final(self).history() == old(self).history().push(Event::Slept { millis }),
    ;
}

} // verus!
