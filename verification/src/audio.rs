//! The capture side: target sample rate, meter window, and what the capture
//! thread does with a command.

use vstd::prelude::*;

verus! {

/// The rate the recogniser expects, in Hz.
pub const SAMPLE_RATE: u32 = 16000;

/// One meter sample per 10 ms of audio (`SAMPLE_RATE / 100` samples), which
/// is what the overlay scrolls.
pub const WINDOW: usize = 160;

pub enum Cmd {
    Start,
    Stop,
}

/// What the capture thread does with its input stream.
#[derive(PartialEq, Eq, Structural, Debug, Clone, Copy)]
pub enum StreamAction {
    /// Open the device and start the stream.
    Open,
    /// Drop the stream, closing the device.
    Close,
    /// Leave things as they are.
    Keep,
}

/// The device is opened on `Start` and closed on `Stop`, which keeps the mic
/// shut between dictations; a `Start` while it is open changes nothing.
pub fn stream_action(open: bool, cmd: &Cmd) -> (a: StreamAction)
    ensures
        a == match cmd {
            Cmd::Start => if open {
                StreamAction::Keep
            } else {
                StreamAction::Open
            },
            Cmd::Stop => StreamAction::Close,
        },
{
    match cmd {
        Cmd::Start => if open {
            StreamAction::Keep
        } else {
            StreamAction::Open
        },
        Cmd::Stop => StreamAction::Close,
    }
}

} // verus!
