use vstd::prelude::*;

use crate::text::{append_str, string_of};

verus! {

/// What the shell side of a terminal reports.
#[derive(Debug)]
pub enum PtyEvent {
    Output(Vec<u8>),
    Exited { success: bool },
    Error(String),
}

/// Whether a read error means the terminal was closed: BSD and Linux report `EIO` (5) on the
/// master side once the shell has gone.
pub fn is_pty_eof(raw_os_error: Option<i32>) -> (closed: bool)
    ensures
        closed == (raw_os_error == Some(5i32)),
{
    match raw_os_error {
        Some(code) => code == 5,
        None => false,
    }
}

/// The outcome of one read from the terminal.
pub enum ReadOutcome {
    /// Bytes arrived.
    Data(Vec<u8>),
    /// The read returned no bytes: the other side is closed.
    Closed,
    /// The read was interrupted by a signal.
    Interrupted,
    /// The read failed with the operating system's error code, if any, and its message.
    Failed { raw_os_error: Option<i32>, message: String },
}

/// What the reader does after a read.
pub enum ReaderStep {
    /// Hands the event on and reads again.
    Deliver(PtyEvent),
    /// Reads again.
    Retry,
    /// Stops reading.
    Stop,
    /// Hands the event on and stops reading.
    ReportAndStop(PtyEvent),
}

/// The reader's decision for one read: output is handed on, an interrupted read is retried,
/// a closed terminal ends reading, and any other failure is reported as
/// `PTY read failed: message` before reading ends.
pub fn reader_step(outcome: ReadOutcome) -> (step: ReaderStep)
    ensures
        match outcome {
            ReadOutcome::Data(bytes) => step matches ReaderStep::Deliver(PtyEvent::Output(sent)) && sent@ == bytes@,
            ReadOutcome::Closed => step is Stop,
            ReadOutcome::Interrupted => step is Retry,
            ReadOutcome::Failed { raw_os_error, message } => if raw_os_error == Some(5i32) {
                step is Stop
            } else {
                step matches ReaderStep::ReportAndStop(PtyEvent::Error(text)) && text@ == "PTY read failed: "@ + message@
            },
        },
{
    match outcome {
        ReadOutcome::Data(bytes) => ReaderStep::Deliver(PtyEvent::Output(bytes)),
        ReadOutcome::Closed => ReaderStep::Stop,
        ReadOutcome::Interrupted => ReaderStep::Retry,
        ReadOutcome::Failed { raw_os_error, message } => {
            if is_pty_eof(raw_os_error) {
                ReaderStep::Stop
            } else {
                let mut text = string_of("PTY read failed: ");
                append_str(&mut text, message.as_str());
                ReaderStep::ReportAndStop(PtyEvent::Error(text))
            }
        },
    }
}

} // verus!
