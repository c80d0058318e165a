//! A verified in-memory port: it records every byte it accepts, and can be
//! told to report "not ready" a number of times or to start failing after a
//! number of accepted bytes. Useful as the peripheral in host-side tests.

use vstd::prelude::*;

use crate::port::NbError;
use crate::port::SpiPort;

verus! {

/// An in-memory [`SpiPort`] that keeps the accepted bytes in a vector.
pub struct RecordingPort {
    /// Every byte accepted so far, in order.
    pub sent: Vec<u8>,
    /// How many more times `try_send` will answer "not ready" before it
    /// accepts or fails a transfer.
    pub busy_answers: u32,
    /// If set, transfers fail (with `error_code`) once this many bytes have
    /// been accepted.
    pub fail_after: Option<usize>,
    /// The error reported on a failing transfer.
    pub error_code: u8,
}

impl RecordingPort {
    /// A port that accepts every transfer at once.
    pub fn new() -> (r: Self)
        ensures
            r.sent@ == Seq::<u8>::empty(),
            r.busy_answers == 0,
            r.fail_after is None,
    {
        RecordingPort { sent: Vec::new(), busy_answers: 0, fail_after: None, error_code: 0 }
    }

    /// A port that answers "not ready" the given number of times, then
    /// accepts every transfer.
    pub fn busy_at_first(busy_answers: u32) -> (r: Self)
        ensures
            r.sent@ == Seq::<u8>::empty(),
            r.busy_answers == busy_answers,
            r.fail_after is None,
    {
        RecordingPort { sent: Vec::new(), busy_answers, fail_after: None, error_code: 0 }
    }

    /// A port on which every transfer fails with `error_code` once
    /// `accepted` bytes have been accepted.
    pub fn failing_after(accepted: usize, error_code: u8) -> (r: Self)
        ensures
            r.sent@ == Seq::<u8>::empty(),
            r.busy_answers == 0,
            r.fail_after == Some(accepted),
            r.error_code == error_code,
    {
        RecordingPort {
            sent: Vec::new(),
            busy_answers: 0,
            fail_after: Some(accepted),
            error_code,
        }
    }
}

impl SpiPort for RecordingPort {
    type Error = u8;

    open spec fn wire(&self) -> Seq<u8> {
        self.sent@
    }

    open spec fn stalls(&self) -> nat {
        self.busy_answers as nat
    }

    fn try_send(&mut self, byte: u8) -> (r: Result<(), NbError<u8>>) {
        if self.busy_answers > 0 {
            self.busy_answers = self.busy_answers - 1;
            return Err(NbError::WouldBlock);
        }
        match self.fail_after {
            Some(limit) => {
                if self.sent.len() >= limit {
                    return Err(NbError::Other(self.error_code));
                }
            },
            None => {},
        }
        self.sent.push(byte);
        Ok(())
    }

    fn try_read(&mut self) -> (r: Result<u8, NbError<u8>>) {
        Err(NbError::WouldBlock)
    }
}

} // verus!
