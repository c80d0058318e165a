//! The synchronous serial peripheral the driver writes through, and the
//! blocking-retry and drain helpers built on its non-blocking operations.

use vstd::prelude::*;

verus! {

/// Why a non-blocking transfer attempt did not complete: the peripheral was
/// not ready (retry later), or it failed with the peripheral's own error.
pub enum NbError<E> {
    WouldBlock,
    Other(E),
}

/// A full-duplex byte-transfer peripheral (an SPI-style port).
///
/// An implementation decides for itself when a transfer attempt completes,
/// blocks or fails; the driver only relies on what each outcome means for
/// the wire: an accepted byte appears at the end of `wire`, and nothing else
/// ever changes it.
pub trait SpiPort: Sized {
    /// The transfer-error type of the peripheral, surfaced to the caller
    /// unchanged.
    type Error;

    /// The bytes this port has accepted on the wire so far, in order.
    /// (The default stands only so that unverified implementations outside
    /// the proofs need not provide one; a verified port defines its own.)
    open spec fn wire(&self) -> Seq<u8> {
        Seq::empty()
    }

    /// How many more times in a row sending may still find the port busy.
    /// A port must eventually accept or fail a transfer rather than stay
    /// busy forever; this bound is what makes the blocking retry loop
    /// terminate. (Default as for `wire`.)
    open spec fn stalls(&self) -> nat {
        0
    }

    /// Attempt to send one byte without blocking.
    fn try_send(&mut self, byte: u8) -> (r: Result<(), NbError<Self::Error>>)
        ensures
            r is Ok ==> final(self).wire() == old(self).wire().push(byte),
            r is Err ==> final(self).wire() == old(self).wire(),
            r matches Err(NbError::WouldBlock) ==> final(self).stalls() < old(self).stalls(),
    ;

    /// Attempt to receive one byte without blocking. Receiving never touches
    /// what was sent.
    fn try_read(&mut self) -> (r: Result<u8, NbError<Self::Error>>)
        ensures
            final(self).wire() == old(self).wire(),
    ;
}

/// Retry `try_send` in a tight loop until the byte is accepted or the port
/// reports a real (non-retry) error.
pub fn send_blocking<P: SpiPort>(port: &mut P, byte: u8) -> (r: Result<(), P::Error>)
    ensures
        r is Ok ==> final(port).wire() == old(port).wire().push(byte),
        r is Err ==> final(port).wire() == old(port).wire(),
{
    loop
        invariant
            port.wire() == old(port).wire(),
        decreases port.stalls(),
    {
        match port.try_send(byte) {
            Ok(()) => {
                return Ok(());
            },
            Err(NbError::WouldBlock) => {},
            Err(NbError::Other(e)) => {
                return Err(e);
            },
        }
    }
}

/// Best-effort drain of stale receive state between transfers. The result —
/// data, "not ready" or even an error — is deliberately discarded: a drain
/// must never fail the write path.
pub fn drain<P: SpiPort>(port: &mut P)
    ensures
        final(port).wire() == old(port).wire(),
{
    let _ = port.try_read();
}

} // verus!
