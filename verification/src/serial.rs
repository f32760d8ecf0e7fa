//! The engine's view of the transport: two byte queues.
//!
//! The real link (a UART, a socket, a pseudo terminal) lives outside the
//! engine.  The driving code moves bytes between that link and a [`Serial`]:
//! received bytes are appended to the receive queue, and the engine's echo
//! output accumulates in the transmit queue until the driver drains it.
//! Reading from an empty receive queue is the distinguished "no data yet"
//! outcome, never a blocking wait.

use vstd::prelude::*;

use crate::ShellError;

verus! {

/// A byte-level duplex endpoint: a queue of received bytes not yet consumed
/// by the engine, and a queue of bytes the engine has written.
pub struct Serial {
    rx: Vec<u8>,
    tx: Vec<u8>,
}

impl Serial {
    /// The bytes received from the link and not yet read by the engine,
    /// oldest first.
    pub closed spec fn incoming(&self) -> Seq<u8> {
        self.rx@
    }

    /// The bytes the engine has written to the link, oldest first.
    pub closed spec fn outgoing(&self) -> Seq<u8> {
        self.tx@
    }

    /// Pairs a transmit queue and a receive queue into one endpoint.
    pub fn from_parts(tx: Vec<u8>, rx: Vec<u8>) -> (s: Serial)
        ensures
            s.outgoing() == tx@,
            s.incoming() == rx@,
    {
        Serial { rx, tx }
    }

    /// The transmit queue: a driver drains it into the real link.
    pub fn tx(&mut self) -> (r: &mut Vec<u8>)
        ensures
            r@ == old(self).outgoing(),
            final(self).outgoing() == final(r)@,
            final(self).incoming() == old(self).incoming(),
    {
        &mut self.tx
    }

    /// The receive queue: a driver appends bytes read from the real link.
    pub fn rx(&mut self) -> (r: &mut Vec<u8>)
        ensures
            r@ == old(self).incoming(),
            final(self).incoming() == final(r)@,
            final(self).outgoing() == old(self).outgoing(),
    {
        &mut self.rx
    }

    /// Takes the endpoint apart into its transmit and receive queues.
    pub fn split(self) -> (r: (Vec<u8>, Vec<u8>))
        ensures
            r.0@ == self.outgoing(),
            r.1@ == self.incoming(),
    {
        (self.tx, self.rx)
    }

    /// One non-blocking read attempt: the oldest received byte, or
    /// `WouldBlock` when none is pending.
    pub fn read(&mut self) -> (r: Result<u8, ShellError>)
        ensures
            final(self).outgoing() == old(self).outgoing(),
            old(self).incoming().len() == 0 ==> r == Err::<u8, ShellError>(ShellError::WouldBlock)
                && final(self).incoming() == old(self).incoming(),
            old(self).incoming().len() > 0 ==> r == Ok::<u8, ShellError>(old(self).incoming()[0])
                && final(self).incoming() == old(self).incoming().drop_first(),
    {
        if self.rx.len() == 0 {
            Err(ShellError::WouldBlock)
        } else {
            let b = self.rx.remove(0);
            assert(self.rx@ =~= old(self).rx@.drop_first());
            Ok(b)
        }
    }

    /// Writes one byte to the link.
    pub fn write(&mut self, byte: u8)
        ensures
            final(self).outgoing() == old(self).outgoing().push(byte),
            final(self).incoming() == old(self).incoming(),
    {
        self.tx.push(byte);
    }
}

} // verus!
