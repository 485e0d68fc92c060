//! Per-connection state: a bidirectional byte pipe with send-side
//! buffering, receive-side framing support, and connection-state tracking.
//!
//! The transport itself lives with the caller. The stream records what
//! each transport outcome means for its buffers, its cached readiness and
//! its interest set, and asks the reactor to re-register when its
//! interest changes.

use vstd::prelude::*;
use crate::buffer::Buffer;
use crate::events::{EventSet, ReadOutcome, Token, WriteOutcome};
use crate::looper::Looper;

verus! {

/// Initial capacity of a stream's send buffer.
pub const INIT_WBUF_SIZE: usize = 4096;

/// Initial capacity of a stream's receive buffer.
pub const INIT_RBUF_SIZE: usize = 4096;

/// One connection endpoint: cursors into its two buffers, its readiness
/// bookkeeping, and the flags that drive reconnection.
pub struct Stream {
    /// The reactor name of this endpoint.
    pub token: Token,
    /// The readiness set last given to the polling primitive.
    pub registered: EventSet,
    /// The readiness set this endpoint wants; empty means "close".
    pub interest: EventSet,
    /// The most recent readiness delivery, with consumed edges cleared.
    pub got: EventSet,
    /// True for outbound connections (they may reconnect on loss).
    pub is_client: bool,
    /// True when closure must schedule a reconnect.
    pub reconnect: bool,
    /// True until the first writable edge of an outbound connect.
    pub connecting: bool,
    /// The peer address, as text.
    pub peer_addr: String,
    /// Bytes waiting to go out.
    pub wbuf: Buffer,
    /// Bytes received and not yet framed.
    pub rbuf: Buffer,
}

impl Stream {
    /// Both buffers have ordered cursors.
    pub open spec fn wf(&self) -> bool {
        &&& self.wbuf.wf()
        &&& self.rbuf.wf()
    }

    /// A fresh endpoint: full interest, nothing registered or received.
    /// Every stream starts connecting: its handler is owed one
    /// `connected` callback at its first writable edge.
    pub fn new(token: Token, is_client: bool, reconnect: bool, peer_addr: String) -> (r: Stream)
        ensures
            r.wf(),
            r.token == token,
            r.registered == EventSet::spec_none(),
            r.interest == EventSet::spec_all(),
            r.got == EventSet::spec_none(),
            r.is_client == is_client,
            r.reconnect == reconnect,
            r.connecting,
            r.peer_addr == peer_addr,
            r.wbuf@ == Seq::<u8>::empty(),
            r.rbuf@ == Seq::<u8>::empty(),
    {
        Stream {
            token,
            registered: EventSet::none(),
            interest: EventSet::all(),
            got: EventSet::none(),
            is_client,
            reconnect,
            connecting: true,
            peer_addr,
            wbuf: Buffer::with_capacity(INIT_WBUF_SIZE),
            rbuf: Buffer::with_capacity(INIT_RBUF_SIZE),
        }
    }

    /// Idempotent close: the first call clears the interest set, records
    /// a hang-up, and queues the token for re-registration (the reactor's
    /// next quiescent point deregisters it and dispatches the close). The
    /// caller must half-close the transport exactly when `true` comes
    /// back.
    pub fn shutdown(&mut self, looper: &mut Looper) -> (close_transport: bool)
        requires
            old(self).wf(),
            old(looper).wf(),
        ensures
            final(self).wf(),
            final(looper).wf(),
            (if old(self).interest.spec_is_none() {
                &&& !close_transport
                &&& *final(self) == *old(self)
                &&& *final(looper) == *old(looper)
            } else {
                &&& close_transport
                &&& *final(self) == (Stream {
                    interest: EventSet::spec_none(),
                    got: EventSet::spec_hup(),
                    ..*old(self)
                })
                &&& final(looper).pending@.contains(old(self).token)
                &&& (forall|t: Token| #[trigger]
                    final(looper).pending@.contains(t) <==> (old(looper).pending@.contains(t) || t
                        == old(self).token))
                &&& final(looper).eventers == old(looper).eventers
                &&& final(looper).to_reg == old(looper).to_reg
                &&& final(looper).timers == old(looper).timers
                &&& final(looper).timer_to_reg == old(looper).timer_to_reg
                &&& final(looper).token_counter == old(looper).token_counter
                &&& final(looper).timer_counter == old(looper).timer_counter
            }),
    {
        if self.interest.is_none() {
            return false;
        }
        self.got = EventSet::hup();
        self.interest = EventSet::none();
        looper.reregister(self.token);
        true
    }

    /// Append bytes to the send buffer; they leave on writable edges.
    pub fn write(&mut self, data: &[u8])
        requires
            old(self).wf(),
            old(self).wbuf@.len() + data@.len() <= usize::MAX,
        ensures
            final(self).wf(),
            final(self).wbuf@ == old(self).wbuf@ + data@,
            *final(self) == (Stream { wbuf: final(self).wbuf, ..*old(self) }),
    {
        self.wbuf.write_bytes(data);
    }

    /// The bytes waiting to go out, for the caller to offer the
    /// transport.
    pub fn pending_output(&self) -> (r: &[u8])
        requires
            self.wf(),
        ensures
            r@ == self.wbuf@,
    {
        self.wbuf.data_slice()
    }

    /// How many bytes wait in the send buffer.
    pub fn pending_len(&self) -> (r: usize)
        requires
            self.wf(),
        ensures
            r == self.wbuf@.len(),
    {
        self.wbuf.data_len()
    }

    /// Record what one transport write attempt did: the accepted prefix
    /// leaves the send buffer; a partial write or a would-block clears
    /// the cached writable edge so the next edge reschedules the flush;
    /// any other error shuts the stream down. The caller must half-close
    /// the transport exactly when `true` comes back.
    pub fn flush_done(&mut self, looper: &mut Looper, outcome: WriteOutcome) -> (close_transport:
        bool)
        requires
            old(self).wf(),
            old(looper).wf(),
            (outcome matches WriteOutcome::Wrote(n) ==> n <= old(self).wbuf@.len()),
        ensures
            final(self).wf(),
            final(looper).wf(),
            (match outcome {
                WriteOutcome::Wrote(n) => {
                    &&& !close_transport
                    &&& *final(looper) == *old(looper)
                    &&& final(self).wbuf@ == old(self).wbuf@.skip(n as int)
                    &&& final(self).got == (if final(self).wbuf@.len() > 0 {
                        EventSet { writable: false, ..old(self).got }
                    } else {
                        old(self).got
                    })
                    &&& *final(self) == (Stream {
                        wbuf: final(self).wbuf,
                        got: final(self).got,
                        ..*old(self)
                    })
                },
                WriteOutcome::WouldBlock => {
                    &&& !close_transport
                    &&& *final(looper) == *old(looper)
                    &&& *final(self) == (Stream {
                        got: EventSet { writable: false, ..old(self).got },
                        ..*old(self)
                    })
                },
                WriteOutcome::Error => {
                    &&& (if old(self).interest.spec_is_none() {
                        !close_transport && *final(self) == *old(self) && *final(looper) == *old(
                            looper,
                        )
                    } else {
                        &&& close_transport
                        &&& *final(self) == (Stream {
                            interest: EventSet::spec_none(),
                            got: EventSet::spec_hup(),
                            ..*old(self)
                        })
                        &&& final(looper).pending@.contains(old(self).token)
                        &&& final(looper).eventers == old(looper).eventers
                        &&& final(looper).to_reg == old(looper).to_reg
                        &&& final(looper).timers == old(looper).timers
                        &&& final(looper).timer_to_reg == old(looper).timer_to_reg
                    })
                },
            }),
    {
        match outcome {
            WriteOutcome::Wrote(n) => {
                self.wbuf.consume(n);
                if !self.wbuf.is_empty() {
                    self.got = self.got.remove_writable();
                }
                false
            },
            WriteOutcome::WouldBlock => {
                self.got = self.got.remove_writable();
                false
            },
            WriteOutcome::Error => self.shutdown(looper),
        }
    }

    /// Record what one transport read attempt did: yielded bytes join the
    /// receive buffer; a zero-length read means the peer closed, which
    /// shuts the stream down; a would-block clears the cached readable
    /// edge so the next edge reschedules reads; any other error shuts the
    /// stream down. The caller must half-close the transport exactly when
    /// `true` comes back.
    pub fn read_done(&mut self, looper: &mut Looper, outcome: &ReadOutcome) -> (close_transport:
        bool)
        requires
            old(self).wf(),
            old(looper).wf(),
            (outcome matches ReadOutcome::Data(d) ==> old(self).rbuf@.len() + d@.len()
                <= usize::MAX),
        ensures
            final(self).wf(),
            final(looper).wf(),
            (match outcome {
                ReadOutcome::Data(d) => {
                    &&& !close_transport
                    &&& *final(looper) == *old(looper)
                    &&& final(self).rbuf@ == old(self).rbuf@ + d@
                    &&& *final(self) == (Stream { rbuf: final(self).rbuf, ..*old(self) })
                },
                ReadOutcome::WouldBlock => {
                    &&& !close_transport
                    &&& *final(looper) == *old(looper)
                    &&& *final(self) == (Stream {
                        got: EventSet { readable: false, ..old(self).got },
                        ..*old(self)
                    })
                },
                _ => {
                    &&& (if old(self).interest.spec_is_none() {
                        !close_transport && *final(self) == *old(self) && *final(looper) == *old(
                            looper,
                        )
                    } else {
                        &&& close_transport
                        &&& *final(self) == (Stream {
                            interest: EventSet::spec_none(),
                            got: EventSet::spec_hup(),
                            ..*old(self)
                        })
                        &&& final(looper).pending@.contains(old(self).token)
                        &&& final(looper).eventers == old(looper).eventers
                        &&& final(looper).to_reg == old(looper).to_reg
                        &&& final(looper).timers == old(looper).timers
                        &&& final(looper).timer_to_reg == old(looper).timer_to_reg
                    })
                },
            }),
    {
        match outcome {
            ReadOutcome::Data(d) => {
                self.rbuf.write_bytes(d.as_slice());
                false
            },
            ReadOutcome::WouldBlock => {
                self.got = self.got.remove_readable();
                false
            },
            _ => self.shutdown(looper),
        }
    }

    /// Advance the receive buffer past `amt` framed bytes.
    pub fn consume(&mut self, amt: usize)
        requires
            old(self).wf(),
            amt <= old(self).rbuf@.len(),
        ensures
            final(self).wf(),
            final(self).rbuf@ == old(self).rbuf@.skip(amt as int),
            *final(self) == (Stream { rbuf: final(self).rbuf, ..*old(self) }),
    {
        self.rbuf.consume(amt);
    }
}

} // verus!
