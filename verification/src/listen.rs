//! Per-accept-endpoint state: the bound address, the interest set, and
//! the readiness bookkeeping. The acceptor socket itself lives with the
//! caller, keyed by the token.

use vstd::prelude::*;
use crate::events::{EventSet, Token};
use crate::looper::Looper;

verus! {

/// One accept endpoint.
pub struct Listen {
    /// The reactor name of this endpoint.
    pub token: Token,
    /// The readiness set last given to the polling primitive.
    pub registered: EventSet,
    /// The readiness set this endpoint wants; empty means "close".
    pub interest: EventSet,
    /// The most recent readiness delivery.
    pub got: EventSet,
    /// The bound address, as text.
    pub addr: String,
}

impl Listen {
    /// A fresh accept endpoint with full interest and nothing registered.
    pub fn new(token: Token, addr: String) -> (r: Listen)
        ensures
            r.token == token,
            r.registered == EventSet::spec_none(),
            r.interest == EventSet::spec_all(),
            r.got == EventSet::spec_none(),
            r.addr == addr,
    {
        Listen {
            token,
            registered: EventSet::none(),
            interest: EventSet::all(),
            got: EventSet::none(),
            addr,
        }
    }

    /// Idempotent close: the first call clears the interest set and
    /// queues the token for re-registration; the reactor's next quiescent
    /// point deregisters it and dispatches the close.
    pub fn shutdown(&mut self, looper: &mut Looper) -> (closed_now: bool)
        requires
            old(looper).wf(),
        ensures
            final(looper).wf(),
            (if old(self).interest.spec_is_none() {
                &&& !closed_now
                &&& *final(self) == *old(self)
                &&& *final(looper) == *old(looper)
            } else {
                &&& closed_now
                &&& *final(self) == (Listen { interest: EventSet::spec_none(), ..*old(self) })
                &&& final(looper).pending@.contains(old(self).token)
                &&& (forall|t: Token| #[trigger]
                    final(looper).pending@.contains(t) <==> (old(looper).pending@.contains(t) || t
                        == old(self).token))
                &&& final(looper).eventers == old(looper).eventers
                &&& final(looper).to_reg == old(looper).to_reg
                &&& final(looper).timers == old(looper).timers
                &&& final(looper).timer_to_reg == old(looper).timer_to_reg
                &&& final(looper).token_counter == old(looper).token_counter
                &&& final(looper).timer_counter == old(looper).timer_counter
            }),
    {
        if self.interest.is_none() {
            return false;
        }
        self.interest = EventSet::none();
        looper.reregister(self.token);
        true
    }
}

} // verus!
