//! The user-facing binding of codec, handler and endpoint set: the maps
//! from token to listen and stream endpoints, the pending reconnect
//! timers, and the dispatch logic the reactor drives.
//!
//! All I/O is the caller's: every method takes readiness or transport
//! outcomes in as plain values and hands the work it decides on back as
//! [`IoAction`] values and handler events.

use vstd::prelude::*;
use crate::config::ServiceConfig;
use crate::events::{EventSet, TimerToken, Token};
use crate::headbody::{drain_packets, drain_rest, Framing, ServiceStreamer};
use crate::listen::Listen;
use crate::looper::Looper;
use crate::stream::Stream;

verus! {

/// Milliseconds between losing a reconnecting client stream and the next
/// connect attempt.
pub const RECONNECT_DELAY_MS: u64 = 5000;

/// The callbacks an application supplies to a service.
///
/// `connected` fires once per stream after its first writable edge;
/// `disconnected` once after its close; `incoming` once per fully decoded
/// packet; `outgoing` observes each packet just before it is encoded.
pub trait ServiceHandler {
    type Packet;

    /// A stream reached its peer (or was accepted).
    fn connected(&self, token: Token);

    /// A stream is gone; no further `incoming` for this token.
    fn disconnected(&self, token: Token);

    /// One fully decoded packet arrived.
    fn incoming(&self, token: Token, packet: Self::Packet);

    /// Observation hook: `packet` is about to be encoded for `token`.
    fn outgoing(&self, token: Token, packet: &Self::Packet);
}

/// Work the service decided on and the caller must perform.
pub enum IoAction {
    /// Bind a listener at this address and key it by the token.
    Bind(Token, String),
    /// Open an outbound connection to this address, keyed by the token.
    Connect(Token, String),
    /// Offer the stream's pending output to its transport.
    Flush(Token),
    /// Half-close the transport of this token, both directions.
    CloseTransport(Token),
    /// First-time registration with the polling primitive.
    PollRegister(Token, EventSet),
    /// Change an existing poll registration.
    PollReregister(Token, EventSet),
    /// Remove a poll registration.
    PollDeregister(Token),
    /// Start a one-shot timer with this delay in milliseconds.
    ArmTimer(TimerToken, u64),
}

/// True when some entry of `v` is keyed by `t`.
pub open spec fn stream_keys(v: Seq<(Token, Stream)>, t: Token) -> bool {
    exists|i: int| 0 <= i < v.len() && v[i].0 == t
}

/// True when some entry of `v` is keyed by `t`.
pub open spec fn listen_keys(v: Seq<(Token, Listen)>, t: Token) -> bool {
    exists|i: int| 0 <= i < v.len() && v[i].0 == t
}

/// True when some entry of `v` is keyed by `t`.
pub open spec fn conn_keys(v: Seq<(TimerToken, String)>, t: TimerToken) -> bool {
    exists|i: int| 0 <= i < v.len() && v[i].0 == t
}

/// The stream entry keyed by `t`; meaningful when the map holds it and
/// its keys are unique.
pub open spec fn stream_at(v: Seq<(Token, Stream)>, t: Token) -> Stream {
    v[choose|i: int| 0 <= i < v.len() && v[i].0 == t].1
}

/// The listen entry keyed by `t`; meaningful when the map holds it and
/// its keys are unique.
pub open spec fn listen_at(v: Seq<(Token, Listen)>, t: Token) -> Listen {
    v[choose|i: int| 0 <= i < v.len() && v[i].0 == t].1
}

/// The per-service state: its name, its endpoints, its pending reconnect
/// timers, and the handler it dispatches to.
pub struct ServiceBody<S: ServiceStreamer, H: ServiceHandler<Packet = S::Packet>> {
    /// The service name, used in observability records.
    pub name: String,
    /// Accept endpoints by token.
    pub listens: Vec<(Token, Listen)>,
    /// Connection endpoints by token, in insertion order.
    pub streams: Vec<(Token, Stream)>,
    /// Pending reconnect timers and the peer address each will redial.
    pub connecting: Vec<(TimerToken, String)>,
    /// The application callbacks.
    pub handler: H,
    /// The codec is a type-level choice.
    pub streamer: core::marker::PhantomData<S>,
}

impl<S: ServiceStreamer, H: ServiceHandler<Packet = S::Packet>> ServiceBody<S, H> {
    /// Internal consistency: keys are unique and nonzero, the stream and
    /// listen key spaces are disjoint, every entry carries its own key,
    /// and every buffer is well formed.
    pub open spec fn wf(&self) -> bool {
        &&& forall|i: int, j: int|
            0 <= i < j < self.streams@.len() ==> (#[trigger] self.streams@[i]).0.0 != (
            #[trigger] self.streams@[j]).0.0
        &&& forall|i: int, j: int|
            0 <= i < j < self.listens@.len() ==> (#[trigger] self.listens@[i]).0.0 != (
            #[trigger] self.listens@[j]).0.0
        &&& forall|i: int, j: int|
            0 <= i < self.streams@.len() && 0 <= j < self.listens@.len() ==> (
            #[trigger] self.streams@[i]).0.0 != (#[trigger] self.listens@[j]).0.0
        &&& forall|i: int|
            0 <= i < self.streams@.len() ==> (#[trigger] self.streams@[i]).1.token
                == self.streams@[i].0 && self.streams@[i].1.wf() && self.streams@[i].0.0 >= 1
        &&& forall|i: int|
            0 <= i < self.listens@.len() ==> (#[trigger] self.listens@[i]).1.token
                == self.listens@[i].0 && self.listens@[i].0.0 >= 1
        &&& forall|i: int, j: int|
            0 <= i < j < self.connecting@.len() ==> (#[trigger] self.connecting@[i]).0.0 != (
            #[trigger] self.connecting@[j]).0.0
    }

    /// Every endpoint key was allocated by a reactor whose counter is at
    /// `counter`, and every pending timer by one at `timer_counter`.
    pub open spec fn keys_bounded(&self, counter: usize, timer_counter: usize) -> bool {
        &&& forall|i: int|
            0 <= i < self.streams@.len() ==> (#[trigger] self.streams@[i]).0.0 <= counter
        &&& forall|i: int|
            0 <= i < self.listens@.len() ==> (#[trigger] self.listens@[i]).0.0 <= counter
        &&& forall|i: int|
            0 <= i < self.connecting@.len() ==> 1 <= (#[trigger] self.connecting@[i]).0.0
                <= timer_counter
    }

    /// A service with a handler and no endpoints.
    pub fn new(handler: H) -> (r: ServiceBody<S, H>)
        ensures
            r.wf(),
            r.keys_bounded(0, 0),
            r.streams@.len() == 0,
            r.listens@.len() == 0,
            r.connecting@.len() == 0,
            r.handler == handler,
    {
        ServiceBody {
            name: String::new(),
            listens: Vec::new(),
            streams: Vec::new(),
            connecting: Vec::new(),
            handler,
            streamer: core::marker::PhantomData,
        }
    }

    /// Diagnostic count of live streams.
    pub fn streams_count(&self) -> (r: usize)
        ensures
            r == self.streams@.len(),
    {
        self.streams.len()
    }

    /// The position of `token` in the stream map.
    pub fn find_stream(&self, token: Token) -> (r: Option<usize>)
        ensures
            r is Some <==> stream_keys(self.streams@, token),
            (r matches Some(i) ==> i < self.streams@.len() && self.streams@[i as int].0 == token),
    {
        let n: usize = self.streams.len();
        let mut i: usize = 0;
        while i < n
            invariant
                i <= n,
                n == self.streams@.len(),
                forall|j: int| 0 <= j < i ==> (#[trigger] self.streams@[j]).0 != token,
            decreases n - i,
        {
            if self.streams[i].0.0 == token.0 {
                proof {
                    assert(self.streams@[i as int].0 == token);
                }
                return Some(i);
            }
            i += 1;
        }
        proof {
            if stream_keys(self.streams@, token) {
                let k = choose|k: int|
                    0 <= k < self.streams@.len() && self.streams@[k].0 == token;
                assert(false);
            }
        }
        None
    }

    /// The position of `token` in the listen map.
    pub fn find_listen(&self, token: Token) -> (r: Option<usize>)
        ensures
            r is Some <==> listen_keys(self.listens@, token),
            (r matches Some(i) ==> i < self.listens@.len() && self.listens@[i as int].0 == token),
    {
        let n: usize = self.listens.len();
        let mut i: usize = 0;
        while i < n
            invariant
                i <= n,
                n == self.listens@.len(),
                forall|j: int| 0 <= j < i ==> (#[trigger] self.listens@[j]).0 != token,
            decreases n - i,
        {
            if self.listens[i].0.0 == token.0 {
                proof {
                    assert(self.listens@[i as int].0 == token);
                }
                return Some(i);
            }
            i += 1;
        }
        proof {
            if listen_keys(self.listens@, token) {
                let k = choose|k: int|
                    0 <= k < self.listens@.len() && self.listens@[k].0 == token;
                assert(false);
            }
        }
        None
    }

    /// Bind one accept endpoint: a fresh token, a listen entry, and the
    /// bind work for the caller.
    pub fn listen(&mut self, looper: &mut Looper, on: String) -> (r: (Token, IoAction))
        requires
            old(self).wf(),
            old(looper).wf(),
            old(self).keys_bounded(old(looper).token_counter, old(looper).timer_counter),
            old(looper).token_counter < usize::MAX,
        ensures
            final(self).wf(),
            final(looper).wf(),
            final(self).keys_bounded(final(looper).token_counter, final(looper).timer_counter),
            r.0.0 == old(looper).token_counter + 1,
            final(looper).token_counter == old(looper).token_counter + 1,
            final(looper).eventers@ == old(looper).eventers@.push(r.0),
            final(looper).to_reg@ == old(looper).to_reg@.push(r.0),
            final(looper).pending == old(looper).pending,
            final(looper).timers == old(looper).timers,
            final(looper).timer_counter == old(looper).timer_counter,
            final(looper).timer_to_reg == old(looper).timer_to_reg,
            final(self).streams == old(self).streams,
            final(self).connecting == old(self).connecting,
            final(self).handler == old(self).handler,
            final(self).name == old(self).name,
            final(self).listens@.len() == old(self).listens@.len() + 1,
            final(self).listens@ == old(self).listens@.push(
                (r.0, final(self).listens@.last().1),
            ),
            final(self).listens@.last().1.addr == on,
            final(self).listens@.last().1.interest == EventSet::spec_all(),
            (r.1 matches IoAction::Bind(t, a) ==> t == r.0 && a@ == on@),
            r.1 is Bind,
    {
        let token = looper.register();
        let ghost onv = on;
        let entry = Listen::new(token, on);
        proof {
            assert(entry.addr == onv);
        }
        let ghost a2 = entry.addr;
        self.listens.push((token, entry));
        let act = IoAction::Bind(token, clone_string(&self.listens[self.listens.len() - 1].1.addr));
        proof {
            assert(final(self).listens@.last() == (token, entry));
        }
        (token, act)
    }

    /// Open one outbound connection: a fresh token, a client stream
    /// entry, and the connect work for the caller.
    pub fn connect(&mut self, looper: &mut Looper, to: String, reconnect: bool) -> (r: (
        Token,
        IoAction,
    ))
        requires
            old(self).wf(),
            old(looper).wf(),
            old(self).keys_bounded(old(looper).token_counter, old(looper).timer_counter),
            old(looper).token_counter < usize::MAX,
        ensures
            final(self).wf(),
            final(looper).wf(),
            final(self).keys_bounded(final(looper).token_counter, final(looper).timer_counter),
            r.0.0 == old(looper).token_counter + 1,
            final(looper).token_counter == old(looper).token_counter + 1,
            final(looper).eventers@ == old(looper).eventers@.push(r.0),
            final(looper).to_reg@ == old(looper).to_reg@.push(r.0),
            final(looper).pending == old(looper).pending,
            final(looper).timers == old(looper).timers,
            final(looper).timer_counter == old(looper).timer_counter,
            final(looper).timer_to_reg == old(looper).timer_to_reg,
            final(self).listens == old(self).listens,
            final(self).connecting == old(self).connecting,
            final(self).handler == old(self).handler,
            final(self).name == old(self).name,
            final(self).streams@.len() == old(self).streams@.len() + 1,
            final(self).streams@ == old(self).streams@.push(
                (r.0, final(self).streams@.last().1),
            ),
            final(self).streams@.last().1.peer_addr == to,
            final(self).streams@.last().1.is_client,
            final(self).streams@.last().1.reconnect == reconnect,
            final(self).streams@.last().1.connecting,
            final(self).streams@.last().1.interest == EventSet::spec_all(),
            final(self).streams@.last().1.wbuf@ == Seq::<u8>::empty(),
            final(self).streams@.last().1.rbuf@ == Seq::<u8>::empty(),
            (r.1 matches IoAction::Connect(t, a) ==> t == r.0 && a@ == to@),
            r.1 is Connect,
    {
        let token = looper.register();
        let entry = Stream::new(token, true, reconnect, to);
        self.streams.push((token, entry));
        let act = IoAction::Connect(
            token,
            clone_string(&self.streams[self.streams.len() - 1].1.peer_addr),
        );
        proof {
            assert(final(self).streams@.last() == (token, entry));
        }
        (token, act)
    }
}

impl<S: ServiceStreamer, H: ServiceHandler<Packet = S::Packet>> ServiceBody<S, H> {
    /// Bind every configured listen address and open every configured
    /// outbound connection (with reconnection on), in order.
    pub fn start(&mut self, looper: &mut Looper, config: ServiceConfig) -> (r: Vec<IoAction>)
        requires
            old(self).wf(),
            old(looper).wf(),
            old(self).keys_bounded(old(looper).token_counter, old(looper).timer_counter),
            old(looper).token_counter + config.listen@.len() + config.connect@.len()
                <= usize::MAX,
        ensures
            final(self).wf(),
            final(looper).wf(),
            final(self).keys_bounded(final(looper).token_counter, final(looper).timer_counter),
            final(self).name@ == config.name@,
            final(self).listens@.len() == old(self).listens@.len() + config.listen@.len(),
            final(self).streams@.len() == old(self).streams@.len() + config.connect@.len(),
            (forall|k: int|
                0 <= k < config.listen@.len() ==> (#[trigger] final(self).listens@[old(self).listens@.len() + k]).1.addr@ == config.listen@[k]@),
            (forall|k: int|
                0 <= k < config.connect@.len() ==> {
                    let st = (#[trigger] final(self).streams@[old(self).streams@.len() + k]).1;
                    st.peer_addr@ == config.connect@[k]@ && st.is_client && st.reconnect
                        && st.connecting
                }),
            (forall|k: int|
                0 <= k < old(self).listens@.len() ==> final(self).listens@[k] == old(self).listens@[k]),
            (forall|k: int|
                0 <= k < old(self).streams@.len() ==> final(self).streams@[k] == old(self).streams@[k]),
            final(self).connecting == old(self).connecting,
            final(looper).token_counter == old(looper).token_counter + config.listen@.len()
                + config.connect@.len(),
            final(looper).pending == old(looper).pending,
            final(looper).timers == old(looper).timers,
            final(looper).timer_counter == old(looper).timer_counter,
            final(looper).timer_to_reg == old(looper).timer_to_reg,
            r@.len() == config.listen@.len() + config.connect@.len(),
            (forall|k: int|
                0 <= k < config.listen@.len() ==> (#[trigger] r@[k]) is Bind && (r@[k]
                    matches IoAction::Bind(t, a) ==> a@ == config.listen@[k]@ && t == final(self).listens@[old(self).listens@.len() + k].0)),
            (forall|k: int|
                0 <= k < config.connect@.len() ==> (#[trigger] r@[config.listen@.len() + k])
                    is Connect && (r@[config.listen@.len() + k] matches IoAction::Connect(t, a)
                    ==> a@ == config.connect@[k]@ && t == final(self).streams@[old(self).streams@.len() + k].0)),
    {
        let mut actions: Vec<IoAction> = Vec::new();
        self.name = clone_string(&config.name);
        let nl: usize = config.listen.len();
        let mut i: usize = 0;
        while i < nl
            invariant
                i <= nl,
                nl == config.listen@.len(),
                self.wf(),
                looper.wf(),
                self.keys_bounded(looper.token_counter, looper.timer_counter),
                looper.token_counter == old(looper).token_counter + i,
                looper.token_counter + (nl - i) + config.connect@.len() <= usize::MAX,
                self.name@ == config.name@,
                self.listens@.len() == old(self).listens@.len() + i,
                self.streams == old(self).streams,
                self.connecting == old(self).connecting,
                looper.pending == old(looper).pending,
                looper.timers == old(looper).timers,
                looper.timer_counter == old(looper).timer_counter,
                looper.timer_to_reg == old(looper).timer_to_reg,
                forall|k: int|
                    0 <= k < i ==> (#[trigger] self.listens@[old(self).listens@.len() + k]).1.addr@
                        == config.listen@[k]@,
                forall|k: int|
                    0 <= k < old(self).listens@.len() ==> self.listens@[k] == old(self).listens@[k],
                actions@.len() == i,
                forall|m: int|
                    0 <= m < i ==> (#[trigger] actions@[m]) is Bind && (actions@[m]
                        matches IoAction::Bind(t, a) ==> a@ == config.listen@[m]@ && t
                        == self.listens@[old(self).listens@.len() + m].0),
            decreases nl - i,
        {
            let addr = clone_string(&config.listen[i]);
            let (_t, act) = self.listen(looper, addr);
            actions.push(act);
            i += 1;
        }
        let nc: usize = config.connect.len();
        let mut j: usize = 0;
        while j < nc
            invariant
                j <= nc,
                nc == config.connect@.len(),
                nl == config.listen@.len(),
                self.wf(),
                looper.wf(),
                self.keys_bounded(looper.token_counter, looper.timer_counter),
                looper.token_counter == old(looper).token_counter + nl + j,
                looper.token_counter + (nc - j) <= usize::MAX,
                self.name@ == config.name@,
                self.listens@.len() == old(self).listens@.len() + nl,
                self.streams@.len() == old(self).streams@.len() + j,
                self.connecting == old(self).connecting,
                looper.pending == old(looper).pending,
                looper.timers == old(looper).timers,
                looper.timer_counter == old(looper).timer_counter,
                looper.timer_to_reg == old(looper).timer_to_reg,
                forall|k: int|
                    0 <= k < nl ==> (#[trigger] self.listens@[old(self).listens@.len() + k]).1.addr@
                        == config.listen@[k]@,
                forall|k: int|
                    0 <= k < old(self).listens@.len() ==> self.listens@[k] == old(self).listens@[k],
                forall|k: int|
                    0 <= k < j ==> {
                        let st = (#[trigger] self.streams@[old(self).streams@.len() + k]).1;
                        st.peer_addr@ == config.connect@[k]@ && st.is_client && st.reconnect
                            && st.connecting
                    },
                forall|k: int|
                    0 <= k < old(self).streams@.len() ==> self.streams@[k] == old(self).streams@[k],
                actions@.len() == nl + j,
                forall|m: int|
                    0 <= m < nl ==> (#[trigger] actions@[m]) is Bind && (actions@[m]
                        matches IoAction::Bind(t, a) ==> a@ == config.listen@[m]@ && t
                        == self.listens@[old(self).listens@.len() + m].0),
                forall|m: int|
                    0 <= m < j ==> (#[trigger] actions@[nl + m]) is Connect && (actions@[nl + m]
                        matches IoAction::Connect(t, a) ==> a@ == config.connect@[m]@ && t
                        == self.streams@[old(self).streams@.len() + m].0),
            decreases nc - j,
        {
            let addr = clone_string(&config.connect[j]);
            let (_t, act) = self.connect(looper, addr, true);
            actions.push(act);
            j += 1;
        }
        actions
    }

    /// Arm the reconnect timer for a lost peer: a fresh timer token, the
    /// pending entry remembering the address, and the arming work.
    pub fn timer_connect(&mut self, looper: &mut Looper, to: String) -> (r: (TimerToken, IoAction))
        requires
            old(self).wf(),
            old(looper).wf(),
            old(self).keys_bounded(old(looper).token_counter, old(looper).timer_counter),
            old(looper).timer_counter < usize::MAX,
        ensures
            final(self).wf(),
            final(looper).wf(),
            final(self).keys_bounded(final(looper).token_counter, final(looper).timer_counter),
            r.0.0 == old(looper).timer_counter + 1,
            !conn_keys(old(self).connecting@, r.0),
            final(self).connecting@.len() == old(self).connecting@.len() + 1,
            final(self).connecting@ == old(self).connecting@.push(
                (r.0, final(self).connecting@.last().1),
            ),
            final(self).connecting@.last().1@ == to@,
            final(self).streams == old(self).streams,
            final(self).listens == old(self).listens,
            final(self).handler == old(self).handler,
            final(self).name == old(self).name,
            final(looper).timers@ == old(looper).timers@.push((r.0, RECONNECT_DELAY_MS)),
            final(looper).timer_to_reg@ == old(looper).timer_to_reg@.push(r.0),
            final(looper).timer_counter == old(looper).timer_counter + 1,
            final(looper).eventers == old(looper).eventers,
            final(looper).token_counter == old(looper).token_counter,
            final(looper).to_reg == old(looper).to_reg,
            final(looper).pending == old(looper).pending,
            (r.1 matches IoAction::ArmTimer(t, d) ==> t == r.0 && d == RECONNECT_DELAY_MS),
            r.1 is ArmTimer,
    {
        let tt = looper.register_timer(RECONNECT_DELAY_MS);
        proof {
            if conn_keys(self.connecting@, tt) {
                let k = choose|k: int|
                    0 <= k < self.connecting@.len() && self.connecting@[k].0 == tt;
                assert(false);
            }
        }
        self.connecting.push((tt, to));
        let act = IoAction::ArmTimer(tt, RECONNECT_DELAY_MS);
        (tt, act)
    }

    /// Encode one packet for one stream: the handler observes it, its
    /// frame joins that stream's send buffer, and the caller is asked to
    /// flush. An unknown token is dropped silently.
    pub fn write(&mut self, looper: &mut Looper, token: Token, packet: &S::Packet) -> (r: Option<
        IoAction,
    >)
        requires
            old(self).wf(),
            old(looper).wf(),
            S::spec_wf_packet(packet@),
            (forall|i: int|
                0 <= i < old(self).streams@.len() && (#[trigger] old(self).streams@[i]).0 == token
                    ==> old(self).streams@[i].1.wbuf@.len() + S::spec_encode(packet@).len()
                    <= usize::MAX),
        ensures
            final(self).wf(),
            *final(looper) == *old(looper),
            final(self).listens == old(self).listens,
            final(self).connecting == old(self).connecting,
            final(self).handler == old(self).handler,
            final(self).name == old(self).name,
            (if !stream_keys(old(self).streams@, token) {
                r is None && final(self).streams == old(self).streams
            } else {
                &&& (r matches Some(a) ==> a is Flush && (a matches IoAction::Flush(t) ==> t
                    == token))
                &&& r is Some
                &&& final(self).streams@.len() == old(self).streams@.len()
                &&& (forall|i: int|
                    0 <= i < old(self).streams@.len() ==> {
                        let o = (#[trigger] old(self).streams@[i]);
                        if o.0 == token {
                            final(self).streams@[i] == (
                                o.0,
                                Stream { wbuf: final(self).streams@[i].1.wbuf, ..o.1 },
                            ) && final(self).streams@[i].1.wbuf@ == o.1.wbuf@ + S::spec_encode(
                                packet@,
                            )
                        } else {
                            final(self).streams@[i] == o
                        }
                    })
            }),
    {
        let idx: usize = match self.find_stream(token) {
            Some(i) => i,
            None => {
                return None;
            },
        };
        self.handler.outgoing(token, packet);
        let (tok, mut st) = self.streams.remove(idx);
        let ghost pre = old(self).streams@;
        let _ = S::write_packet(packet, &mut st.wbuf);
        self.streams.insert(idx, (tok, st));
        proof {
            assert(self.streams@ =~= pre.update(idx as int, (tok, st)));
            assert(forall|i: int|
                0 <= i < pre.len() && i != idx ==> self.streams@[i] == pre[i]);
        }
        Some(IoAction::Flush(token))
    }

    /// Apply [`Self::write`] to every stream, in insertion order.
    pub fn broadcast(&mut self, looper: &mut Looper, packet: &S::Packet) -> (r: Vec<IoAction>)
        requires
            old(self).wf(),
            old(looper).wf(),
            S::spec_wf_packet(packet@),
            (forall|i: int|
                0 <= i < old(self).streams@.len() ==> (#[trigger] old(self).streams@[i]).1.wbuf@.len() + S::spec_encode(packet@).len() <= usize::MAX),
        ensures
            final(self).wf(),
            *final(looper) == *old(looper),
            final(self).listens == old(self).listens,
            final(self).connecting == old(self).connecting,
            final(self).handler == old(self).handler,
            final(self).name == old(self).name,
            final(self).streams@.len() == old(self).streams@.len(),
            (forall|i: int|
                0 <= i < old(self).streams@.len() ==> {
                    let o = (#[trigger] old(self).streams@[i]);
                    final(self).streams@[i] == (
                        o.0,
                        Stream { wbuf: final(self).streams@[i].1.wbuf, ..o.1 },
                    ) && final(self).streams@[i].1.wbuf@ == o.1.wbuf@ + S::spec_encode(packet@)
                }),
            r@.len() == old(self).streams@.len(),
            (forall|i: int|
                0 <= i < r@.len() ==> (#[trigger] r@[i]) == IoAction::Flush(
                    old(self).streams@[i].0,
                )),
    {
        let n: usize = self.streams.len();
        let mut actions: Vec<IoAction> = Vec::new();
        let mut i: usize = 0;
        while i < n
            invariant
                i <= n,
                n == old(self).streams@.len(),
                self.wf(),
                S::spec_wf_packet(packet@),
                self.streams@.len() == n,
                self.listens == old(self).listens,
                self.connecting == old(self).connecting,
                self.handler == old(self).handler,
                self.name == old(self).name,
                forall|k: int|
                    0 <= k < old(self).streams@.len() ==> (#[trigger] old(self).streams@[k]).1.wbuf@.len() + S::spec_encode(packet@).len() <= usize::MAX,
                forall|k: int|
                    0 <= k < i ==> {
                        let o = (#[trigger] old(self).streams@[k]);
                        self.streams@[k] == (
                            o.0,
                            Stream { wbuf: self.streams@[k].1.wbuf, ..o.1 },
                        ) && self.streams@[k].1.wbuf@ == o.1.wbuf@ + S::spec_encode(packet@)
                    },
                forall|k: int| i <= k < n ==> self.streams@[k] == old(self).streams@[k],
                actions@.len() == i,
                forall|k: int|
                    0 <= k < i ==> (#[trigger] actions@[k]) == IoAction::Flush(
                        old(self).streams@[k].0,
                    ),
            decreases n - i,
        {
            let token: Token = self.streams[i].0;
            self.handler.outgoing(token, packet);
            let (tok, mut st) = self.streams.remove(i);
            let ghost pre = self.streams@;
            let _ = S::write_packet(packet, &mut st.wbuf);
            self.streams.insert(i, (tok, st));
            proof {
                assert(self.streams@ =~= pre.insert(i as int, (tok, st)));
                assert(forall|k: int| 0 <= k < i ==> self.streams@[k] == pre[k]);
                assert(forall|k: int|
                    i < k < self.streams@.len() ==> self.streams@[k] == pre[k - 1]);
            }
            actions.push(IoAction::Flush(token));
            i += 1;
        }
        actions
    }

    /// Close one stream for good: its reconnect flag is cleared first, so
    /// the eventual close dispatch schedules no reconnect. An unknown
    /// token is dropped silently.
    pub fn shutdown(&mut self, looper: &mut Looper, token: Token) -> (r: Option<IoAction>)
        requires
            old(self).wf(),
            old(looper).wf(),
        ensures
            final(self).wf(),
            final(looper).wf(),
            final(self).listens == old(self).listens,
            final(self).connecting == old(self).connecting,
            final(self).handler == old(self).handler,
            final(self).name == old(self).name,
            final(looper).eventers == old(looper).eventers,
            final(looper).to_reg == old(looper).to_reg,
            final(looper).timers == old(looper).timers,
            final(looper).timer_to_reg == old(looper).timer_to_reg,
            final(looper).token_counter == old(looper).token_counter,
            final(looper).timer_counter == old(looper).timer_counter,
            (if !stream_keys(old(self).streams@, token) {
                r is None && final(self).streams == old(self).streams && *final(looper) == *old(looper)
            } else {
                &&& final(self).streams@.len() == old(self).streams@.len()
                &&& (forall|i: int|
                    0 <= i < old(self).streams@.len() ==> {
                        let o = (#[trigger] old(self).streams@[i]);
                        if o.0 == token {
                            final(self).streams@[i] == (
                                o.0,
                                Stream {
                                    reconnect: false,
                                    interest: EventSet::spec_none(),
                                    got: final(self).streams@[i].1.got,
                                    ..o.1
                                },
                            )
                        } else {
                            final(self).streams@[i] == o
                        }
                    })
                &&& (r is Some <==> !old(self).streams@[choose|i: int|
                    0 <= i < old(self).streams@.len() && old(self).streams@[i].0
                        == token].1.interest.spec_is_none())
                &&& (r matches Some(a) ==> a == IoAction::CloseTransport(token))
                &&& (r is Some ==> final(looper).pending@.contains(token))
            }),
    {
        let idx: usize = match self.find_stream(token) {
            Some(i) => i,
            None => {
                return None;
            },
        };
        let (tok, mut st) = self.streams.remove(idx);
        let ghost pre = old(self).streams@;
        st.reconnect = false;
        let close = st.shutdown(looper);
        self.streams.insert(idx, (tok, st));
        proof {
            assert(self.streams@ =~= pre.update(idx as int, (tok, st)));
            assert(forall|i: int|
                0 <= i < pre.len() && i != idx ==> self.streams@[i] == pre[i]);
            let ci = choose|i: int| 0 <= i < pre.len() && pre[i].0 == token;
            assert(ci == idx);
        }
        if close {
            Some(IoAction::CloseTransport(token))
        } else {
            None
        }
    }
}

impl<S: ServiceStreamer, H: ServiceHandler<Packet = S::Packet>> ServiceBody<S, H> {
    /// Orderly teardown: every stream loses its reconnect flag and is
    /// shut down, every listen is shut down, every pending reconnect
    /// timer is cancelled and forgotten. The reactor drains the closures
    /// and then observes emptiness.
    pub fn exit(&mut self, looper: &mut Looper) -> (r: Vec<IoAction>)
        requires
            old(self).wf(),
            old(looper).wf(),
        ensures
            final(self).wf(),
            final(looper).wf(),
            final(self).handler == old(self).handler,
            final(self).name == old(self).name,
            final(self).connecting@.len() == 0,
            final(self).streams@.len() == old(self).streams@.len(),
            final(self).listens@.len() == old(self).listens@.len(),
            (forall|i: int|
                0 <= i < final(self).streams@.len() ==> {
                    let st = (#[trigger] final(self).streams@[i]).1;
                    !st.reconnect && st.interest == EventSet::spec_none() && final(self).streams@[i].0 == old(self).streams@[i].0
                }),
            (forall|i: int|
                0 <= i < final(self).listens@.len() ==> (#[trigger] final(self).listens@[i]).1.interest == EventSet::spec_none() && final(self).listens@[i].0
                    == old(self).listens@[i].0),
            (forall|i: int|
                0 <= i < old(self).connecting@.len() ==> !crate::looper::timer_keys(
                    final(looper).timers@,
                    (#[trigger] old(self).connecting@[i]).0,
                )),
            (forall|kk: TimerToken, d: u64|
                #![trigger final(looper).timers@.contains((kk, d))]
                final(looper).timers@.contains((kk, d)) <==> (old(looper).timers@.contains(
                    (kk, d),
                ) && !conn_keys(old(self).connecting@, kk))),
            final(looper).eventers == old(looper).eventers,
            final(looper).to_reg == old(looper).to_reg,
            final(looper).token_counter == old(looper).token_counter,
            final(looper).timer_counter == old(looper).timer_counter,
            final(looper).timer_to_reg == old(looper).timer_to_reg,
            (forall|m: int| 0 <= m < r@.len() ==> (#[trigger] r@[m]) is CloseTransport),
    {
        let mut actions: Vec<IoAction> = Vec::new();
        let n: usize = self.streams.len();
        let mut i: usize = 0;
        while i < n
            invariant
                i <= n,
                n == old(self).streams@.len(),
                self.wf(),
                looper.wf(),
                self.streams@.len() == n,
                self.listens == old(self).listens,
                self.connecting == old(self).connecting,
                self.handler == old(self).handler,
                self.name == old(self).name,
                forall|k: int|
                    0 <= k < i ==> {
                        let st = (#[trigger] self.streams@[k]).1;
                        !st.reconnect && st.interest == EventSet::spec_none() && self.streams@[k].0
                            == old(self).streams@[k].0
                    },
                forall|k: int| i <= k < n ==> self.streams@[k] == old(self).streams@[k],
                forall|m: int| 0 <= m < actions@.len() ==> (#[trigger] actions@[m]) is CloseTransport,
                looper.eventers == old(looper).eventers,
                looper.to_reg == old(looper).to_reg,
                looper.timers == old(looper).timers,
                looper.timer_to_reg == old(looper).timer_to_reg,
                looper.token_counter == old(looper).token_counter,
                looper.timer_counter == old(looper).timer_counter,
            decreases n - i,
        {
            let (tok, mut st) = self.streams.remove(i);
            let ghost pre = self.streams@;
            st.reconnect = false;
            let close = st.shutdown(looper);
            self.streams.insert(i, (tok, st));
            proof {
                assert(self.streams@ =~= pre.insert(i as int, (tok, st)));
                assert(forall|k: int| 0 <= k < i ==> self.streams@[k] == pre[k]);
                assert(forall|k: int|
                    i < k < self.streams@.len() ==> self.streams@[k] == pre[k - 1]);
            }
            if close {
                actions.push(IoAction::CloseTransport(tok));
            }
            i += 1;
        }
        let nl: usize = self.listens.len();
        let mut j: usize = 0;
        while j < nl
            invariant
                j <= nl,
                nl == old(self).listens@.len(),
                self.wf(),
                looper.wf(),
                self.listens@.len() == nl,
                self.connecting == old(self).connecting,
                self.handler == old(self).handler,
                self.name == old(self).name,
                self.streams@.len() == n,
                n == old(self).streams@.len(),
                forall|k: int|
                    0 <= k < n ==> {
                        let st = (#[trigger] self.streams@[k]).1;
                        !st.reconnect && st.interest == EventSet::spec_none() && self.streams@[k].0
                            == old(self).streams@[k].0
                    },
                forall|k: int|
                    0 <= k < j ==> (#[trigger] self.listens@[k]).1.interest
                        == EventSet::spec_none() && self.listens@[k].0 == old(self).listens@[k].0,
                forall|k: int| j <= k < nl ==> self.listens@[k] == old(self).listens@[k],
                looper.eventers == old(looper).eventers,
                looper.to_reg == old(looper).to_reg,
                looper.timers == old(looper).timers,
                looper.timer_to_reg == old(looper).timer_to_reg,
                looper.token_counter == old(looper).token_counter,
                looper.timer_counter == old(looper).timer_counter,
            decreases nl - j,
        {
            let (tok, mut ln) = self.listens.remove(j);
            let ghost pre = self.listens@;
            let _ = ln.shutdown(looper);
            self.listens.insert(j, (tok, ln));
            proof {
                assert(self.listens@ =~= pre.insert(j as int, (tok, ln)));
                assert(forall|k: int| 0 <= k < j ==> self.listens@[k] == pre[k]);
                assert(forall|k: int|
                    j < k < self.listens@.len() ==> self.listens@[k] == pre[k - 1]);
            }
            j += 1;
        }
        let nc: usize = self.connecting.len();
        let mut k: usize = 0;
        while k < nc
            invariant
                k <= nc,
                nc == old(self).connecting@.len(),
                self.wf(),
                looper.wf(),
                self.connecting == old(self).connecting,
                forall|m: int|
                    0 <= m < k ==> !crate::looper::timer_keys(
                        looper.timers@,
                        (#[trigger] self.connecting@[m]).0,
                    ),
                forall|kk: TimerToken, d: u64|
                    #![trigger looper.timers@.contains((kk, d))]
                    looper.timers@.contains((kk, d)) <==> (old(looper).timers@.contains((kk, d))
                        && !conn_keys(self.connecting@.take(k as int), kk)),
                looper.eventers == old(looper).eventers,
                looper.to_reg == old(looper).to_reg,
                looper.timer_to_reg == old(looper).timer_to_reg,
                looper.token_counter == old(looper).token_counter,
                looper.timer_counter == old(looper).timer_counter,
            decreases nc - k,
        {
            let ghost timers_pre = looper.timers@;
            let tt: TimerToken = self.connecting[k].0;
            let _ = looper.deregister_timer(tt);
            proof {
                assert(self.connecting@.take(k + 1) =~= self.connecting@.take(k as int).push(
                    self.connecting@[k as int],
                ));
                assert forall|kk: TimerToken, d: u64|
                    #![trigger looper.timers@.contains((kk, d))]
                    looper.timers@.contains((kk, d)) <==> (old(looper).timers@.contains((kk, d))
                        && !conn_keys(self.connecting@.take(k + 1), kk)) by {
                    let taken = self.connecting@.take(k as int);
                    let taken1 = self.connecting@.take(k + 1);
                    if conn_keys(taken1, kk) && kk != tt {
                        let x = choose|x: int| 0 <= x < taken1.len() && taken1[x].0 == kk;
                        if x < k {
                            assert(taken[x].0 == kk);
                            assert(conn_keys(taken, kk));
                        } else {
                            assert(taken1[x] == self.connecting@[k as int]);
                            assert(false);
                        }
                    }
                    if conn_keys(taken, kk) {
                        let x = choose|x: int| 0 <= x < taken.len() && taken[x].0 == kk;
                        assert(taken1[x].0 == kk);
                        assert(conn_keys(taken1, kk));
                    }
                    if kk == tt {
                        assert(taken1[k as int].0 == kk);
                        assert(conn_keys(taken1, kk));
                    }
                }
            }
            proof {
                assert forall|m: int|
                    0 <= m < k implies !crate::looper::timer_keys(
                    looper.timers@,
                    (#[trigger] self.connecting@[m]).0,
                ) by {
                    let key = self.connecting@[m].0;
                    if crate::looper::timer_keys(looper.timers@, key) {
                        let x = choose|x: int|
                            0 <= x < looper.timers@.len() && looper.timers@[x].0 == key;
                        assert(looper.timers@.contains((key, looper.timers@[x].1)));
                        assert(timers_pre.contains((key, looper.timers@[x].1)));
                        let y = choose|y: int|
                            0 <= y < timers_pre.len() && timers_pre[y] == (
                                key,
                                looper.timers@[x].1,
                            );
                        assert(timers_pre[y].0 == key);
                        assert(false);
                    }
                }
            }
            k += 1;
        }
        self.connecting.clear();
        actions
    }

    /// Close dispatch for one token, after the reactor removed it. A
    /// stream comes out of the map and owes the handler a `disconnected`;
    /// when it was a reconnecting client stream, exactly one reconnect
    /// timer is armed for its peer address. A listen just comes out of
    /// the map.
    pub fn on_close(&mut self, looper: &mut Looper, token: Token) -> (r: (bool, Option<IoAction>))
        requires
            old(self).wf(),
            old(looper).wf(),
            old(self).keys_bounded(old(looper).token_counter, old(looper).timer_counter),
            old(looper).timer_counter < usize::MAX,
        ensures
            final(self).wf(),
            final(looper).wf(),
            final(self).keys_bounded(final(looper).token_counter, final(looper).timer_counter),
            final(self).handler == old(self).handler,
            final(self).name == old(self).name,
            final(looper).eventers == old(looper).eventers,
            final(looper).to_reg == old(looper).to_reg,
            final(looper).pending == old(looper).pending,
            final(looper).token_counter == old(looper).token_counter,
            (if stream_keys(old(self).streams@, token) {
                let i = choose|i: int|
                    0 <= i < old(self).streams@.len() && old(self).streams@[i].0 == token;
                let st = old(self).streams@[i].1;
                &&& r.0
                &&& final(self).listens == old(self).listens
                &&& final(self).streams@.len() == old(self).streams@.len() - 1
                &&& !stream_keys(final(self).streams@, token)
                &&& (forall|k: int| 0 <= k < i ==> final(self).streams@[k] == old(self).streams@[k])
                &&& (forall|k: int|
                    i <= k < final(self).streams@.len() ==> final(self).streams@[k] == old(self).streams@[k + 1])
                &&& (if st.is_client && st.reconnect {
                    &&& (r.1 matches Some(a) ==> a is ArmTimer && (a
                        matches IoAction::ArmTimer(t, d) ==> d == RECONNECT_DELAY_MS && final(self).connecting@.last().0 == t))
                    &&& r.1 is Some
                    &&& final(self).connecting@.len() == old(self).connecting@.len() + 1
                    &&& final(self).connecting@.last().1@ == st.peer_addr@
                    &&& (forall|k: int|
                        0 <= k < old(self).connecting@.len() ==> final(self).connecting@[k] == old(self).connecting@[k])
                    &&& final(looper).timer_counter == old(looper).timer_counter + 1
                    &&& final(self).connecting@.last().0.0 == old(looper).timer_counter + 1
                    &&& final(looper).timers@ == old(looper).timers@.push(
                        (final(self).connecting@.last().0, RECONNECT_DELAY_MS),
                    )
                    &&& final(looper).timer_to_reg@ == old(looper).timer_to_reg@.push(
                        final(self).connecting@.last().0,
                    )
                } else {
                    &&& r.1 is None
                    &&& final(self).connecting == old(self).connecting
                    &&& *final(looper) == *old(looper)
                })
            } else if listen_keys(old(self).listens@, token) {
                &&& !r.0
                &&& r.1 is None
                &&& final(self).streams == old(self).streams
                &&& final(self).connecting == old(self).connecting
                &&& !listen_keys(final(self).listens@, token)
                &&& final(self).listens@.len() == old(self).listens@.len() - 1
                &&& *final(looper) == *old(looper)
            } else {
                &&& !r.0
                &&& r.1 is None
                &&& final(self).streams == old(self).streams
                &&& final(self).listens == old(self).listens
                &&& final(self).connecting == old(self).connecting
                &&& *final(looper) == *old(looper)
            }),
    {
        if let Some(idx) = self.find_stream(token) {
            let ghost pre = self.streams@;
            let (tok, st) = self.streams.remove(idx);
            proof {
                assert(self.streams@ == pre.remove(idx as int));
                assert(forall|k: int| 0 <= k < idx ==> self.streams@[k] == pre[k]);
                assert(forall|k: int|
                    idx <= k < self.streams@.len() ==> self.streams@[k] == pre[k + 1]);
                if stream_keys(self.streams@, token) {
                    let k = choose|k: int|
                        0 <= k < self.streams@.len() && self.streams@[k].0 == token;
                    if k < idx {
                    } else {
                        assert(pre[k + 1].0 == token);
                    }
                    assert(false);
                }
                let ci = choose|i: int| 0 <= i < pre.len() && pre[i].0 == token;
                assert(ci == idx);
            }
            if st.is_client && st.reconnect {
                let (tt, act) = self.timer_connect(looper, st.peer_addr);
                return (true, Some(act));
            }
            return (true, None);
        }
        if let Some(idx) = self.find_listen(token) {
            let ghost pre = self.listens@;
            let _ = self.listens.remove(idx);
            proof {
                assert(self.listens@ == pre.remove(idx as int));
                assert(forall|k: int| 0 <= k < idx ==> self.listens@[k] == pre[k]);
                assert(forall|k: int|
                    idx <= k < self.listens@.len() ==> self.listens@[k] == pre[k + 1]);
                if listen_keys(self.listens@, token) {
                    let k = choose|k: int|
                        0 <= k < self.listens@.len() && self.listens@[k].0 == token;
                    if k < idx {
                    } else {
                        assert(pre[k + 1].0 == token);
                    }
                    assert(false);
                }
            }
            return (false, None);
        }
        (false, None)
    }

    /// Reconnect-timer dispatch: forget the pending entry and redial its
    /// peer address as a fresh reconnecting client stream. A cancelled or
    /// unknown timer does nothing.
    pub fn on_timer(&mut self, looper: &mut Looper, tt: TimerToken) -> (r: Option<IoAction>)
        requires
            old(self).wf(),
            old(looper).wf(),
            old(self).keys_bounded(old(looper).token_counter, old(looper).timer_counter),
            old(looper).token_counter < usize::MAX,
        ensures
            final(self).wf(),
            final(looper).wf(),
            final(self).keys_bounded(final(looper).token_counter, final(looper).timer_counter),
            final(self).handler == old(self).handler,
            final(self).name == old(self).name,
            final(self).listens == old(self).listens,
            !conn_keys(final(self).connecting@, tt),
            (if conn_keys(old(self).connecting@, tt) {
                let i = choose|i: int|
                    0 <= i < old(self).connecting@.len() && old(self).connecting@[i].0 == tt;
                &&& r is Some
                &&& (r matches Some(a) ==> a is Connect && (a matches IoAction::Connect(t, addr)
                    ==> addr@ == old(self).connecting@[i].1@ && t == final(self).streams@.last().0))
                &&& final(self).connecting@.len() == old(self).connecting@.len() - 1
                &&& final(self).streams@.len() == old(self).streams@.len() + 1
                &&& final(self).streams@.last().1.is_client
                &&& final(self).streams@.last().1.reconnect
                &&& final(self).streams@.last().1.peer_addr@ == old(self).connecting@[i].1@
                &&& (forall|k: int|
                    0 <= k < old(self).streams@.len() ==> final(self).streams@[k] == old(self).streams@[k])
            } else {
                &&& r is None
                &&& final(self).streams == old(self).streams
                &&& final(self).connecting == old(self).connecting
                &&& *final(looper) == *old(looper)
            }),
    {
        let n: usize = self.connecting.len();
        let mut i: usize = 0;
        while i < n
            invariant
                i <= n,
                *self == *old(self),
                *looper == *old(looper),
                old(self).wf(),
                old(looper).wf(),
                old(self).keys_bounded(old(looper).token_counter, old(looper).timer_counter),
                old(looper).token_counter < usize::MAX,
                n == self.connecting@.len(),
                forall|j: int| 0 <= j < i ==> (#[trigger] self.connecting@[j]).0 != tt,
            decreases n - i,
        {
            if self.connecting[i].0.0 == tt.0 {
                proof {
                    assert(self.connecting@[i as int].0 == tt);
                }
                let ghost pre = self.connecting@;
                let entry: (TimerToken, String) = self.connecting.remove(i);
                proof {
                    assert(self.connecting@ == pre.remove(i as int));
                    assert(forall|k: int| 0 <= k < i ==> self.connecting@[k] == pre[k]);
                    assert(forall|k: int|
                        i <= k < self.connecting@.len() ==> self.connecting@[k] == pre[k + 1]);
                    if conn_keys(self.connecting@, tt) {
                        let k = choose|k: int|
                            0 <= k < self.connecting@.len() && self.connecting@[k].0 == tt;
                        if k < i {
                        } else {
                            assert(pre[k + 1].0 == tt);
                        }
                        assert(false);
                    }
                    let ci = choose|ci: int| 0 <= ci < pre.len() && pre[ci].0 == tt;
                    assert(ci == i);
                }
                let (_t, act) = self.connect(looper, entry.1, true);
                return Some(act);
            }
            i += 1;
        }
        proof {
            if conn_keys(self.connecting@, tt) {
                let k = choose|k: int|
                    0 <= k < self.connecting@.len() && self.connecting@[k].0 == tt;
                assert(false);
            }
        }
        None
    }
}

/// What one readiness delivery on a stream asks the caller to do next.
pub struct StreamReady {
    /// The token named a live stream.
    pub found: bool,
    /// First writable edge of an outbound connect: deliver `connected`.
    pub connected: bool,
    /// Offer the stream's pending output to the transport.
    pub flush: bool,
    /// Drain the transport into the receive buffer, then decode.
    pub read: bool,
    /// Half-close the transport now (error or hang-up).
    pub close_transport: bool,
}

impl<S: ServiceStreamer, H: ServiceHandler<Packet = S::Packet>> ServiceBody<S, H> {
    /// Readiness dispatch for a stream: record the delivery, shut down on
    /// error or hang-up, and otherwise ask the caller to flush on a
    /// writable edge (completing a pending connect) and to read on a
    /// readable edge.
    pub fn on_ready_stream(&mut self, looper: &mut Looper, token: Token, es: EventSet) -> (r:
        StreamReady)
        requires
            old(self).wf(),
            old(looper).wf(),
        ensures
            final(self).wf(),
            final(looper).wf(),
            final(self).listens == old(self).listens,
            final(self).connecting == old(self).connecting,
            final(self).handler == old(self).handler,
            final(self).name == old(self).name,
            (if !stream_keys(old(self).streams@, token) {
                &&& !r.found
                &&& final(self).streams == old(self).streams
                &&& *final(looper) == *old(looper)
            } else {
                let i = choose|i: int|
                    0 <= i < old(self).streams@.len() && old(self).streams@[i].0 == token;
                let st = old(self).streams@[i].1;
                &&& r.found
                &&& final(self).streams@.len() == old(self).streams@.len()
                &&& (forall|k: int|
                    0 <= k < old(self).streams@.len() && k != i ==> final(self).streams@[k] == old(self).streams@[k])
                &&& final(self).streams@[i].0 == token
                &&& (if es.error || es.hup {
                    &&& !r.connected && !r.flush && !r.read
                    &&& (if st.interest.spec_is_none() {
                        &&& !r.close_transport
                        &&& final(self).streams@[i].1 == (Stream { got: es, ..st })
                        &&& *final(looper) == *old(looper)
                    } else {
                        &&& r.close_transport
                        &&& final(self).streams@[i].1 == (Stream {
                            got: EventSet::spec_hup(),
                            interest: EventSet::spec_none(),
                            ..st
                        })
                        &&& final(looper).pending@.contains(token)
                        &&& final(looper).eventers == old(looper).eventers
                        &&& final(looper).timers == old(looper).timers
                        &&& final(looper).to_reg == old(looper).to_reg
                        &&& final(looper).timer_to_reg == old(looper).timer_to_reg
                    })
                } else {
                    &&& !r.close_transport
                    &&& *final(looper) == *old(looper)
                    &&& r.connected == (es.writable && st.connecting)
                    &&& r.flush == es.writable
                    &&& r.read == es.readable
                    &&& final(self).streams@[i].1 == (Stream {
                        got: es,
                        connecting: st.connecting && !es.writable,
                        ..st
                    })
                })
            }),
    {
        let idx: usize = match self.find_stream(token) {
            Some(i) => i,
            None => {
                return StreamReady {
                    found: false,
                    connected: false,
                    flush: false,
                    read: false,
                    close_transport: false,
                };
            },
        };
        let ghost pre = self.streams@;
        let (tok, mut st) = self.streams.remove(idx);
        st.got = es;
        let mut connected = false;
        let mut flush = false;
        let mut read = false;
        let mut close = false;
        if es.error || es.hup {
            close = st.shutdown(looper);
        } else {
            if es.writable {
                if st.connecting {
                    connected = true;
                    st.connecting = false;
                }
                flush = true;
            }
            if es.readable {
                read = true;
            }
        }
        self.streams.insert(idx, (tok, st));
        proof {
            assert(self.streams@ =~= pre.update(idx as int, (tok, st)));
            assert(forall|k: int|
                0 <= k < pre.len() && k != idx ==> self.streams@[k] == pre[k]);
            let ci = choose|i: int| 0 <= i < pre.len() && pre[i].0 == token;
            assert(ci == idx);
        }
        StreamReady { found: true, connected, flush, read, close_transport: close }
    }

    /// Decode every complete frame buffered on a stream, in arrival
    /// order: the returned packets are exactly [`drain_packets`] of the
    /// buffered bytes, and [`crate::headbody::lemma_framing_tolerance`]
    /// extends that to any chunking of the byte stream across calls. The
    /// decoded packets are owed to the handler as `incoming` callbacks;
    /// an undecodable frame shuts the stream down.
    pub fn on_readable(&mut self, looper: &mut Looper, token: Token) -> (r: (
        Vec<S::Packet>,
        Option<IoAction>,
    ))
        requires
            old(self).wf(),
            old(looper).wf(),
        ensures
            final(self).wf(),
            final(looper).wf(),
            final(self).listens == old(self).listens,
            final(self).connecting == old(self).connecting,
            final(self).handler == old(self).handler,
            final(self).name == old(self).name,
            (if !stream_keys(old(self).streams@, token) {
                &&& r.0@.len() == 0
                &&& r.1 is None
                &&& final(self).streams == old(self).streams
                &&& *final(looper) == *old(looper)
            } else {
                let i = choose|i: int|
                    0 <= i < old(self).streams@.len() && old(self).streams@[i].0 == token;
                let st = old(self).streams@[i].1;
                let rest = drain_rest::<S>(st.rbuf@);
                &&& r.0@.map_values(|p: S::Packet| p@) == drain_packets::<S>(st.rbuf@)
                &&& final(self).streams@.len() == old(self).streams@.len()
                &&& (forall|k: int|
                    0 <= k < old(self).streams@.len() && k != i ==> final(self).streams@[k] == old(self).streams@[k])
                &&& final(self).streams@[i].0 == token
                &&& final(self).streams@[i].1.rbuf@ == rest
                &&& (if S::spec_framing(rest) is Bad {
                    if st.interest.spec_is_none() {
                        &&& r.1 is None
                        &&& final(self).streams@[i].1 == (Stream {
                            rbuf: final(self).streams@[i].1.rbuf,
                            ..st
                        })
                        &&& *final(looper) == *old(looper)
                    } else {
                        &&& (r.1 matches Some(a) ==> a == IoAction::CloseTransport(token))
                        &&& r.1 is Some
                        &&& final(self).streams@[i].1 == (Stream {
                            rbuf: final(self).streams@[i].1.rbuf,
                            got: EventSet::spec_hup(),
                            interest: EventSet::spec_none(),
                            ..st
                        })
                        &&& final(looper).pending@.contains(token)
                        &&& final(looper).eventers == old(looper).eventers
                        &&& final(looper).timers == old(looper).timers
                    }
                } else {
                    &&& r.1 is None
                    &&& final(self).streams@[i].1 == (Stream {
                        rbuf: final(self).streams@[i].1.rbuf,
                        ..st
                    })
                    &&& *final(looper) == *old(looper)
                })
            }),
    {
        let idx: usize = match self.find_stream(token) {
            Some(i) => i,
            None => {
                return (Vec::new(), None);
            },
        };
        let ghost pre = self.streams@;
        let (tok, mut st) = self.streams.remove(idx);
        let ghost st0 = st;
        let ghost s0 = st.rbuf@;
        let mut packets: Vec<S::Packet> = Vec::new();
        let mut bad = false;
        loop
            invariant_except_break
                st.wf(),
                !bad,
                st == (Stream { rbuf: st.rbuf, ..st0 }),
                packets@.map_values(|p: S::Packet| p@) + drain_packets::<S>(st.rbuf@)
                    == drain_packets::<S>(s0),
                drain_rest::<S>(st.rbuf@) == drain_rest::<S>(s0),
            ensures
                st.wf(),
                st == (Stream { rbuf: st.rbuf, ..st0 }),
                packets@.map_values(|p: S::Packet| p@) == drain_packets::<S>(s0),
                st.rbuf@ == drain_rest::<S>(s0),
                bad == (S::spec_framing(st.rbuf@) is Bad),
            decreases st.rbuf@.len(),
        {
            let ghost prev = st.rbuf@;
            match S::read_packet(&mut st.rbuf) {
                Ok(Some(p)) => {
                    proof {
                        S::lemma_frame_bounds(prev);
                    }
                    let ghost packets_pre = packets@;
                    packets.push(p);
                    proof {
                        assert(packets@ == packets_pre.push(p));
                        assert(packets@.map_values(|q: S::Packet| q@) =~= packets_pre.map_values(
                            |q: S::Packet| q@,
                        ).push(p@));
                        assert(drain_packets::<S>(prev) =~= seq![S::spec_parse(prev)]
                            + drain_packets::<S>(st.rbuf@));
                        assert(packets@.map_values(|q: S::Packet| q@) + drain_packets::<S>(
                            st.rbuf@,
                        ) =~= packets_pre.map_values(|q: S::Packet| q@) + drain_packets::<S>(
                            prev,
                        ));
                    }
                },
                Ok(None) => {
                    proof {
                        assert(drain_packets::<S>(st.rbuf@) =~= Seq::empty());
                        assert(packets@.map_values(|p: S::Packet| p@) =~= packets@.map_values(
                            |p: S::Packet| p@,
                        ) + Seq::empty());
                    }
                    break;
                },
                Err(_) => {
                    bad = true;
                    proof {
                        assert(drain_packets::<S>(st.rbuf@) =~= Seq::empty());
                        assert(packets@.map_values(|p: S::Packet| p@) =~= packets@.map_values(
                            |p: S::Packet| p@,
                        ) + Seq::empty());
                    }
                    break;
                },
            }
        }
        let mut action: Option<IoAction> = None;
        if bad {
            let close = st.shutdown(looper);
            if close {
                action = Some(IoAction::CloseTransport(token));
            }
        }
        self.streams.insert(idx, (tok, st));
        proof {
            assert(self.streams@ =~= pre.update(idx as int, (tok, st)));
            assert(forall|k: int|
                0 <= k < pre.len() && k != idx ==> self.streams@[k] == pre[k]);
            let ci = choose|i: int| 0 <= i < pre.len() && pre[i].0 == token;
            assert(ci == idx);
        }
        (packets, action)
    }

    /// Readiness dispatch for a listen endpoint: record the delivery,
    /// shut the endpoint down on error or hang-up, and otherwise adopt
    /// every connection the caller accepted as a fresh inbound stream.
    /// The returned tokens align with `accepted`.
    pub fn on_ready_listen(&mut self, looper: &mut Looper, token: Token, es: EventSet, accepted:
        &Vec<String>) -> (r: (bool, Vec<Token>))
        requires
            old(self).wf(),
            old(looper).wf(),
            old(self).keys_bounded(old(looper).token_counter, old(looper).timer_counter),
            old(looper).token_counter + accepted@.len() <= usize::MAX,
        ensures
            final(self).wf(),
            final(looper).wf(),
            final(self).keys_bounded(final(looper).token_counter, final(looper).timer_counter),
            final(self).connecting == old(self).connecting,
            final(self).handler == old(self).handler,
            final(self).name == old(self).name,
            (if !listen_keys(old(self).listens@, token) {
                &&& !r.0
                &&& final(self).streams == old(self).streams
                &&& final(self).listens == old(self).listens
                &&& *final(looper) == *old(looper)
            } else {
                let i = choose|i: int|
                    0 <= i < old(self).listens@.len() && old(self).listens@[i].0 == token;
                let ln = old(self).listens@[i].1;
                &&& r.0
                &&& final(self).listens@.len() == old(self).listens@.len()
                &&& (forall|k: int|
                    0 <= k < old(self).listens@.len() && k != i ==> final(self).listens@[k] == old(self).listens@[k])
                &&& (if es.error || es.hup {
                    &&& final(self).streams == old(self).streams
                    &&& r.1@.len() == 0
                    &&& (if ln.interest.spec_is_none() {
                        final(self).listens@[i].1 == (Listen { got: es, ..ln })
                            && *final(looper) == *old(looper)
                    } else {
                        final(self).listens@[i].1 == (Listen {
                            got: es,
                            interest: EventSet::spec_none(),
                            ..ln
                        }) && final(looper).pending@.contains(token)
                    })
                } else {
                    &&& final(self).listens@[i].1 == (Listen { got: es, ..ln })
                    &&& (if es.readable {
                        &&& r.1@.len() == accepted@.len()
                        &&& final(self).streams@.len() == old(self).streams@.len()
                            + accepted@.len()
                        &&& (forall|k: int|
                            0 <= k < old(self).streams@.len() ==> final(self).streams@[k] == old(self).streams@[k])
                        &&& (forall|k: int|
                            0 <= k < accepted@.len() ==> {
                                let st = (#[trigger] final(self).streams@[old(self).streams@.len() + k]).1;
                                &&& final(self).streams@[old(self).streams@.len() + k].0
                                    == r.1@[k]
                                &&& !st.is_client
                                &&& !st.reconnect
                                &&& st.connecting
                                &&& st.peer_addr@ == accepted@[k]@
                            })
                        &&& final(looper).eventers@.len() == old(looper).eventers@.len()
                            + accepted@.len()
                        &&& final(looper).pending == old(looper).pending
                        &&& final(looper).timers == old(looper).timers
                    } else {
                        final(self).streams == old(self).streams && r.1@.len() == 0
                            && *final(looper) == *old(looper)
                    })
                })
            }),
    {
        let idx: usize = match self.find_listen(token) {
            Some(i) => i,
            None => {
                return (false, Vec::new());
            },
        };
        let ghost lpre = self.listens@;
        let (tok, mut ln) = self.listens.remove(idx);
        ln.got = es;
        let mut new_tokens: Vec<Token> = Vec::new();
        if es.error || es.hup {
            let _ = ln.shutdown(looper);
        } else if es.readable {
            let na: usize = accepted.len();
            let mut k: usize = 0;
            while k < na
                invariant
                    k <= na,
                    na == accepted@.len(),
                    self.wf(),
                    looper.wf(),
                    self.keys_bounded(looper.token_counter, looper.timer_counter),
                    tok == token,
                    1 <= token.0 <= old(looper).token_counter,
                    ln.token == token,
                    looper.token_counter == old(looper).token_counter + k,
                    looper.token_counter + (na - k) <= usize::MAX,
                    self.listens@ == lpre.remove(idx as int),
                    self.connecting == old(self).connecting,
                    self.handler == old(self).handler,
                    self.name == old(self).name,
                    self.streams@.len() == old(self).streams@.len() + k,
                    forall|m: int|
                        0 <= m < old(self).streams@.len() ==> self.streams@[m] == old(self).streams@[m],
                    new_tokens@.len() == k,
                    forall|m: int|
                        0 <= m < k ==> (#[trigger] self.streams@[old(self).streams@.len() + m]).0.0
                            > old(looper).token_counter,
                    forall|m: int|
                        0 <= m < k ==> {
                            let st = (#[trigger] self.streams@[old(self).streams@.len() + m]).1;
                            &&& self.streams@[old(self).streams@.len() + m].0 == new_tokens@[m]
                            &&& !st.is_client
                            &&& !st.reconnect
                            &&& st.connecting
                            &&& st.peer_addr@ == accepted@[m]@
                        },
                    looper.eventers@.len() == old(looper).eventers@.len() + k,
                    looper.pending == old(looper).pending,
                    looper.timers == old(looper).timers,
                    looper.to_reg@.len() == old(looper).to_reg@.len() + k,
                    looper.timer_counter == old(looper).timer_counter,
                    looper.timer_to_reg == old(looper).timer_to_reg,
                    forall|m: int|
                        0 <= m < lpre.remove(idx as int).len() ==> 1 <= (#[trigger] lpre.remove(
                            idx as int,
                        )[m]).0.0 <= looper.token_counter,
                decreases na - k,
            {
                let t = looper.register();
                let peer = clone_string(&accepted[k]);
                let entry = Stream::new(t, false, false, peer);
                self.streams.push((t, entry));
                new_tokens.push(t);
                k += 1;
            }
        }
        self.listens.insert(idx, (tok, ln));
        proof {
            assert(self.listens@ =~= lpre.update(idx as int, (tok, ln)));
            assert(forall|k: int|
                0 <= k < lpre.len() && k != idx ==> self.listens@[k] == lpre[k]);
            let ci = choose|i: int| 0 <= i < lpre.len() && lpre[i].0 == token;
            assert(ci == idx);
            assert forall|a: int, b: int|
                0 <= a < self.streams@.len() && 0 <= b < self.listens@.len() implies (
            #[trigger] self.streams@[a]).0.0 != (#[trigger] self.listens@[b]).0.0 by {
                if a < old(self).streams@.len() {
                    assert(self.streams@[a] == old(self).streams@[a]);
                } else {
                    let m = a - old(self).streams@.len();
                    assert(self.streams@[old(self).streams@.len() + m].0.0 > old(looper).token_counter);
                    assert(self.listens@[b].0.0 <= old(looper).token_counter);
                }
            }
        }
        (true, new_tokens)
    }
}

impl<S: ServiceStreamer, H: ServiceHandler<Packet = S::Packet>> ServiceBody<S, H> {
    /// The re-register phase of one reactor tick: drain the queue of
    /// tokens whose interest changed. An endpoint whose interest emptied
    /// is deregistered from the poll and loses its handler entry — its
    /// token joins the returned close list, to be dispatched exactly once
    /// after the drain. An endpoint whose interest differs from what the
    /// poll last saw is re-registered, and its `registered` set then
    /// reflects exactly the value passed to the poll.
    pub fn loop_reregister(&mut self, looper: &mut Looper) -> (r: (Vec<IoAction>, Vec<Token>))
        requires
            old(self).wf(),
            old(looper).wf(),
        ensures
            final(self).wf(),
            final(looper).wf(),
            final(self).connecting == old(self).connecting,
            final(self).handler == old(self).handler,
            final(self).name == old(self).name,
            final(looper).pending@.len() == 0,
            final(looper).to_reg == old(looper).to_reg,
            final(looper).timers == old(looper).timers,
            final(looper).timer_to_reg == old(looper).timer_to_reg,
            final(looper).token_counter == old(looper).token_counter,
            final(looper).timer_counter == old(looper).timer_counter,
            crate::looper::tokens_unique(r.1@),
            (forall|t: Token| #[trigger]
                final(looper).eventers@.contains(t) <==> (old(looper).eventers@.contains(t)
                    && !r.1@.contains(t))),
            (forall|m: int|
                0 <= m < r.1@.len() ==> old(looper).pending@.contains(#[trigger] r.1@[m])
                    && !final(looper).eventers@.contains(r.1@[m])),
            final(self).streams@.len() == old(self).streams@.len(),
            final(self).listens@.len() == old(self).listens@.len(),
            (forall|k: int|
                0 <= k < old(self).streams@.len() ==> {
                    let o = (#[trigger] old(self).streams@[k]);
                    &&& final(self).streams@[k].0 == o.0
                    &&& (final(self).streams@[k].1 == o.1 || final(self).streams@[k].1 == (Stream {
                        registered: o.1.interest,
                        ..o.1
                    }))
                    &&& ((old(looper).pending@.contains(o.0) && !o.1.interest.spec_is_none())
                        ==> final(self).streams@[k].1.registered == o.1.interest)
                    &&& (!old(looper).pending@.contains(o.0) ==> final(self).streams@[k].1 == o.1)
                }),
            (forall|k: int|
                0 <= k < old(self).listens@.len() ==> {
                    let o = (#[trigger] old(self).listens@[k]);
                    &&& final(self).listens@[k].0 == o.0
                    &&& (final(self).listens@[k].1 == o.1 || final(self).listens@[k].1 == (Listen {
                        registered: o.1.interest,
                        ..o.1
                    }))
                    &&& ((old(looper).pending@.contains(o.0) && !o.1.interest.spec_is_none())
                        ==> final(self).listens@[k].1.registered == o.1.interest)
                    &&& (!old(looper).pending@.contains(o.0) ==> final(self).listens@[k].1 == o.1)
                }),
            (forall|k: int|
                0 <= k < old(self).streams@.len() ==> {
                    let o = (#[trigger] old(self).streams@[k]);
                    (old(looper).pending@.contains(o.0) && o.1.interest.spec_is_none() && old(looper).eventers@.contains(o.0)) ==> r.1@.contains(o.0)
                }),
            (forall|k: int|
                0 <= k < old(self).listens@.len() ==> {
                    let o = (#[trigger] old(self).listens@[k]);
                    (old(looper).pending@.contains(o.0) && o.1.interest.spec_is_none() && old(looper).eventers@.contains(o.0)) ==> r.1@.contains(o.0)
                }),
            (forall|t: Token|
                #![trigger old(looper).pending@.contains(t)]
                (old(looper).pending@.contains(t) && !stream_keys(old(self).streams@, t)
                    && !listen_keys(old(self).listens@, t) && old(looper).eventers@.contains(t))
                    ==> r.1@.contains(t)),
            r.0@ == reregister_actions(old(self).streams@, old(self).listens@, old(looper).pending@),
    {
        let pend: Vec<Token> = looper.take_pending();
        let ghost pendv = pend@;
        let mut actions: Vec<IoAction> = Vec::new();
        let mut closed: Vec<Token> = Vec::new();
        let np: usize = pend.len();
        let mut i: usize = 0;
        while i < np
            invariant
                i <= np,
                np == pendv.len(),
                pend@ == pendv,
                pendv == old(looper).pending@,
                crate::looper::tokens_sorted(pendv),
                self.wf(),
                looper.wf(),
                old(self).wf(),
                self.connecting == old(self).connecting,
                self.handler == old(self).handler,
                self.name == old(self).name,
                looper.pending@.len() == 0,
                looper.to_reg == old(looper).to_reg,
                looper.timers == old(looper).timers,
                looper.timer_to_reg == old(looper).timer_to_reg,
                looper.token_counter == old(looper).token_counter,
                looper.timer_counter == old(looper).timer_counter,
                forall|m1: int, m2: int|
                    0 <= m1 < m2 < closed@.len() ==> (#[trigger] closed@[m1]).0 < (
                    #[trigger] closed@[m2]).0,
                forall|m: int|
                    0 <= m < closed@.len() ==> exists|j: int|
                        0 <= j < i && pendv[j] == (#[trigger] closed@[m]),
                forall|m: int, j: int|
                    0 <= m < closed@.len() && i <= j < np ==> (#[trigger] closed@[m]).0 < (
                    #[trigger] pendv[j]).0,
                forall|t: Token| #[trigger]
                    looper.eventers@.contains(t) <==> (old(looper).eventers@.contains(t)
                        && !closed@.contains(t)),
                self.streams@.len() == old(self).streams@.len(),
                self.listens@.len() == old(self).listens@.len(),
                forall|k: int|
                    0 <= k < old(self).streams@.len() ==> {
                        let o = (#[trigger] old(self).streams@[k]);
                        &&& self.streams@[k].0 == o.0
                        &&& (self.streams@[k].1 == o.1 || self.streams@[k].1 == (Stream {
                            registered: o.1.interest,
                            ..o.1
                        }))
                        &&& ((pendv.take(i as int).contains(o.0)
                            && !o.1.interest.spec_is_none()) ==> self.streams@[k].1.registered
                            == o.1.interest)
                        &&& (!pendv.take(i as int).contains(o.0) ==> self.streams@[k].1 == o.1)
                    },
                forall|k: int|
                    0 <= k < old(self).listens@.len() ==> {
                        let o = (#[trigger] old(self).listens@[k]);
                        &&& self.listens@[k].0 == o.0
                        &&& (self.listens@[k].1 == o.1 || self.listens@[k].1 == (Listen {
                            registered: o.1.interest,
                            ..o.1
                        }))
                        &&& ((pendv.take(i as int).contains(o.0)
                            && !o.1.interest.spec_is_none()) ==> self.listens@[k].1.registered
                            == o.1.interest)
                        &&& (!pendv.take(i as int).contains(o.0) ==> self.listens@[k].1 == o.1)
                    },
                forall|k: int|
                    0 <= k < old(self).streams@.len() ==> {
                        let o = (#[trigger] old(self).streams@[k]);
                        (pendv.take(i as int).contains(o.0) && o.1.interest.spec_is_none() && old(looper).eventers@.contains(o.0)) ==> closed@.contains(o.0)
                    },
                forall|k: int|
                    0 <= k < old(self).listens@.len() ==> {
                        let o = (#[trigger] old(self).listens@[k]);
                        (pendv.take(i as int).contains(o.0) && o.1.interest.spec_is_none() && old(looper).eventers@.contains(o.0)) ==> closed@.contains(o.0)
                    },
                forall|t: Token|
                    #![trigger pendv.take(i as int).contains(t)]
                    (pendv.take(i as int).contains(t) && !stream_keys(old(self).streams@, t)
                        && !listen_keys(old(self).listens@, t) && old(looper).eventers@.contains(
                        t,
                    )) ==> closed@.contains(t),
                actions@ == reregister_actions(
                    old(self).streams@,
                    old(self).listens@,
                    pendv.take(i as int),
                ),
            decreases np - i,
        {
            let token: Token = pend[i];
            let ghost closed_pre = closed@;
            let ghost actions_pre = actions@;
            proof {
                if pendv.take(i as int).contains(token) {
                    let j = choose|j: int|
                        0 <= j < pendv.take(i as int).len() && (#[trigger] pendv.take(
                            i as int,
                        )[j]) == token;
                    assert(pendv[j] == token);
                    assert(pendv[j].0 < pendv[i as int].0);
                    assert(false);
                }
                if closed_pre.contains(token) {
                    let m = choose|m: int|
                        0 <= m < closed_pre.len() && closed_pre[m] == token;
                    assert(closed_pre[m].0 < pendv[i as int].0);
                    assert(false);
                }
            }
            if let Some(si) = self.find_stream(token) {
                let ghost spre = self.streams@;
                let (tok, mut st) = self.streams.remove(si);
                proof {
                    assert(old(self).streams@[si as int].0 == token);
                    assert(stream_keys(old(self).streams@, token));
                    let ci = choose|ci: int|
                        0 <= ci < old(self).streams@.len() && old(self).streams@[ci].0 == token;
                    assert(ci == si);
                    assert(st == old(self).streams@[si as int].1);
                    assert(stream_at(old(self).streams@, token) == st);
                }
                if st.interest.is_none() {
                    self.streams.insert(si, (tok, st));
                    proof {
                        assert(self.streams@ =~= spre);
                        assert(reregister_action_of(old(self).streams@, old(self).listens@, token)
                            =~= seq![IoAction::PollDeregister(token)]);
                    }
                    actions.push(IoAction::PollDeregister(token));
                    proof {
                        assert(actions@ =~= actions_pre + reregister_action_of(
                            old(self).streams@,
                            old(self).listens@,
                            token,
                        ));
                    }
                    let had = looper.remove_eventer(token);
                    if had {
                        closed.push(token);
                    }
                } else {
                    if !(st.registered == st.interest) {
                        proof {
                            assert(reregister_action_of(
                                old(self).streams@,
                                old(self).listens@,
                                token,
                            ) =~= seq![IoAction::PollReregister(token, st.interest)]);
                        }
                        actions.push(IoAction::PollReregister(token, st.interest));
                        proof {
                            assert(actions@ =~= actions_pre + reregister_action_of(
                                old(self).streams@,
                                old(self).listens@,
                                token,
                            ));
                        }
                        st.registered = st.interest;
                    } else {
                        proof {
                            assert(reregister_action_of(
                                old(self).streams@,
                                old(self).listens@,
                                token,
                            ) =~= Seq::<IoAction>::empty());
                            assert(actions@ =~= actions_pre + reregister_action_of(
                                old(self).streams@,
                                old(self).listens@,
                                token,
                            ));
                        }
                    }
                    self.streams.insert(si, (tok, st));
                    proof {
                        assert(self.streams@ =~= spre.update(si as int, (tok, st)));
                        assert(forall|k: int|
                            0 <= k < spre.len() && k != si ==> self.streams@[k] == spre[k]);
                    }
                }
            } else if let Some(li) = self.find_listen(token) {
                let ghost lpre = self.listens@;
                let (tok, mut ln) = self.listens.remove(li);
                proof {
                    if stream_keys(old(self).streams@, token) {
                        let k = choose|k: int|
                            0 <= k < old(self).streams@.len() && old(self).streams@[k].0 == token;
                        assert(self.streams@[k].0 == token);
                        assert(false);
                    }
                    assert(old(self).listens@[li as int].0 == token);
                    assert(listen_keys(old(self).listens@, token));
                    let ci = choose|ci: int|
                        0 <= ci < old(self).listens@.len() && old(self).listens@[ci].0 == token;
                    assert(ci == li);
                    assert(ln == old(self).listens@[li as int].1);
                    assert(listen_at(old(self).listens@, token) == ln);
                }
                if ln.interest.is_none() {
                    self.listens.insert(li, (tok, ln));
                    proof {
                        assert(self.listens@ =~= lpre);
                        assert(reregister_action_of(old(self).streams@, old(self).listens@, token)
                            =~= seq![IoAction::PollDeregister(token)]);
                    }
                    actions.push(IoAction::PollDeregister(token));
                    proof {
                        assert(actions@ =~= actions_pre + reregister_action_of(
                            old(self).streams@,
                            old(self).listens@,
                            token,
                        ));
                    }
                    let had = looper.remove_eventer(token);
                    if had {
                        closed.push(token);
                    }
                } else {
                    if !(ln.registered == ln.interest) {
                        proof {
                            assert(reregister_action_of(
                                old(self).streams@,
                                old(self).listens@,
                                token,
                            ) =~= seq![IoAction::PollReregister(token, ln.interest)]);
                        }
                        actions.push(IoAction::PollReregister(token, ln.interest));
                        proof {
                            assert(actions@ =~= actions_pre + reregister_action_of(
                                old(self).streams@,
                                old(self).listens@,
                                token,
                            ));
                        }
                        ln.registered = ln.interest;
                    } else {
                        proof {
                            assert(reregister_action_of(
                                old(self).streams@,
                                old(self).listens@,
                                token,
                            ) =~= Seq::<IoAction>::empty());
                            assert(actions@ =~= actions_pre + reregister_action_of(
                                old(self).streams@,
                                old(self).listens@,
                                token,
                            ));
                        }
                    }
                    self.listens.insert(li, (tok, ln));
                    proof {
                        assert(self.listens@ =~= lpre.update(li as int, (tok, ln)));
                        assert(forall|k: int|
                            0 <= k < lpre.len() && k != li ==> self.listens@[k] == lpre[k]);
                    }
                }
            } else {
                proof {
                    if stream_keys(old(self).streams@, token) {
                        let k = choose|k: int|
                            0 <= k < old(self).streams@.len() && old(self).streams@[k].0 == token;
                        assert(self.streams@[k].0 == token);
                        assert(false);
                    }
                    if listen_keys(old(self).listens@, token) {
                        let k = choose|k: int|
                            0 <= k < old(self).listens@.len() && old(self).listens@[k].0 == token;
                        assert(self.listens@[k].0 == token);
                        assert(false);
                    }
                    assert(reregister_action_of(old(self).streams@, old(self).listens@, token)
                        =~= Seq::<IoAction>::empty());
                    assert(actions@ =~= actions_pre + reregister_action_of(
                        old(self).streams@,
                        old(self).listens@,
                        token,
                    ));
                }
                let had = looper.remove_eventer(token);
                if had {
                    closed.push(token);
                }
            }
            proof {
                assert(pendv.take(i + 1) =~= pendv.take(i as int).push(token));
                lemma_reregister_actions_push(
                    old(self).streams@,
                    old(self).listens@,
                    pendv.take(i as int),
                    token,
                );
                assert(pendv.take(i + 1).drop_last() =~= pendv.take(i as int));
                assert(pendv.take(i + 1).last() == token);
                assert forall|t: Token| #[trigger]
                    pendv.take(i + 1).contains(t) implies (pendv.take(i as int).contains(t) || t
                    == token) by {
                    let j = choose|j: int|
                        0 <= j < pendv.take(i + 1).len() && (#[trigger] pendv.take(i + 1)[j]) == t;
                    if j < i {
                        assert(pendv.take(i as int)[j] == t);
                    }
                }
                assert(forall|t: Token|
                    pendv.take(i as int).contains(t) ==> #[trigger] pendv.take(i + 1).contains(
                        t,
                    ));
                assert(pendv.take(i + 1).contains(token));
                if closed@.len() > closed_pre.len() {
                    assert(closed@ == closed_pre.push(token));
                    assert forall|t: Token| #[trigger]
                        closed@.contains(t) implies (closed_pre.contains(t) || t == token) by {
                        let j = choose|j: int| 0 <= j < closed@.len() && closed@[j] == t;
                        if j < closed_pre.len() {
                            assert(closed_pre[j] == t);
                        }
                    }
                    assert forall|t: Token| closed_pre.contains(t) implies #[trigger] closed@.contains(
                        t,
                    ) by {
                        let j = choose|j: int| 0 <= j < closed_pre.len() && closed_pre[j] == t;
                        assert(closed@[j] == t);
                    }
                    assert(closed@.contains(token)) by {
                        assert(closed@.last() == token);
                    }
                } else {
                    assert(closed@ == closed_pre);
                }
            }
            i += 1;
        }
        proof {
            assert(pendv.take(np as int) =~= pendv);
        }
        (actions, closed)
    }

    /// The first-registration phase of one reactor tick: drain the queue
    /// of fresh tokens. Each one still backed by an endpoint is handed to
    /// the poll with its interest, which its `registered` set then
    /// reflects; a token whose endpoint is already gone is re-queued so
    /// the next re-register phase cleans it up.
    pub fn loop_register(&mut self, looper: &mut Looper) -> (r: Vec<IoAction>)
        requires
            old(self).wf(),
            old(looper).wf(),
        ensures
            final(self).wf(),
            final(looper).wf(),
            final(self).connecting == old(self).connecting,
            final(self).handler == old(self).handler,
            final(self).name == old(self).name,
            final(looper).to_reg@.len() == 0,
            final(looper).eventers == old(looper).eventers,
            final(looper).timers == old(looper).timers,
            final(looper).timer_to_reg == old(looper).timer_to_reg,
            final(looper).token_counter == old(looper).token_counter,
            final(looper).timer_counter == old(looper).timer_counter,
            final(self).streams@.len() == old(self).streams@.len(),
            final(self).listens@.len() == old(self).listens@.len(),
            (forall|k: int|
                0 <= k < old(self).streams@.len() ==> {
                    let o = (#[trigger] old(self).streams@[k]);
                    &&& final(self).streams@[k].0 == o.0
                    &&& (final(self).streams@[k].1 == o.1 || final(self).streams@[k].1 == (Stream {
                        registered: o.1.interest,
                        ..o.1
                    }))
                    &&& (old(looper).to_reg@.contains(o.0) ==> final(self).streams@[k].1.registered
                        == o.1.interest)
                }),
            (forall|k: int|
                0 <= k < old(self).listens@.len() ==> {
                    let o = (#[trigger] old(self).listens@[k]);
                    &&& final(self).listens@[k].0 == o.0
                    &&& (final(self).listens@[k].1 == o.1 || final(self).listens@[k].1 == (Listen {
                        registered: o.1.interest,
                        ..o.1
                    }))
                    &&& (old(looper).to_reg@.contains(o.0) ==> final(self).listens@[k].1.registered
                        == o.1.interest)
                }),
            r@ == register_actions(old(self).streams@, old(self).listens@, old(looper).to_reg@),
    {
        let reg: Vec<Token> = looper.take_to_reg();
        let ghost regv = reg@;
        let mut actions: Vec<IoAction> = Vec::new();
        let nr: usize = reg.len();
        let mut i: usize = 0;
        while i < nr
            invariant
                i <= nr,
                nr == regv.len(),
                reg@ == regv,
                regv == old(looper).to_reg@,
                self.wf(),
                looper.wf(),
                old(self).wf(),
                self.connecting == old(self).connecting,
                self.handler == old(self).handler,
                self.name == old(self).name,
                looper.to_reg@.len() == 0,
                looper.eventers == old(looper).eventers,
                looper.timers == old(looper).timers,
                looper.timer_to_reg == old(looper).timer_to_reg,
                looper.token_counter == old(looper).token_counter,
                looper.timer_counter == old(looper).timer_counter,
                self.streams@.len() == old(self).streams@.len(),
                self.listens@.len() == old(self).listens@.len(),
                forall|k: int|
                    0 <= k < old(self).streams@.len() ==> {
                        let o = (#[trigger] old(self).streams@[k]);
                        &&& self.streams@[k].0 == o.0
                        &&& (self.streams@[k].1 == o.1 || self.streams@[k].1 == (Stream {
                            registered: o.1.interest,
                            ..o.1
                        }))
                        &&& (regv.take(i as int).contains(o.0) ==> self.streams@[k].1.registered
                            == o.1.interest)
                    },
                forall|k: int|
                    0 <= k < old(self).listens@.len() ==> {
                        let o = (#[trigger] old(self).listens@[k]);
                        &&& self.listens@[k].0 == o.0
                        &&& (self.listens@[k].1 == o.1 || self.listens@[k].1 == (Listen {
                            registered: o.1.interest,
                            ..o.1
                        }))
                        &&& (regv.take(i as int).contains(o.0) ==> self.listens@[k].1.registered
                            == o.1.interest)
                    },
                actions@ == register_actions(
                    old(self).streams@,
                    old(self).listens@,
                    regv.take(i as int),
                ),
            decreases nr - i,
        {
            let token: Token = reg[i];
            let ghost actions_pre = actions@;
            if let Some(si) = self.find_stream(token) {
                let ghost spre = self.streams@;
                let (tok, mut st) = self.streams.remove(si);
                proof {
                    assert(old(self).streams@[si as int].0 == token);
                    assert(stream_keys(old(self).streams@, token));
                    let ci = choose|ci: int|
                        0 <= ci < old(self).streams@.len() && old(self).streams@[ci].0 == token;
                    assert(ci == si);
                    assert(stream_at(old(self).streams@, token).interest == st.interest);
                    assert(register_action_of(old(self).streams@, old(self).listens@, token) =~= seq![
                        IoAction::PollRegister(token, st.interest),
                    ]);
                }
                actions.push(IoAction::PollRegister(token, st.interest));
                st.registered = st.interest;
                self.streams.insert(si, (tok, st));
                proof {
                    assert(self.streams@ =~= spre.update(si as int, (tok, st)));
                    assert(forall|k: int|
                        0 <= k < spre.len() && k != si ==> self.streams@[k] == spre[k]);
                    assert(actions@ =~= actions_pre + register_action_of(
                        old(self).streams@,
                        old(self).listens@,
                        token,
                    ));
                }
            } else if let Some(li) = self.find_listen(token) {
                let ghost lpre = self.listens@;
                let (tok, mut ln) = self.listens.remove(li);
                proof {
                    if stream_keys(old(self).streams@, token) {
                        let k = choose|k: int|
                            0 <= k < old(self).streams@.len() && old(self).streams@[k].0 == token;
                        assert(self.streams@[k].0 == token);
                        assert(false);
                    }
                    assert(old(self).listens@[li as int].0 == token);
                    assert(listen_keys(old(self).listens@, token));
                    let ci = choose|ci: int|
                        0 <= ci < old(self).listens@.len() && old(self).listens@[ci].0 == token;
                    assert(ci == li);
                    assert(listen_at(old(self).listens@, token).interest == ln.interest);
                    assert(register_action_of(old(self).streams@, old(self).listens@, token) =~= seq![
                        IoAction::PollRegister(token, ln.interest),
                    ]);
                }
                actions.push(IoAction::PollRegister(token, ln.interest));
                ln.registered = ln.interest;
                self.listens.insert(li, (tok, ln));
                proof {
                    assert(self.listens@ =~= lpre.update(li as int, (tok, ln)));
                    assert(forall|k: int|
                        0 <= k < lpre.len() && k != li ==> self.listens@[k] == lpre[k]);
                    assert(actions@ =~= actions_pre + register_action_of(
                        old(self).streams@,
                        old(self).listens@,
                        token,
                    ));
                }
            } else {
                proof {
                    if stream_keys(old(self).streams@, token) {
                        let k = choose|k: int|
                            0 <= k < old(self).streams@.len() && old(self).streams@[k].0 == token;
                        assert(self.streams@[k].0 == token);
                        assert(false);
                    }
                    if listen_keys(old(self).listens@, token) {
                        let k = choose|k: int|
                            0 <= k < old(self).listens@.len() && old(self).listens@[k].0 == token;
                        assert(self.listens@[k].0 == token);
                        assert(false);
                    }
                    assert(register_action_of(old(self).streams@, old(self).listens@, token)
                        =~= Seq::<IoAction>::empty());
                    assert(actions@ =~= actions_pre + register_action_of(
                        old(self).streams@,
                        old(self).listens@,
                        token,
                    ));
                }
                looper.reregister(token);
            }
            proof {
                assert(regv.take(i + 1) =~= regv.take(i as int).push(token));
                lemma_register_actions_push(
                    old(self).streams@,
                    old(self).listens@,
                    regv.take(i as int),
                    token,
                );
            }
            proof {
                assert(regv.take(i + 1).drop_last() =~= regv.take(i as int));
                assert(regv.take(i + 1).last() == token);
                assert forall|t: Token| #[trigger]
                    regv.take(i + 1).contains(t) implies (regv.take(i as int).contains(t) || t
                    == token) by {
                    let j = choose|j: int|
                        0 <= j < regv.take(i + 1).len() && (#[trigger] regv.take(i + 1)[j]) == t;
                    if j < i {
                        assert(regv.take(i as int)[j] == t);
                    }
                }
                assert(forall|t: Token|
                    regv.take(i as int).contains(t) ==> #[trigger] regv.take(i + 1).contains(t));
                assert(regv.take(i + 1).contains(token));
            }
            i += 1;
        }
        proof {
            assert(regv.take(nr as int) =~= regv);
        }
        actions
    }

    /// The timer-arming phase of one reactor tick: drain the queue of
    /// fresh timers, asking the caller to arm each one that is still in
    /// the table with its recorded delay.
    pub fn loop_register_timer(&mut self, looper: &mut Looper) -> (r: Vec<IoAction>)
        requires
            old(looper).wf(),
        ensures
            final(looper).wf(),
            *final(self) == *old(self),
            final(looper).timer_to_reg@.len() == 0,
            final(looper).eventers == old(looper).eventers,
            final(looper).to_reg == old(looper).to_reg,
            final(looper).pending == old(looper).pending,
            final(looper).timers == old(looper).timers,
            final(looper).token_counter == old(looper).token_counter,
            final(looper).timer_counter == old(looper).timer_counter,
            (forall|m: int|
                0 <= m < r@.len() ==> (#[trigger] r@[m]) is ArmTimer && (r@[m]
                    matches IoAction::ArmTimer(t, d) ==> final(looper).timers@.contains((t, d)))),
            r@ == arm_actions(old(looper).timers@, old(looper).timer_to_reg@),
    {
        let tr: Vec<crate::events::TimerToken> = looper.take_timer_to_reg();
        let ghost trv = tr@;
        let mut actions: Vec<IoAction> = Vec::new();
        let nt: usize = tr.len();
        let mut i: usize = 0;
        while i < nt
            invariant
                i <= nt,
                nt == trv.len(),
                tr@ == trv,
                trv == old(looper).timer_to_reg@,
                *self == *old(self),
                looper.wf(),
                looper.timer_to_reg@.len() == 0,
                looper.eventers == old(looper).eventers,
                looper.to_reg == old(looper).to_reg,
                looper.pending == old(looper).pending,
                looper.timers == old(looper).timers,
                looper.token_counter == old(looper).token_counter,
                looper.timer_counter == old(looper).timer_counter,
                forall|m: int|
                    0 <= m < actions@.len() ==> (#[trigger] actions@[m]) is ArmTimer && (
                    actions@[m] matches IoAction::ArmTimer(t, d) ==> looper.timers@.contains(
                        (t, d),
                    )),
                actions@ == arm_actions(looper.timers@, trv.take(i as int)),
            decreases nt - i,
        {
            let tt = tr[i];
            let ghost actions_pre = actions@;
            match looper.timer_delay(tt) {
                Some(d) => {
                    proof {
                        let ci = choose|ci: int|
                            0 <= ci < looper.timers@.len() && looper.timers@[ci].0 == tt;
                        let j = choose|j: int|
                            0 <= j < looper.timers@.len() && looper.timers@[j] == (tt, d);
                        assert(looper.timers@[ci].1 == d);
                        assert(arm_action_of(looper.timers@, tt) =~= seq![
                            IoAction::ArmTimer(tt, d),
                        ]);
                    }
                    actions.push(IoAction::ArmTimer(tt, d));
                    proof {
                        assert(actions@ =~= actions_pre + arm_action_of(looper.timers@, tt));
                    }
                },
                None => {
                    proof {
                        assert(arm_action_of(looper.timers@, tt) =~= Seq::<IoAction>::empty());
                        assert(actions@ =~= actions_pre + arm_action_of(looper.timers@, tt));
                    }
                },
            }
            proof {
                assert(trv.take(i + 1) =~= trv.take(i as int).push(tt));
                lemma_arm_actions_push(looper.timers@, trv.take(i as int), tt);
            }
            i += 1;
        }
        proof {
            assert(trv.take(nt as int) =~= trv);
        }
        actions
    }
}

/// The re-registration work one drained token demands: deregister an
/// endpoint whose interest emptied, hand a changed interest to the poll,
/// and nothing for an unchanged or vanished endpoint.
pub open spec fn reregister_action_of(
    streams: Seq<(Token, Stream)>,
    listens: Seq<(Token, Listen)>,
    t: Token,
) -> Seq<IoAction> {
    if stream_keys(streams, t) {
        let st = stream_at(streams, t);
        if st.interest.spec_is_none() {
            seq![IoAction::PollDeregister(t)]
        } else if st.registered != st.interest {
            seq![IoAction::PollReregister(t, st.interest)]
        } else {
            Seq::empty()
        }
    } else if listen_keys(listens, t) {
        let ln = listen_at(listens, t);
        if ln.interest.spec_is_none() {
            seq![IoAction::PollDeregister(t)]
        } else if ln.registered != ln.interest {
            seq![IoAction::PollReregister(t, ln.interest)]
        } else {
            Seq::empty()
        }
    } else {
        Seq::empty()
    }
}

/// The re-registration work a drained queue demands, in order.
pub open spec fn reregister_actions(
    streams: Seq<(Token, Stream)>,
    listens: Seq<(Token, Listen)>,
    q: Seq<Token>,
) -> Seq<IoAction>
    decreases q.len(),
{
    if q.len() == 0 {
        Seq::empty()
    } else {
        reregister_action_of(streams, listens, q[0]) + reregister_actions(
            streams,
            listens,
            q.skip(1),
        )
    }
}

/// Unrolling [`reregister_actions`] from the back.
proof fn lemma_reregister_actions_push(
    streams: Seq<(Token, Stream)>,
    listens: Seq<(Token, Listen)>,
    q: Seq<Token>,
    t: Token,
)
    ensures
        reregister_actions(streams, listens, q.push(t)) =~= reregister_actions(streams, listens, q)
            + reregister_action_of(streams, listens, t),
    decreases q.len(),
{
    if q.len() == 0 {
        let qs = q.push(t);
        assert(qs.len() == 1);
        assert(qs[0] == t);
        assert(qs.skip(1) =~= Seq::<Token>::empty());
        assert(reregister_actions(streams, listens, qs) == reregister_action_of(
            streams,
            listens,
            qs[0],
        ) + reregister_actions(streams, listens, qs.skip(1)));
        assert(reregister_actions(streams, listens, Seq::<Token>::empty())
            == Seq::<IoAction>::empty());
        assert(reregister_actions(streams, listens, q) =~= Seq::<IoAction>::empty());
        assert(reregister_actions(streams, listens, qs) =~= reregister_action_of(
            streams,
            listens,
            t,
        ));
    } else {
        assert(q.push(t)[0] == q[0]);
        assert(q.push(t).skip(1) =~= q.skip(1).push(t));
        lemma_reregister_actions_push(streams, listens, q.skip(1), t);
        assert(reregister_actions(streams, listens, q.push(t)) =~= reregister_action_of(
            streams,
            listens,
            q[0],
        ) + reregister_actions(streams, listens, q.skip(1).push(t)));
    }
}

/// The first-registration work one drained token demands: hand its
/// endpoint's interest to the poll, or nothing when the endpoint is gone.
pub open spec fn register_action_of(
    streams: Seq<(Token, Stream)>,
    listens: Seq<(Token, Listen)>,
    t: Token,
) -> Seq<IoAction> {
    if stream_keys(streams, t) {
        seq![IoAction::PollRegister(t, stream_at(streams, t).interest)]
    } else if listen_keys(listens, t) {
        seq![IoAction::PollRegister(t, listen_at(listens, t).interest)]
    } else {
        Seq::empty()
    }
}

/// The first-registration work a drained queue demands, in order.
pub open spec fn register_actions(
    streams: Seq<(Token, Stream)>,
    listens: Seq<(Token, Listen)>,
    q: Seq<Token>,
) -> Seq<IoAction>
    decreases q.len(),
{
    if q.len() == 0 {
        Seq::empty()
    } else {
        register_action_of(streams, listens, q[0]) + register_actions(streams, listens, q.skip(1))
    }
}

/// Unrolling [`register_actions`] from the back.
proof fn lemma_register_actions_push(
    streams: Seq<(Token, Stream)>,
    listens: Seq<(Token, Listen)>,
    q: Seq<Token>,
    t: Token,
)
    ensures
        register_actions(streams, listens, q.push(t)) =~= register_actions(streams, listens, q)
            + register_action_of(streams, listens, t),
    decreases q.len(),
{
    if q.len() == 0 {
        let qs = q.push(t);
        assert(qs.len() == 1);
        assert(qs[0] == t);
        assert(qs.skip(1) =~= Seq::<Token>::empty());
        assert(register_actions(streams, listens, qs) == register_action_of(streams, listens, qs[0])
            + register_actions(streams, listens, qs.skip(1)));
        assert(register_actions(streams, listens, Seq::<Token>::empty())
            == Seq::<IoAction>::empty());
        assert(register_actions(streams, listens, q) =~= Seq::<IoAction>::empty());
        assert(register_actions(streams, listens, qs) =~= register_action_of(streams, listens, t));
    } else {
        assert(q.push(t)[0] == q[0]);
        assert(q.push(t).skip(1) =~= q.skip(1).push(t));
        lemma_register_actions_push(streams, listens, q.skip(1), t);
        assert(register_actions(streams, listens, q.push(t)) =~= register_action_of(
            streams,
            listens,
            q[0],
        ) + register_actions(streams, listens, q.skip(1).push(t)));
    }
}

/// The delay recorded for timer `t`; meaningful when the table holds it.
pub open spec fn timer_delay_of(timers: Seq<(TimerToken, u64)>, t: TimerToken) -> u64 {
    timers[choose|i: int| 0 <= i < timers.len() && timers[i].0 == t].1
}

/// The arming work one drained timer demands: its recorded delay, or
/// nothing when it was cancelled before the phase ran.
pub open spec fn arm_action_of(timers: Seq<(TimerToken, u64)>, t: TimerToken) -> Seq<IoAction> {
    if crate::looper::timer_keys(timers, t) {
        seq![IoAction::ArmTimer(t, timer_delay_of(timers, t))]
    } else {
        Seq::empty()
    }
}

/// The arming work a drained queue demands, in order.
pub open spec fn arm_actions(timers: Seq<(TimerToken, u64)>, q: Seq<TimerToken>) -> Seq<IoAction>
    decreases q.len(),
{
    if q.len() == 0 {
        Seq::empty()
    } else {
        arm_action_of(timers, q[0]) + arm_actions(timers, q.skip(1))
    }
}

/// Unrolling [`arm_actions`] from the back.
proof fn lemma_arm_actions_push(timers: Seq<(TimerToken, u64)>, q: Seq<TimerToken>, t: TimerToken)
    ensures
        arm_actions(timers, q.push(t)) =~= arm_actions(timers, q) + arm_action_of(timers, t),
    decreases q.len(),
{
    if q.len() == 0 {
        let qs = q.push(t);
        assert(qs.len() == 1);
        assert(qs[0] == t);
        assert(qs.skip(1) =~= Seq::<TimerToken>::empty());
        assert(arm_actions(timers, qs) == arm_action_of(timers, qs[0]) + arm_actions(
            timers,
            qs.skip(1),
        ));
        assert(arm_actions(timers, Seq::<TimerToken>::empty()) == Seq::<IoAction>::empty());
        assert(arm_actions(timers, q) =~= Seq::<IoAction>::empty());
        assert(arm_actions(timers, qs) =~= arm_action_of(timers, t));
    } else {
        assert(q.push(t)[0] == q[0]);
        assert(q.push(t).skip(1) =~= q.skip(1).push(t));
        lemma_arm_actions_push(timers, q.skip(1), t);
        assert(arm_actions(timers, q.push(t)) =~= arm_action_of(timers, q[0]) + arm_actions(
            timers,
            q.skip(1).push(t),
        ));
    }
}

/// An owned copy of a string, with its text unchanged.
pub fn clone_string(s: &String) -> (r: String)
    ensures
        r@ == s@,
{
    let r = s.clone();
    r
}

} // verus!
