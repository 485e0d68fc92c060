//! The reactor's bookkeeping: token allocation, the handler set, the
//! deferred registration and re-registration queues, and the timer table.
//!
//! The looper never touches a polling primitive itself. It decides, and
//! the caller performs: the drain phases (in the service layer) read these
//! queues and hand back poll actions for the event loop to apply.

use vstd::prelude::*;
use crate::events::{TimerToken, Token};

verus! {

/// True when `v` is strictly ordered by token number (so also duplicate
/// free).
pub open spec fn tokens_sorted(v: Seq<Token>) -> bool {
    forall|i: int, j: int| 0 <= i < j < v.len() ==> v[i].0 < v[j].0
}

/// True when no token number appears twice.
pub open spec fn tokens_unique(v: Seq<Token>) -> bool {
    forall|i: int, j: int| 0 <= i < j < v.len() ==> v[i].0 != v[j].0
}

/// True when no timer number appears twice.
pub open spec fn timers_unique(v: Seq<(TimerToken, u64)>) -> bool {
    forall|i: int, j: int| 0 <= i < j < v.len() ==> v[i].0.0 != v[j].0.0
}

/// The set of timer names in the table.
pub open spec fn timer_keys(v: Seq<(TimerToken, u64)>, t: TimerToken) -> bool {
    exists|i: int| 0 <= i < v.len() && v[i].0 == t
}

/// The reactor state: live handler tokens, queues of deferred work, and
/// pending timers.
pub struct Looper {
    /// Tokens with a live registered handler.
    pub eventers: Vec<Token>,
    /// Last token number handed out; fresh tokens continue from here.
    pub token_counter: usize,
    /// Tokens waiting for their first-time poll registration.
    pub to_reg: Vec<Token>,
    /// Tokens whose interest changed; drained at the next quiescent point.
    pub pending: Vec<Token>,
    /// Pending one-shot timers with their delays in milliseconds.
    pub timers: Vec<(TimerToken, u64)>,
    /// Last timer number handed out.
    pub timer_counter: usize,
    /// Timers waiting to be armed in the underlying facility.
    pub timer_to_reg: Vec<TimerToken>,
}

impl Looper {
    /// Internal consistency: every live or queued token was allocated
    /// here and is nonzero, the handler set holds no duplicates, and the
    /// re-registration queue is strictly ordered.
    pub open spec fn wf(&self) -> bool {
        &&& forall|i: int|
            0 <= i < self.eventers@.len() ==> 1 <= (#[trigger] self.eventers@[i]).0
                <= self.token_counter
        &&& tokens_unique(self.eventers@)
        &&& tokens_sorted(self.pending@)
        &&& forall|i: int|
            0 <= i < self.timers@.len() ==> 1 <= (#[trigger] self.timers@[i]).0.0
                <= self.timer_counter
        &&& timers_unique(self.timers@)
    }

    /// A reactor with nothing registered and no work queued.
    pub fn new() -> (r: Looper)
        ensures
            r.wf(),
            r.eventers@ == Seq::<Token>::empty(),
            r.token_counter == 0,
            r.to_reg@ == Seq::<Token>::empty(),
            r.pending@ == Seq::<Token>::empty(),
            r.timers@ == Seq::<(TimerToken, u64)>::empty(),
            r.timer_counter == 0,
            r.timer_to_reg@ == Seq::<TimerToken>::empty(),
    {
        Looper {
            eventers: Vec::new(),
            token_counter: 0,
            to_reg: Vec::new(),
            pending: Vec::new(),
            timers: Vec::new(),
            timer_counter: 0,
            timer_to_reg: Vec::new(),
        }
    }

    /// True once no handler and no timer remains: the loop may halt.
    pub fn is_empty(&self) -> (r: bool)
        ensures
            r == (self.eventers@.len() == 0 && self.timers@.len() == 0),
    {
        self.eventers.len() == 0 && self.timers.len() == 0
    }

    /// True while any queue still holds deferred work.
    pub fn has_pending(&self) -> (r: bool)
        ensures
            r == !(self.pending@.len() == 0 && self.to_reg@.len() == 0 && self.timer_to_reg@.len()
                == 0),
    {
        !(self.pending.len() == 0 && self.to_reg.len() == 0 && self.timer_to_reg.len() == 0)
    }

    /// Whether `token` still has a live handler entry.
    pub fn contains_eventer(&self, token: Token) -> (r: bool)
        ensures
            r == self.eventers@.contains(token),
    {
        let n: usize = self.eventers.len();
        let mut i: usize = 0;
        while i < n
            invariant
                i <= n,
                n == self.eventers@.len(),
                forall|j: int| 0 <= j < i ==> self.eventers@[j] != token,
            decreases n - i,
        {
            if self.eventers[i].0 == token.0 {
                proof {
                    assert(self.eventers@[i as int] == token);
                }
                return true;
            }
            i += 1;
        }
        false
    }

    /// Allocate a fresh token, store its handler entry, and queue it for
    /// first-time registration at the next quiescent point.
    pub fn register(&mut self) -> (token: Token)
        requires
            old(self).wf(),
            old(self).token_counter < usize::MAX,
        ensures
            final(self).wf(),
            token.0 == old(self).token_counter + 1,
            token.0 >= 1,
            !old(self).eventers@.contains(token),
            final(self).eventers@ == old(self).eventers@.push(token),
            final(self).to_reg@ == old(self).to_reg@.push(token),
            final(self).token_counter == old(self).token_counter + 1,
            final(self).pending == old(self).pending,
            final(self).timers == old(self).timers,
            final(self).timer_counter == old(self).timer_counter,
            final(self).timer_to_reg == old(self).timer_to_reg,
    {
        self.token_counter = self.token_counter + 1;
        let token = Token(self.token_counter);
        proof {
            assert(forall|i: int|
                0 <= i < self.eventers@.len() ==> (#[trigger] self.eventers@[i]).0 != token.0);
            if self.eventers@.contains(token) {
                let i = choose|i: int|
                    0 <= i < self.eventers@.len() && self.eventers@[i] == token;
                assert(false);
            }
        }
        self.eventers.push(token);
        self.to_reg.push(token);
        token
    }

    /// Queue `token` for re-registration, keeping the queue ordered and
    /// duplicate free. Queuing an already-queued token changes nothing.
    pub fn reregister(&mut self, token: Token)
        requires
            old(self).wf(),
        ensures
            final(self).wf(),
            final(self).pending@.contains(token),
            (forall|t: Token| #[trigger]
                final(self).pending@.contains(t) <==> (old(self).pending@.contains(t) || t
                    == token)),
            final(self).eventers == old(self).eventers,
            final(self).to_reg == old(self).to_reg,
            final(self).token_counter == old(self).token_counter,
            final(self).timers == old(self).timers,
            final(self).timer_counter == old(self).timer_counter,
            final(self).timer_to_reg == old(self).timer_to_reg,
    {
        let n: usize = self.pending.len();
        let mut i: usize = 0;
        while i < n
            invariant_except_break
                i <= n,
                *self == *old(self),
                old(self).wf(),
                n == self.pending@.len(),
                forall|j: int| 0 <= j < i ==> (#[trigger] self.pending@[j]).0 < token.0,
            ensures
                i <= n,
                *self == *old(self),
                old(self).wf(),
                n == self.pending@.len(),
                forall|j: int| 0 <= j < i ==> (#[trigger] self.pending@[j]).0 < token.0,
                i < n ==> self.pending@[i as int].0 > token.0,
            decreases n - i,
        {
            let t: Token = self.pending[i];
            if t.0 == token.0 {
                proof {
                    assert(self.pending@[i as int] == token);
                    assert(self.pending@.contains(token));
                }
                return;
            }
            if t.0 > token.0 {
                break;
            }
            i += 1;
        }
        let ghost pre = self.pending@;
        self.pending.insert(i, token);
        proof {
            assert(self.pending@ == pre.insert(i as int, token));
            assert(self.pending@.len() == pre.len() + 1);
            assert(forall|k: int| 0 <= k < i ==> self.pending@[k] == pre[k]);
            assert(self.pending@[i as int] == token);
            assert(forall|k: int|
                i < k < self.pending@.len() ==> self.pending@[k] == pre[k - 1]);
            assert forall|a: int, b: int| 0 <= a < b < self.pending@.len() implies self.pending@[
                a
            ].0 < self.pending@[b].0 by {
                if b < i {
                    assert(self.pending@[a] == pre[a] && self.pending@[b] == pre[b]);
                } else if a < i && b == i {
                    assert(self.pending@[a] == pre[a]);
                } else if a < i && b > i {
                    assert(self.pending@[a] == pre[a] && self.pending@[b] == pre[b - 1]);
                    if a < b - 1 {
                    } else {
                        assert(a == b - 1 && a < i && b > i);
                        assert(false);
                    }
                } else if a == i {
                    assert(self.pending@[b] == pre[b - 1]);
                    assert(b - 1 >= i);
                    assert(pre[b - 1].0 >= pre[i as int].0);
                } else {
                    assert(self.pending@[a] == pre[a - 1] && self.pending@[b] == pre[b - 1]);
                }
            }
            assert(self.pending@.contains(token)) by {
                assert(self.pending@[i as int] == token);
            }
            assert forall|t: Token| #[trigger]
                self.pending@.contains(t) <==> (pre.contains(t) || t == token) by {
                if self.pending@.contains(t) {
                    let k = choose|k: int|
                        0 <= k < self.pending@.len() && self.pending@[k] == t;
                    if k < i {
                        assert(pre[k] == t);
                    } else if k == i {
                    } else {
                        assert(pre[k - 1] == t);
                    }
                }
                if pre.contains(t) {
                    let k = choose|k: int| 0 <= k < pre.len() && pre[k] == t;
                    if k < i {
                        assert(self.pending@[k] == t);
                    } else {
                        assert(self.pending@[k + 1] == t);
                    }
                }
                if t == token {
                    assert(self.pending@[i as int] == t);
                }
            }
        }
    }

    /// Remove the handler entry of `token`, if it has one.
    pub fn remove_eventer(&mut self, token: Token) -> (had: bool)
        requires
            old(self).wf(),
        ensures
            final(self).wf(),
            had == old(self).eventers@.contains(token),
            !final(self).eventers@.contains(token),
            (forall|t: Token| #[trigger]
                final(self).eventers@.contains(t) <==> (old(self).eventers@.contains(t) && t
                    != token)),
            final(self).token_counter == old(self).token_counter,
            final(self).to_reg == old(self).to_reg,
            final(self).pending == old(self).pending,
            final(self).timers == old(self).timers,
            final(self).timer_counter == old(self).timer_counter,
            final(self).timer_to_reg == old(self).timer_to_reg,
    {
        let n: usize = self.eventers.len();
        let mut i: usize = 0;
        while i < n
            invariant
                i <= n,
                *self == *old(self),
                old(self).wf(),
                n == self.eventers@.len(),
                forall|j: int| 0 <= j < i ==> self.eventers@[j] != token,
            decreases n - i,
        {
            if self.eventers[i].0 == token.0 {
                proof {
                    assert(self.eventers@[i as int] == token);
                }
                let ghost pre = self.eventers@;
                self.eventers.remove(i);
                proof {
                    assert(self.eventers@ == pre.remove(i as int));
                    assert(self.eventers@.len() == pre.len() - 1);
                    assert(forall|k: int| 0 <= k < i ==> self.eventers@[k] == pre[k]);
                    assert(forall|k: int|
                        i <= k < self.eventers@.len() ==> self.eventers@[k] == pre[k + 1]);
                    assert forall|a: int, b: int|
                        0 <= a < b < self.eventers@.len() implies self.eventers@[a].0
                        != self.eventers@[b].0 by {
                        if b < i {
                        } else if a < i {
                            assert(self.eventers@[a] == pre[a] && self.eventers@[b] == pre[b + 1]);
                        } else {
                            assert(self.eventers@[a] == pre[a + 1] && self.eventers@[b] == pre[b
                                + 1]);
                        }
                    }
                    if self.eventers@.contains(token) {
                        let k = choose|k: int|
                            0 <= k < self.eventers@.len() && self.eventers@[k] == token;
                        if k < i {
                            assert(pre[k] == token);
                        } else {
                            assert(pre[k + 1] == token);
                            assert(pre[i as int] == token);
                        }
                        assert(false);
                    }
                    assert forall|t: Token| #[trigger]
                        self.eventers@.contains(t) <==> (pre.contains(t) && t != token) by {
                        if self.eventers@.contains(t) {
                            let k = choose|k: int|
                                0 <= k < self.eventers@.len() && self.eventers@[k] == t;
                            if k < i {
                                assert(pre[k] == t);
                            } else {
                                assert(pre[k + 1] == t);
                            }
                        }
                        if pre.contains(t) && t != token {
                            let k = choose|k: int| 0 <= k < pre.len() && pre[k] == t;
                            if k < i {
                                assert(self.eventers@[k] == t);
                            } else if k == i {
                                assert(false);
                            } else {
                                assert(self.eventers@[k - 1] == t);
                            }
                        }
                    }
                }
                return true;
            }
            i += 1;
        }
        proof {
            if self.eventers@.contains(token) {
                let k = choose|k: int|
                    0 <= k < self.eventers@.len() && self.eventers@[k] == token;
                assert(false);
            }
        }
        false
    }

    /// Allocate a fresh timer, store its delay, and queue it for arming.
    pub fn register_timer(&mut self, delay: u64) -> (tt: TimerToken)
        requires
            old(self).wf(),
            old(self).timer_counter < usize::MAX,
        ensures
            final(self).wf(),
            tt.0 == old(self).timer_counter + 1,
            !timer_keys(old(self).timers@, tt),
            final(self).timers@ == old(self).timers@.push((tt, delay)),
            final(self).timer_to_reg@ == old(self).timer_to_reg@.push(tt),
            final(self).timer_counter == old(self).timer_counter + 1,
            final(self).eventers == old(self).eventers,
            final(self).token_counter == old(self).token_counter,
            final(self).to_reg == old(self).to_reg,
            final(self).pending == old(self).pending,
    {
        self.timer_counter = self.timer_counter + 1;
        let tt = TimerToken(self.timer_counter);
        proof {
            if timer_keys(self.timers@, tt) {
                let i = choose|i: int| 0 <= i < self.timers@.len() && self.timers@[i].0 == tt;
                assert(false);
            }
        }
        self.timers.push((tt, delay));
        self.timer_to_reg.push(tt);
        tt
    }

    /// Best-effort cancellation: drop the timer's table entry, so a later
    /// firing finds nothing to dispatch.
    pub fn deregister_timer(&mut self, tt: TimerToken) -> (had: bool)
        requires
            old(self).wf(),
        ensures
            final(self).wf(),
            had == timer_keys(old(self).timers@, tt),
            !timer_keys(final(self).timers@, tt),
            (forall|k: TimerToken, d: u64|
                #![trigger final(self).timers@.contains((k, d))]
                final(self).timers@.contains((k, d)) <==> (old(self).timers@.contains((k, d)) && k
                    != tt)),
            final(self).eventers == old(self).eventers,
            final(self).token_counter == old(self).token_counter,
            final(self).to_reg == old(self).to_reg,
            final(self).pending == old(self).pending,
            final(self).timer_counter == old(self).timer_counter,
            final(self).timer_to_reg == old(self).timer_to_reg,
    {
        let n: usize = self.timers.len();
        let mut i: usize = 0;
        while i < n
            invariant
                i <= n,
                *self == *old(self),
                old(self).wf(),
                n == self.timers@.len(),
                forall|j: int| 0 <= j < i ==> (#[trigger] self.timers@[j]).0 != tt,
            decreases n - i,
        {
            if self.timers[i].0.0 == tt.0 {
                proof {
                    assert(self.timers@[i as int].0 == tt);
                }
                let ghost pre = self.timers@;
                self.timers.remove(i);
                proof {
                    assert(self.timers@ == pre.remove(i as int));
                    assert(self.timers@.len() == pre.len() - 1);
                    assert(forall|k: int| 0 <= k < i ==> self.timers@[k] == pre[k]);
                    assert(forall|k: int|
                        i <= k < self.timers@.len() ==> self.timers@[k] == pre[k + 1]);
                    assert forall|a: int, b: int|
                        0 <= a < b < self.timers@.len() implies self.timers@[a].0.0
                        != self.timers@[b].0.0 by {
                        if b < i {
                        } else if a < i {
                            assert(self.timers@[a] == pre[a] && self.timers@[b] == pre[b + 1]);
                        } else {
                            assert(self.timers@[a] == pre[a + 1] && self.timers@[b] == pre[b + 1]);
                        }
                    }
                    if timer_keys(self.timers@, tt) {
                        let k = choose|k: int|
                            0 <= k < self.timers@.len() && self.timers@[k].0 == tt;
                        if k < i {
                        } else {
                            assert(pre[k + 1].0 == tt);
                        }
                        assert(false);
                    }
                    assert forall|k: TimerToken, d: u64|
                        #![trigger self.timers@.contains((k, d))]
                        self.timers@.contains((k, d)) <==> (pre.contains((k, d)) && k != tt) by {
                        if self.timers@.contains((k, d)) {
                            let j = choose|j: int|
                                0 <= j < self.timers@.len() && self.timers@[j] == (k, d);
                            if j < i {
                                assert(pre[j] == (k, d));
                            } else {
                                assert(pre[j + 1] == (k, d));
                            }
                        }
                        if pre.contains((k, d)) && k != tt {
                            let j = choose|j: int| 0 <= j < pre.len() && pre[j] == (k, d);
                            if j < i {
                                assert(self.timers@[j] == (k, d));
                            } else if j == i {
                                assert(false);
                            } else {
                                assert(self.timers@[j - 1] == (k, d));
                            }
                        }
                    }
                }
                return true;
            }
            i += 1;
        }
        proof {
            if timer_keys(self.timers@, tt) {
                let k = choose|k: int| 0 <= k < self.timers@.len() && self.timers@[k].0 == tt;
                assert(false);
            }
            assert forall|k: TimerToken, d: u64|
                #![trigger self.timers@.contains((k, d))]
                self.timers@.contains((k, d)) <==> (self.timers@.contains((k, d)) && k != tt) by {
                if self.timers@.contains((k, d)) && k == tt {
                    let j = choose|j: int|
                        0 <= j < self.timers@.len() && self.timers@[j] == (k, d);
                    assert(self.timers@[j].0 == tt);
                    assert(false);
                }
            }
        }
        false
    }

    /// Remove and return the delay of timer `tt`, as the dispatch of a
    /// firing does.
    pub fn take_timer(&mut self, tt: TimerToken) -> (r: Option<u64>)
        requires
            old(self).wf(),
        ensures
            final(self).wf(),
            r is Some <==> timer_keys(old(self).timers@, tt),
            (r matches Some(d) ==> old(self).timers@.contains((tt, d))),
            !timer_keys(final(self).timers@, tt),
            (forall|k: TimerToken, d: u64|
                #![trigger final(self).timers@.contains((k, d))]
                final(self).timers@.contains((k, d)) <==> (old(self).timers@.contains((k, d)) && k
                    != tt)),
            final(self).eventers == old(self).eventers,
            final(self).token_counter == old(self).token_counter,
            final(self).to_reg == old(self).to_reg,
            final(self).pending == old(self).pending,
            final(self).timer_counter == old(self).timer_counter,
            final(self).timer_to_reg == old(self).timer_to_reg,
    {
        let n: usize = self.timers.len();
        let mut i: usize = 0;
        while i < n
            invariant
                i <= n,
                *self == *old(self),
                old(self).wf(),
                n == self.timers@.len(),
                forall|j: int| 0 <= j < i ==> (#[trigger] self.timers@[j]).0 != tt,
            decreases n - i,
        {
            if self.timers[i].0.0 == tt.0 {
                proof {
                    assert(self.timers@[i as int].0 == tt);
                }
                let ghost pre = self.timers@;
                let entry: (TimerToken, u64) = self.timers.remove(i);
                proof {
                    assert(self.timers@ == pre.remove(i as int));
                    assert(self.timers@.len() == pre.len() - 1);
                    assert(forall|k: int| 0 <= k < i ==> self.timers@[k] == pre[k]);
                    assert(forall|k: int|
                        i <= k < self.timers@.len() ==> self.timers@[k] == pre[k + 1]);
                    assert forall|a: int, b: int|
                        0 <= a < b < self.timers@.len() implies self.timers@[a].0.0
                        != self.timers@[b].0.0 by {
                        if b < i {
                        } else if a < i {
                            assert(self.timers@[a] == pre[a] && self.timers@[b] == pre[b + 1]);
                        } else {
                            assert(self.timers@[a] == pre[a + 1] && self.timers@[b] == pre[b + 1]);
                        }
                    }
                    if timer_keys(self.timers@, tt) {
                        let k = choose|k: int|
                            0 <= k < self.timers@.len() && self.timers@[k].0 == tt;
                        if k < i {
                            assert(pre[k].0 == tt);
                        } else {
                            assert(pre[k + 1].0 == tt);
                            assert(pre[i as int].0 == tt);
                        }
                        assert(false);
                    }
                    assert(pre.contains((tt, entry.1))) by {
                        assert(pre[i as int] == (tt, entry.1));
                    }
                    assert forall|k: TimerToken, d: u64|
                        #![trigger self.timers@.contains((k, d))]
                        self.timers@.contains((k, d)) <==> (pre.contains((k, d)) && k != tt) by {
                        if self.timers@.contains((k, d)) {
                            let j = choose|j: int|
                                0 <= j < self.timers@.len() && self.timers@[j] == (k, d);
                            if j < i {
                                assert(pre[j] == (k, d));
                            } else {
                                assert(pre[j + 1] == (k, d));
                            }
                        }
                        if pre.contains((k, d)) && k != tt {
                            let j = choose|j: int| 0 <= j < pre.len() && pre[j] == (k, d);
                            if j < i {
                                assert(self.timers@[j] == (k, d));
                            } else if j == i {
                                assert(false);
                            } else {
                                assert(self.timers@[j - 1] == (k, d));
                            }
                        }
                    }
                }
                return Some(entry.1);
            }
            i += 1;
        }
        proof {
            if timer_keys(self.timers@, tt) {
                let k = choose|k: int| 0 <= k < self.timers@.len() && self.timers@[k].0 == tt;
                assert(false);
            }
            assert forall|k: TimerToken, d: u64|
                #![trigger self.timers@.contains((k, d))]
                self.timers@.contains((k, d)) <==> (self.timers@.contains((k, d)) && k != tt) by {
                if self.timers@.contains((k, d)) && k == tt {
                    let j = choose|j: int|
                        0 <= j < self.timers@.len() && self.timers@[j] == (k, d);
                    assert(self.timers@[j].0 == tt);
                    assert(false);
                }
            }
        }
        None
    }

    /// Hand over the re-registration queue, leaving it empty.
    pub fn take_pending(&mut self) -> (r: Vec<Token>)
        requires
            old(self).wf(),
        ensures
            final(self).wf(),
            r@ == old(self).pending@,
            tokens_sorted(r@),
            final(self).pending@ == Seq::<Token>::empty(),
            final(self).eventers == old(self).eventers,
            final(self).token_counter == old(self).token_counter,
            final(self).to_reg == old(self).to_reg,
            final(self).timers == old(self).timers,
            final(self).timer_counter == old(self).timer_counter,
            final(self).timer_to_reg == old(self).timer_to_reg,
    {
        let mut out: Vec<Token> = Vec::new();
        core::mem::swap(&mut out, &mut self.pending);
        out
    }

    /// Hand over the first-registration queue, leaving it empty.
    pub fn take_to_reg(&mut self) -> (r: Vec<Token>)
        requires
            old(self).wf(),
        ensures
            final(self).wf(),
            r@ == old(self).to_reg@,
            final(self).to_reg@ == Seq::<Token>::empty(),
            final(self).eventers == old(self).eventers,
            final(self).token_counter == old(self).token_counter,
            final(self).pending == old(self).pending,
            final(self).timers == old(self).timers,
            final(self).timer_counter == old(self).timer_counter,
            final(self).timer_to_reg == old(self).timer_to_reg,
    {
        let mut out: Vec<Token> = Vec::new();
        core::mem::swap(&mut out, &mut self.to_reg);
        out
    }

    /// Hand over the timer-arming queue, leaving it empty.
    pub fn take_timer_to_reg(&mut self) -> (r: Vec<TimerToken>)
        requires
            old(self).wf(),
        ensures
            final(self).wf(),
            r@ == old(self).timer_to_reg@,
            final(self).timer_to_reg@ == Seq::<TimerToken>::empty(),
            final(self).eventers == old(self).eventers,
            final(self).token_counter == old(self).token_counter,
            final(self).to_reg == old(self).to_reg,
            final(self).pending == old(self).pending,
            final(self).timers == old(self).timers,
            final(self).timer_counter == old(self).timer_counter,
    {
        let mut out: Vec<TimerToken> = Vec::new();
        core::mem::swap(&mut out, &mut self.timer_to_reg);
        out
    }

    /// Look up the delay of a queued timer.
    pub fn timer_delay(&self, tt: TimerToken) -> (r: Option<u64>)
        ensures
            r is Some <==> timer_keys(self.timers@, tt),
            (r matches Some(d) ==> self.timers@.contains((tt, d))),
    {
        let n: usize = self.timers.len();
        let mut i: usize = 0;
        while i < n
            invariant
                i <= n,
                n == self.timers@.len(),
                forall|j: int| 0 <= j < i ==> (#[trigger] self.timers@[j]).0 != tt,
            decreases n - i,
        {
            if self.timers[i].0.0 == tt.0 {
                proof {
                    assert(self.timers@[i as int].0 == tt);
                    assert(self.timers@.contains((tt, self.timers@[i as int].1)));
                }
                return Some(self.timers[i].1);
            }
            i += 1;
        }
        proof {
            if timer_keys(self.timers@, tt) {
                let k = choose|k: int| 0 <= k < self.timers@.len() && self.timers@[k].0 == tt;
                assert(false);
            }
        }
        None
    }
}

} // verus!
