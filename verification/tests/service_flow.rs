//! End-to-end scenarios driven against the verified state machines: the
//! echo round trip over a loopback pair, reconnect scheduling after peer
//! loss, and shutdown suppressing the reconnect.

use std::cell::Cell;

use ds::config::ServiceConfig;
use ds::events::{EventSet, ReadOutcome, Token, WriteOutcome};
use ds::looper::Looper;
use ds::pw::{Packet as PwPacket, ProtocolFrom1, PwStreamer};
use ds::service::{IoAction, ServiceBody, ServiceHandler};

#[derive(Default)]
struct Stat {
    conn: Cell<i32>,
    disc: Cell<i32>,
    send: Cell<i32>,
    recv: Cell<i32>,
}

impl ServiceHandler for Stat {
    type Packet = ProtocolFrom1;

    fn connected(&self, _token: Token) {
        self.conn.set(self.conn.get() + 1);
    }

    fn disconnected(&self, _token: Token) {
        self.disc.set(self.disc.get() + 1);
    }

    fn incoming(&self, _token: Token, packet: ProtocolFrom1) {
        let ProtocolFrom1::Proto1(p) = packet;
        assert_eq!(p.x, 1);
        self.recv.set(self.recv.get() + 1);
    }

    fn outgoing(&self, _token: Token, _packet: &ProtocolFrom1) {
        self.send.set(self.send.get() + 1);
    }
}

fn writable() -> EventSet {
    EventSet { readable: false, writable: true, error: false, hup: false }
}

fn readable() -> EventSet {
    EventSet { readable: true, writable: false, error: false, hup: false }
}

fn hup() -> EventSet {
    EventSet { readable: false, writable: false, error: false, hup: true }
}

type Svc = ServiceBody<PwStreamer, Stat>;

fn write_pw(svc: &mut Svc, looper: &mut Looper, token: Token, y: i32, fill: u8) {
    let p = ProtocolFrom1::Proto1(PwPacket { x: 1, y, zzz: vec![fill; 256] });
    let act = svc.write(looper, token, &p);
    assert!(matches!(act, Some(IoAction::Flush(t)) if t == token));
}

/// Move every pending output byte of `src` into the receive buffer of
/// `dst`, as a loopback transport would.
fn transfer(svc: &mut Svc, looper: &mut Looper, src: Token, dst: Token) -> bool {
    let si = match svc.find_stream(src) {
        Some(i) => i,
        None => return false,
    };
    let bytes = svc.streams[si].1.pending_output().to_vec();
    if bytes.is_empty() {
        return false;
    }
    let n = bytes.len();
    svc.streams[si].1.flush_done(looper, WriteOutcome::Wrote(n));
    let di = match svc.find_stream(dst) {
        Some(i) => i,
        None => return false,
    };
    svc.streams[di].1.read_done(looper, &ReadOutcome::Data(bytes));
    true
}

/// Decode everything buffered on `token` and run the echo rule: count the
/// packet, answer `y + 1` until 10, then ask for shutdown.
fn deliver(svc: &mut Svc, looper: &mut Looper, token: Token) {
    let (packets, bad) = svc.on_readable(looper, token);
    assert!(bad.is_none());
    for packet in packets {
        let y = match &packet {
            ProtocolFrom1::Proto1(p) => p.y,
        };
        svc.handler.incoming(token, packet);
        if y < 10 {
            write_pw(svc, looper, token, y + 1, 0x22);
        } else {
            svc.shutdown(looper, token);
        }
    }
}

/// Run the reactor's quiescent-point phases, dispatching closes; on the
/// first disconnect the handler asks the whole service to exit, as the
/// echo application does.
fn drain(svc: &mut Svc, looper: &mut Looper) {
    while looper.has_pending() {
        let (_acts, closed) = svc.loop_reregister(looper);
        for t in closed {
            let (disc, arm) = svc.on_close(looper, t);
            assert!(arm.is_none());
            if disc {
                svc.handler.disconnected(t);
                svc.exit(looper);
            }
        }
        let _ = svc.loop_register(looper);
        let _ = svc.loop_register_timer(looper);
    }
}

#[test]
fn echo_roundtrip_counts() {
    let mut looper = Looper::new();
    let mut svc: Svc = ServiceBody::new(Stat::default());
    let conf = ServiceConfig {
        name: "service_pw".to_string(),
        listen: vec!["0.0.0.0:44944".to_string()],
        connect: vec!["127.0.0.1:44944".to_string()],
    };
    let actions = svc.start(&mut looper, conf);
    let mut ltoken = None;
    let mut ctoken = None;
    for a in &actions {
        match a {
            IoAction::Bind(t, addr) => {
                assert_eq!(addr, "0.0.0.0:44944");
                ltoken = Some(*t);
            },
            IoAction::Connect(t, addr) => {
                assert_eq!(addr, "127.0.0.1:44944");
                ctoken = Some(*t);
            },
            _ => {},
        }
    }
    let (ltoken, ctoken) = (ltoken.unwrap(), ctoken.unwrap());
    let _ = svc.loop_register(&mut looper);

    // the listener accepts the loopback connection
    let (found, toks) = svc.on_ready_listen(
        &mut looper,
        ltoken,
        readable(),
        &vec!["127.0.0.1:50000".to_string()],
    );
    assert!(found);
    let atoken = toks[0];
    let _ = svc.loop_register(&mut looper);

    // both ends see their first writable edge: two connections observed
    for t in [ctoken, atoken] {
        let r = svc.on_ready_stream(&mut looper, t, writable());
        assert!(r.found);
        assert!(r.connected);
        svc.handler.connected(t);
    }
    assert_eq!(svc.handler.conn.get(), 2);

    // the client side opens the exchange
    write_pw(&mut svc, &mut looper, ctoken, 1, 0x21);

    let mut rounds = 0;
    loop {
        rounds += 1;
        assert!(rounds < 100, "the echo exchange must terminate");
        let mut moved = false;
        if transfer(&mut svc, &mut looper, ctoken, atoken) {
            moved = true;
            deliver(&mut svc, &mut looper, atoken);
        }
        if transfer(&mut svc, &mut looper, atoken, ctoken) {
            moved = true;
            deliver(&mut svc, &mut looper, ctoken);
        }
        // a closed peer reads as end-of-file on the surviving side
        if svc.find_stream(ctoken).is_none() {
            if let Some(di) = svc.find_stream(atoken) {
                svc.streams[di].1.read_done(&mut looper, &ReadOutcome::Closed);
            }
        }
        if svc.find_stream(atoken).is_none() {
            if let Some(di) = svc.find_stream(ctoken) {
                svc.streams[di].1.read_done(&mut looper, &ReadOutcome::Closed);
            }
        }
        drain(&mut svc, &mut looper);
        if looper.is_empty() {
            break;
        }
        if !moved && !looper.has_pending() && svc.streams_count() == 0 {
            break;
        }
    }

    assert_eq!(svc.handler.conn.get(), 2);
    assert_eq!(svc.handler.disc.get(), 2);
    assert_eq!(svc.handler.send.get(), 10);
    assert_eq!(svc.handler.recv.get(), 10);
    assert!(looper.is_empty());
}

#[test]
fn reconnect_after_peer_loss() {
    let mut looper = Looper::new();
    let mut svc: Svc = ServiceBody::new(Stat::default());
    let actions = svc.start(&mut looper, ServiceConfig::client("svc", "127.0.0.1:44945"));
    let token = match &actions[0] {
        IoAction::Connect(t, _) => *t,
        _ => panic!("expected a connect"),
    };
    let _ = svc.loop_register(&mut looper);

    // nobody listens there: the connect attempt dies with a hang-up
    let r = svc.on_ready_stream(&mut looper, token, hup());
    assert!(r.found && r.close_transport);
    let (_acts, closed) = svc.loop_reregister(&mut looper);
    assert_eq!(closed.len(), 1);
    let mut timer = None;
    for t in closed {
        let (disc, arm) = svc.on_close(&mut looper, t);
        assert!(disc);
        svc.handler.disconnected(t);
        match arm {
            Some(IoAction::ArmTimer(tt, delay)) => {
                assert_eq!(delay, 5000);
                assert!(timer.is_none(), "exactly one reconnect timer");
                timer = Some(tt);
            },
            _ => panic!("a reconnecting client stream arms a timer"),
        }
    }
    let tt = timer.unwrap();
    let arm_actions = svc.loop_register_timer(&mut looper);
    assert_eq!(arm_actions.len(), 1);

    // the timer fires: exactly one fresh connect attempt to the same peer
    assert!(looper.take_timer(tt).is_some());
    let act = svc.on_timer(&mut looper, tt);
    let t2 = match &act {
        Some(IoAction::Connect(t, addr)) => {
            assert_eq!(addr, "127.0.0.1:44945");
            *t
        },
        _ => panic!("the expiry redials the lost peer"),
    };
    let _ = svc.loop_register(&mut looper);

    // a listener appeared: the stream connects, and connected fires once
    let r = svc.on_ready_stream(&mut looper, t2, writable());
    assert!(r.found && r.connected);
    svc.handler.connected(t2);
    assert_eq!(svc.handler.conn.get(), 1);
    // firing the same timer again is a no-op
    assert!(svc.on_timer(&mut looper, tt).is_none());
}

#[test]
fn shutdown_suppresses_reconnect() {
    let mut looper = Looper::new();
    let mut svc: Svc = ServiceBody::new(Stat::default());
    let actions = svc.start(&mut looper, ServiceConfig::client("svc", "127.0.0.1:44946"));
    let token = match &actions[0] {
        IoAction::Connect(t, _) => *t,
        _ => panic!("expected a connect"),
    };
    let _ = svc.loop_register(&mut looper);
    let r = svc.on_ready_stream(&mut looper, token, writable());
    assert!(r.connected);
    svc.handler.connected(token);

    // the handler closes the stream for good
    let act = svc.shutdown(&mut looper, token);
    assert!(matches!(act, Some(IoAction::CloseTransport(t)) if t == token));
    let (acts, closed) = svc.loop_reregister(&mut looper);
    assert!(acts.iter().any(|a| matches!(a, IoAction::PollDeregister(t) if *t == token)));
    assert_eq!(closed, vec![token]);
    for t in closed {
        let (disc, arm) = svc.on_close(&mut looper, t);
        assert!(disc);
        assert!(arm.is_none(), "shutdown cleared the reconnect flag");
        svc.handler.disconnected(t);
    }
    assert_eq!(svc.handler.conn.get(), 1);
    assert_eq!(svc.handler.disc.get(), 1);
    assert_eq!(svc.streams_count(), 0);
    assert!(looper.is_empty());
}

#[test]
fn registered_reflects_interest_after_phases() {
    let mut looper = Looper::new();
    let mut svc: Svc = ServiceBody::new(Stat::default());
    let actions = svc.start(&mut looper, ServiceConfig::server("svc", "0.0.0.0:44947"));
    let ltoken = match &actions[0] {
        IoAction::Bind(t, _) => *t,
        _ => panic!("expected a bind"),
    };
    let reg = svc.loop_register(&mut looper);
    assert!(matches!(&reg[0], IoAction::PollRegister(t, es)
        if *t == ltoken && es.readable && es.writable));
    let li = svc.find_listen(ltoken).unwrap();
    assert_eq!(svc.listens[li].1.registered, svc.listens[li].1.interest);
}

#[test]
fn broadcast_reaches_every_stream_in_order() {
    let mut looper = Looper::new();
    let mut svc: Svc = ServiceBody::new(Stat::default());
    let conf = ServiceConfig {
        name: "svc".to_string(),
        listen: Vec::new(),
        connect: vec!["10.0.0.1:1".to_string(), "10.0.0.2:2".to_string()],
    };
    let actions = svc.start(&mut looper, conf);
    let tokens: Vec<Token> = actions
        .iter()
        .map(|a| match a {
            IoAction::Connect(t, _) => *t,
            _ => panic!("expected connects"),
        })
        .collect();
    let _ = svc.loop_register(&mut looper);
    let p = ProtocolFrom1::Proto1(PwPacket { x: 1, y: 5, zzz: vec![9; 3] });
    let acts = svc.broadcast(&mut looper, &p);
    assert_eq!(svc.handler.send.get(), 2);
    assert_eq!(acts.len(), 2);
    for (a, t) in acts.iter().zip(&tokens) {
        assert!(matches!(a, IoAction::Flush(x) if x == t));
    }
    // both send buffers hold the same frame
    let i0 = svc.find_stream(tokens[0]).unwrap();
    let i1 = svc.find_stream(tokens[1]).unwrap();
    let f0 = svc.streams[i0].1.pending_output().to_vec();
    let f1 = svc.streams[i1].1.pending_output().to_vec();
    assert!(!f0.is_empty());
    assert_eq!(f0, f1);
}

#[test]
fn partial_flush_clears_the_writable_edge() {
    let mut looper = Looper::new();
    let mut svc: Svc = ServiceBody::new(Stat::default());
    let actions = svc.start(&mut looper, ServiceConfig::client("svc", "10.0.0.1:1"));
    let token = match &actions[0] {
        IoAction::Connect(t, _) => *t,
        _ => panic!("expected a connect"),
    };
    let _ = svc.loop_register(&mut looper);
    let r = svc.on_ready_stream(&mut looper, token, writable());
    assert!(r.connected && r.flush);
    write_pw(&mut svc, &mut looper, token, 1, 0x21);
    let idx = svc.find_stream(token).unwrap();
    let total = svc.streams[idx].1.pending_len();
    assert!(total > 0);
    // the transport takes only a prefix: the cached writable edge clears
    svc.streams[idx].1.flush_done(&mut looper, WriteOutcome::Wrote(3));
    assert_eq!(svc.streams[idx].1.pending_len(), total - 3);
    assert!(!svc.streams[idx].1.got.writable);
    // a would-block on reads clears the readable edge the same way
    let r = svc.on_ready_stream(&mut looper, token, readable());
    assert!(r.read);
    assert!(svc.streams[idx].1.got.readable);
    svc.streams[idx].1.read_done(&mut looper, &ReadOutcome::WouldBlock);
    assert!(!svc.streams[idx].1.got.readable);
    // draining the rest leaves the cached set alone
    let rest = svc.streams[idx].1.pending_len();
    svc.streams[idx].1.flush_done(&mut looper, WriteOutcome::Wrote(rest));
    assert_eq!(svc.streams[idx].1.pending_len(), 0);
}

#[test]
fn stream_shutdown_is_idempotent() {
    let mut looper = Looper::new();
    let mut svc: Svc = ServiceBody::new(Stat::default());
    let actions = svc.start(&mut looper, ServiceConfig::client("svc", "10.0.0.1:1"));
    let token = match &actions[0] {
        IoAction::Connect(t, _) => *t,
        _ => panic!("expected a connect"),
    };
    let first = svc.shutdown(&mut looper, token);
    assert!(first.is_some());
    let second = svc.shutdown(&mut looper, token);
    assert!(second.is_none(), "a second shutdown does nothing");
    // and the close queue holds the token exactly once
    let pend = looper.take_pending();
    assert_eq!(pend, vec![token]);
}
