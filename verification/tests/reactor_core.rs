//! The reactor bookkeeping on its own: token allocation, the ordered
//! re-registration queue, timers, and the byte ring's copy-out path.

use ds::buffer::Buffer;
use ds::events::Token;
use ds::looper::Looper;

#[test]
fn tokens_are_fresh_and_nonzero() {
    let mut looper = Looper::new();
    let a = looper.register();
    let b = looper.register();
    let c = looper.register();
    assert!(a.0 >= 1 && b.0 >= 1 && c.0 >= 1);
    assert!(a.0 != b.0 && b.0 != c.0 && a.0 != c.0);
    assert!(looper.contains_eventer(a) && looper.contains_eventer(c));
    assert!(looper.remove_eventer(b));
    assert!(!looper.contains_eventer(b));
    assert!(!looper.remove_eventer(b));
}

#[test]
fn reregister_queue_stays_sorted_and_unique() {
    let mut looper = Looper::new();
    let ts: Vec<Token> = (0..5).map(|_| looper.register()).collect();
    looper.reregister(ts[3]);
    looper.reregister(ts[1]);
    looper.reregister(ts[3]);
    looper.reregister(ts[4]);
    looper.reregister(ts[1]);
    let pend = looper.take_pending();
    let nums: Vec<usize> = pend.iter().map(|t| t.0).collect();
    assert_eq!(nums, vec![ts[1].0, ts[3].0, ts[4].0]);
    assert!(looper.take_pending().is_empty());
}

#[test]
fn timers_cancel_and_fire_once() {
    let mut looper = Looper::new();
    let t1 = looper.register_timer(5000);
    let t2 = looper.register_timer(100);
    assert_ne!(t1.0, t2.0);
    assert_eq!(looper.timer_delay(t1), Some(5000));
    assert!(looper.deregister_timer(t1));
    assert_eq!(looper.timer_delay(t1), None);
    assert_eq!(looper.take_timer(t2), Some(100));
    assert_eq!(looper.take_timer(t2), None);
    assert!(looper.is_empty() || looper.has_pending());
}

#[test]
fn buffer_read_into_takes_a_prefix() {
    let mut b = Buffer::with_capacity(4);
    b.write_bytes(&[10, 20, 30, 40, 50]);
    assert_eq!(b.read_into(2), vec![10, 20]);
    assert_eq!(b.data_slice(), &[30, 40, 50]);
    // asking for more than is buffered takes what there is
    assert_eq!(b.read_into(99), vec![30, 40, 50]);
    assert!(b.is_empty());
    assert_eq!(b.read_into(1), Vec::<u8>::new());
}
