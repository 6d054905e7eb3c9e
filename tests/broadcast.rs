use rsi_calculator::broadcast::Broadcaster;
use rsi_calculator::store::RsiResult;

fn result(v: i64) -> RsiResult<i64> {
    RsiResult {
        key: "k".to_string(),
        rsi_value: v,
        price: v * 10,
        timestamp: format!("t{}", v),
        period_used: 14,
    }
}

#[test]
fn subscribers_receive_in_publish_order() {
    let mut b: Broadcaster<i64> = Broadcaster::new(8);
    let s = b.subscribe().unwrap();
    for v in 1..=3 {
        b.publish(&result(v));
    }
    for v in 1..=3 {
        let r = b.recv(s).unwrap();
        assert_eq!(r.rsi_value, v);
        assert_eq!(r.price, v * 10);
        assert_eq!(r.timestamp, format!("t{}", v));
    }
    assert!(b.recv(s).is_none());
}

#[test]
fn full_queue_drops_oldest() {
    let mut b: Broadcaster<i64> = Broadcaster::new(2);
    let s = b.subscribe().unwrap();
    for v in 1..=5 {
        b.publish(&result(v));
    }
    assert_eq!(b.recv(s).unwrap().rsi_value, 4);
    assert_eq!(b.recv(s).unwrap().rsi_value, 5);
    assert!(b.recv(s).is_none());
}

#[test]
fn late_subscriber_sees_no_backlog() {
    let mut b: Broadcaster<i64> = Broadcaster::new(4);
    let early = b.subscribe().unwrap();
    b.publish(&result(1));
    let late = b.subscribe().unwrap();
    assert_ne!(early, late);
    b.publish(&result(2));
    assert_eq!(b.recv(late).unwrap().rsi_value, 2);
    assert!(b.recv(late).is_none());
    assert_eq!(b.recv(early).unwrap().rsi_value, 1);
    assert_eq!(b.recv(early).unwrap().rsi_value, 2);
}

#[test]
fn unsubscribing_leaves_others_alone() {
    let mut b: Broadcaster<i64> = Broadcaster::new(4);
    let a = b.subscribe().unwrap();
    let c = b.subscribe().unwrap();
    b.publish(&result(1));
    assert!(b.unsubscribe(a));
    assert!(!b.unsubscribe(a));
    assert!(b.recv(a).is_none());
    b.publish(&result(2));
    assert_eq!(b.recv(c).unwrap().rsi_value, 1);
    assert_eq!(b.recv(c).unwrap().rsi_value, 2);
}

#[test]
fn slow_subscriber_does_not_affect_fast_one() {
    let mut b: Broadcaster<i64> = Broadcaster::new(1);
    let slow = b.subscribe().unwrap();
    let fast = b.subscribe().unwrap();
    for v in 1..=3 {
        b.publish(&result(v));
        assert_eq!(b.recv(fast).unwrap().rsi_value, v);
    }
    assert_eq!(b.recv(slow).unwrap().rsi_value, 3);
}

#[test]
fn unknown_subscriber_gets_nothing() {
    let mut b: Broadcaster<i64> = Broadcaster::new(1);
    b.publish(&result(1));
    assert!(b.recv(99).is_none());
}
