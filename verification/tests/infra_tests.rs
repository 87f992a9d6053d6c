use replicated_kv::bytestr::{bytes_eq, bytes_lt};
use replicated_kv::sender::{backoff_delay_ms, RetryDecision, RetryEvent, RetrySession, SendQueue};
use replicated_kv::store::Store;
use replicated_kv::{BACKOFF_CAP_MS, CHANNEL_CAPACITY};

fn bytes(s: &str) -> Vec<u8> {
    s.as_bytes().to_vec()
}

#[test]
fn store_set_then_get_returns_the_value() {
    let mut store = Store::new();
    assert_eq!(store.get(&bytes("k1")), None);
    let stored = store.set(bytes("k1"), bytes("v1"));
    assert_eq!(stored, bytes("v1"));
    assert_eq!(store.get(&bytes("k1")), Some(bytes("v1")));
    store.set(bytes("k1"), bytes("v2"));
    assert_eq!(store.get(&bytes("k1")), Some(bytes("v2")));
    assert_eq!(store.get(&bytes("other")), None);
}

#[test]
fn store_snapshot_lists_each_pair_once() {
    let mut store = Store::new();
    store.set(bytes("a"), bytes("1"));
    store.set(bytes("b"), bytes("2"));
    store.set(bytes("a"), bytes("3"));
    let snapshot = store.snapshot();
    assert_eq!(snapshot.len(), 2);
    assert!(snapshot.contains(&(bytes("a"), bytes("3"))));
    assert!(snapshot.contains(&(bytes("b"), bytes("2"))));
}

#[test]
fn queue_keeps_fifo_order() {
    let mut q = SendQueue::new();
    assert_eq!(q.len(), 0);
    q.enqueue(bytes("one"));
    q.enqueue(bytes("two"));
    assert_eq!(q.dequeue(), Some(bytes("one")));
    assert_eq!(q.dequeue(), Some(bytes("two")));
    assert_eq!(q.dequeue(), None);
}

#[test]
fn full_queue_drops_its_oldest_frame() {
    let mut q = SendQueue::with_capacity(2);
    q.enqueue(bytes("one"));
    q.enqueue(bytes("two"));
    q.enqueue(bytes("three"));
    assert_eq!(q.len(), 2);
    assert_eq!(q.dequeue(), Some(bytes("two")));
    assert_eq!(q.dequeue(), Some(bytes("three")));
}

#[test]
fn default_queue_capacity_is_the_channel_capacity() {
    let mut q = SendQueue::new();
    for i in 0..(CHANNEL_CAPACITY + 5) {
        q.enqueue(vec![(i % 256) as u8]);
    }
    assert_eq!(q.len(), CHANNEL_CAPACITY);
}

#[test]
fn backoff_doubles_from_fifty_and_caps_at_two_seconds() {
    assert_eq!(backoff_delay_ms(0), 50);
    assert_eq!(backoff_delay_ms(1), 100);
    assert_eq!(backoff_delay_ms(2), 200);
    assert_eq!(backoff_delay_ms(3), 400);
    assert_eq!(backoff_delay_ms(4), 800);
    assert_eq!(backoff_delay_ms(5), 1600);
    assert_eq!(backoff_delay_ms(6), 2000);
    assert_eq!(backoff_delay_ms(7), 2000);
    assert_eq!(backoff_delay_ms(40), BACKOFF_CAP_MS);
}

#[test]
fn reliable_send_retries_until_the_first_reply() {
    let mut session = RetrySession::new();
    // An unreachable peer: every attempt fails, none is abandoned.
    assert_eq!(session.step(RetryEvent::Failure), RetryDecision::RetryAfter(50));
    assert_eq!(session.step(RetryEvent::Failure), RetryDecision::RetryAfter(100));
    assert_eq!(session.step(RetryEvent::Failure), RetryDecision::RetryAfter(200));
    // The peer comes up and replies: the send resolves with the reply bytes.
    assert_eq!(
        session.step(RetryEvent::Reply(bytes("pong"))),
        RetryDecision::Resolve(bytes("pong"))
    );
    // Later events no longer matter.
    assert_eq!(session.step(RetryEvent::Failure), RetryDecision::Stop);
}

#[test]
fn cancelled_send_stops_retrying() {
    let mut session = RetrySession::new();
    assert_eq!(session.step(RetryEvent::Failure), RetryDecision::RetryAfter(50));
    assert_eq!(session.step(RetryEvent::Cancelled), RetryDecision::Stop);
    assert_eq!(session.step(RetryEvent::Failure), RetryDecision::Stop);
    assert_eq!(session.step(RetryEvent::Reply(bytes("late"))), RetryDecision::Stop);
}

#[test]
fn byte_order_is_lexicographic() {
    assert!(bytes_lt(&bytes("127.0.0.1:6785"), &bytes("127.0.0.1:6787")));
    assert!(!bytes_lt(&bytes("127.0.0.1:6787"), &bytes("127.0.0.1:6785")));
    assert!(bytes_lt(&bytes("abc"), &bytes("abd")));
    assert!(bytes_lt(&bytes("ab"), &bytes("abc")));
    assert!(!bytes_lt(&bytes("abc"), &bytes("abc")));
    assert!(bytes_eq(&bytes("same"), &bytes("same")));
    assert!(!bytes_eq(&bytes("same"), &bytes("other")));
}
