use pryx_host::broker::RpcBroker;

// Ids are unique and strictly increasing, starting at 1 for each child.
#[test]
fn test_ids_strictly_increasing_from_one() {
    let mut b = RpcBroker::new();
    let mut last = 0u64;
    for expected in 1..=50u64 {
        let id = b.begin_call();
        assert_eq!(id, expected);
        assert!(id > last);
        last = id;
    }
    b.reset();
    assert_eq!(b.begin_call(), 1);
}

// The pending table returns to its pre-call size after resolution.
#[test]
fn test_no_leak_on_resolution() {
    let mut b = RpcBroker::new();
    let before = b.pending_len();
    let id = b.begin_call();
    assert_eq!(b.pending_len(), before + 1);
    assert!(b.resolve(id));
    assert_eq!(b.pending_len(), before);
}

// The timeout path: the caller abandons the id; the table is empty again
// and a later stray response for it finds nothing.
#[test]
fn test_no_leak_on_timeout() {
    let mut b = RpcBroker::new();
    let id = b.begin_call();
    assert!(b.resolve(id));
    assert_eq!(b.pending_len(), 0);
    assert!(!b.resolve(id));
    assert_eq!(b.pending_len(), 0);
}

// Child death drains every pending call so each waiter can be failed.
#[test]
fn test_drain_on_child_exit() {
    let mut b = RpcBroker::new();
    let a = b.begin_call();
    let c = b.begin_call();
    let d = b.begin_call();
    let drained = b.drain();
    assert_eq!(drained, vec![a, c, d]);
    assert_eq!(b.pending_len(), 0);
    // Ids keep growing: the drain is not a new child.
    assert_eq!(b.begin_call(), 4);
}

// Out-of-order responses resolve the matching waiter only.
#[test]
fn test_out_of_order_resolution() {
    let mut b = RpcBroker::new();
    let id1 = b.begin_call();
    let id2 = b.begin_call();
    assert!(b.resolve(id2));
    assert_eq!(b.pending_len(), 1);
    assert!(!b.resolve(id2));
    assert!(b.resolve(id1));
    assert_eq!(b.pending_len(), 0);
}
