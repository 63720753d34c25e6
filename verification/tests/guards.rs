//! The transactional receive guard: the cursor moves exactly when a guard is
//! committed, rollback restores delivery, and successive committed receives
//! walk the queue in order.

use yaque::channel;
use yaque::error::QueueError;
use yaque::guard::RecvGuard;
use yaque::header::Header;
use yaque::receiver::{ReadNeed, Receiver};
use yaque::state::{encode_state, QueueState};

/// Feeds one already-framed record straight into the receiver, the way the
/// read loop does once the bytes have arrived.
fn feed_record(rx: &mut Receiver, payload: &[u8]) {
    assert_eq!(rx.next_need(), ReadNeed::HeaderBytes);
    let header = Header::new(payload.len() as u32).encode();
    let h = rx.accept_header(&header);
    assert_eq!(h, Header::Record(payload.len() as u32));
    rx.accept_payload(payload.to_vec());
}

#[test]
fn receiver_opens_from_metadata_or_fallback() {
    // no metadata file: start at the oldest existing segment
    let rx = Receiver::open(None, 7).expect("fresh open");
    assert_eq!(rx.state, QueueState { segment: 7, position: 0 });
    // metadata present: resume exactly where it says
    let saved = encode_state(&QueueState { segment: 2, position: 99 });
    let rx = Receiver::open(Some(&saved), 0).expect("open from metadata");
    assert_eq!(rx.state, QueueState { segment: 2, position: 99 });
    // undecodable metadata is fatal at open
    let garbage: Vec<u8> = vec![1u8, 2, 3];
    match Receiver::open(Some(&garbage), 0) {
        Err(e) => assert_eq!(e, QueueError::CorruptState),
        Ok(_) => panic!("corrupt metadata must refuse the open"),
    }
}

#[test]
fn commit_moves_cursor_by_consumed_bytes() {
    let (_tx, mut rx) = channel();
    feed_record(&mut rx, b"abc");
    let g = rx.recv().expect("buffered");
    assert_eq!(g.len, 7);
    assert_eq!(rx.state.position, 0);
    g.commit(&mut rx);
    assert_eq!(rx.state.position, 7);
    assert_eq!(rx.save(), encode_state(&rx.state));
}

#[test]
fn cursor_stays_until_commit() {
    let (_tx, mut rx) = channel();
    feed_record(&mut rx, b"abc");
    let before = rx.save();
    let g = rx.recv().expect("buffered");
    // received but not committed: the persisted cursor has not moved
    assert_eq!(rx.save(), before);
    g.rollback(&mut rx);
    assert_eq!(rx.save(), before);
    // the same record is delivered again
    let g = rx.recv().expect("restored");
    assert_eq!(g.item, b"abc".to_vec());
    g.commit(&mut rx);
    assert_ne!(rx.save(), before);
}

#[test]
fn rollback_of_batch_restores_order() {
    let (_tx, mut rx) = channel();
    feed_record(&mut rx, b"a");
    feed_record(&mut rx, b"bb");
    feed_record(&mut rx, b"ccc");
    let g = rx.recv_batch(2).expect("two buffered");
    assert_eq!(g.item, vec![b"a".to_vec(), b"bb".to_vec()]);
    g.rollback(&mut rx);
    // original order again, with the undrained record still behind them
    let drained = rx.drain(3);
    assert_eq!(
        drained,
        vec![b"a".to_vec(), b"bb".to_vec(), b"ccc".to_vec()]
    );
}

#[test]
fn into_inner_commits_and_returns_the_item() {
    let (_tx, mut rx) = channel();
    feed_record(&mut rx, b"payload");
    let g = rx.recv().expect("buffered");
    let item = g.into_inner(&mut rx);
    assert_eq!(item, b"payload".to_vec());
    assert_eq!(rx.state.position, 4 + 7);
}

#[test]
fn successive_recvs_return_successive_elements() {
    let (_tx, mut rx) = channel();
    feed_record(&mut rx, b"first");
    feed_record(&mut rx, b"second");
    feed_record(&mut rx, b"third");
    let g = rx.recv().expect("buffered");
    assert_eq!(g.item, b"first".to_vec());
    g.commit(&mut rx);
    let g = rx.recv().expect("buffered");
    assert_eq!(g.item, b"second".to_vec());
    g.commit(&mut rx);
    let g = rx.recv().expect("buffered");
    assert_eq!(g.item, b"third".to_vec());
    g.commit(&mut rx);
    assert!(rx.recv().is_none());
    assert_eq!(rx.state.position, (4 + 5) + (4 + 6) + (4 + 5));
}

#[test]
fn peek_shows_records_without_consuming() {
    let (_tx, mut rx) = channel();
    feed_record(&mut rx, b"x");
    feed_record(&mut rx, b"yz");
    assert_eq!(rx.peek(0).cloned(), Some(b"x".to_vec()));
    assert_eq!(rx.peek(1).cloned(), Some(b"yz".to_vec()));
    assert!(rx.peek(2).is_none());
    // peeking consumed nothing: delivery starts at the oldest record
    let g = rx.recv().expect("still buffered");
    assert_eq!(g.item, b"x".to_vec());
    g.commit(&mut rx);
}

#[test]
fn batch_guard_accounts_header_and_payload_bytes() {
    let items: Vec<Vec<u8>> = vec![Vec::new(), vec![1u8], vec![2u8, 3]];
    let g = RecvGuard::batch(items);
    assert_eq!(g.len, 3 * 4 + 0 + 1 + 2);
}
