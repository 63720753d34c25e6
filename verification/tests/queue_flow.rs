//! End-to-end flows through the verified cores: a sender's segment writes
//! are applied to an in-memory image of the queue directory, and a reader
//! loop feeds the receiver exactly the way the tail-following caller would,
//! including segment advances. Guards are committed or rolled back
//! explicitly.

use yaque::channel;
use yaque::guard::RecvGuard;
use yaque::header::Header;
use yaque::receiver::{ReadNeed, Receiver};
use yaque::sender::{SegmentWrite, Sender};
use yaque::state::{decode_state, encode_state, QueueState};

/// In-memory image of a queue directory: one byte buffer per segment file
/// (`None` once deleted), plus the receiver metadata file.
struct DirImage {
    files: Vec<Option<Vec<u8>>>,
    metadata: Option<Vec<u8>>,
}

impl DirImage {
    fn new() -> DirImage {
        DirImage { files: vec![Some(Vec::new())], metadata: None }
    }

    fn ensure_file(&mut self, segment: u64) {
        while self.files.len() <= segment as usize {
            self.files.push(Some(Vec::new()));
        }
    }

    /// Applies a sender's write: append-and-flush to the segment file, and
    /// create the next segment file if the write sealed this one.
    fn apply(&mut self, w: &SegmentWrite) {
        self.ensure_file(w.segment);
        self.files[w.segment as usize]
            .as_mut()
            .expect("append to a deleted segment file")
            .extend_from_slice(&w.bytes);
        if let Some(next) = w.next_segment {
            self.ensure_file(next);
        }
    }
}

/// The physical read cursor of the tail follower: segment and byte offset.
type Follower = (u64, usize);

/// Reads exactly `n` bytes at the follower, or nothing — the point where a
/// real reader would suspend until the file grows.
fn read_exact(dir: &DirImage, cur: &mut Follower, n: usize) -> Option<Vec<u8>> {
    let file = dir.files.get(cur.0 as usize)?.as_ref()?;
    if file.len() < cur.1 + n {
        return None;
    }
    let out = file[cur.1..cur.1 + n].to_vec();
    cur.1 += n;
    Some(out)
}

/// Drives the receiver until one more record is buffered, or the bytes run
/// out. Handles the end-of-segment sentinel the way the real loop must:
/// durable checkpoint first, then advance, open the next file, delete the
/// finished one.
fn fetch_one(rx: &mut Receiver, dir: &mut DirImage, cur: &mut Follower) -> bool {
    loop {
        match rx.next_need() {
            ReadNeed::HeaderBytes => {
                let bytes = match read_exact(dir, cur, 4) {
                    Some(b) => b,
                    None => return false,
                };
                match rx.accept_header(&bytes) {
                    Header::Eof => {
                        dir.metadata = Some(rx.advance_metadata());
                        let finished: u64 = cur.0;
                        let next = rx.advance();
                        dir.ensure_file(next);
                        dir.files[finished as usize] = None;
                        *cur = (next, 0);
                    }
                    Header::Record(_) => {}
                }
            }
            ReadNeed::PayloadBytes(len) => {
                let bytes = match read_exact(dir, cur, len as usize) {
                    Some(b) => b,
                    None => return false,
                };
                rx.accept_payload(bytes);
                return true;
            }
        }
    }
}

/// One committed receive, or `None` where a real reader would block.
fn recv_committed(rx: &mut Receiver, dir: &mut DirImage, cur: &mut Follower) -> Option<Vec<u8>> {
    loop {
        if let Some(g) = rx.recv() {
            return Some(g.into_inner(rx));
        }
        if !fetch_one(rx, dir, cur) {
            return None;
        }
    }
}

fn send_applied(tx: &mut Sender, dir: &mut DirImage, data: &Vec<u8>) {
    let w = tx.send(data).expect("payload fits");
    dir.apply(&w);
}

fn xorshift(state: &mut u64) -> u64 {
    let mut x: u64 = *state;
    x ^= x << 13;
    x ^= x >> 7;
    x ^= x << 17;
    *state = x;
    x
}

/// A pseudo-random payload of 1 to 128 bytes.
fn random_blob(state: &mut u64) -> Vec<u8> {
    let len: usize = (xorshift(state) % 128 + 1) as usize;
    let mut v: Vec<u8> = Vec::with_capacity(len);
    for _ in 0..len {
        v.push((xorshift(state) & 0xff) as u8);
    }
    v
}

#[test]
fn send_then_recv_delivers_same_bytes() {
    let (mut tx, mut rx) = channel();
    let mut dir = DirImage::new();
    let mut cur: Follower = (0, 0);
    let data: Vec<u8> = vec![10u8, 20, 30, 40, 50];
    send_applied(&mut tx, &mut dir, &data);
    assert_eq!(recv_committed(&mut rx, &mut dir, &mut cur), Some(data));
}

#[test]
fn fifo_one_hundred_thousand_blobs() {
    let (mut tx, mut rx) = channel();
    let mut dir = DirImage::new();
    let mut cur: Follower = (0, 0);

    let mut seed: u64 = 0x9E37_79B9_7F4A_7C15;
    let mut dataset: Vec<Vec<u8>> = Vec::with_capacity(100_000);
    for _ in 0..100_000 {
        dataset.push(random_blob(&mut seed));
    }

    for data in &dataset {
        send_applied(&mut tx, &mut dir, data);
    }
    // ~6.8 MB of records: the sender crossed the segment bound on the way
    assert!(tx.state.segment > 0);

    for (i, expected) in dataset.iter().enumerate() {
        let got = recv_committed(&mut rx, &mut dir, &mut cur);
        assert_eq!(got.as_ref(), Some(expected), "at sample {}", i);
    }

    // the queue is drained, and a fresh receiver opened from the persisted
    // metadata reports empty too
    assert!(recv_committed(&mut rx, &mut dir, &mut cur).is_none());
    let saved = rx.save();
    let state = decode_state(&saved).expect("metadata decodes");
    let mut fresh = Receiver::open(Some(&saved), 0).expect("open from metadata");
    let mut fresh_cur: Follower = (state.segment, state.position as usize);
    assert!(recv_committed(&mut fresh, &mut dir, &mut fresh_cur).is_none());
}

#[test]
fn round_robin_one_at_a_time() {
    let (mut tx, mut rx) = channel();
    let mut dir = DirImage::new();
    let mut cur: Follower = (0, 0);

    let mut seed: u64 = 0xDEAD_BEEF_CAFE_F00D;
    for i in 0..100_000u32 {
        let data = random_blob(&mut seed);
        send_applied(&mut tx, &mut dir, &data);
        let got = recv_committed(&mut rx, &mut dir, &mut cur);
        assert_eq!(got, Some(data), "at sample {}", i);
    }
    assert!(recv_committed(&mut rx, &mut dir, &mut cur).is_none());
}

#[test]
fn rollback_replays_the_same_record() {
    let (mut tx, mut rx) = channel();
    let mut dir = DirImage::new();
    let mut cur: Follower = (0, 0);
    send_applied(&mut tx, &mut dir, &b"123".to_vec());
    send_applied(&mut tx, &mut dir, &b"456".to_vec());

    assert!(fetch_one(&mut rx, &mut dir, &mut cur));
    // un-committed receives re-deliver; a committed one consumes
    let g = rx.recv().expect("buffered");
    assert_eq!(g.item, b"123".to_vec());
    g.rollback(&mut rx);
    let g = rx.recv().expect("buffered");
    assert_eq!(g.item, b"123".to_vec());
    g.rollback(&mut rx);
    let g = rx.recv().expect("buffered");
    assert_eq!(g.item, b"123".to_vec());
    g.commit(&mut rx);

    let got = recv_committed(&mut rx, &mut dir, &mut cur).expect("second record");
    assert_eq!(got, b"456".to_vec());
}

#[test]
fn empty_payload_is_delivered_and_is_not_eof() {
    let (mut tx, mut rx) = channel();
    let mut dir = DirImage::new();
    let mut cur: Follower = (0, 0);
    let empty: Vec<u8> = Vec::new();
    let w = tx.send(&empty).expect("fits");
    assert_eq!(w.bytes, vec![0u8, 0, 0, 0]);
    dir.apply(&w);
    let got = recv_committed(&mut rx, &mut dir, &mut cur);
    assert_eq!(got, Some(Vec::new()));
    // the receiver is waiting for more records, not stuck on a sentinel
    assert_eq!(rx.state.segment, 0);
}

#[test]
fn batch_send_is_one_contiguous_write() {
    let (mut tx, mut rx) = channel();
    let mut dir = DirImage::new();
    let mut cur: Follower = (0, 0);
    let batch: Vec<Vec<u8>> = vec![b"one".to_vec(), b"two".to_vec(), b"three".to_vec()];
    let w = tx.send_batch(&batch).expect("fits");
    assert_eq!(w.segment, 0);
    // the one write holds every frame, in order
    let mut expected: Vec<u8> = Vec::new();
    for item in &batch {
        expected.extend_from_slice(&Header::new(item.len() as u32).encode());
        expected.extend_from_slice(item);
    }
    assert_eq!(w.bytes, expected);
    dir.apply(&w);

    for item in &batch {
        let got = recv_committed(&mut rx, &mut dir, &mut cur);
        assert_eq!(got.as_ref(), Some(item));
    }
}

#[test]
fn sender_save_is_a_noop() {
    let (mut tx, _rx) = channel();
    assert_eq!(tx.save(), Ok(()));
    assert_eq!(tx.state, QueueState { segment: 0, position: 0 });
}

#[test]
fn recv_batch_takes_exactly_n() {
    let (mut tx, mut rx) = channel();
    let mut dir = DirImage::new();
    let mut cur: Follower = (0, 0);
    for i in 0..5u8 {
        send_applied(&mut tx, &mut dir, &vec![i]);
    }
    // buffer all five, the way recv_batch(5) would before draining
    for _ in 0..5 {
        assert!(fetch_one(&mut rx, &mut dir, &mut cur));
    }
    let g = rx.recv_batch(3).expect("three are buffered");
    assert_eq!(g.item, vec![vec![0u8], vec![1u8], vec![2u8]]);
    assert_eq!(g.len, 3 * 4 + 3);
    g.commit(&mut rx);

    // not enough for five: the caller would have to fetch (block) first
    assert!(rx.recv_batch(5).is_none());

    // the timeout variant drains whatever arrived instead
    let part = rx.drain(5);
    assert_eq!(part, vec![vec![3u8], vec![4u8]]);
    let g = RecvGuard::batch(part);
    assert_eq!(g.len, 2 * 4 + 2);
    g.commit(&mut rx);
}

#[test]
fn recv_until_true_on_first_element_consumes_zero() {
    let (mut tx, mut rx) = channel();
    let mut dir = DirImage::new();
    let mut cur: Follower = (0, 0);
    send_applied(&mut tx, &mut dir, &b"stop".to_vec());
    assert!(fetch_one(&mut rx, &mut dir, &mut cur));

    // the predicate answered `true` on the very first record: zero records
    // are drained and the triggering record stays in the queue
    let position_before = rx.state.position;
    let g = rx.recv_batch(0).expect("zero records are always available");
    assert!(g.item.is_empty());
    assert_eq!(g.len, 0);
    g.commit(&mut rx);
    assert_eq!(rx.state.position, position_before);

    let got = recv_committed(&mut rx, &mut dir, &mut cur);
    assert_eq!(got, Some(b"stop".to_vec()));
}

#[test]
fn abandoned_read_resumes_without_loss() {
    let (mut tx, mut rx) = channel();
    let mut dir = DirImage::new();
    let mut cur: Follower = (0, 0);
    send_applied(&mut tx, &mut dir, &b"abc".to_vec());

    // the read got as far as the header, then was dropped mid-record
    let saved_before = rx.save();
    let hdr = read_exact(&dir, &mut cur, 4).expect("header present");
    let h = rx.accept_header(&hdr);
    assert_eq!(h, Header::Record(3));
    // nothing was consumed from the queue: the cursor is unchanged
    assert_eq!(rx.save(), saved_before);
    assert!(rx.recv().is_none());

    // re-entry skips the header read and finishes the payload
    assert_eq!(rx.next_need(), ReadNeed::PayloadBytes(3));
    let payload = read_exact(&dir, &mut cur, 3).expect("payload present");
    rx.accept_payload(payload);
    let g = rx.recv().expect("record complete");
    assert_eq!(g.item, b"abc".to_vec());
    g.commit(&mut rx);
}

#[test]
fn recv_on_empty_queue_returns_nothing() {
    let (_tx, mut rx) = channel();
    let mut dir = DirImage::new();
    let mut cur: Follower = (0, 0);
    assert!(recv_committed(&mut rx, &mut dir, &mut cur).is_none());
    assert!(recv_committed(&mut rx, &mut dir, &mut cur).is_none());
}

#[test]
fn record_sent_after_empty_poll_is_delivered() {
    let (mut tx, mut rx) = channel();
    let mut dir = DirImage::new();
    let mut cur: Follower = (0, 0);
    // first poll: nothing there yet — a real reader would now await
    assert!(recv_committed(&mut rx, &mut dir, &mut cur).is_none());
    // the sender catches up within the timeout
    send_applied(&mut tx, &mut dir, &b"123".to_vec());
    let got = recv_committed(&mut rx, &mut dir, &mut cur);
    assert_eq!(got, Some(b"123".to_vec()));
}

#[test]
fn rotation_walks_segments_and_deletes_finished_ones() {
    let (mut tx, mut rx) = channel();
    let mut dir = DirImage::new();
    let mut cur: Follower = (0, 0);

    // five 1 MiB payloads cross the 4 MiB segment bound once
    let blob: Vec<u8> = vec![0xabu8; 1024 * 1024];
    let mut dataset: Vec<Vec<u8>> = Vec::new();
    for _ in 0..5 {
        send_applied(&mut tx, &mut dir, &blob);
        dataset.push(blob.clone());
    }
    assert_eq!(tx.state.segment, 1);
    assert!(dir.files.len() >= 2);

    for expected in &dataset {
        let got = recv_committed(&mut rx, &mut dir, &mut cur);
        assert_eq!(got.as_ref(), Some(expected));
    }

    // the receiver advanced across the sealed segment, checkpointed the new
    // cursor durably, and the finished file is gone
    assert_eq!(rx.state.segment, 1);
    assert!(dir.files[0].is_none());
    let meta = dir.metadata.as_ref().expect("checkpoint written at advance");
    let at_advance = decode_state(meta).expect("metadata decodes");
    assert_eq!(at_advance, QueueState { segment: 1, position: 0 });
    assert_eq!(
        rx.save(),
        encode_state(&rx.state),
    );
}
