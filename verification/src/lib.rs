//! A single-producer / single-consumer persistent byte-message queue.
//!
//! A queue lives in a directory of append-only segment files holding
//! length-prefixed records. This crate is the verified core of such a queue:
//! the header and cursor codecs, the record framing and parsing rules, the
//! sender state machine that decides what bytes go to which segment, the
//! receiver state machine that turns bytes read from a segment back into
//! payloads, and the transactional receive guard. Everything that touches the
//! filesystem or an executor — locks, tail-following reads, timeouts — lives
//! outside, drives these cores, and performs the actions they describe.

pub mod encoding;
pub mod error;
pub mod guard;
pub mod header;
pub mod records;
pub mod receiver;
pub mod sender;
pub mod state;

pub use error::QueueError;
pub use guard::RecvGuard;
pub use header::Header;
pub use receiver::{ReadNeed, Receiver};
pub use sender::{SegmentWrite, Sender};
pub use state::QueueState;

use vstd::prelude::*;

verus! {

/// Opens both sides of a fresh, empty queue at once: both cursors stand at
/// the start of segment 0, and nothing is buffered. For a queue directory
/// with history, open each side from what the directory holds instead.
pub fn channel() -> (r: (Sender, Receiver))
    ensures
        r.0.state == (QueueState { segment: 0, position: 0 }),
        r.1.state == (QueueState { segment: 0, position: 0 }),
        r.1.maybe_header is None,
        r.1.buffered() == Seq::<Seq<u8>>::empty(),
        r.1.wf(),
{
    let tx = Sender::open(0, 0);
    let rx = match Receiver::open(None, 0) {
        Ok(rx) => rx,
        Err(_) => vstd::pervasive::unreached(),
    };
    (tx, rx)
}

} // verus!
