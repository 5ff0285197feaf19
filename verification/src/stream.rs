//! The decision core of batched, resumable result delivery.
//!
//! Large results are fetched in fixed-size batches at increasing
//! offsets and forwarded incrementally, up to a total cap.  The loop
//! that performs the fetching is unverified plumbing; what to emit
//! and how to continue after each batch is decided here, so that a
//! cancelled consumer stops further fetches and a finished stream
//! ends with an explicit terminal marker.

use vstd::prelude::*;
use crate::types::TelemetryData;

verus! {

/// Where a batched delivery stands.
#[derive(Clone, Copy, Debug, PartialEq, Eq, Structural)]
pub struct StreamState {
    /// The offset the next batch is fetched at.
    pub offset: usize,
    /// How many samples have been emitted.
    pub total_sent: usize,
    /// How many samples one batch asks for.
    pub batch_size: usize,
    /// The cap on the total emitted.
    pub max_limit: usize,
    /// Whether the stream has ended; no further batch may be fetched.
    pub done: bool,
}

/// One event of the delivery, in order.
#[derive(Debug)]
pub enum StreamEvent {
    /// One sample of the result.
    Data(TelemetryData),
    /// A progress note after a round number of samples.
    Progress { loaded: usize },
    /// The terminal marker of a successful stream; `limited` tells a
    /// capped stream from an exhausted one.
    Completed { total: usize, limited: bool },
    /// The terminal marker after an upstream fetch failure.
    Failed,
}

/// How many samples of the batch are forwarded.
pub open spec fn take_count(st: StreamState, n: int) -> int {
    if n <= st.max_limit - st.total_sent {
        n
    } else {
        st.max_limit - st.total_sent
    }
}

/// The batch size of the delivery loop and its default cap.
pub const STREAM_BATCH_SIZE: usize = 1000;

pub const STREAM_DEFAULT_LIMIT: usize = 50000;

pub const STREAM_PROGRESS_EVERY: usize = 5000;

/// Where a delivery starts: at offset zero, nothing sent, fetching a
/// thousand samples a batch, capped by the query's limit or fifty
/// thousand.
pub fn stream_start(limit: Option<usize>) -> (st: StreamState)
    ensures
        st.offset == 0,
        st.total_sent == 0,
        st.batch_size == STREAM_BATCH_SIZE,
        st.max_limit == (match limit {
            Some(l) => l,
            None => STREAM_DEFAULT_LIMIT,
        }),
        !st.done,
{
    StreamState {
        offset: 0,
        total_sent: 0,
        batch_size: STREAM_BATCH_SIZE,
        max_limit: (match limit {
            Some(l) => l,
            None => STREAM_DEFAULT_LIMIT,
        }),
        done: false,
    }
}

/// Decide what one fetched batch means: a failed fetch ends the
/// stream with the failure marker; an empty batch ends it complete;
/// otherwise the batch's samples are forwarded up to the cap,
/// followed by the capped terminal marker or an occasional progress
/// note, and the next offset advances by one batch.
pub fn stream_step(st: StreamState, batch: Option<Vec<TelemetryData>>) -> (r: (
    Vec<StreamEvent>,
    StreamState,
))
    requires
        !st.done,
        st.total_sent < st.max_limit,
        st.offset + st.batch_size <= usize::MAX,
    ensures
        ({
            let (events, st2) = r;
            match batch {
                None => events@.len() == 1 && events@[0] is Failed && st2.done,
                Some(b) => {
                    if b@.len() == 0 {
                        &&& events@.len() == 1
                        &&& events@[0] == (StreamEvent::Completed {
                            total: st.total_sent,
                            limited: false,
                        })
                        &&& st2.done
                    } else {
                        let take = take_count(st, b@.len() as int);
                        let sent = st.total_sent + take;
                        &&& take <= events@.len()
                        &&& (forall|k: int|
                            0 <= k < take ==> #[trigger] events@[k] == StreamEvent::Data(b@[k]))
                        &&& st2.total_sent == sent
                        &&& st2.batch_size == st.batch_size
                        &&& st2.max_limit == st.max_limit
                        &&& (if sent >= st.max_limit {
                            &&& events@.len() == take + 1
                            &&& events@[take] == (StreamEvent::Completed {
                                total: sent as usize,
                                limited: true,
                            })
                            &&& st2.done
                        } else {
                            &&& st2.offset == st.offset + st.batch_size
                            &&& !st2.done
                            &&& (if sent as int % (STREAM_PROGRESS_EVERY as int) == 0 {
                                events@.len() == take + 1 && events@[take]
                                    == (StreamEvent::Progress { loaded: sent as usize })
                            } else {
                                events@.len() == take
                            })
                        })
                    }
                }
            }
        }),
{
    let mut events: Vec<StreamEvent> = Vec::new();
    match batch {
        None => {
            events.push(StreamEvent::Failed);
            let st2 = StreamState { done: true, ..st };
            (events, st2)
        }
        Some(b) => {
            if b.len() == 0 {
                events.push(StreamEvent::Completed { total: st.total_sent, limited: false });
                let st2 = StreamState { done: true, ..st };
                (events, st2)
            } else {
                let room = st.max_limit - st.total_sent;
                let take = if b.len() <= room {
                    b.len()
                } else {
                    room
                };
                let mut k: usize = 0;
                while k < take
                    invariant
                        0 <= k <= take <= b@.len(),
                        events@.len() == k,
                        forall|j: int|
                            0 <= j < k ==> #[trigger] events@[j] == StreamEvent::Data(b@[j]),
                    decreases take - k,
                {
                    events.push(StreamEvent::Data(b[k].clone()));
                    k += 1;
                }
                let sent = st.total_sent + take;
                if sent >= st.max_limit {
                    events.push(StreamEvent::Completed { total: sent, limited: true });
                    let st2 = StreamState { total_sent: sent, done: true, ..st };
                    (events, st2)
                } else {
                    let st2 = StreamState {
                        total_sent: sent,
                        offset: st.offset + st.batch_size,
                        ..st
                    };
                    if sent % STREAM_PROGRESS_EVERY == 0 {
                        events.push(StreamEvent::Progress { loaded: sent });
                    }
                    (events, st2)
                }
            }
        }
    }
}

} // verus!
