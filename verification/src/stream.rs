//! A streaming session: the framing decoder together with the decode policy
//! (a payload that is not valid JSON aborts the stream with a `DecodeError`)
//! and the deterministic release of the underlying connection on exhaustion
//! or early cancellation.

use vstd::prelude::*;
use crate::errors::ClientError;
use crate::json::{all_json_ok, json_ok, is_valid_json};
use crate::sse::{frame_of, SseDecoder};

verus! {

/// One consumer-driven streaming chat completion in progress.
pub struct StreamSession {
    dec: SseDecoder,
    failed: bool,
    closed: bool,
}

impl StreamSession {
    /// Every byte of the response stream fed so far.
    pub closed spec fn history(&self) -> Seq<u8> {
        self.dec.history()
    }

    /// Every payload the framing layer has produced so far.
    pub closed spec fn emitted(&self) -> Seq<Seq<u8>> {
        self.dec.emitted()
    }

    /// Whether the `[DONE]` sentinel has been seen.
    pub closed spec fn done(&self) -> bool {
        self.dec.done()
    }

    /// Whether a decode failure has aborted the stream.
    pub closed spec fn failed(&self) -> bool {
        self.failed
    }

    /// Whether the session has been closed (its connection released).
    pub closed spec fn closed(&self) -> bool {
        self.closed
    }

    pub closed spec fn wf(&self) -> bool {
        self.dec.wf()
    }

    /// A fresh session: nothing read, nothing emitted, connection still held.
    pub fn new() -> (r: Self)
        ensures
            r.wf(),
            r.history() == Seq::<u8>::empty(),
            r.emitted() == Seq::<Seq<u8>>::empty(),
            !r.done(),
            !r.failed(),
            !r.closed(),
    {
        StreamSession { dec: SseDecoder::new(), failed: false, closed: false }
    }

    /// Whether the sentinel has been seen.
    pub fn is_done(&self) -> (r: bool)
        ensures
            r == self.done(),
    {
        self.dec.is_done()
    }

    /// Whether the session has been closed.
    pub fn is_closed(&self) -> (r: bool)
        ensures
            r == self.closed(),
    {
        self.closed
    }

    /// Consume one read's worth of raw bytes. On success the new payloads are
    /// handed out in server order, each one a valid JSON document; if any new
    /// payload is not valid JSON the whole stream is aborted with a
    /// `DecodeError` (completeness over silent skipping).
    pub fn feed(&mut self, chunk: &[u8]) -> (r: Result<Vec<Vec<u8>>, ClientError>)
        requires
            old(self).wf(),
            !old(self).failed(),
            !old(self).closed(),
        ensures
            final(self).wf(),
            !final(self).closed(),
            final(self).history() == old(self).history() + chunk@,
            final(self).done() == frame_of(final(self).history()).done,
            ({
                let delta = final(self).emitted().skip(old(self).emitted().len() as int);
                &&& final(self).emitted() == old(self).emitted() + delta
                &&& match r {
                    Ok(out) => out.deep_view() == delta && all_json_ok(delta)
                        && !final(self).failed(),
                    Err(e) => !all_json_ok(delta) && final(self).failed() && e is DecodeError,
                }
            }),
            old(self).done() ==> final(self).emitted() == old(self).emitted(),
    {
        let out = self.dec.feed(chunk);
        let ghost delta = out.deep_view();
        let mut i: usize = 0;
        let mut ok = true;
        while i < out.len()
            invariant
                i <= out.len(),
                delta == out.deep_view(),
                ok == all_json_ok(delta.take(i as int)),
            decreases out.len() - i,
        {
            let valid = is_valid_json(out[i].as_slice());
            proof {
                assert(out.deep_view()[i as int] == out@[i as int]@);
                assert(delta.take(i as int + 1) =~= delta.take(i as int).push(delta[i as int]));
                assert(all_json_ok(delta.take(i as int + 1)) == (all_json_ok(delta.take(i as int))
                    && json_ok(delta[i as int]))) by {
                    if all_json_ok(delta.take(i as int)) && json_ok(delta[i as int]) {
                        assert forall|k: int| 0 <= k < i as int + 1 implies json_ok(
                            #[trigger] delta.take(i as int + 1)[k],
                        ) by {
                            if k < i as int {
                                assert(delta.take(i as int)[k] == delta.take(i as int + 1)[k]);
                                assert(json_ok(delta.take(i as int)[k]));
                            }
                        }
                    }
                    if all_json_ok(delta.take(i as int + 1)) {
                        assert forall|k: int| 0 <= k < i as int implies json_ok(
                            #[trigger] delta.take(i as int)[k],
                        ) by {
                            assert(delta.take(i as int + 1)[k] == delta.take(i as int)[k]);
                            assert(json_ok(delta.take(i as int + 1)[k]));
                        }
                        assert(json_ok(delta.take(i as int + 1)[i as int]));
                    }
                }
            }
            if !valid {
                ok = false;
            }
            i = i + 1;
        }
        proof {
            assert(delta.take(out.len() as int) =~= delta);
            assert(self.emitted() == old(self).emitted() + out.deep_view());
            assert(self.emitted().skip(old(self).emitted().len() as int) =~= out.deep_view());
        }
        if ok {
            Ok(out)
        } else {
            self.failed = true;
            Err(ClientError::DecodeError { message: "stream event is not valid JSON".to_owned() })
        }
    }

    /// Fragmentation independence, at the session level: two sessions that
    /// have been fed the same response bytes, however differently those bytes
    /// were split into reads, have produced the same payloads in the same
    /// order and agree on termination.
    pub proof fn lemma_fragmentation_independence(s1: &StreamSession, s2: &StreamSession)
        requires
            s1.wf(),
            s2.wf(),
            s1.history() == s2.history(),
        ensures
            s1.emitted() == s2.emitted(),
            s1.done() == s2.done(),
    {
        crate::sse::lemma_fragmentation_independence(&s1.dec, &s2.dec);
    }

    /// Close the session, finishing or abandoning (cancelling) the stream.
    /// The result says whether the caller must release the underlying
    /// connection now: true exactly on the first close, so the release hook
    /// runs exactly once however often the session is closed, and however
    /// early the consumer stopped.
    pub fn close(&mut self) -> (must_release: bool)
        ensures
            final(self).closed(),
            must_release == !old(self).closed(),
            final(self).history() == old(self).history(),
            final(self).emitted() == old(self).emitted(),
            final(self).failed() == old(self).failed(),
            final(self).done() == old(self).done(),
            final(self).wf() == old(self).wf(),
    {
        let r = !self.closed;
        self.closed = true;
        r
    }
}

} // verus!
