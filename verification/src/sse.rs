//! The SSE (Server-Sent-Events) framing decoder: reassembles an arbitrarily
//! fragmented byte stream into discrete `data: ` payload records, carrying
//! incomplete trailing bytes over from one read to the next, and recognising
//! the `[DONE]` sentinel that terminates a stream.

use vstd::prelude::*;

verus! {

/// The byte value of the line feed that terminates an SSE line.
pub open spec fn nl() -> u8 {
    10u8
}

/// The required record prefix `data: ` as a byte sequence.
pub open spec fn data_prefix() -> Seq<u8> {
    seq![100u8, 97u8, 116u8, 97u8, 58u8, 32u8]
}

/// The sentinel payload `[DONE]` that ends a stream.
pub open spec fn sentinel() -> Seq<u8> {
    seq![91u8, 68u8, 79u8, 78u8, 69u8, 93u8]
}

/// A complete line is a data record when it starts with `data: `.
pub open spec fn is_data_line(l: Seq<u8>) -> bool {
    l.len() >= 6 && l.subrange(0, 6) == data_prefix()
}

/// The payload of a data record: the bytes after `data: `.
pub open spec fn payload_of(l: Seq<u8>) -> Seq<u8> {
    l.subrange(6, l.len() as int)
}

/// The abstract state of the framing machine: the carry-over bytes of the
/// current (still unterminated) line, the payloads emitted so far, and
/// whether the sentinel has been seen.
pub ghost struct FrameState {
    pub line: Seq<u8>,
    pub events: Seq<Seq<u8>>,
    pub done: bool,
}

/// The state before any byte has been consumed.
pub open spec fn frame_init() -> FrameState {
    FrameState { line: Seq::empty(), events: Seq::empty(), done: false }
}

/// What completing the current line does: a data record emits its payload,
/// the sentinel ends the stream, and any other line is discarded.
pub open spec fn frame_eol(st: FrameState) -> FrameState {
    if is_data_line(st.line) {
        if payload_of(st.line) == sentinel() {
            FrameState { line: Seq::empty(), events: st.events, done: true }
        } else {
            FrameState {
                line: Seq::empty(),
                events: st.events.push(payload_of(st.line)),
                done: false,
            }
        }
    } else {
        FrameState { line: Seq::empty(), events: st.events, done: false }
    }
}

/// What one byte does to the state. Bytes after the sentinel are ignored.
pub open spec fn frame_step(st: FrameState, b: u8) -> FrameState {
    if st.done {
        st
    } else if b == nl() {
        frame_eol(st)
    } else {
        FrameState { line: st.line.push(b), events: st.events, done: false }
    }
}

/// The framing machine run over a whole byte sequence.
pub open spec fn frame_run(st: FrameState, s: Seq<u8>) -> FrameState
    decreases s.len(),
{
    if s.len() == 0 {
        st
    } else {
        frame_run(frame_step(st, s[0]), s.drop_first())
    }
}

/// What a whole byte stream decodes to, independent of how it was chunked.
pub open spec fn frame_of(s: Seq<u8>) -> FrameState {
    frame_run(frame_init(), s)
}

/// Running the machine over a concatenation is running it over the parts in
/// turn: the step-wise machine cannot observe chunk boundaries.
pub proof fn lemma_frame_run_concat(st: FrameState, a: Seq<u8>, b: Seq<u8>)
    ensures
        frame_run(st, a + b) == frame_run(frame_run(st, a), b),
    decreases a.len(),
{
    if a.len() == 0 {
        assert(a + b =~= b);
    } else {
        assert((a + b)[0] == a[0]);
        assert((a + b).drop_first() =~= a.drop_first() + b);
        lemma_frame_run_concat(frame_step(st, a[0]), a.drop_first(), b);
    }
}

/// The carry-over framing decoder. It buffers the bytes of the current
/// incomplete line across reads and only emits a payload once its
/// newline-terminated line has been seen in full.
pub struct SseDecoder {
    line: Vec<u8>,
    done: bool,
    history: Ghost<Seq<u8>>,
    emitted: Ghost<Seq<Seq<u8>>>,
}

impl SseDecoder {
    /// Every byte this decoder has ever been fed, in order.
    pub closed spec fn history(&self) -> Seq<u8> {
        self.history@
    }

    /// Every payload this decoder has ever emitted, in order.
    pub closed spec fn emitted(&self) -> Seq<Seq<u8>> {
        self.emitted@
    }

    /// Whether the sentinel has been seen.
    pub closed spec fn done(&self) -> bool {
        self.done
    }

    /// The decoder is exactly the framing machine run over its history.
    pub closed spec fn wf(&self) -> bool {
        let st = frame_of(self.history@);
        &&& st.line == self.line@
        &&& st.events == self.emitted@
        &&& st.done == self.done
    }

    /// A fresh decoder with an empty carry-over buffer.
    pub fn new() -> (r: Self)
        ensures
            r.wf(),
            r.history() == Seq::<u8>::empty(),
            r.emitted() == Seq::<Seq<u8>>::empty(),
            !r.done(),
    {
        let r = SseDecoder {
            line: Vec::new(),
            done: false,
            history: Ghost(Seq::empty()),
            emitted: Ghost(Seq::empty()),
        };
        proof {
            assert(frame_of(Seq::<u8>::empty()) == frame_init());
        }
        r
    }

    /// Whether the sentinel has been seen; no further payload will be emitted.
    pub fn is_done(&self) -> (r: bool)
        ensures
            r == self.done(),
    {
        self.done
    }

    /// Consume one read's worth of bytes and return the payloads whose
    /// records were completed by it, in the order the server sent them.
    pub fn feed(&mut self, chunk: &[u8]) -> (out: Vec<Vec<u8>>)
        requires
            old(self).wf(),
        ensures
            final(self).wf(),
            final(self).history() == old(self).history() + chunk@,
            final(self).emitted() == old(self).emitted() + out.deep_view(),
            final(self).done() == frame_of(old(self).history() + chunk@).done,
            old(self).done() ==> out.len() == 0 && final(self).done(),
    {
        let mut out: Vec<Vec<u8>> = Vec::new();
        let ghost old_hist = self.history@;
        let ghost old_emitted = self.emitted@;
        let mut j: usize = 0;
        while j < chunk.len()
            invariant
                j <= chunk.len(),
                old(self).wf(),
                old_hist == old(self).history(),
                old_emitted == old(self).emitted(),
                frame_run(frame_of(old_hist), chunk@.take(j as int)) == (FrameState {
                    line: self.line@,
                    events: old_emitted + out.deep_view(),
                    done: self.done,
                }),
                old(self).done() ==> out.len() == 0 && self.done,
            decreases chunk.len() - j,
        {
            let ghost pre = FrameState {
                line: self.line@,
                events: old_emitted + out.deep_view(),
                done: self.done,
            };
            let b: u8 = chunk[j];
            if !self.done {
                if b == 10u8 {
                    let is_data = starts_with_data_prefix(&self.line);
                    if is_data {
                        let payload = copy_payload(&self.line);
                        if is_sentinel(&payload) {
                            self.done = true;
                            self.line.clear();
                        } else {
                            let ghost odv = out.deep_view();
                            let ghost pv = payload@;
                            out.push(payload);
                            self.line.clear();
                            proof {
                                assert(out.deep_view() =~~= odv.push(pv));
                                assert(old_emitted + out.deep_view() =~~= pre.events.push(
                                    payload_of(pre.line),
                                ));
                            }
                        }
                    } else {
                        self.line.clear();
                    }
                } else {
                    self.line.push(b);
                }
            }
            proof {
                let s1 = seq![b];
                assert(s1.len() == 1);
                assert(s1[0] == b);
                assert(s1.drop_first() =~= Seq::<u8>::empty());
                assert(frame_run(frame_step(pre, b), Seq::<u8>::empty()) == frame_step(pre, b));
                assert(frame_run(pre, s1) == frame_step(pre, b));
                assert(chunk@.take(j as int + 1) =~= chunk@.take(j as int) + s1);
                lemma_frame_run_concat(frame_of(old_hist), chunk@.take(j as int), s1);
                let cur = FrameState {
                    line: self.line@,
                    events: old_emitted + out.deep_view(),
                    done: self.done,
                };
                assert(cur.line == frame_step(pre, b).line);
                assert(cur.events == frame_step(pre, b).events);
                assert(cur.done == frame_step(pre, b).done);
                assert(frame_run(frame_of(old_hist), chunk@.take(j as int + 1)) == cur);
            }
            j = j + 1;
        }
        proof {
            assert(chunk@.take(chunk@.len() as int) =~= chunk@);
            lemma_frame_run_concat(frame_init(), old_hist, chunk@);
        }
        self.history = Ghost(old_hist + chunk@);
        self.emitted = Ghost(old_emitted + out.deep_view());
        out
    }
}

/// Fragmentation independence: two decoders that have been fed the same
/// bytes, however differently those bytes were split into reads, have
/// emitted the same payloads in the same order and agree on termination.
pub proof fn lemma_fragmentation_independence(d1: &SseDecoder, d2: &SseDecoder)
    requires
        d1.wf(),
        d2.wf(),
        d1.history() == d2.history(),
    ensures
        d1.emitted() == d2.emitted(),
        d1.done() == d2.done(),
{
}

/// Whether a completed line starts with the `data: ` record prefix.
fn starts_with_data_prefix(l: &Vec<u8>) -> (r: bool)
    ensures
        r == is_data_line(l@),
{
    if l.len() < 6 {
        proof {
            assert(!is_data_line(l@));
        }
        return false;
    }
    let r = l[0] == 100 && l[1] == 97 && l[2] == 116 && l[3] == 97 && l[4] == 58 && l[5] == 32;
    proof {
        if r {
            assert(l@.subrange(0, 6) =~= data_prefix());
        } else {
            assert(l@.subrange(0, 6) != data_prefix());
        }
    }
    r
}

/// Copy the payload bytes (those after `data: `) out of a data-record line.
fn copy_payload(l: &Vec<u8>) -> (r: Vec<u8>)
    requires
        l@.len() >= 6,
    ensures
        r@ == payload_of(l@),
{
    let mut r: Vec<u8> = Vec::new();
    let mut i: usize = 6;
    while i < l.len()
        invariant
            6 <= i <= l@.len(),
            r@ =~= l@.subrange(6, i as int),
        decreases l@.len() - i,
    {
        r.push(l[i]);
        i = i + 1;
    }
    proof {
        assert(r@ =~= payload_of(l@));
    }
    r
}

/// Whether a payload is the `[DONE]` sentinel.
fn is_sentinel(p: &Vec<u8>) -> (r: bool)
    ensures
        r == (p@ == sentinel()),
{
    if p.len() != 6 {
        proof {
            assert(p@ != sentinel());
        }
        return false;
    }
    let r = p[0] == 91 && p[1] == 68 && p[2] == 79 && p[3] == 78 && p[4] == 69 && p[5] == 93;
    proof {
        if r {
            assert(p@ =~= sentinel());
        } else {
            assert(p@ != sentinel());
        }
    }
    r
}

} // verus!
