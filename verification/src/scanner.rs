//! Byte-stream scanner.
//!
//! Searches a stream of byte chunks for a start marker, captures everything
//! after it, and stops once an end marker has been matched, yielding the bytes
//! strictly between the two markers. The matcher keeps one partial-match
//! counter per marker and resets it to zero on a mismatch, consuming the
//! mismatched byte; matcher state survives chunk boundaries, so the result
//! depends only on the concatenation of the chunks, never on how the stream
//! was split.

use vstd::prelude::*;

verus! {

use crate::find::{occurs, occurs_at};
use vstd::slice::slice_to_vec;
use vstd::utf8::{encode_utf8, valid_utf8};

/// The abstract state of the scanning automaton after some prefix of the
/// stream has been consumed.
pub struct ScanState {
    /// Whether the start marker has been fully matched.
    pub started: bool,
    /// How many leading bytes of the start marker the consumed bytes end with
    /// (only tracked before the start marker is found).
    pub start_j: int,
    /// How many leading bytes of the end marker the captured bytes end with.
    pub end_j: int,
    /// The captured bytes; once done, the payload with the end marker cut off.
    pub out: Seq<u8>,
    /// Whether the end marker has been fully matched.
    pub done: bool,
}

/// The state before any byte has been consumed.
pub open spec fn scan_init() -> ScanState {
    ScanState { started: false, start_j: 0, end_j: 0, out: Seq::empty(), done: false }
}

/// One byte of progress for the scanning automaton.
pub open spec fn scan_step(st: ScanState, b: u8, start: Seq<u8>, end: Seq<u8>) -> ScanState {
    if st.done {
        st
    } else if !st.started {
        if 0 <= st.start_j < start.len() && start[st.start_j] == b {
            if st.start_j + 1 == start.len() {
                ScanState { started: true, start_j: 0, end_j: 0, out: st.out, done: false }
            } else {
                ScanState {
                    started: false,
                    start_j: st.start_j + 1,
                    end_j: st.end_j,
                    out: st.out,
                    done: false,
                }
            }
        } else {
            ScanState { started: false, start_j: 0, end_j: st.end_j, out: st.out, done: false }
        }
    } else {
        let out2 = st.out.push(b);
        if 0 <= st.end_j < end.len() && end[st.end_j] == b {
            if st.end_j + 1 == end.len() {
                let trimmed = if out2.len() >= end.len() {
                    out2.take(out2.len() - end.len())
                } else {
                    Seq::empty()
                };
                ScanState {
                    started: true,
                    start_j: st.start_j,
                    end_j: st.end_j + 1,
                    out: trimmed,
                    done: true,
                }
            } else {
                ScanState {
                    started: true,
                    start_j: st.start_j,
                    end_j: st.end_j + 1,
                    out: out2,
                    done: false,
                }
            }
        } else {
            ScanState { started: true, start_j: st.start_j, end_j: 0, out: out2, done: false }
        }
    }
}

/// The automaton run over a whole byte sequence.
pub open spec fn scan_fold(st: ScanState, bytes: Seq<u8>, start: Seq<u8>, end: Seq<u8>) -> ScanState
    decreases bytes.len(),
{
    if bytes.len() == 0 {
        st
    } else {
        scan_fold(scan_step(st, bytes[0], start, end), bytes.drop_first(), start, end)
    }
}

/// What scanning a byte stream yields: the captured payload if the start
/// marker and then the end marker were both matched, and nothing otherwise.
/// Empty markers are rejected outright.
pub open spec fn scan_spec(bytes: Seq<u8>, start: Seq<u8>, end: Seq<u8>) -> Option<Seq<u8>> {
    if start.len() == 0 || end.len() == 0 {
        None
    } else {
        let st = scan_fold(scan_init(), bytes, start, end);
        if st.done {
            Some(st.out)
        } else {
            None
        }
    }
}

/// The bytes of a chunked stream, in order, with the chunk boundaries erased.
pub open spec fn stream_bytes(chunks: Seq<Vec<u8>>) -> Seq<u8> {
    chunks.map_values(|c: Vec<u8>| c@).flatten()
}

/// A finished automaton ignores further input.
proof fn lemma_fold_done(st: ScanState, bytes: Seq<u8>, start: Seq<u8>, end: Seq<u8>)
    requires
        st.done,
    ensures
        scan_fold(st, bytes, start, end) == st,
    decreases bytes.len(),
{
    if bytes.len() > 0 {
        lemma_fold_done(st, bytes.drop_first(), start, end);
    }
}

/// Folding one more byte is one more step.
proof fn lemma_fold_snoc(st: ScanState, bytes: Seq<u8>, b: u8, start: Seq<u8>, end: Seq<u8>)
    ensures
        scan_fold(st, bytes.push(b), start, end) == scan_step(
            scan_fold(st, bytes, start, end),
            b,
            start,
            end,
        ),
    decreases bytes.len(),
{
    let p = bytes.push(b);
    if bytes.len() == 0 {
        assert(p[0] == b);
        assert(p.drop_first() =~= Seq::<u8>::empty());
        assert(scan_fold(st, p, start, end) == scan_fold(
            scan_step(st, b, start, end),
            p.drop_first(),
            start,
            end,
        ));
        assert(scan_fold(scan_step(st, b, start, end), p.drop_first(), start, end) == scan_step(
            st,
            b,
            start,
            end,
        ));
    } else {
        assert(p[0] == bytes[0]);
        assert(p.drop_first() =~= bytes.drop_first().push(b));
        lemma_fold_snoc(scan_step(st, bytes[0], start, end), bytes.drop_first(), b, start, end);
        assert(scan_fold(st, p, start, end) == scan_fold(
            scan_step(st, p[0], start, end),
            p.drop_first(),
            start,
            end,
        ));
    }
}

/// Folding a concatenation is folding one part after the other.
proof fn lemma_fold_append(st: ScanState, a: Seq<u8>, b: Seq<u8>, start: Seq<u8>, end: Seq<u8>)
    ensures
        scan_fold(st, a + b, start, end) == scan_fold(
            scan_fold(st, a, start, end),
            b,
            start,
            end,
        ),
    decreases a.len(),
{
    if a.len() == 0 {
        assert(a + b =~= b);
    } else {
        assert((a + b).drop_first() =~= a.drop_first() + b);
        lemma_fold_append(scan_step(st, a[0], start, end), a.drop_first(), b, start, end);
    }
}

/// The incremental scanner: feed it chunks as they arrive; once the end
/// marker has been matched the payload is available.
pub struct Scanner {
    start_marker: Vec<u8>,
    end_marker: Vec<u8>,
    started: bool,
    start_j: usize,
    end_j: usize,
    out: Vec<u8>,
    done: bool,
}

impl Scanner {
    /// The start marker this scanner searches for.
    pub closed spec fn start_marker_view(self) -> Seq<u8> {
        self.start_marker@
    }

    /// The end marker this scanner searches for.
    pub closed spec fn end_marker_view(self) -> Seq<u8> {
        self.end_marker@
    }

    /// The automaton state this scanner is in.
    pub closed spec fn abs(self) -> ScanState {
        ScanState {
            started: self.started,
            start_j: self.start_j as int,
            end_j: self.end_j as int,
            out: self.out@,
            done: self.done,
        }
    }

    /// The matcher counters stay inside their markers, and never claim more
    /// of a match than has been captured.
    pub closed spec fn wf(self) -> bool {
        &&& self.start_marker@.len() >= 1
        &&& self.end_marker@.len() >= 1
        &&& (!self.done ==> self.start_j < self.start_marker@.len())
        &&& (!self.done ==> self.end_j < self.end_marker@.len())
        &&& (!self.done ==> self.end_j <= self.out@.len())
    }

    /// A fresh scanner for the two given markers.
    pub fn new(start_marker: &[u8], end_marker: &[u8]) -> (r: Scanner)
        requires
            start_marker@.len() >= 1,
            end_marker@.len() >= 1,
        ensures
            r.wf(),
            r.start_marker_view() == start_marker@,
            r.end_marker_view() == end_marker@,
            r.abs() == scan_init(),
    {
        Scanner {
            start_marker: slice_to_vec(start_marker),
            end_marker: slice_to_vec(end_marker),
            started: false,
            start_j: 0,
            end_j: 0,
            out: Vec::new(),
            done: false,
        }
    }

    /// Consumes one chunk of the stream.
    pub fn feed(&mut self, chunk: &[u8])
        requires
            old(self).wf(),
        ensures
            final(self).wf(),
            final(self).start_marker_view() == old(self).start_marker_view(),
            final(self).end_marker_view() == old(self).end_marker_view(),
            final(self).abs() == scan_fold(
                old(self).abs(),
                chunk@,
                old(self).start_marker_view(),
                old(self).end_marker_view(),
            ),
    {
        let ghost st0 = self.abs();
        let ghost start = self.start_marker@;
        let ghost end = self.end_marker@;
        let mut i: usize = 0;
        while i < chunk.len()
            invariant
                i <= chunk@.len(),
                self.wf(),
                self.start_marker@ == start,
                self.end_marker@ == end,
                self.abs() == scan_fold(st0, chunk@.take(i as int), start, end),
            decreases chunk@.len() - i,
        {
            let ghost prev = self.abs();
            proof {
                assert(chunk@.take(i + 1) =~= chunk@.take(i as int).push(chunk@[i as int]));
                lemma_fold_snoc(st0, chunk@.take(i as int), chunk@[i as int], start, end);
            }
            let b = chunk[i];
            if self.done {
                // A finished automaton ignores the byte.
            } else if !self.started {
                if self.start_marker[self.start_j] == b {
                    let marker_len = self.start_marker.len();
                    self.start_j = self.start_j + 1;
                    if self.start_j == marker_len {
                        self.started = true;
                        self.start_j = 0;
                        self.end_j = 0;
                    }
                } else {
                    self.start_j = 0;
                }
            } else {
                self.out.push(b);
                if self.end_marker[self.end_j] == b {
                    let marker_len = self.end_marker.len();
                    self.end_j = self.end_j + 1;
                    if self.end_j == marker_len {
                        let target = self.out.len() - self.end_marker.len();
                        self.out.truncate(target);
                        self.done = true;
                    }
                } else {
                    self.end_j = 0;
                }
            }
            proof {
                assert(self.abs() == scan_step(prev, chunk@[i as int], start, end));
            }
            i = i + 1;
        }
        proof {
            assert(chunk@.take(chunk@.len() as int) =~= chunk@);
        }
    }

    /// Hands out the payload if both markers were matched, and nothing
    /// otherwise.
    pub fn into_payload(self) -> (r: Option<Vec<u8>>)
        ensures
            self.abs().done ==> (r matches Some(v) && v@ == self.abs().out),
            !self.abs().done ==> r is None,
    {
        if self.done {
            Some(self.out)
        } else {
            None
        }
    }
}

/// Scans a chunked byte stream for the bytes strictly between the two
/// markers. The answer depends only on the concatenated bytes.
pub fn scan_bytes(chunks: &Vec<Vec<u8>>, start_marker: &[u8], end_marker: &[u8]) -> (r: Option<
    Vec<u8>,
>)
    ensures
        match scan_spec(stream_bytes(chunks@), start_marker@, end_marker@) {
            Some(payload) => r matches Some(v) && v@ == payload,
            None => r is None,
        },
{
    if start_marker.len() == 0 || end_marker.len() == 0 {
        return None;
    }
    let mut sc = Scanner::new(start_marker, end_marker);
    let mut i: usize = 0;
    while i < chunks.len()
        invariant
            i <= chunks@.len(),
            sc.wf(),
            sc.start_marker_view() == start_marker@,
            sc.end_marker_view() == end_marker@,
            sc.abs() == scan_fold(
                scan_init(),
                stream_bytes(chunks@.take(i as int)),
                start_marker@,
                end_marker@,
            ),
        decreases chunks@.len() - i,
    {
        proof {
            let mapped = chunks@.map_values(|c: Vec<u8>| c@);
            assert(chunks@.take(i + 1).map_values(|c: Vec<u8>| c@) =~= chunks@.take(
                i as int,
            ).map_values(|c: Vec<u8>| c@).push(chunks@[i as int]@));
            chunks@.take(i as int).map_values(|c: Vec<u8>| c@).lemma_flatten_push(
                chunks@[i as int]@,
            );
            lemma_fold_append(
                scan_init(),
                stream_bytes(chunks@.take(i as int)),
                chunks@[i as int]@,
                start_marker@,
                end_marker@,
            );
        }
        sc.feed(chunks[i].as_slice());
        i = i + 1;
    }
    proof {
        assert(chunks@.take(chunks@.len() as int) =~= chunks@);
    }
    sc.into_payload()
}

/// Scans a chunked byte stream and decodes the payload as UTF-8, as the
/// original response bodies carry text. Fails if the markers are not both
/// found or the captured bytes are not valid UTF-8.
pub fn scan(chunks: &Vec<Vec<u8>>, start_marker: &[u8], end_marker: &[u8]) -> (r: Option<String>)
    ensures
        match scan_spec(stream_bytes(chunks@), start_marker@, end_marker@) {
            Some(payload) => {
                &&& (r is Some <==> valid_utf8(payload))
                &&& (r matches Some(s) ==> encode_utf8(s@) == payload)
            },
            None => r is None,
        },
{
    match scan_bytes(chunks, start_marker, end_marker) {
        Some(payload) => bytes_to_string(payload),
        None => None,
    }
}

/// Relies on `String::from_utf8`: it returns `Ok` exactly on valid UTF-8
/// input, and the returned string holds exactly the input bytes.
#[verifier::external_body]
pub(crate) fn bytes_to_string(bytes: Vec<u8>) -> (r: Option<String>)
    ensures
        r is Some <==> valid_utf8(bytes@),
        r matches Some(s) ==> encode_utf8(s@) == bytes@,
{
    String::from_utf8(bytes).ok()
}

/// Split invariance: what `scan` yields is a function of the concatenated
/// stream bytes alone, so any two chunkings of the same buffer scan alike.
pub proof fn lemma_scan_split_invariant(
    c1: Seq<Vec<u8>>,
    c2: Seq<Vec<u8>>,
    start: Seq<u8>,
    end: Seq<u8>,
)
    requires
        stream_bytes(c1) == stream_bytes(c2),
    ensures
        scan_spec(stream_bytes(c1), start, end) == scan_spec(stream_bytes(c2), start, end),
{
}

/// The state the automaton is in right after the start marker was matched.
pub open spec fn capture_state() -> ScanState {
    ScanState { started: true, start_j: 0, end_j: 0, out: Seq::empty(), done: false }
}

/// Running the automaton over the start marker itself matches it in full.
proof fn lemma_start_phase(start: Seq<u8>, end: Seq<u8>, i: int)
    requires
        start.len() >= 1,
        0 <= i <= start.len(),
    ensures
        scan_fold(scan_init(), start.take(i), start, end) == if i < start.len() {
            ScanState { started: false, start_j: i, end_j: 0, out: Seq::empty(), done: false }
        } else {
            capture_state()
        },
    decreases i,
{
    if i == 0 {
        assert(start.take(0) =~= Seq::<u8>::empty());
    } else {
        lemma_start_phase(start, end, i - 1);
        assert(start.take(i) =~= start.take(i - 1).push(start[i - 1]));
        lemma_fold_snoc(scan_init(), start.take(i - 1), start[i - 1], start, end);
    }
}

/// While capturing without completing, the automaton appends every byte it
/// reads and leaves the start counter alone.
proof fn lemma_capture_run(st: ScanState, bytes: Seq<u8>, start: Seq<u8>, end: Seq<u8>)
    requires
        st.started,
        !st.done,
        !scan_fold(st, bytes, start, end).done,
    ensures
        scan_fold(st, bytes, start, end).started,
        scan_fold(st, bytes, start, end).out == st.out + bytes,
        scan_fold(st, bytes, start, end).start_j == st.start_j,
    decreases bytes.len(),
{
    if bytes.len() == 0 {
        assert(st.out + bytes =~= st.out);
    } else {
        let st1 = scan_step(st, bytes[0], start, end);
        if st1.done {
            lemma_fold_done(st1, bytes.drop_first(), start, end);
        }
        lemma_capture_run(st1, bytes.drop_first(), start, end);
        assert(st.out.push(bytes[0]) + bytes.drop_first() =~= st.out + bytes);
    }
}

/// From a capture state with no partial end match, the automaton walks the
/// end marker to completion exactly at its last byte, keeping the payload.
proof fn lemma_end_phase(st: ScanState, start: Seq<u8>, end: Seq<u8>, i: int)
    requires
        st.started,
        !st.done,
        st.end_j == 0,
        end.len() >= 1,
        0 <= i <= end.len(),
    ensures
        scan_fold(st, end.take(i), start, end) == if i < end.len() {
            ScanState {
                started: true,
                start_j: st.start_j,
                end_j: i,
                out: st.out + end.take(i),
                done: false,
            }
        } else {
            ScanState {
                started: true,
                start_j: st.start_j,
                end_j: end.len() as int,
                out: st.out,
                done: true,
            }
        },
    decreases i,
{
    if i == 0 {
        assert(end.take(0) =~= Seq::<u8>::empty());
        assert(st.out + end.take(0) =~= st.out);
    } else {
        lemma_end_phase(st, start, end, i - 1);
        assert(end.take(i) =~= end.take(i - 1).push(end[i - 1]));
        lemma_fold_snoc(st, end.take(i - 1), end[i - 1], start, end);
        let prev = scan_fold(st, end.take(i - 1), start, end);
        if i == end.len() {
            let out2 = prev.out.push(end[i - 1]);
            assert(out2.len() >= end.len());
            assert(out2.take(out2.len() - end.len()) =~= st.out);
        } else {
            assert(prev.out.push(end[i - 1]) =~= st.out + end.take(i));
        }
    }
}

/// Extraction law: a buffer that is exactly the start marker, then a payload,
/// then the end marker scans to exactly that payload, provided the end
/// matcher completes nowhere inside the payload and is left with no partial
/// match when the payload ends.
pub proof fn lemma_scan_extracts_payload(start: Seq<u8>, end: Seq<u8>, payload: Seq<u8>)
    requires
        start.len() >= 1,
        end.len() >= 1,
        !scan_fold(capture_state(), payload, start, end).done,
        scan_fold(capture_state(), payload, start, end).end_j == 0,
    ensures
        scan_spec(start + payload + end, start, end) == Some(payload),
{
    let buf = start + payload + end;
    assert(buf =~= (start + payload) + end);
    lemma_fold_append(scan_init(), start + payload, end, start, end);
    lemma_fold_append(scan_init(), start, payload, start, end);
    lemma_start_phase(start, end, start.len() as int);
    assert(start.take(start.len() as int) =~= start);
    let st1 = scan_fold(capture_state(), payload, start, end);
    lemma_capture_run(capture_state(), payload, start, end);
    assert(st1.out =~= payload);
    lemma_end_phase(st1, start, end, end.len() as int);
    assert(end.take(end.len() as int) =~= end);
}

/// The payload `out` sits strictly between an occurrence of `start` ending
/// at `p + start.len()` and an occurrence of `end` beginning at `q`.
pub open spec fn bracketed(bytes: Seq<u8>, start: Seq<u8>, end: Seq<u8>, out: Seq<u8>, p: int, q: int) -> bool {
    &&& 0 <= p
    &&& p + start.len() <= q
    &&& q + end.len() <= bytes.len()
    &&& bytes.subrange(p, p + start.len()) == start
    &&& bytes.subrange(q, q + end.len()) == end
    &&& out == bytes.subrange(p + start.len(), q)
}

/// `out` is everything consumed after an occurrence of `start` ending at
/// `p + start.len()`.
pub open spec fn captured_from(consumed: Seq<u8>, start: Seq<u8>, out: Seq<u8>, p: int) -> bool {
    &&& occurs_at(consumed, start, p)
    &&& out == consumed.subrange(p + start.len(), consumed.len() as int)
}

/// The whole marker-split law in one statement: however a buffer of the
/// shape `start + payload + end` is cut into chunks, scanning the chunks
/// yields exactly the payload, under the extraction law's conditions on the
/// payload.
pub proof fn lemma_scan_chunked_extraction(
    chunks: Seq<Vec<u8>>,
    start: Seq<u8>,
    end: Seq<u8>,
    payload: Seq<u8>,
)
    requires
        start.len() >= 1,
        end.len() >= 1,
        stream_bytes(chunks) == start + payload + end,
        !scan_fold(capture_state(), payload, start, end).done,
        scan_fold(capture_state(), payload, start, end).end_j == 0,
    ensures
        scan_spec(stream_bytes(chunks), start, end) == Some(payload),
{
    lemma_scan_extracts_payload(start, end, payload);
}

/// Everything the invariant promises of a running scan over the bytes
/// consumed so far: before the start marker is matched, the consumed bytes
/// end with exactly the matched marker prefix; while capturing, the output is
/// everything after a true occurrence of the start marker and ends with the
/// matched end-marker prefix; when done, the output sits strictly between a
/// true occurrence of each marker.
pub open spec fn scan_inv(st: ScanState, consumed: Seq<u8>, start: Seq<u8>, end: Seq<u8>) -> bool {
    if st.done {
        exists|p: int, q: int| bracketed(consumed, start, end, st.out, p, q)
    } else if st.started {
        &&& exists|p: int| captured_from(consumed, start, st.out, p)
        &&& 0 <= st.end_j <= st.out.len()
        &&& st.end_j < end.len()
        &&& st.out.subrange(st.out.len() - st.end_j, st.out.len() as int) == end.take(st.end_j)
    } else {
        &&& st.out.len() == 0
        &&& 0 <= st.start_j < start.len()
        &&& st.start_j <= consumed.len()
        &&& consumed.subrange(consumed.len() - st.start_j, consumed.len() as int) == start.take(
            st.start_j,
        )
    }
}

/// One automaton step preserves the scan invariant.
proof fn lemma_inv_step(st: ScanState, consumed: Seq<u8>, b: u8, start: Seq<u8>, end: Seq<u8>)
    requires
        start.len() >= 1,
        end.len() >= 1,
        scan_inv(st, consumed, start, end),
    ensures
        scan_inv(scan_step(st, b, start, end), consumed.push(b), start, end),
{
    let c2 = consumed.push(b);
    let st2 = scan_step(st, b, start, end);
    if st.done {
        let (p, q) = choose|p: int, q: int| bracketed(consumed, start, end, st.out, p, q);
        assert(c2.subrange(p, p + start.len()) =~= consumed.subrange(p, p + start.len()));
        assert(c2.subrange(q, q + end.len()) =~= consumed.subrange(q, q + end.len()));
        assert(c2.subrange(p + start.len(), q) =~= consumed.subrange(p + start.len(), q));
        assert(bracketed(c2, start, end, st2.out, p, q));
    } else if st.started {
        let p = choose|p: int| captured_from(consumed, start, st.out, p);
        assert(c2.subrange(p, p + start.len()) =~= consumed.subrange(p, p + start.len()));
        assert(occurs_at(c2, start, p));
        let out2 = st.out.push(b);
        assert(out2 =~= c2.subrange(p + start.len(), c2.len() as int));
        assert(captured_from(c2, start, out2, p));
        if 0 <= st.end_j < end.len() && end[st.end_j] == b {
            assert(out2.subrange(out2.len() - (st.end_j + 1), out2.len() as int) =~= st.out.subrange(
                st.out.len() - st.end_j,
                st.out.len() as int,
            ).push(b));
            assert(end.take(st.end_j + 1) =~= end.take(st.end_j).push(end[st.end_j]));
            if st.end_j + 1 == end.len() {
                // The capture completes: the output ends with the whole end
                // marker, which therefore occurs just before the cursor.
                let q = c2.len() - end.len();
                assert(st2.done);
                assert(out2.subrange(out2.len() - end.len(), out2.len() as int) =~= end.take(
                    end.len() as int,
                ));
                assert(end.take(end.len() as int) =~= end);
                assert(c2.subrange(q, q + end.len()) =~= out2.subrange(
                    out2.len() - end.len(),
                    out2.len() as int,
                ));
                assert(st2.out == out2.take(out2.len() - end.len()));
                assert(out2.take(out2.len() - end.len()) =~= c2.subrange(p + start.len(), q));
                assert(p + start.len() <= q);
                assert(bracketed(c2, start, end, st2.out, p, q));
            }
        } else {
            assert(out2.subrange(out2.len() - 0, out2.len() as int) =~= end.take(0));
        }
    } else {
        if 0 <= st.start_j < start.len() && start[st.start_j] == b {
            assert(c2.subrange(c2.len() - (st.start_j + 1), c2.len() as int) =~= consumed.subrange(
                consumed.len() - st.start_j,
                consumed.len() as int,
            ).push(b));
            assert(start.take(st.start_j + 1) =~= start.take(st.start_j).push(start[st.start_j]));
            if st.start_j + 1 == start.len() {
                // The start marker is fully matched: it occurs right before
                // the cursor, and capturing begins with an empty output.
                let p = c2.len() - start.len();
                assert(start.take(start.len() as int) =~= start);
                assert(c2.subrange(p, p + start.len()) =~= start.take(start.len() as int));
                assert(occurs_at(c2, start, p));
                assert(st2.out =~= c2.subrange(p + start.len(), c2.len() as int));
                assert(captured_from(c2, start, st2.out, p));
                assert(st2.out.subrange(st2.out.len() - 0, st2.out.len() as int) =~= end.take(0));
            }
        } else {
            assert(c2.subrange(c2.len() - 0, c2.len() as int) =~= start.take(0));
        }
    }
}

/// The scan invariant carries over any stretch of input.
proof fn lemma_inv_fold(st: ScanState, consumed: Seq<u8>, bytes: Seq<u8>, start: Seq<u8>, end: Seq<
    u8,
>)
    requires
        start.len() >= 1,
        end.len() >= 1,
        scan_inv(st, consumed, start, end),
    ensures
        scan_inv(scan_fold(st, bytes, start, end), consumed + bytes, start, end),
    decreases bytes.len(),
{
    if bytes.len() == 0 {
        assert(consumed + bytes =~= consumed);
    } else {
        lemma_inv_step(st, consumed, bytes[0], start, end);
        lemma_inv_fold(
            scan_step(st, bytes[0], start, end),
            consumed.push(bytes[0]),
            bytes.drop_first(),
            start,
            end,
        );
        assert(consumed.push(bytes[0]) + bytes.drop_first() =~= consumed + bytes);
    }
}

/// Soundness law: a successful scan exhibits a true occurrence of the start
/// marker, a true occurrence of the end marker at or after its end, and the
/// payload is exactly the bytes strictly between the two.
pub proof fn lemma_scan_yields_bracketed_payload(bytes: Seq<u8>, start: Seq<u8>, end: Seq<u8>)
    requires
        scan_spec(bytes, start, end) is Some,
    ensures
        exists|p: int, q: int| bracketed(
            bytes,
            start,
            end,
            scan_spec(bytes, start, end).unwrap(),
            p,
            q,
        ),
{
    let st0 = scan_init();
    assert(scan_inv(st0, Seq::empty(), start, end)) by {
        assert(Seq::<u8>::empty().subrange(0, 0) =~= start.take(0));
    }
    lemma_inv_fold(st0, Seq::empty(), bytes, start, end);
    assert(Seq::<u8>::empty() + bytes =~= bytes);
    let st = scan_fold(scan_init(), bytes, start, end);
    assert(scan_inv(st, bytes, start, end));
    let (p, q) = choose|p: int, q: int| bracketed(bytes, start, end, st.out, p, q);
    assert(scan_spec(bytes, start, end) == Some(st.out));
    assert(bracketed(bytes, start, end, scan_spec(bytes, start, end).unwrap(), p, q));
}

/// Absence law, first half: if the start marker occurs nowhere in the stream,
/// the scan yields nothing.
pub proof fn lemma_scan_none_without_start(bytes: Seq<u8>, start: Seq<u8>, end: Seq<u8>)
    requires
        !occurs(bytes, start),
    ensures
        scan_spec(bytes, start, end) is None,
{
    if scan_spec(bytes, start, end) is Some {
        lemma_scan_yields_bracketed_payload(bytes, start, end);
        let (p, q) = choose|p: int, q: int| bracketed(
            bytes,
            start,
            end,
            scan_spec(bytes, start, end).unwrap(),
            p,
            q,
        );
        assert(occurs_at(bytes, start, p));
    }
}

/// Absence law, second half: if no occurrence of the end marker begins at or
/// after the end of an occurrence of the start marker, the scan yields
/// nothing.
pub proof fn lemma_scan_none_without_following_end(bytes: Seq<u8>, start: Seq<u8>, end: Seq<u8>)
    requires
        forall|p: int, q: int|
            #![trigger occurs_at(bytes, start, p), occurs_at(bytes, end, q)]
            occurs_at(bytes, start, p) && occurs_at(bytes, end, q) ==> q < p + start.len(),
    ensures
        scan_spec(bytes, start, end) is None,
{
    if scan_spec(bytes, start, end) is Some {
        lemma_scan_yields_bracketed_payload(bytes, start, end);
        let (p, q) = choose|p: int, q: int| bracketed(
            bytes,
            start,
            end,
            scan_spec(bytes, start, end).unwrap(),
            p,
            q,
        );
        assert(occurs_at(bytes, start, p));
        assert(occurs_at(bytes, end, q));
    }
}

} // verus!
