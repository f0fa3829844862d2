//! The incremental frame reader.
//!
//! A frame is one complete JSON object. The reader accumulates bytes from
//! the transport in a growable buffer and yields exactly the byte span of
//! the first complete object, keeping any bytes beyond its end for the next
//! call; several replies delivered back-to-back in one read are therefore
//! handed out one at a time without touching the transport again.
//!
//! The boundary is found by a byte scanner that tracks brace/bracket depth
//! and string/escape state: once the depth opened by the leading `{` falls
//! back to zero, the frame ends right after that closing byte.  The scanner
//! never looks past the boundary, and it accepts any chunking of the input.

use vstd::prelude::*;

verus! {

/// Insignificant whitespace between JSON tokens.
pub open spec fn is_json_ws(b: u8) -> bool {
    b == 0x20 || b == 0x09 || b == 0x0a || b == 0x0d
}

/// The scanner's state after some bytes of a frame.
///
/// `Before`: only whitespace so far. `Open`: inside the object, at nesting
/// `depth`, possibly inside a string (`in_str`) right after a backslash
/// (`esc`). `Done`: a full object ended at byte index `end` (exclusive).
/// `Bad`: the stream cannot start a JSON object.
pub ghost enum ScanState {
    Before,
    Open { depth: int, in_str: bool, esc: bool },
    Done { end: int },
    Bad,
}

/// One scanner transition on byte `b` at index `i`.
pub open spec fn scan_step(st: ScanState, b: u8, i: int) -> ScanState {
    match st {
        ScanState::Before => if is_json_ws(b) {
            ScanState::Before
        } else if b == 0x7b {
            ScanState::Open { depth: 1, in_str: false, esc: false }
        } else {
            ScanState::Bad
        },
        ScanState::Open { depth, in_str, esc } => if in_str {
            if esc {
                ScanState::Open { depth, in_str: true, esc: false }
            } else if b == 0x5c {
                ScanState::Open { depth, in_str: true, esc: true }
            } else if b == 0x22 {
                ScanState::Open { depth, in_str: false, esc: false }
            } else {
                st
            }
        } else {
            if b == 0x22 {
                ScanState::Open { depth, in_str: true, esc: false }
            } else if b == 0x7b || b == 0x5b {
                ScanState::Open { depth: depth + 1, in_str: false, esc: false }
            } else if b == 0x7d || b == 0x5d {
                if depth == 1 {
                    ScanState::Done { end: i + 1 }
                } else {
                    ScanState::Open { depth: depth - 1, in_str: false, esc: false }
                }
            } else {
                st
            }
        },
        ScanState::Done { .. } => st,
        ScanState::Bad => st,
    }
}

/// Run the scanner over `s` from index `i` onward, starting in state `st`.
pub open spec fn scan_from(s: Seq<u8>, i: int, st: ScanState) -> ScanState
    decreases s.len() - i,
{
    if i < 0 || i >= s.len() {
        st
    } else {
        scan_from(s, i + 1, scan_step(st, s[i], i))
    }
}

/// The scanner's verdict on a whole buffer.
pub open spec fn frame_scan(s: Seq<u8>) -> ScanState {
    scan_from(s, 0, ScanState::Before)
}

/// `Done` and `Bad` are absorbing: once reached, further bytes change nothing.
pub proof fn lemma_scan_absorb(s: Seq<u8>, i: int, st: ScanState)
    requires
        st is Done || st is Bad,
    ensures
        scan_from(s, i, st) == st,
    decreases s.len() - i,
{
    if 0 <= i < s.len() {
        lemma_scan_absorb(s, i + 1, scan_step(st, s[i], i));
    }
}

/// Scanning a concatenation is scanning the first part, then the second.
pub proof fn lemma_scan_append(s: Seq<u8>, ext: Seq<u8>, i: int, st: ScanState)
    requires
        0 <= i <= s.len(),
    ensures
        scan_from(s + ext, i, st) == scan_from(s + ext, s.len() as int, scan_from(s, i, st)),
    decreases s.len() - i,
{
    if i < s.len() {
        assert((s + ext)[i] == s[i]);
        lemma_scan_append(s, ext, i + 1, scan_step(st, s[i], i));
    }
}

/// A buffer whose frame is complete (or hopeless) keeps that verdict,
/// whatever bytes arrive after it.
pub proof fn lemma_scan_stable(s: Seq<u8>, ext: Seq<u8>)
    requires
        frame_scan(s) is Done || frame_scan(s) is Bad,
    ensures
        frame_scan(s + ext) == frame_scan(s),
{
    lemma_scan_append(s, ext, 0, ScanState::Before);
    lemma_scan_absorb(s + ext, s.len() as int, frame_scan(s));
}

/// Bookkeeping invariant: a frame never ends after the bytes scanned so far.
pub open spec fn scan_wf(st: ScanState, i: int) -> bool {
    match st {
        ScanState::Done { end } => 0 < end <= i,
        _ => true,
    }
}

pub proof fn lemma_scan_wf(s: Seq<u8>, i: int, st: ScanState)
    requires
        0 <= i <= s.len(),
        scan_wf(st, i),
    ensures
        scan_wf(scan_from(s, i, st), s.len() as int),
    decreases s.len() - i,
{
    if i < s.len() {
        lemma_scan_wf(s, i + 1, scan_step(st, s[i], i));
    }
}

/// Frame-boundary correctness under arbitrary chunking: while a buffer is
/// still a proper prefix of a frame the scanner never reports a (different)
/// boundary and never rejects; as soon as the buffer covers the frame, the
/// boundary reported is the frame's own, no matter how the bytes arrived.
pub proof fn lemma_frame_boundary(s: Seq<u8>, k: int)
    requires
        0 <= k <= s.len(),
        frame_scan(s) is Done,
    ensures
        match frame_scan(s.take(k)) {
            ScanState::Done { end } => frame_scan(s) == ScanState::Done { end } && end <= k,
            ScanState::Bad => false,
            _ => true,
        },
{
    let pre = s.take(k);
    assert(pre + s.skip(k) =~= s);
    match frame_scan(pre) {
        ScanState::Done { end } => {
            lemma_scan_stable(pre, s.skip(k));
            lemma_scan_wf(pre, 0, ScanState::Before);
        },
        ScanState::Bad => {
            lemma_scan_stable(pre, s.skip(k));
        },
        _ => {},
    }
}

/// Pipelining tolerance: when two complete frames sit in the buffer
/// back-to-back, the scanner finds exactly the first one's boundary, and the
/// remainder after removing it is exactly the second frame.
pub proof fn lemma_pipelining(f1: Seq<u8>, f2: Seq<u8>)
    requires
        frame_scan(f1) == (ScanState::Done { end: f1.len() as int }),
    ensures
        frame_scan(f1 + f2) == (ScanState::Done { end: f1.len() as int }),
        (f1 + f2).take(f1.len() as int) == f1,
        (f1 + f2).skip(f1.len() as int) == f2,
{
    lemma_scan_stable(f1, f2);
    assert((f1 + f2).take(f1.len() as int) =~= f1);
    assert((f1 + f2).skip(f1.len() as int) =~= f2);
}

/// What one call to [`FrameReader::next_frame`] returns.
#[derive(Debug)]
pub enum FrameStep {
    /// A complete frame: exactly the bytes of one JSON object (with any
    /// whitespace that preceded it).
    Ready(Vec<u8>),
    /// No complete frame yet; more bytes are needed.
    Incomplete,
    /// The buffered bytes cannot begin a JSON object.
    Invalid,
}

/// The incremental frame reader: a growable buffer of bytes received from
/// the transport but not yet handed out as frames.  There is no bound on
/// the size of a frame; the buffer grows to fit.
#[derive(Debug)]
pub struct FrameReader {
    buf: Vec<u8>,
}

impl View for FrameReader {
    type V = Seq<u8>;

    closed spec fn view(&self) -> Seq<u8> {
        self.buf@
    }
}

impl FrameReader {
    /// An empty reader.
    pub fn new() -> (r: Self)
        ensures
            r@ == Seq::<u8>::empty(),
    {
        FrameReader { buf: Vec::new() }
    }

    /// Append bytes read from the transport.
    pub fn feed(&mut self, chunk: &[u8])
        ensures
            final(self)@ == old(self)@ + chunk@,
    {
        self.buf.extend_from_slice(chunk);
    }

    /// Hand out the first complete frame of the buffer, if there is one,
    /// keeping every byte after it for the next call.
    pub fn next_frame(&mut self) -> (r: FrameStep)
        ensures
            match frame_scan(old(self)@) {
                ScanState::Done { end } => r matches FrameStep::Ready(f) && f@ == old(self)@.take(
                    end,
                ) && final(self)@ == old(self)@.skip(end),
                ScanState::Bad => r is Invalid && final(self)@ == old(self)@,
                _ => r is Incomplete && final(self)@ == old(self)@,
            },
    {
        let ghost s = self.buf@;
        let n = self.buf.len();
        let mut i: usize = 0;
        let mut opened = false;
        let mut depth: usize = 0;
        let mut in_str = false;
        let mut esc = false;
        let mut end: usize = 0;
        let mut verdict: u8 = 0;  // 0 = incomplete, 1 = done, 2 = bad
        while i < n
            invariant_except_break
                0 <= i <= n,
                n == s.len(),
                s == self.buf@,
                verdict == 0,
                opened ==> 1 <= depth <= i,
                !in_str ==> !esc,
                frame_scan(s.take(i as int)) == if opened {
                    ScanState::Open { depth: depth as int, in_str, esc }
                } else {
                    ScanState::Before
                },
            ensures
                s == self.buf@,
                0 <= i <= n,
                n == s.len(),
                verdict == 0 || verdict == 1 || verdict == 2,
                verdict == 0 ==> i == n && !(frame_scan(s.take(i as int)) is Done) && !(frame_scan(
                    s.take(i as int),
                ) is Bad),
                verdict == 1 ==> frame_scan(s.take(i as int)) == (ScanState::Done {
                    end: end as int,
                }) && end == i && 0 < end <= n,
                verdict == 2 ==> frame_scan(s.take(i as int)) == ScanState::Bad,
            decreases n - i,
        {
            let b = self.buf[i];
            proof {
                let pre = s.take(i as int);
                let cur = frame_scan(pre);
                let stepped = scan_step(cur, s[i as int], i as int);
                assert(pre + seq![s[i as int]] =~= s.take(i + 1));
                lemma_scan_append(pre, seq![s[i as int]], 0, ScanState::Before);
                assert(frame_scan(s.take(i + 1)) == scan_from(s.take(i + 1), i as int, cur));
                assert(s.take(i + 1)[i as int] == s[i as int]);
                assert(scan_from(s.take(i + 1), i as int, cur) == scan_from(
                    s.take(i + 1),
                    i + 1,
                    stepped,
                ));
                assert(scan_from(s.take(i + 1), i + 1, stepped) == stepped);
                assert(frame_scan(s.take(i + 1)) == stepped);
            }
            if !opened {
                if b == 0x20 || b == 0x09 || b == 0x0a || b == 0x0d {
                    // still before the object
                } else if b == 0x7b {
                    opened = true;
                    depth = 1;
                    in_str = false;
                    esc = false;
                } else {
                    verdict = 2;
                    i += 1;
                    break ;
                }
            } else if in_str {
                if esc {
                    esc = false;
                } else if b == 0x5c {
                    esc = true;
                } else if b == 0x22 {
                    in_str = false;
                }
            } else {
                if b == 0x22 {
                    in_str = true;
                } else if b == 0x7b || b == 0x5b {
                    depth = depth + 1;
                } else if b == 0x7d || b == 0x5d {
                    if depth == 1 {
                        verdict = 1;
                        end = i + 1;
                        i += 1;
                        break ;
                    }
                    depth = depth - 1;
                }
            }
            i += 1;
        }
        proof {
            if verdict == 0 {
                assert(s.take(n as int) =~= s);
            } else {
                assert(s.take(i as int) + s.skip(i as int) =~= s);
                lemma_scan_stable(s.take(i as int), s.skip(i as int));
            }
        }
        if verdict == 1 {
            let mut rest = self.buf.split_off(end);
            core::mem::swap(&mut self.buf, &mut rest);
            FrameStep::Ready(rest)
        } else if verdict == 2 {
            FrameStep::Invalid
        } else {
            FrameStep::Incomplete
        }
    }
}

} // verus!
