use vstd::prelude::*;

use crate::frame::{
    decodes_to, frame_error, sync_marker, DecodeError, Reading, FRAME_LEN, SYNC_LEN,
};

verus! {

/// The three timing parameters of a frame read, in milliseconds: the bound on
/// a single transport read, and the deadlines of the synchronization and
/// payload phases. Each phase's deadline counts from the start of that phase.
#[derive(Debug, Clone, Copy, PartialEq, Eq, Structural)]
pub struct ReaderConfig {
    pub io_timeout_ms: u64,
    pub sync_deadline_ms: u64,
    pub payload_deadline_ms: u64,
}

impl ReaderConfig {
    /// One second per transport read, five seconds for each phase.
    pub fn standard() -> (r: ReaderConfig)
        ensures
            r == (ReaderConfig { io_timeout_ms: 1000, sync_deadline_ms: 5000, payload_deadline_ms: 5000 }),
    {
        ReaderConfig { io_timeout_ms: 1000, sync_deadline_ms: 5000, payload_deadline_ms: 5000 }
    }
}

/// Why a frame read ended without a reading.
#[derive(Debug, Clone, Copy, PartialEq, Eq, Structural)]
pub enum ReadError {
    /// No synchronization marker was found before the sync deadline.
    SyncTimeout,
    /// The marker was found, but the rest of the frame did not arrive in time.
    PayloadTimeout,
    /// The transport failed for a reason other than a timeout.
    Io,
    /// A whole frame arrived and could not be decoded.
    Decode(DecodeError),
}

/// What the transport reported for the read that the reader asked for.
pub enum ReadEvent {
    /// These bytes arrived, at most as many as were asked for.
    Received(Vec<u8>),
    /// The transport's own per-read timeout elapsed with nothing read.
    TimedOut,
    /// The transport failed otherwise.
    Failed,
}

/// What the caller is to do next.
#[derive(Debug)]
pub enum Step {
    /// Read at most `len` bytes, waiting at most `wait_ms` milliseconds.
    Read { len: usize, wait_ms: u64 },
    /// The frame read is over.
    Done(Result<Reading, ReadError>),
}

/// Where a scan of the byte stream stands: `(false, w)` while hunting for the
/// marker, `w` being the last bytes seen (at most five); `(true, f)` once the
/// marker is found, `f` being the frame gathered so far, marker included.
pub type ScanState = (bool, Seq<u8>);

/// The state of a scan that has seen nothing yet.
pub open spec fn fresh_scan() -> ScanState {
    (false, Seq::<u8>::empty())
}

/// The scan holds a whole frame.
pub open spec fn is_complete(s: ScanState) -> bool {
    s.0 && s.1.len() == FRAME_LEN
}

/// The window of the last (at most five) bytes after `b` is appended to `w`.
pub open spec fn slide(w: Seq<u8>, b: u8) -> Seq<u8> {
    if w.len() < SYNC_LEN {
        w.push(b)
    } else {
        w.subrange(w.len() - (SYNC_LEN - 1), w.len() as int).push(b)
    }
}

/// The scan after one more byte of the stream. A complete scan takes no more.
pub open spec fn scan_byte(s: ScanState, b: u8) -> ScanState {
    if s.0 {
        if s.1.len() >= FRAME_LEN {
            s
        } else {
            (true, s.1.push(b))
        }
    } else {
        let w = slide(s.1, b);
        (w == sync_marker(), w)
    }
}

/// The scan after the bytes `bs` of the stream, in order.
pub open spec fn scan(s: ScanState, bs: Seq<u8>) -> ScanState
    decreases bs.len(),
{
    if bs.len() == 0 {
        s
    } else {
        scan_byte(scan(s, bs.drop_last()), bs.last())
    }
}

/// A state that a scan can be in between two reads.
pub open spec fn scan_wf(s: ScanState) -> bool {
    if s.0 {
        SYNC_LEN <= s.1.len() <= FRAME_LEN && s.1.subrange(0, SYNC_LEN as int) == sync_marker()
    } else {
        s.1.len() <= SYNC_LEN && s.1 != sync_marker()
    }
}

/// How many bytes the scan asks for next: the rest of the marker window, one
/// more byte once a full window did not match, or the rest of the frame. None
/// of these reaches past the end of the frame.
pub open spec fn bytes_needed(s: ScanState) -> int {
    if s.0 {
        FRAME_LEN - s.1.len()
    } else if s.1.len() < SYNC_LEN {
        SYNC_LEN - s.1.len()
    } else {
        1
    }
}

/// Milliseconds from `start` to `now` on a monotonic clock (none if the clock
/// reads earlier than `start`).
pub open spec fn elapsed(start: u64, now: u64) -> int {
    if now >= start {
        now - start
    } else {
        0
    }
}

/// The deadline of the phase a scan is in.
pub open spec fn phase_deadline(c: ReaderConfig, in_payload: bool) -> int {
    if in_payload {
        c.payload_deadline_ms as int
    } else {
        c.sync_deadline_ms as int
    }
}

/// The error that ends a phase whose deadline passed.
pub open spec fn timeout_error(in_payload: bool) -> ReadError {
    if in_payload {
        ReadError::PayloadTimeout
    } else {
        ReadError::SyncTimeout
    }
}

/// How long the next read may wait: the transport bound, or what is left of
/// the phase's deadline if that is less.
pub open spec fn wait_for(c: ReaderConfig, in_payload: bool, start: u64, now: u64) -> int {
    let left = phase_deadline(c, in_payload) - elapsed(start, now);
    if left < c.io_timeout_ms {
        left
    } else {
        c.io_timeout_ms as int
    }
}

/// `r` is what decoding the gathered frame `f` gives.
pub open spec fn frame_result(f: Seq<u8>, r: Result<Reading, ReadError>) -> bool {
    match r {
        Ok(reading) => frame_error(f) is None && decodes_to(f, reading),
        Err(ReadError::Decode(e)) => frame_error(f) == Some(e),
        Err(_) => false,
    }
}

/// A reader that has just begun a phase of hunting for a marker at `now`.
pub open spec fn restarted(after: FrameReader, now: u64) -> bool {
    after.scan_state() == fresh_scan() && after.phase_start() == now
}

/// With the scan at `s` in a phase begun at `start`: a read ends in the phase's
/// timeout error once its deadline has passed at `now`; otherwise the reader
/// keeps its state and asks for the bytes it needs, waiting no longer than
/// the transport bound or the rest of the deadline.
pub open spec fn continue_or_timeout(
    c: ReaderConfig,
    s: ScanState,
    start: u64,
    now: u64,
    after: FrameReader,
    r: Step,
) -> bool {
    if elapsed(start, now) >= phase_deadline(c, s.0) {
        r == Step::Done(Err(timeout_error(s.0))) && restarted(after, now)
    } else {
        &&& after.scan_state() == s
        &&& after.phase_start() == start
        &&& r == (Step::Read {
            len: bytes_needed(s) as usize,
            wait_ms: wait_for(c, s.0, start, now) as u64,
        })
    }
}

/// The outcome of `bs` arriving at `now` at a reader in state `before`: the
/// bytes are scanned in order; a completed frame is decoded and handed back;
/// otherwise the read goes on or times out. The payload phase's clock starts
/// when the marker is found.
pub open spec fn received_outcome(
    before: FrameReader,
    bs: Seq<u8>,
    now: u64,
    after: FrameReader,
    r: Step,
) -> bool {
    let s = scan(before.scan_state(), bs);
    let start = if !before.scan_state().0 && s.0 {
        now
    } else {
        before.phase_start()
    };
    if is_complete(s) {
        &&& r matches Step::Done(res) && frame_result(s.1, res)
        &&& restarted(after, now)
    } else {
        continue_or_timeout(before.config(), s, start, now, after, r)
    }
}

/// A stream holds no synchronization marker.
pub open spec fn no_marker(t: Seq<u8>) -> bool {
    forall|i: int| 0 <= i && i + SYNC_LEN <= t.len() ==> #[trigger] t.subrange(i, i + SYNC_LEN) != sync_marker()
}

/// The last (at most five) bytes of `t`.
pub open spec fn tail_window(t: Seq<u8>) -> Seq<u8> {
    if t.len() <= SYNC_LEN {
        t
    } else {
        t.subrange(t.len() - SYNC_LEN, t.len() as int)
    }
}

/// Scanning `a` and then `b` is scanning `a + b`: the reader's state does not
/// depend on how the stream was split into reads.
pub proof fn lemma_scan_concat(s: ScanState, a: Seq<u8>, b: Seq<u8>)
    ensures
        scan(s, a + b) == scan(scan(s, a), b),
    decreases b.len(),
{
    if b.len() == 0 {
        assert(a + b =~= a);
    } else {
        assert((a + b).drop_last() =~= a + b.drop_last());
        assert((a + b).last() == b.last());
        lemma_scan_concat(s, a, b.drop_last());
    }
}

/// Once a whole frame is gathered, further bytes leave the scan unchanged.
proof fn lemma_complete_absorbs(s: ScanState, bs: Seq<u8>)
    requires
        is_complete(s),
    ensures
        scan(s, bs) == s,
    decreases bs.len(),
{
    if bs.len() > 0 {
        lemma_complete_absorbs(s, bs.drop_last());
    }
}

/// Scanning one more byte of a prefix.
proof fn lemma_scan_prefix(s: ScanState, bs: Seq<u8>, i: int)
    requires
        0 <= i < bs.len(),
    ensures
        scan(s, bs.subrange(0, i + 1)) == scan_byte(scan(s, bs.subrange(0, i)), bs[i]),
{
    assert(bs.subrange(0, i + 1).drop_last() =~= bs.subrange(0, i));
}

/// A stream without a marker leaves the scan hunting, with its last bytes as
/// the window.
proof fn lemma_hunting(t: Seq<u8>)
    requires
        no_marker(t),
    ensures
        scan(fresh_scan(), t) == (false, tail_window(t)),
    decreases t.len(),
{
    if t.len() > 0 {
        let p = t.drop_last();
        assert forall|i: int| 0 <= i && i + SYNC_LEN <= p.len() implies #[trigger] p.subrange(i, i + SYNC_LEN) != sync_marker() by {
            assert(p.subrange(i, i + SYNC_LEN) =~= t.subrange(i, i + SYNC_LEN));
        }
        lemma_hunting(p);
        let w = slide(tail_window(p), t.last());
        assert(w =~= tail_window(t));
        if t.len() >= SYNC_LEN {
            let i = t.len() - SYNC_LEN;
            assert(t.subrange(i, i + SYNC_LEN) != sync_marker());
            assert(tail_window(t) =~= t.subrange(i, i + SYNC_LEN));
        } else {
            assert(w.len() != sync_marker().len());
        }
    }
}

/// Once the marker is found, each byte is appended to the frame.
proof fn lemma_gathering(p: Seq<u8>, q: Seq<u8>)
    requires
        p.len() + q.len() <= FRAME_LEN,
    ensures
        scan((true, p), q) == (true, p + q),
    decreases q.len(),
{
    if q.len() == 0 {
        assert(p + q =~= p);
    } else {
        lemma_gathering(p, q.drop_last());
        assert((p + q.drop_last()).push(q.last()) =~= p + q);
    }
}

/// Any run of noise that holds no marker, followed by a whole frame, is
/// scanned into exactly that frame, whatever the length of the noise.
pub proof fn lemma_noise_then_frame(noise: Seq<u8>, frame: Seq<u8>)
    requires
        no_marker(noise),
        frame.len() == FRAME_LEN,
        frame.subrange(0, SYNC_LEN as int) == sync_marker(),
    ensures
        scan(fresh_scan(), noise + frame) == (true, frame),
        is_complete(scan(fresh_scan(), noise + frame)),
{
    let head = frame.subrange(0, 4);
    let t = noise + head;
    assert forall|i: int| 0 <= i && i + SYNC_LEN <= t.len() implies #[trigger] t.subrange(i, i + SYNC_LEN) != sync_marker() by {
        if i + SYNC_LEN <= noise.len() {
            assert(t.subrange(i, i + SYNC_LEN) =~= noise.subrange(i, i + SYNC_LEN));
        } else {
            let j = noise.len() - i;
            assert(frame[0] == sync_marker()[0]) by {
                assert(frame.subrange(0, SYNC_LEN as int)[0] == frame[0]);
            }
            assert(t.subrange(i, i + SYNC_LEN)[j] == t[noise.len() as int]);
            assert(t[noise.len() as int] == frame[0]);
        }
    }
    lemma_hunting(t);
    let marked = t.push(frame[4]);
    lemma_scan_concat(fresh_scan(), t, seq![frame[4]]);
    assert(seq![frame[4]].drop_last() =~= Seq::<u8>::empty());
    assert(t + seq![frame[4]] =~= marked);
    assert(scan(scan(fresh_scan(), t), seq![frame[4]].drop_last()) == scan(fresh_scan(), t));
    assert(seq![frame[4]].last() == frame[4]);
    assert(scan(scan(fresh_scan(), t), seq![frame[4]]) == scan_byte(scan(fresh_scan(), t), frame[4]));
    let w = tail_window(t);
    if noise.len() == 0 {
        assert(t =~= head);
        assert(w =~= head);
        assert(slide(w, frame[4]) =~= head.push(frame[4]));
    } else {
        assert(w =~= t.subrange(t.len() - SYNC_LEN, t.len() as int));
        assert(w.subrange(w.len() - (SYNC_LEN - 1), w.len() as int) =~= head);
        assert(slide(w, frame[4]) =~= head.push(frame[4]));
    }
    assert(head.push(frame[4]) =~= frame.subrange(0, SYNC_LEN as int));
    assert(scan(fresh_scan(), marked) == (true, frame.subrange(0, SYNC_LEN as int)));
    let rest = frame.subrange(SYNC_LEN as int, FRAME_LEN as int);
    lemma_scan_concat(fresh_scan(), marked, rest);
    assert(marked + rest =~= noise + frame);
    lemma_gathering(frame.subrange(0, SYNC_LEN as int), rest);
    assert(frame.subrange(0, SYNC_LEN as int) + rest =~= frame);
}

/// A read that has gathered nothing once the synchronization deadline has
/// passed ends in `SyncTimeout`; one that found the marker and then stalled
/// until the payload deadline passed ends in `PayloadTimeout`.
pub proof fn lemma_stalled_reads_time_out(
    c: ReaderConfig,
    s: ScanState,
    start: u64,
    now: u64,
    after: FrameReader,
    r: Step,
)
    requires
        scan_wf(s),
        elapsed(start, now) >= phase_deadline(c, s.0),
        continue_or_timeout(c, s, start, now, after, r),
    ensures
        !s.0 ==> r == Step::Done(Err(ReadError::SyncTimeout)),
        s.0 ==> r == Step::Done(Err(ReadError::PayloadTimeout)),
        restarted(after, now),
{
}

/// Recovers frames from a byte stream that may start in the middle of a frame
/// or carry noise, under a deadline for each phase of a read.
pub struct FrameReader {
    config: ReaderConfig,
    in_payload: bool,
    bytes: Vec<u8>,
    phase_start_ms: u64,
}

impl FrameReader {
    /// Where the scan stands.
    pub closed spec fn scan_state(&self) -> ScanState {
        (self.in_payload, self.bytes@)
    }

    /// The clock reading at which the current phase began.
    pub closed spec fn phase_start(&self) -> u64 {
        self.phase_start_ms
    }

    /// The timing parameters the reader was made with.
    pub closed spec fn config(&self) -> ReaderConfig {
        self.config
    }

    /// The reader is between two reads of the stream.
    pub open spec fn wf(&self) -> bool {
        scan_wf(self.scan_state()) && !is_complete(self.scan_state())
    }

    /// A reader that starts hunting for a marker at clock reading `now_ms`.
    pub fn new(config: ReaderConfig, now_ms: u64) -> (r: FrameReader)
        ensures
            r.wf(),
            r.scan_state() == fresh_scan(),
            r.phase_start() == now_ms,
            r.config() == config,
    {
        let r = FrameReader { config, in_payload: false, bytes: Vec::new(), phase_start_ms: now_ms };
        assert(r.bytes@ =~= Seq::<u8>::empty());
        assert(r.bytes@.len() != sync_marker().len());
        r
    }

    /// Starts a new hunting phase at `now_ms`.
    fn restart(&mut self, now_ms: u64)
        ensures
            restarted(*final(self), now_ms),
            final(self).wf(),
            final(self).config() == old(self).config(),
    {
        self.in_payload = false;
        self.bytes = Vec::new();
        self.phase_start_ms = now_ms;
        assert(self.bytes@ =~= Seq::<u8>::empty());
        assert(self.bytes@.len() != sync_marker().len());
    }

    /// Takes one byte of the stream into the scan.
    fn push_byte(&mut self, b: u8, now_ms: u64)
        requires
            old(self).wf(),
        ensures
            final(self).scan_state() == scan_byte(old(self).scan_state(), b),
            scan_wf(final(self).scan_state()),
            final(self).config() == old(self).config(),
            final(self).phase_start() == (if !old(self).in_payload && final(self).in_payload {
                now_ms
            } else {
                old(self).phase_start()
            }),
    {
        if self.in_payload {
            let ghost before = self.bytes@;
            self.bytes.push(b);
            assert(self.bytes@.subrange(0, SYNC_LEN as int) =~= before.subrange(0, SYNC_LEN as int));
        } else {
            let ghost w = self.bytes@;
            if self.bytes.len() == SYNC_LEN {
                self.bytes.remove(0);
                assert(self.bytes@ =~= w.subrange(w.len() - (SYNC_LEN - 1), w.len() as int));
            }
            self.bytes.push(b);
            assert(self.bytes@ == slide(w, b));
            if self.bytes.len() == SYNC_LEN {
                assert(self.bytes@.subrange(0, SYNC_LEN as int) =~= self.bytes@);
                if Reading::starts_with_sync(self.bytes.as_slice()) {
                    self.in_payload = true;
                    self.phase_start_ms = now_ms;
                }
            } else {
                assert(self.bytes@.len() != sync_marker().len());
            }
        }
    }

    /// Asks for the next bytes, or ends the read if the phase's deadline has
    /// passed at `now_ms`.
    pub fn poll(&mut self, now_ms: u64) -> (r: Step)
        requires
            old(self).wf(),
        ensures
            final(self).wf(),
            final(self).config() == old(self).config(),
            continue_or_timeout(
                old(self).config(),
                old(self).scan_state(),
                old(self).phase_start(),
                now_ms,
                *final(self),
                r,
            ),
    {
        let start = self.phase_start_ms;
        let spent: u64 = if now_ms >= start {
            now_ms - start
        } else {
            0
        };
        let deadline = if self.in_payload {
            self.config.payload_deadline_ms
        } else {
            self.config.sync_deadline_ms
        };
        if spent >= deadline {
            let err = if self.in_payload {
                ReadError::PayloadTimeout
            } else {
                ReadError::SyncTimeout
            };
            self.restart(now_ms);
            return Step::Done(Err(err));
        }
        let left = deadline - spent;
        let wait_ms = if left < self.config.io_timeout_ms {
            left
        } else {
            self.config.io_timeout_ms
        };
        let len: usize = if self.in_payload {
            FRAME_LEN - self.bytes.len()
        } else if self.bytes.len() < SYNC_LEN {
            SYNC_LEN - self.bytes.len()
        } else {
            1
        };
        Step::Read { len, wait_ms }
    }

    /// Takes what the transport reported at clock reading `now_ms` and says
    /// what to do next. After a finished read the reader hunts for the next
    /// frame, from where the stream now stands.
    pub fn step(&mut self, event: ReadEvent, now_ms: u64) -> (r: Step)
        requires
            old(self).wf(),
        ensures
            final(self).wf(),
            final(self).config() == old(self).config(),
            match event {
                ReadEvent::Received(bs) => received_outcome(*old(self), bs@, now_ms, *final(self), r),
                ReadEvent::TimedOut => continue_or_timeout(
                    old(self).config(),
                    old(self).scan_state(),
                    old(self).phase_start(),
                    now_ms,
                    *final(self),
                    r,
                ),
                ReadEvent::Failed => r == Step::Done(Err(ReadError::Io)) && restarted(
                    *final(self),
                    now_ms,
                ),
            },
    {
        match event {
            ReadEvent::Received(bs) => self.take(&bs, now_ms),
            ReadEvent::TimedOut => self.poll(now_ms),
            ReadEvent::Failed => {
                self.restart(now_ms);
                Step::Done(Err(ReadError::Io))
            },
        }
    }

    /// Scans the bytes that arrived, then decodes a completed frame or goes on.
    fn take(&mut self, bs: &Vec<u8>, now_ms: u64) -> (r: Step)
        requires
            old(self).wf(),
        ensures
            final(self).wf(),
            final(self).config() == old(self).config(),
            received_outcome(*old(self), bs@, now_ms, *final(self), r),
    {
        let ghost s0 = self.scan_state();
        let ghost start0 = self.phase_start();
        let mut i: usize = 0;
        while i < bs.len() && !(self.in_payload && self.bytes.len() == FRAME_LEN)
            invariant
                i <= bs@.len(),
                scan_wf(self.scan_state()),
                self.scan_state() == scan(s0, bs@.subrange(0, i as int)),
                self.config == old(self).config,
                s0.0 ==> self.in_payload,
                self.phase_start() == (if !s0.0 && self.in_payload {
                    now_ms
                } else {
                    start0
                }),
            decreases bs@.len() - i,
        {
            proof {
                lemma_scan_prefix(s0, bs@, i as int);
            }
            self.push_byte(bs[i], now_ms);
            i = i + 1;
        }
        proof {
            let done = bs@.subrange(0, i as int);
            let later = bs@.subrange(i as int, bs@.len() as int);
            assert(done + later =~= bs@);
            lemma_scan_concat(s0, done, later);
            if i < bs@.len() {
                lemma_complete_absorbs(self.scan_state(), later);
            } else {
                assert(later =~= Seq::<u8>::empty());
            }
        }
        if self.in_payload && self.bytes.len() == FRAME_LEN {
            let result = match Reading::parse(self.bytes.as_slice()) {
                Ok(reading) => Ok(reading),
                Err(e) => Err(ReadError::Decode(e)),
            };
            self.restart(now_ms);
            Step::Done(result)
        } else {
            self.poll(now_ms)
        }
    }
}

} // verus!
