//! Telemetry sinks that stream mission telemetry to a writer and count
//! what they wrote, the cadence at which a capture writes frames, the
//! checks a decoded telemetry stream must pass, and the replay written from
//! a validated stream.
use crate::crc::{crc32, crc32_ieee_of};
use crate::fnv::{fnv_fold, rolling_hash, FNV_OFFSET};
use crate::le::{le_i32, le_u16, le_u32, push_u16, push_u32, push_zeros, zeros};
use crate::session::{concat_all, lemma_concat_push, put_bytes};
use vstd::prelude::*;

verus! {

/// One write that a telemetry sink counts: a header or a frame, of its
/// length in bytes.
#[derive(Clone, Copy, Debug, PartialEq, Eq, Structural)]
pub enum SinkWrite {
    Header(usize),
    Frame(usize),
}

/// The frame and byte counts after one more counted write.
pub open spec fn sink_step(counts: (nat, nat), w: SinkWrite) -> (nat, nat) {
    match w {
        SinkWrite::Header(len) => (counts.0, (counts.1 + len) as nat),
        SinkWrite::Frame(len) => ((counts.0 + 1) as nat, (counts.1 + len) as nat),
    }
}

/// The frame and byte counts of a fresh sink after `writes`, in order.
pub open spec fn sink_run(writes: Seq<SinkWrite>) -> (nat, nat)
    decreases writes.len(),
{
    if writes.len() == 0 {
        (0, 0)
    } else {
        sink_step(sink_run(writes.drop_last()), writes.last())
    }
}

pub open spec fn headers_in(writes: Seq<SinkWrite>) -> nat
    decreases writes.len(),
{
    if writes.len() == 0 {
        0
    } else {
        headers_in(writes.drop_last()) + if writes.last() is Header {
            1nat
        } else {
            0nat
        }
    }
}

pub open spec fn frames_in(writes: Seq<SinkWrite>) -> nat
    decreases writes.len(),
{
    if writes.len() == 0 {
        0
    } else {
        frames_in(writes.drop_last()) + if writes.last() is Frame {
            1nat
        } else {
            0nat
        }
    }
}

/// A fresh sink that has counted `h` headers of `header_len` bytes and `f`
/// frames of `frame_len` bytes, in any order, reports `f` frames and
/// `h * header_len + f * frame_len` bytes.
pub proof fn law_sink_counts(writes: Seq<SinkWrite>, header_len: usize, frame_len: usize)
    requires
        forall|i: int|
            0 <= i < writes.len() ==> match #[trigger] writes[i] {
                SinkWrite::Header(len) => len == header_len,
                SinkWrite::Frame(len) => len == frame_len,
            },
    ensures
        sink_run(writes) == (
            frames_in(writes),
            (headers_in(writes) * header_len + frames_in(writes) * frame_len) as nat,
        ),
    decreases writes.len(),
{
    if writes.len() > 0 {
        let init = writes.drop_last();
        assert forall|i: int| 0 <= i < init.len() implies match #[trigger] init[i] {
            SinkWrite::Header(len) => len == header_len,
            SinkWrite::Frame(len) => len == frame_len,
        } by {
            assert(init[i] == writes[i]);
        }
        law_sink_counts(init, header_len, frame_len);
        let h = headers_in(init);
        let f = frames_in(init);
        assert(writes[writes.len() - 1] == writes.last());
        assert((h + 1) * header_len == h * header_len + header_len) by (nonlinear_arith);
        assert((f + 1) * frame_len == f * frame_len + frame_len) by (nonlinear_arith);
        assert(sink_run(writes) == sink_step(sink_run(init), writes.last()));
        match writes.last() {
            SinkWrite::Header(len) => {
                assert(len == header_len);
                assert(headers_in(writes) == h + 1);
                assert(frames_in(writes) == f);
                assert(sink_run(init) == (f, (h * header_len + f * frame_len) as nat));
                assert(sink_run(writes) == (f, (h * header_len + f * frame_len + header_len) as nat));
            },
            SinkWrite::Frame(len) => {
                assert(len == frame_len);
                assert(headers_in(writes) == h);
                assert(frames_in(writes) == f + 1);
                assert(sink_run(writes) == ((f + 1) as nat, (h * header_len + f * frame_len + frame_len) as nat));
            },
        }
    } else {
        assert(headers_in(writes) == 0 && frames_in(writes) == 0);
        assert(0 * header_len + 0 * frame_len == 0) by (nonlinear_arith);
        assert(sink_run(writes) == (0nat, 0nat));
    }
}

/// A sink that passes the telemetry of a planar (two-dimensional) mission
/// to `writer` and counts the frames and bytes written.
pub struct WriterPhase2TelemetrySink<W> {
    writer: W,
    frames_written: u32,
    bytes_written: usize,
}

impl<W> WriterPhase2TelemetrySink<W> {
    pub closed spec fn frames(&self) -> nat {
        self.frames_written as nat
    }

    pub closed spec fn bytes(&self) -> nat {
        self.bytes_written as nat
    }

    pub closed spec fn inner(&self) -> W {
        self.writer
    }

    /// A sink over `writer` that has written nothing yet.
    pub fn new(writer: W) -> (r: Self)
        ensures
            r.frames() == 0,
            r.bytes() == 0,
            r.inner() == writer,
            (r.frames(), r.bytes()) == sink_run(Seq::empty()),
    {
        WriterPhase2TelemetrySink { writer, frames_written: 0, bytes_written: 0 }
    }

    pub fn frames_written(&self) -> (r: u32)
        ensures
            r == self.frames(),
    {
        self.frames_written
    }

    pub fn bytes_written(&self) -> (r: usize)
        ensures
            r == self.bytes(),
    {
        self.bytes_written
    }

    /// The writer, for writing the next header or frame.
    pub fn writer(&mut self) -> (r: &mut W)
        ensures
            *r == old(self).inner(),
            final(self).inner() == *final(r),
            final(self).frames() == old(self).frames(),
            final(self).bytes() == old(self).bytes(),
    {
        &mut self.writer
    }

    /// Counts a header of `len` bytes that was written.
    pub fn header_written(&mut self, len: usize)
        requires
            old(self).bytes() + len <= usize::MAX,
        ensures
            final(self).frames() == old(self).frames(),
            final(self).bytes() == old(self).bytes() + len,
            final(self).inner() == old(self).inner(),
            (final(self).frames(), final(self).bytes()) == sink_step(
                (old(self).frames(), old(self).bytes()),
                SinkWrite::Header(len),
            ),
    {
        self.bytes_written = self.bytes_written + len;
    }

    /// Counts a frame of `len` bytes that was written.
    pub fn frame_written(&mut self, len: usize)
        requires
            old(self).frames() < u32::MAX,
            old(self).bytes() + len <= usize::MAX,
        ensures
            final(self).frames() == old(self).frames() + 1,
            final(self).bytes() == old(self).bytes() + len,
            final(self).inner() == old(self).inner(),
            (final(self).frames(), final(self).bytes()) == sink_step(
                (old(self).frames(), old(self).bytes()),
                SinkWrite::Frame(len),
            ),
    {
        self.frames_written = self.frames_written + 1;
        self.bytes_written = self.bytes_written + len;
    }

    /// Gives back the writer.
    pub fn into_writer(self) -> (r: W)
        ensures
            r == self.inner(),
    {
        self.writer
    }
}

/// A sink that passes the telemetry of a sensor-driven mission to `writer`
/// and counts the frames and bytes written.
pub struct WriterPhase3TelemetrySink<W> {
    writer: W,
    frames_written: u32,
    bytes_written: usize,
}

impl<W> WriterPhase3TelemetrySink<W> {
    pub closed spec fn frames(&self) -> nat {
        self.frames_written as nat
    }

    pub closed spec fn bytes(&self) -> nat {
        self.bytes_written as nat
    }

    pub closed spec fn inner(&self) -> W {
        self.writer
    }

    /// A sink over `writer` that has written nothing yet.
    pub fn new(writer: W) -> (r: Self)
        ensures
            r.frames() == 0,
            r.bytes() == 0,
            r.inner() == writer,
            (r.frames(), r.bytes()) == sink_run(Seq::empty()),
    {
        WriterPhase3TelemetrySink { writer, frames_written: 0, bytes_written: 0 }
    }

    pub fn frames_written(&self) -> (r: u32)
        ensures
            r == self.frames(),
    {
        self.frames_written
    }

    pub fn bytes_written(&self) -> (r: usize)
        ensures
            r == self.bytes(),
    {
        self.bytes_written
    }

    /// The writer, for writing the next header or frame.
    pub fn writer(&mut self) -> (r: &mut W)
        ensures
            *r == old(self).inner(),
            final(self).inner() == *final(r),
            final(self).frames() == old(self).frames(),
            final(self).bytes() == old(self).bytes(),
    {
        &mut self.writer
    }

    /// Counts a header of `len` bytes that was written.
    pub fn header_written(&mut self, len: usize)
        requires
            old(self).bytes() + len <= usize::MAX,
        ensures
            final(self).frames() == old(self).frames(),
            final(self).bytes() == old(self).bytes() + len,
            final(self).inner() == old(self).inner(),
            (final(self).frames(), final(self).bytes()) == sink_step(
                (old(self).frames(), old(self).bytes()),
                SinkWrite::Header(len),
            ),
    {
        self.bytes_written = self.bytes_written + len;
    }

    /// Counts a frame of `len` bytes that was written.
    pub fn frame_written(&mut self, len: usize)
        requires
            old(self).frames() < u32::MAX,
            old(self).bytes() + len <= usize::MAX,
        ensures
            final(self).frames() == old(self).frames() + 1,
            final(self).bytes() == old(self).bytes() + len,
            final(self).inner() == old(self).inner(),
            (final(self).frames(), final(self).bytes()) == sink_step(
                (old(self).frames(), old(self).bytes()),
                SinkWrite::Frame(len),
            ),
    {
        self.frames_written = self.frames_written + 1;
        self.bytes_written = self.bytes_written + len;
    }

    /// Gives back the writer.
    pub fn into_writer(self) -> (r: W)
        ensures
            r == self.inner(),
    {
        self.writer
    }
}

/// A fault in the meaning of a sensor-driven telemetry stream.
#[derive(Clone, Copy, Debug, PartialEq, Eq, Structural)]
pub enum Phase3SemanticError {
    InitialFrame,
    StepOrder,
    StepRange,
    MissionTime,
    Cadence,
    TerminalBeforeEnd,
    MissingTerminal,
    TerminalEvent,
    EventMarker,
    SensorChecksum,
    SensorFrameChecksum,
    EnginePhase,
    SuccessfulEndStep,
}

/// What the semantic checks of a sensor-driven telemetry stream read from
/// one decoded frame; the checksum facts are worked out by the decoder.
#[derive(Clone, Copy, Debug, PartialEq, Eq, Structural)]
pub struct Phase3FrameFacts {
    pub step: u32,
    pub mission_time_q16: i32,
    pub truth_checksum: u32,
    pub events: u16,
    pub mode: u8,
    pub terminal: bool,
    pub event_record: bool,
    /// The frame's sensor checksum is the rolling hash of its sensor bytes.
    pub sensor_checksum_matches: bool,
    /// The CRC-32 embedded in the sensor bytes is the frame's sensor CRC.
    pub sensor_frame_crc_matches: bool,
    /// The engine is on exactly in the burning stage phase.
    pub engine_matches_phase: bool,
}

/// What a stream is checked against: the scenario's step count and
/// timestep, the header's telemetry stride, the end-of-mission event bit,
/// the initial truth checksum, and whether the mission case is a stuck
/// steering fault (which may end early).
#[derive(Clone, Copy, Debug, PartialEq, Eq, Structural)]
pub struct Phase3StreamRules {
    pub steps: u32,
    pub timestep_q16: i32,
    pub telemetry_stride: u16,
    pub end_event: u16,
    pub initial_checksum: u32,
    pub steering_stuck: bool,
}

/// Where the checks stand after some frames.
#[derive(Clone, Copy, Debug, PartialEq, Eq, Structural)]
pub struct Phase3ScanState {
    pub prior_step: u32,
    pub prior_mode: Option<u8>,
    pub event_frames: u32,
    pub terminal_frames: u32,
    pub final_step: u32,
}

pub open spec fn initial_scan_state() -> Phase3ScanState {
    Phase3ScanState {
        prior_step: 0,
        prior_mode: None,
        event_frames: 0,
        terminal_frames: 0,
        final_step: 0,
    }
}

/// The checks on frame `index` of `count`, in the order they are made.
pub open spec fn phase3_frame_check(
    f: Phase3FrameFacts,
    index: int,
    count: int,
    s: Phase3ScanState,
    rules: Phase3StreamRules,
) -> Result<Phase3ScanState, Phase3SemanticError> {
    if index == 0 && (f.step != 0 || f.mission_time_q16 != 0 || f.truth_checksum
        != rules.initial_checksum || f.events != 0 || f.terminal) {
        Err(Phase3SemanticError::InitialFrame)
    } else if index == 0 && !f.sensor_checksum_matches {
        Err(Phase3SemanticError::SensorChecksum)
    } else if index != 0 && f.step <= s.prior_step {
        Err(Phase3SemanticError::StepOrder)
    } else if f.step > rules.steps {
        Err(Phase3SemanticError::StepRange)
    } else if f.mission_time_q16 != f.step * rules.timestep_q16 {
        Err(Phase3SemanticError::MissionTime)
    } else if f.event_record && f.events & !rules.end_event == 0 && !(s.prior_mode matches Some(
        m,
    ) && m != f.mode) {
        Err(Phase3SemanticError::EventMarker)
    } else if !f.event_record && !f.terminal && f.step % (rules.telemetry_stride as u32) != 0 {
        Err(Phase3SemanticError::Cadence)
    } else if f.terminal && index + 1 != count {
        Err(Phase3SemanticError::TerminalBeforeEnd)
    } else if f.terminal && f.events & rules.end_event == 0 {
        Err(Phase3SemanticError::TerminalEvent)
    } else if !f.terminal && f.events & rules.end_event != 0 {
        Err(Phase3SemanticError::TerminalEvent)
    } else if !f.sensor_frame_crc_matches {
        Err(Phase3SemanticError::SensorFrameChecksum)
    } else if !f.engine_matches_phase {
        Err(Phase3SemanticError::EnginePhase)
    } else {
        Ok(
            Phase3ScanState {
                prior_step: f.step,
                prior_mode: Some(f.mode),
                event_frames: (s.event_frames + if f.event_record {
                    1int
                } else {
                    0int
                }) as u32,
                terminal_frames: (s.terminal_frames + if f.terminal {
                    1int
                } else {
                    0int
                }) as u32,
                final_step: f.step,
            },
        )
    }
}

/// The checks on the first `k` frames: where they stand, or the first
/// frame that failed and why.
pub open spec fn phase3_scan(
    frames: Seq<Phase3FrameFacts>,
    k: int,
    rules: Phase3StreamRules,
) -> Result<Phase3ScanState, (int, Phase3SemanticError)>
    decreases k,
{
    if k <= 0 {
        Ok(initial_scan_state())
    } else {
        match phase3_scan(frames, k - 1, rules) {
            Err(e) => Err(e),
            Ok(s) => match phase3_frame_check(frames[k - 1], k - 1, frames.len() as int, s, rules) {
                Err(e) => Err((k - 1, e)),
                Ok(t) => Ok(t),
            },
        }
    }
}

/// The semantic checks on a whole stream: every frame, then exactly one
/// terminal frame, then (unless steering was stuck) the final step at the
/// scenario's last step.
pub open spec fn phase3_stream_check(frames: Seq<Phase3FrameFacts>, rules: Phase3StreamRules) -> Result<
    Phase3ScanState,
    (int, Phase3SemanticError),
> {
    match phase3_scan(frames, frames.len() as int, rules) {
        Err(e) => Err(e),
        Ok(s) => if s.terminal_frames != 1 {
            Err((frames.len() - 1, Phase3SemanticError::MissingTerminal))
        } else if !rules.steering_stuck && s.final_step != rules.steps {
            Err((frames.len() - 1, Phase3SemanticError::SuccessfulEndStep))
        } else {
            Ok(s)
        },
    }
}

/// A frame recording events at a change of mode is a valid event marker:
/// it is never refused as a bare marker, whatever its event bits.
pub proof fn law_mode_change_is_an_event_marker(
    f: Phase3FrameFacts,
    index: int,
    count: int,
    s: Phase3ScanState,
    rules: Phase3StreamRules,
    prior: u8,
)
    requires
        s.prior_mode == Some(prior),
        prior != f.mode,
    ensures
        phase3_frame_check(f, index, count, s, rules) != Err::<Phase3ScanState, Phase3SemanticError>(
            Phase3SemanticError::EventMarker,
        ),
{
}

/// A frame is refused as a bare event marker only when it records events,
/// carries no event bit beyond the end bit, and keeps the previous mode.
pub proof fn law_bare_marker_refusal(
    f: Phase3FrameFacts,
    index: int,
    count: int,
    s: Phase3ScanState,
    rules: Phase3StreamRules,
)
    ensures
        phase3_frame_check(f, index, count, s, rules) == Err::<Phase3ScanState, Phase3SemanticError>(
            Phase3SemanticError::EventMarker,
        ) ==> f.event_record && f.events & !rules.end_event == 0 && (s.prior_mode is None
            || s.prior_mode == Some(f.mode)),
{
}

/// A frame that records events with an event bit beyond the end bit, or
/// that changes mode, passes the marker check; one that records events
/// with only the end bit and keeps its mode, at a frame that passed the
/// earlier checks, is refused as a bare marker.
pub proof fn law_marker_needs_substance_or_mode_change(
    f: Phase3FrameFacts,
    index: int,
    count: int,
    s: Phase3ScanState,
    rules: Phase3StreamRules,
)
    requires
        index != 0,
        s.prior_step < f.step <= rules.steps,
        f.mission_time_q16 == f.step * rules.timestep_q16,
        f.event_record,
        f.events & !rules.end_event == 0,
        s.prior_mode == Some(f.mode),
    ensures
        phase3_frame_check(f, index, count, s, rules) == Err::<Phase3ScanState, Phase3SemanticError>(
            Phase3SemanticError::EventMarker,
        ),
{
}

/// An accepted frame advances the scan to its own step and mode, counts
/// itself as an event or terminal frame as it is one, and meets every
/// check: rising step within the scenario, mission time at its step, the
/// telemetry cadence unless it records events or ends the mission, the end
/// bit exactly on the terminal frame, and a terminal frame only last.
pub proof fn law_accepted_frame_advances(
    f: Phase3FrameFacts,
    index: int,
    count: int,
    s: Phase3ScanState,
    rules: Phase3StreamRules,
)
    requires
        phase3_frame_check(f, index, count, s, rules) is Ok,
    ensures
        ({
            let t = phase3_frame_check(f, index, count, s, rules)->Ok_0;
            &&& t.prior_step == f.step && t.final_step == f.step
            &&& t.prior_mode == Some(f.mode)
            &&& t.event_frames == (s.event_frames + (if f.event_record {
                1int
            } else {
                0int
            })) as u32
            &&& t.terminal_frames == (s.terminal_frames + (if f.terminal {
                1int
            } else {
                0int
            })) as u32
            &&& index != 0 ==> s.prior_step < f.step
            &&& index == 0 ==> f.step == 0 && f.events == 0 && !f.terminal
            &&& f.step <= rules.steps
            &&& f.mission_time_q16 == f.step * rules.timestep_q16
            &&& !f.event_record && !f.terminal ==> f.step % (rules.telemetry_stride as u32) == 0
            &&& f.terminal ==> index + 1 == count && f.events & rules.end_event != 0
            &&& !f.terminal ==> f.events & rules.end_event == 0
            &&& f.sensor_frame_crc_matches && f.engine_matches_phase
        }),
{
}

fn phase3_frame_step(
    f: &Phase3FrameFacts,
    index: usize,
    count: usize,
    s: Phase3ScanState,
    rules: &Phase3StreamRules,
) -> (r: Result<Phase3ScanState, Phase3SemanticError>)
    requires
        rules.telemetry_stride > 0,
        s.event_frames <= index,
        s.terminal_frames <= index,
        index < count <= u32::MAX,
    ensures
        r == phase3_frame_check(*f, index as int, count as int, s, *rules),
{
    if index == 0 && (f.step != 0 || f.mission_time_q16 != 0 || f.truth_checksum
        != rules.initial_checksum || f.events != 0 || f.terminal) {
        return Err(Phase3SemanticError::InitialFrame);
    }
    if index == 0 && !f.sensor_checksum_matches {
        return Err(Phase3SemanticError::SensorChecksum);
    }
    if index != 0 && f.step <= s.prior_step {
        return Err(Phase3SemanticError::StepOrder);
    }
    if f.step > rules.steps {
        return Err(Phase3SemanticError::StepRange);
    }
    assert(-0x8000_0000_0000_0000 <= (f.step as int) * (rules.timestep_q16 as int)
        <= 0x8000_0000_0000_0000) by (nonlinear_arith)
        requires
            0 <= f.step <= u32::MAX,
            i32::MIN <= rules.timestep_q16 <= i32::MAX,
    ;
    if (f.mission_time_q16 as i128) != (f.step as i128) * (rules.timestep_q16 as i128) {
        return Err(Phase3SemanticError::MissionTime);
    }
    let mode_changed = match s.prior_mode {
        Some(m) => m != f.mode,
        None => false,
    };
    if f.event_record && f.events & !rules.end_event == 0 && !mode_changed {
        return Err(Phase3SemanticError::EventMarker);
    }
    if !f.event_record && !f.terminal && f.step % (rules.telemetry_stride as u32) != 0 {
        return Err(Phase3SemanticError::Cadence);
    }
    if f.terminal && index + 1 != count {
        return Err(Phase3SemanticError::TerminalBeforeEnd);
    }
    if f.terminal && f.events & rules.end_event == 0 {
        return Err(Phase3SemanticError::TerminalEvent);
    }
    if !f.terminal && f.events & rules.end_event != 0 {
        return Err(Phase3SemanticError::TerminalEvent);
    }
    if !f.sensor_frame_crc_matches {
        return Err(Phase3SemanticError::SensorFrameChecksum);
    }
    if !f.engine_matches_phase {
        return Err(Phase3SemanticError::EnginePhase);
    }
    Ok(
        Phase3ScanState {
            prior_step: f.step,
            prior_mode: Some(f.mode),
            event_frames: s.event_frames + if f.event_record {
                1
            } else {
                0
            },
            terminal_frames: s.terminal_frames + if f.terminal {
                1
            } else {
                0
            },
            final_step: f.step,
        },
    )
}

proof fn lemma_phase3_error_sticks(
    frames: Seq<Phase3FrameFacts>,
    a: int,
    b: int,
    rules: Phase3StreamRules,
)
    requires
        0 <= a <= b,
        phase3_scan(frames, a, rules) is Err,
    ensures
        phase3_scan(frames, b, rules) == phase3_scan(frames, a, rules),
    decreases b - a,
{
    if b > a {
        lemma_phase3_error_sticks(frames, a, b - 1, rules);
    }
}

/// Checks the meaning of the decoded frames of a sensor-driven telemetry
/// stream: the first frame starts the mission, steps rise within the
/// scenario, mission time follows the steps, frames come at the telemetry
/// cadence unless they record events, only the last frame ends the mission,
/// and sensor checksums and engine state agree with each frame. Gives the
/// counts of event and terminal frames and the final step, or the first
/// failing frame and why.
pub fn check_phase3_frames(frames: &[Phase3FrameFacts], rules: &Phase3StreamRules) -> (r: Result<
    Phase3ScanState,
    (usize, Phase3SemanticError),
>)
    requires
        0 < frames@.len() <= u32::MAX,
        rules.telemetry_stride > 0,
    ensures
        match phase3_stream_check(frames@, *rules) {
            Ok(s) => r == Ok::<Phase3ScanState, (usize, Phase3SemanticError)>(s),
            Err(e) => r matches Err(x) && x.0 == e.0 && x.1 == e.1,
        },
{
    let count = frames.len();
    let mut state = Phase3ScanState {
        prior_step: 0,
        prior_mode: None,
        event_frames: 0,
        terminal_frames: 0,
        final_step: 0,
    };
    let mut i: usize = 0;
    while i < count
        invariant
            i <= count == frames@.len() <= u32::MAX,
            rules.telemetry_stride > 0,
            phase3_scan(frames@, i as int, *rules) == Ok::<
                Phase3ScanState,
                (int, Phase3SemanticError),
            >(state),
            state.event_frames <= i,
            state.terminal_frames <= i,
        decreases count - i,
    {
        match phase3_frame_step(&frames[i], i, count, state, rules) {
            Err(e) => {
                proof {
                    lemma_phase3_error_sticks(frames@, i as int + 1, count as int, *rules);
                }
                return Err((i, e));
            },
            Ok(next) => {
                state = next;
            },
        }
        i += 1;
    }
    if state.terminal_frames != 1 {
        return Err((count - 1, Phase3SemanticError::MissingTerminal));
    }
    if !rules.steering_stuck && state.final_step != rules.steps {
        return Err((count - 1, Phase3SemanticError::SuccessfulEndStep));
    }
    Ok(state)
}

// ---------------------------------------------------------------------------
// Planar telemetry streams

/// What the checks of a planar telemetry stream read from one decoded frame.
#[derive(Clone, Copy, Debug, PartialEq, Eq, Structural)]
pub struct Phase2FrameFacts {
    pub step: u32,
    pub time_raw: i32,
    pub events: u32,
    pub active_stage: u8,
    pub state_checksum: u32,
    /// Every numeric field lies in its allowed range.
    pub numeric_ok: bool,
    /// The state (radius, downrange, velocities, masses, stage phase) is
    /// exactly the scenario's initial truth, computed without numeric fault.
    pub matches_initial_truth: bool,
}

/// What a planar stream is checked against: the scenario's step count and
/// timestep, the header's telemetry stride, the initial checksum, and the
/// event bits.
#[derive(Clone, Copy, Debug, PartialEq, Eq, Structural)]
pub struct Phase2StreamRules {
    pub steps: u32,
    pub timestep_raw: i32,
    pub telemetry_stride: u32,
    pub initial_checksum: u32,
    pub end_event: u32,
    pub ignition_event: u32,
    pub cutoff_event: u32,
    pub separation_event: u32,
    pub impact_event: u32,
}

/// Why the frames of a planar stream were refused, with the frame index.
#[derive(Clone, Copy, Debug, PartialEq, Eq, Structural)]
pub enum Phase2FrameError {
    Empty,
    InitialFrame,
    StepOrder { index: usize },
    StepRange { index: usize },
    Stride { index: usize },
    MissionTime { index: usize },
    NumericRange { index: usize },
    TerminalBeforeEnd { index: usize },
    MissingTerminal,
    SuccessfulEndStep,
}

/// The event counts of a planar stream and its final frame's step and
/// events.
#[derive(Clone, Copy, Debug, PartialEq, Eq, Structural)]
pub struct Phase2FrameSummary {
    pub ignition_event_frames: u32,
    pub cutoff_event_frames: u32,
    pub separation_event_frames: u32,
    pub impact_event_frames: u32,
    pub final_step: u32,
    pub final_events: u32,
}

pub open spec fn bit_count(events: u32, bit: u32) -> int {
    if events & bit != 0 {
        1
    } else {
        0
    }
}

/// The checks on frame `index` of `count`, given the summary so far.
pub open spec fn phase2_frame_check(
    f: Phase2FrameFacts,
    index: int,
    count: int,
    s: Phase2FrameSummary,
    rules: Phase2StreamRules,
) -> Result<Phase2FrameSummary, Phase2FrameError> {
    let terminal = f.events & rules.end_event != 0;
    if !f.numeric_ok {
        Err(Phase2FrameError::NumericRange { index: index as usize })
    } else if index == 0 && (!f.matches_initial_truth || f.step != 0 || f.time_raw != 0
        || f.active_stage != 0 || f.events != 0 || f.state_checksum != rules.initial_checksum) {
        Err(Phase2FrameError::InitialFrame)
    } else if index != 0 && f.step <= s.final_step {
        Err(Phase2FrameError::StepOrder { index: index as usize })
    } else if index != 0 && !terminal && f.step % rules.telemetry_stride != 0 {
        Err(Phase2FrameError::Stride { index: index as usize })
    } else if f.step > rules.steps {
        Err(Phase2FrameError::StepRange { index: index as usize })
    } else if f.time_raw != rules.timestep_raw * f.step {
        Err(Phase2FrameError::MissionTime { index: index as usize })
    } else if terminal && index + 1 != count {
        Err(Phase2FrameError::TerminalBeforeEnd { index: index as usize })
    } else {
        Ok(
            Phase2FrameSummary {
                ignition_event_frames: (s.ignition_event_frames + bit_count(
                    f.events,
                    rules.ignition_event,
                )) as u32,
                cutoff_event_frames: (s.cutoff_event_frames + bit_count(
                    f.events,
                    rules.cutoff_event,
                )) as u32,
                separation_event_frames: (s.separation_event_frames + bit_count(
                    f.events,
                    rules.separation_event,
                )) as u32,
                impact_event_frames: (s.impact_event_frames + bit_count(
                    f.events,
                    rules.impact_event,
                )) as u32,
                final_step: f.step,
                final_events: f.events,
            },
        )
    }
}

pub open spec fn empty_phase2_summary() -> Phase2FrameSummary {
    Phase2FrameSummary {
        ignition_event_frames: 0,
        cutoff_event_frames: 0,
        separation_event_frames: 0,
        impact_event_frames: 0,
        final_step: 0,
        final_events: 0,
    }
}

pub open spec fn phase2_scan(frames: Seq<Phase2FrameFacts>, k: int, rules: Phase2StreamRules) -> Result<
    Phase2FrameSummary,
    Phase2FrameError,
>
    decreases k,
{
    if k <= 0 {
        Ok(empty_phase2_summary())
    } else {
        match phase2_scan(frames, k - 1, rules) {
            Err(e) => Err(e),
            Ok(s) => phase2_frame_check(frames[k - 1], k - 1, frames.len() as int, s, rules),
        }
    }
}

/// The checks on a whole planar stream: at least one frame, every frame,
/// then a final frame that ends the mission, at the last step unless the
/// vehicle hit the ground.
pub open spec fn phase2_stream_check(frames: Seq<Phase2FrameFacts>, rules: Phase2StreamRules) -> Result<
    Phase2FrameSummary,
    Phase2FrameError,
> {
    if frames.len() == 0 {
        Err(Phase2FrameError::Empty)
    } else {
        match phase2_scan(frames, frames.len() as int, rules) {
            Err(e) => Err(e),
            Ok(s) => if s.final_events & rules.end_event == 0 {
                Err(Phase2FrameError::MissingTerminal)
            } else if s.final_events & rules.impact_event == 0 && s.final_step != rules.steps {
                Err(Phase2FrameError::SuccessfulEndStep)
            } else {
                Ok(s)
            },
        }
    }
}

proof fn lemma_phase2_error_sticks(
    frames: Seq<Phase2FrameFacts>,
    a: int,
    b: int,
    rules: Phase2StreamRules,
)
    requires
        0 <= a <= b,
        phase2_scan(frames, a, rules) is Err,
    ensures
        phase2_scan(frames, b, rules) == phase2_scan(frames, a, rules),
    decreases b - a,
{
    if b > a {
        lemma_phase2_error_sticks(frames, a, b - 1, rules);
    }
}

fn bit_in(events: u32, bit: u32) -> (r: u32)
    ensures
        r == bit_count(events, bit),
{
    if events & bit != 0 {
        1
    } else {
        0
    }
}

fn phase2_frame_step(
    f: &Phase2FrameFacts,
    index: usize,
    count: usize,
    s: Phase2FrameSummary,
    rules: &Phase2StreamRules,
) -> (r: Result<Phase2FrameSummary, Phase2FrameError>)
    requires
        rules.telemetry_stride > 0,
        index < count <= u32::MAX,
        s.ignition_event_frames <= index,
        s.cutoff_event_frames <= index,
        s.separation_event_frames <= index,
        s.impact_event_frames <= index,
    ensures
        r == phase2_frame_check(*f, index as int, count as int, s, *rules),
{
    let terminal = f.events & rules.end_event != 0;
    if !f.numeric_ok {
        return Err(Phase2FrameError::NumericRange { index });
    }
    if index == 0 && (!f.matches_initial_truth || f.step != 0 || f.time_raw != 0 || f.active_stage
        != 0 || f.events != 0 || f.state_checksum != rules.initial_checksum) {
        return Err(Phase2FrameError::InitialFrame);
    }
    if index != 0 && f.step <= s.final_step {
        return Err(Phase2FrameError::StepOrder { index });
    }
    if index != 0 && !terminal && f.step % rules.telemetry_stride != 0 {
        return Err(Phase2FrameError::Stride { index });
    }
    if f.step > rules.steps {
        return Err(Phase2FrameError::StepRange { index });
    }
    assert(-0x8000_0000_0000_0000 <= (rules.timestep_raw as int) * (f.step as int)
        <= 0x8000_0000_0000_0000) by (nonlinear_arith)
        requires
            0 <= f.step <= u32::MAX,
            i32::MIN <= rules.timestep_raw <= i32::MAX,
    ;
    if (f.time_raw as i128) != (rules.timestep_raw as i128) * (f.step as i128) {
        return Err(Phase2FrameError::MissionTime { index });
    }
    if terminal && index + 1 != count {
        return Err(Phase2FrameError::TerminalBeforeEnd { index });
    }
    Ok(
        Phase2FrameSummary {
            ignition_event_frames: s.ignition_event_frames + bit_in(f.events, rules.ignition_event),
            cutoff_event_frames: s.cutoff_event_frames + bit_in(f.events, rules.cutoff_event),
            separation_event_frames: s.separation_event_frames + bit_in(
                f.events,
                rules.separation_event,
            ),
            impact_event_frames: s.impact_event_frames + bit_in(f.events, rules.impact_event),
            final_step: f.step,
            final_events: f.events,
        },
    )
}

/// Checks the frames of a planar telemetry stream: the first frame is the
/// scenario's initial state, steps rise at the telemetry stride (the
/// terminal frame excepted) within the scenario, mission time follows the
/// steps, only the last frame ends the mission and it does end it, at the
/// last step unless the vehicle hit the ground. Counts the frames that
/// carry each event.
pub fn check_phase2_frames(frames: &[Phase2FrameFacts], rules: &Phase2StreamRules) -> (r: Result<
    Phase2FrameSummary,
    Phase2FrameError,
>)
    requires
        frames@.len() <= u32::MAX,
        rules.telemetry_stride > 0,
    ensures
        r == phase2_stream_check(frames@, *rules),
{
    let count = frames.len();
    if count == 0 {
        return Err(Phase2FrameError::Empty);
    }
    let mut summary = Phase2FrameSummary {
        ignition_event_frames: 0,
        cutoff_event_frames: 0,
        separation_event_frames: 0,
        impact_event_frames: 0,
        final_step: 0,
        final_events: 0,
    };
    let mut i: usize = 0;
    while i < count
        invariant
            i <= count == frames@.len() <= u32::MAX,
            rules.telemetry_stride > 0,
            phase2_scan(frames@, i as int, *rules) == Ok::<Phase2FrameSummary, Phase2FrameError>(
                summary,
            ),
            summary.ignition_event_frames <= i,
            summary.cutoff_event_frames <= i,
            summary.separation_event_frames <= i,
            summary.impact_event_frames <= i,
        decreases count - i,
    {
        match phase2_frame_step(&frames[i], i, count, summary, rules) {
            Err(e) => {
                proof {
                    lemma_phase2_error_sticks(frames@, i as int + 1, count as int, *rules);
                }
                return Err(e);
            },
            Ok(next) => {
                summary = next;
            },
        }
        i += 1;
    }
    if summary.final_events & rules.end_event == 0 {
        return Err(Phase2FrameError::MissingTerminal);
    }
    if summary.final_events & rules.impact_event == 0 && summary.final_step != rules.steps {
        return Err(Phase2FrameError::SuccessfulEndStep);
    }
    Ok(summary)
}

// ---------------------------------------------------------------------------
// Closed-loop avionics telemetry streams

/// How many leading bytes of each closed-loop frame its observation
/// checksum chains over.
pub const PHASE5_CHAINED_BYTES: usize = 412;

/// Why a closed-loop telemetry stream was refused: its framing, or the
/// first frame (by index) that broke a rule.
#[derive(Clone, Copy, Debug, PartialEq, Eq, Structural)]
pub enum Phase5FrameError {
    Framing,
    Empty,
    Initial,
    Step { index: usize },
    Time { index: usize },
    Flags { index: usize },
    Checksum { index: usize },
    Terminal,
}

/// What the checks of a closed-loop stream read from one decoded frame.
#[derive(Clone, Copy, Debug, PartialEq, Eq, Structural)]
pub struct Phase5FrameFacts {
    pub step: u32,
    pub mission_time_q16: i32,
    pub events: u16,
    pub terminal: bool,
    pub event_record: bool,
    /// The frame's flags mark it as an event frame.
    pub event_flag: bool,
    pub observation_checksum: u32,
}

/// The mission's last step and the mission time of one step.
#[derive(Clone, Copy, Debug, PartialEq, Eq, Structural)]
pub struct Phase5StreamRules {
    pub mission_steps: u32,
    pub step_q16: i32,
}

/// The event-frame count of a closed-loop stream and its final observation
/// chain value.
#[derive(Clone, Copy, Debug, PartialEq, Eq, Structural)]
pub struct Phase5FrameSummary {
    pub event_frames: u32,
    pub chain: u32,
}

/// The frames of a stream of `length` bytes with a `header_length`-byte
/// header and `frame_length`-byte frames: the stream must be the header and
/// a whole, nonzero number of frames.
pub open spec fn phase5_frame_count_of(length: int, header_length: int, frame_length: int) -> Result<
    int,
    Phase5FrameError,
> {
    if length < header_length || (length - header_length) % frame_length != 0 {
        Err(Phase5FrameError::Framing)
    } else if (length - header_length) / frame_length == 0 {
        Err(Phase5FrameError::Empty)
    } else {
        Ok((length - header_length) / frame_length)
    }
}

/// Counts the frames of a closed-loop stream.
pub fn phase5_frame_count(length: usize, header_length: usize, frame_length: usize) -> (r: Result<
    usize,
    Phase5FrameError,
>)
    requires
        frame_length > 0,
    ensures
        match phase5_frame_count_of(length as int, header_length as int, frame_length as int) {
            Ok(n) => r == Ok::<usize, Phase5FrameError>(n as usize),
            Err(e) => r == Err::<usize, Phase5FrameError>(e),
        },
{
    if length < header_length || (length - header_length) % frame_length != 0 {
        return Err(Phase5FrameError::Framing);
    }
    let count = (length - header_length) / frame_length;
    if count == 0 {
        return Err(Phase5FrameError::Empty);
    }
    Ok(count)
}

/// Why a sensor-driven telemetry stream has no frames to check: its length
/// is not a header followed by whole frames, or it holds no frame.
#[derive(Clone, Copy, Debug, PartialEq, Eq, Structural)]
pub enum Phase3FramingError {
    Framing,
    Empty,
}

/// How many frames a sensor-driven stream of `length` bytes holds.
pub open spec fn phase3_frame_count_of(length: int, header_length: int, frame_length: int) -> Result<
    int,
    Phase3FramingError,
> {
    if length < header_length || (length - header_length) % frame_length != 0 {
        Err(Phase3FramingError::Framing)
    } else if (length - header_length) / frame_length == 0 {
        Err(Phase3FramingError::Empty)
    } else {
        Ok((length - header_length) / frame_length)
    }
}

/// Counts the frames of a sensor-driven stream, before its frames are
/// checked.
pub fn phase3_frame_count(length: usize, header_length: usize, frame_length: usize) -> (r: Result<
    usize,
    Phase3FramingError,
>)
    requires
        frame_length > 0,
    ensures
        match phase3_frame_count_of(length as int, header_length as int, frame_length as int) {
            Ok(n) => r == Ok::<usize, Phase3FramingError>(n as usize),
            Err(e) => r == Err::<usize, Phase3FramingError>(e),
        },
{
    if length < header_length || (length - header_length) % frame_length != 0 {
        return Err(Phase3FramingError::Framing);
    }
    let count = (length - header_length) / frame_length;
    if count == 0 {
        return Err(Phase3FramingError::Empty);
    }
    Ok(count)
}

/// `a * b`, held at the bounds of `i32`.
pub open spec fn saturating_product(a: i32, b: i32) -> i32 {
    if a * b > i32::MAX {
        i32::MAX
    } else if a * b < i32::MIN {
        i32::MIN
    } else {
        (a * b) as i32
    }
}

fn saturating_mul_i32(a: i32, b: i32) -> (r: i32)
    ensures
        r == saturating_product(a, b),
{
    assert(-0x4000_0000_0000_0000 <= (a as int) * (b as int) <= 0x4000_0000_0000_0000)
        by (nonlinear_arith)
        requires
            i32::MIN <= a <= i32::MAX,
            i32::MIN <= b <= i32::MAX,
    ;
    let p = (a as i64) * (b as i64);
    if p > i32::MAX as i64 {
        i32::MAX
    } else if p < i32::MIN as i64 {
        i32::MIN
    } else {
        p as i32
    }
}

/// The checks on frame `index` of `count`, whose chained bytes are
/// `chained`, with the observation chain at `chain`: the frame's step is its
/// index and within the mission, its time is the step's, the first frame
/// starts the mission, only the last frame is terminal, the event record
/// flag agrees with the events, and the observation checksum continues the
/// chain. Gives the chain's next value.
pub open spec fn phase5_frame_check(
    f: Phase5FrameFacts,
    index: int,
    count: int,
    chain: u32,
    chained: Seq<u8>,
    rules: Phase5StreamRules,
) -> Result<u32, Phase5FrameError> {
    if f.step != index as u32 || f.step > rules.mission_steps {
        Err(Phase5FrameError::Step { index: index as usize })
    } else if f.mission_time_q16 != saturating_product(rules.step_q16, f.step as i32) {
        Err(Phase5FrameError::Time { index: index as usize })
    } else if index == 0 && (f.step != 0 || f.mission_time_q16 != 0 || f.terminal || f.events
        != 0) {
        Err(Phase5FrameError::Initial)
    } else if f.terminal != (index + 1 == count) {
        Err(Phase5FrameError::Terminal)
    } else if f.event_record != (f.events != 0) {
        Err(Phase5FrameError::Flags { index: index as usize })
    } else if f.observation_checksum != fnv_fold(chain, chained) {
        Err(Phase5FrameError::Checksum { index: index as usize })
    } else {
        Ok(fnv_fold(chain, chained))
    }
}

/// The chained bytes of frame `index` in `stream`.
pub open spec fn chained_bytes(stream: Seq<u8>, header_length: int, frame_length: int, index: int) -> Seq<
    u8,
> {
    let start = header_length + index * frame_length;
    stream.subrange(start, start + PHASE5_CHAINED_BYTES)
}

/// The checks on the first `k` frames: where the chain and event count
/// stand, or the first failure.
pub open spec fn phase5_scan(
    stream: Seq<u8>,
    header_length: int,
    frame_length: int,
    frames: Seq<Phase5FrameFacts>,
    k: int,
    rules: Phase5StreamRules,
) -> Result<Phase5FrameSummary, Phase5FrameError>
    decreases k,
{
    if k <= 0 {
        Ok(Phase5FrameSummary { event_frames: 0, chain: FNV_OFFSET })
    } else {
        match phase5_scan(stream, header_length, frame_length, frames, k - 1, rules) {
            Err(e) => Err(e),
            Ok(s) => match phase5_frame_check(
                frames[k - 1],
                k - 1,
                frames.len() as int,
                s.chain,
                chained_bytes(stream, header_length, frame_length, k - 1),
                rules,
            ) {
                Err(e) => Err(e),
                Ok(chain) => Ok(
                    Phase5FrameSummary {
                        event_frames: (s.event_frames + if frames[k - 1].event_flag {
                            1int
                        } else {
                            0int
                        }) as u32,
                        chain,
                    },
                ),
            },
        }
    }
}

proof fn lemma_phase5_error_sticks(
    stream: Seq<u8>,
    header_length: int,
    frame_length: int,
    frames: Seq<Phase5FrameFacts>,
    a: int,
    b: int,
    rules: Phase5StreamRules,
)
    requires
        0 <= a <= b,
        phase5_scan(stream, header_length, frame_length, frames, a, rules) is Err,
    ensures
        phase5_scan(stream, header_length, frame_length, frames, b, rules) == phase5_scan(
            stream,
            header_length,
            frame_length,
            frames,
            a,
            rules,
        ),
    decreases b - a,
{
    if b > a {
        lemma_phase5_error_sticks(stream, header_length, frame_length, frames, a, b - 1, rules);
    }
}

/// Checks the decoded frames of a closed-loop telemetry stream against the
/// stream's bytes: steps count up from 0 within the mission, mission time
/// follows the steps, the first frame starts the mission and only the last
/// ends it, event flags agree with the events, and each frame's observation
/// checksum chains FNV-1a over the leading bytes of the frames so far. Gives
/// the number of event frames and the final chain value, or the first
/// failure.
pub fn check_phase5_frames(
    stream: &[u8],
    header_length: usize,
    frame_length: usize,
    frames: &[Phase5FrameFacts],
    rules: &Phase5StreamRules,
) -> (r: Result<Phase5FrameSummary, Phase5FrameError>)
    requires
        PHASE5_CHAINED_BYTES <= frame_length,
        frames@.len() <= u32::MAX,
        header_length + frames@.len() * frame_length == stream@.len(),
    ensures
        r == phase5_scan(
            stream@,
            header_length as int,
            frame_length as int,
            frames@,
            frames@.len() as int,
            *rules,
        ),
{
    let ghost s = stream@;
    let n = stream.len();
    let count = frames.len();
    let mut summary = Phase5FrameSummary { event_frames: 0, chain: FNV_OFFSET };
    let mut at = header_length;
    let mut i: usize = 0;
    while i < count
        invariant
            s == stream@,
            n == s.len(),
            count == frames@.len() <= u32::MAX,
            PHASE5_CHAINED_BYTES <= frame_length,
            header_length + count * frame_length == n,
            i <= count,
            at == header_length + i * frame_length,
            summary.event_frames <= i,
            phase5_scan(s, header_length as int, frame_length as int, frames@, i as int, *rules)
                == Ok::<Phase5FrameSummary, Phase5FrameError>(summary),
        decreases count - i,
    {
        assert(at + frame_length <= n) by (nonlinear_arith)
            requires
                at == header_length + i * frame_length,
                header_length + count * frame_length == n,
                i < count,
        ;
        let f = frames[i];
        let ghost chained = chained_bytes(s, header_length as int, frame_length as int, i as int);
        let failure = if f.step != i as u32 || f.step > rules.mission_steps {
            Some(Phase5FrameError::Step { index: i })
        } else if f.mission_time_q16 != saturating_mul_i32(rules.step_q16, f.step as i32) {
            Some(Phase5FrameError::Time { index: i })
        } else if i == 0 && (f.step != 0 || f.mission_time_q16 != 0 || f.terminal || f.events
            != 0) {
            Some(Phase5FrameError::Initial)
        } else if f.terminal != (i + 1 == count) {
            Some(Phase5FrameError::Terminal)
        } else if f.event_record != (f.events != 0) {
            Some(Phase5FrameError::Flags { index: i })
        } else {
            None
        };
        if let Some(e) = failure {
            proof {
                lemma_phase5_error_sticks(
                    s,
                    header_length as int,
                    frame_length as int,
                    frames@,
                    i + 1,
                    count as int,
                    *rules,
                );
            }
            return Err(e);
        }
        let next = rolling_hash(summary.chain, &stream[at..at + PHASE5_CHAINED_BYTES]);
        assert(stream@.subrange(at as int, at + PHASE5_CHAINED_BYTES) == chained);
        if f.observation_checksum != next {
            proof {
                lemma_phase5_error_sticks(
                    s,
                    header_length as int,
                    frame_length as int,
                    frames@,
                    i + 1,
                    count as int,
                    *rules,
                );
            }
            return Err(Phase5FrameError::Checksum { index: i });
        }
        summary = Phase5FrameSummary {
            event_frames: summary.event_frames + if f.event_flag {
                1
            } else {
                0
            },
            chain: next,
        };
        assert(at + frame_length == header_length + (i + 1) * frame_length) by (nonlinear_arith)
            requires
                at == header_length + i * frame_length,
        ;
        at = at + frame_length;
        i += 1;
    }
    Ok(summary)
}

// ---------------------------------------------------------------------------
// Capture cadence

/// When a mission capture writes telemetry frames: the mission time at
/// which the next frame is due, and the telemetry period.
#[derive(Clone, Copy, Debug, PartialEq, Eq, Structural)]
pub struct CaptureCadence {
    pub next_time_raw: i32,
    pub period_raw: i32,
}

/// The first due time past `time`, stepping on from `next` by `period`.
pub open spec fn next_due(next: int, period: int, time: int) -> int
    decreases time - next + period,
    when period > 0
{
    if next > time {
        next
    } else {
        next_due(next + period, period, time)
    }
}

impl CaptureCadence {
    /// Observes one mission step: a frame is written for the first step,
    /// for any step with events, and whenever the due time has come; after
    /// a write, the due time moves on by whole periods past the step's
    /// time.
    pub fn observe(&mut self, step: u32, events: u32, time_raw: i32) -> (write: bool)
        requires
            old(self).period_raw > 0,
            time_raw + old(self).period_raw <= i32::MAX,
        ensures
            write == (step == 0 || events != 0 || time_raw >= old(self).next_time_raw),
            final(self).period_raw == old(self).period_raw,
            final(self).next_time_raw == (if write {
                next_due(
                    old(self).next_time_raw as int,
                    old(self).period_raw as int,
                    time_raw as int,
                )
            } else {
                old(self).next_time_raw as int
            }),
    {
        let write = step == 0 || events != 0 || time_raw >= self.next_time_raw;
        if write {
            let ghost due = next_due(
                self.next_time_raw as int,
                self.period_raw as int,
                time_raw as int,
            );
            while self.next_time_raw <= time_raw
                invariant
                    self.period_raw == old(self).period_raw,
                    self.period_raw > 0,
                    time_raw + self.period_raw <= i32::MAX,
                    next_due(self.next_time_raw as int, self.period_raw as int, time_raw as int)
                        == due,
                decreases time_raw - self.next_time_raw + self.period_raw,
            {
                self.next_time_raw = self.next_time_raw + self.period_raw;
            }
        }
        write
    }
}

/// After a write, the next frame is due after the step's time, within one
/// period of it, and a whole number of periods after the old due time.
pub proof fn law_next_due_within_one_period(next: int, period: int, time: int)
    requires
        period > 0,
        next <= time,
    ensures
        time < next_due(next, period, time) <= time + period,
        (next_due(next, period, time) - next) % period == 0,
    decreases time - next + period,
{
    if next + period <= time {
        law_next_due_within_one_period(next + period, period, time);
        let d = next_due(next, period, time);
        assert((d - next) % period == 0) by {
            vstd::arithmetic::div_mod::lemma_mod_add_multiples_vanish(d - next - period, period);
        }
    } else {
        assert(next_due(next + period, period, time) == next + period);
        vstd::arithmetic::div_mod::lemma_mod_self_0(period);
    }
}

// ---------------------------------------------------------------------------
// Replay files

/// The length of a replay file's header.
pub const PHASE3_REPLAY_HEADER_LENGTH: usize = 32;

/// The length of one replay frame.
pub const PHASE3_REPLAY_FRAME_LENGTH: usize = 24;

/// What a replay keeps of one validated telemetry frame.
#[derive(Clone, Copy, Debug, PartialEq, Eq, Structural)]
pub struct ReplayFrame {
    pub step: u32,
    /// Radius above the Earth's surface.
    pub altitude_q12: i32,
    pub downrange_q32: i32,
    pub applied_pitch: u16,
    pub mode: u8,
    pub active_stage: u8,
    pub events: u16,
    pub alarms: u16,
}

/// A replay header before its CRC: the `KRP3` magic, version 3, the header
/// and frame lengths, two reserved bytes, the CRC-32 of the telemetry
/// stream, the scenario and configuration identities, and the frame count.
pub open spec fn replay_header_body(
    stream_crc32: u32,
    scenario_id: u32,
    config_crc32: u32,
    frame_count: u32,
) -> Seq<u8> {
    seq![0x4bu8, 0x52u8, 0x50u8, 0x33u8] + le_u16(3) + le_u16(32) + le_u16(24) + zeros(2) + le_u32(
        stream_crc32,
    ) + le_u32(scenario_id) + le_u32(config_crc32) + le_u32(frame_count)
}

/// A replay frame before its CRC.
pub open spec fn replay_frame_body(f: ReplayFrame) -> Seq<u8> {
    le_u32(f.step) + le_i32(f.altitude_q12) + le_i32(f.downrange_q32) + le_u16(f.applied_pitch)
        + seq![f.mode, f.active_stage] + le_u16(f.events) + le_u16(f.alarms)
}

/// A sealed replay frame: its body, then the body's CRC-32.
pub open spec fn replay_frame_bytes(f: ReplayFrame) -> Seq<u8> {
    replay_frame_body(f) + le_u32(crc32_ieee_of(replay_frame_body(f)))
}

/// The replay of a validated stream: the header sealed with the CRC-32 of
/// its first 28 bytes, then each frame sealed with its own CRC-32.
pub open spec fn replay_bytes(
    stream_crc32: u32,
    scenario_id: u32,
    config_crc32: u32,
    frames: Seq<ReplayFrame>,
) -> Seq<u8> {
    let head = replay_header_body(stream_crc32, scenario_id, config_crc32, frames.len() as u32);
    head + le_u32(crc32_ieee_of(head)) + concat_all(
        Seq::new(frames.len(), |i: int| replay_frame_bytes(frames[i])),
    )
}

/// Writes the replay of a validated sensor-driven telemetry stream.
pub fn encode_phase3_replay(
    stream_crc32: u32,
    scenario_id: u32,
    config_crc32: u32,
    frames: &[ReplayFrame],
) -> (r: Vec<u8>)
    requires
        frames@.len() <= u32::MAX,
    ensures
        r@ == replay_bytes(stream_crc32, scenario_id, config_crc32, frames@),
{
    let mut out: Vec<u8> = Vec::new();
    out.push(0x4b);
    out.push(0x52);
    out.push(0x50);
    out.push(0x33);
    push_u16(&mut out, 3);
    push_u16(&mut out, PHASE3_REPLAY_HEADER_LENGTH as u16);
    push_u16(&mut out, PHASE3_REPLAY_FRAME_LENGTH as u16);
    push_zeros(&mut out, 2);
    push_u32(&mut out, stream_crc32);
    push_u32(&mut out, scenario_id);
    push_u32(&mut out, config_crc32);
    push_u32(&mut out, frames.len() as u32);
    assert(out@ =~= replay_header_body(stream_crc32, scenario_id, config_crc32, frames@.len() as u32));
    let header_crc = crc32(out.as_slice());
    push_u32(&mut out, header_crc);
    let ghost prefix = out@;
    let ghost sealed = Seq::new(frames@.len(), |i: int| replay_frame_bytes(frames@[i]));
    let mut i: usize = 0;
    while i < frames.len()
        invariant
            i <= frames@.len(),
            sealed == Seq::new(frames@.len(), |i: int| replay_frame_bytes(frames@[i])),
            out@ == prefix + concat_all(sealed.take(i as int)),
        decreases frames@.len() - i,
    {
        let f = frames[i];
        let mut body: Vec<u8> = Vec::new();
        push_u32(&mut body, f.step);
        push_u32(&mut body, f.altitude_q12 as u32);
        push_u32(&mut body, f.downrange_q32 as u32);
        push_u16(&mut body, f.applied_pitch);
        body.push(f.mode);
        body.push(f.active_stage);
        push_u16(&mut body, f.events);
        push_u16(&mut body, f.alarms);
        assert(body@ =~= replay_frame_body(f));
        let frame_crc = crc32(body.as_slice());
        push_u32(&mut body, frame_crc);
        put_bytes(&mut out, body.as_slice());
        proof {
            assert(sealed.take(i + 1) =~= sealed.take(i as int).push(sealed[i as int]));
            lemma_concat_push(sealed.take(i as int), sealed[i as int]);
            assert(out@ =~= prefix + concat_all(sealed.take(i + 1)));
        }
        i += 1;
    }
    assert(sealed.take(frames@.len() as int) =~= sealed);
    out
}

} // verus!
