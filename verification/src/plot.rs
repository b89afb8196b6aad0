//! Sparse trajectory plots: which telemetry frames a bounded plot samples,
//! the byte layout of plot points and plot records, and orbit
//! classification labels.
use crate::le::{
    get_u16, get_u32, le_i32, le_u16, le_u32, lemma_i32_u32_cast, lemma_u16_roundtrip,
    lemma_u32_roundtrip, push_u16, push_u32, push_zeros, read_u16, read_u32, zeros,
};
use vstd::prelude::*;

verus! {

pub const STOCK_KPH7_MAX_POINTS: usize = 124;

pub const STOCK_KPH8_MAX_POINTS: usize = 82;

pub const KPH7_POINT_LENGTH: usize = 16;

pub const KPH8_POINT_LENGTH: usize = 24;

/// One point of a vertical-flight plot.
#[derive(Clone, Copy, Debug, PartialEq, Eq, Structural)]
pub struct Kph7Point {
    pub time_raw: i32,
    pub altitude_raw: i32,
    pub velocity_raw: i32,
    pub phase_and_events: u32,
}

/// One point of a spatial-flight plot.
#[derive(Clone, Copy, Debug, PartialEq, Eq, Structural)]
pub struct Kph8Point {
    pub time_raw: i32,
    pub east_raw: i32,
    pub north_raw: i32,
    pub altitude_raw: i32,
    pub vertical_velocity_raw: i32,
    pub phase_and_events: u32,
}

/// The frame that plot point `point` samples when `points` points are
/// spread over `frames` frames: the first and the last frame are always
/// sampled, the others evenly between.
pub open spec fn sampled_frame(point: int, points: int, frames: int) -> int {
    if points == 1 {
        0
    } else {
        point * (frames - 1) / (points - 1)
    }
}

pub fn sample_frame_index(point: usize, points: usize, frames: usize) -> (r: usize)
    requires
        point < points <= frames,
        frames <= 0xffff_ffff,
    ensures
        r == sampled_frame(point as int, points as int, frames as int),
        r < frames,
{
    if points == 1 {
        0
    } else {
        assert(point * (frames - 1) <= (points - 1) * (frames - 1)) by (nonlinear_arith)
            requires
                point <= points - 1,
                frames >= 1,
        ;
        assert((points - 1) * (frames - 1) <= 0xffff_ffff * 0xffff_ffff) by (nonlinear_arith)
            requires
                points <= 0xffff_ffff,
                frames <= 0xffff_ffff,
                points >= 1,
                frames >= 1,
        ;
        let product = (point as u64) * ((frames - 1) as u64);
        let r = product / ((points - 1) as u64);
        assert(r <= frames - 1) by (nonlinear_arith)
            requires
                r == product / ((points - 1) as u64),
                product <= (points - 1) * (frames - 1),
                points >= 2,
        ;
        r as usize
    }
}

/// A sparse plot samples its first and last frame, in order, never the
/// same frame twice, and never past the end.
pub proof fn law_plot_sampling(points: int, frames: int)
    requires
        1 <= points <= frames,
    ensures
        sampled_frame(0, points, frames) == 0,
        points > 1 ==> sampled_frame(points - 1, points, frames) == frames - 1,
        forall|a: int, b: int|
            0 <= a < b < points ==> sampled_frame(a, points, frames) < sampled_frame(
                b,
                points,
                frames,
            ),
        forall|a: int| 0 <= a < points ==> 0 <= #[trigger] sampled_frame(a, points, frames) < frames,
{
    if points > 1 {
        let d = points - 1;
        let m = frames - 1;
        assert((points - 1) * (frames - 1) / (points - 1) == frames - 1) by (nonlinear_arith)
            requires
                points > 1,
        ;
        assert forall|a: int, b: int| 0 <= a < b < points implies sampled_frame(a, points, frames)
            < sampled_frame(b, points, frames) by {
            assert(a * m / d < b * m / d) by (nonlinear_arith)
                requires
                    0 <= a < b <= d,
                    m >= d,
                    d >= 1,
            ;
        }
        assert forall|a: int| 0 <= a < points implies 0 <= #[trigger] sampled_frame(
            a,
            points,
            frames,
        ) < frames by {
            assert(0 <= a * m / d <= m) by (nonlinear_arith)
                requires
                    0 <= a <= d,
                    m >= 0,
                    d >= 1,
            ;
        }
    }
}

/// Events in the low 24 bits, the flight phase in the top byte.
pub open spec fn phase_events_word(events: u32, phase: u8) -> u32 {
    events | ((phase as u32) << 24u32)
}

pub fn pack_phase_events(events: u32, phase: u8) -> (r: u32)
    ensures
        r == phase_events_word(events, phase),
{
    events | ((phase as u32) << 24)
}

/// Packing keeps both parts when the events fit in 24 bits.
pub proof fn law_phase_events_unpack(events: u32, phase: u8)
    requires
        events < 0x100_0000,
    ensures
        phase_events_word(events, phase) >> 24u32 == phase as u32,
        phase_events_word(events, phase) & 0xff_ffff == events,
{
    let p = phase as u32;
    assert((events | (p << 24u32)) >> 24u32 == p && (events | (p << 24u32)) & 0xff_ffff == events)
        by (bit_vector)
        requires
            events < 0x100_0000,
            p < 256,
    ;
}

pub open spec fn kph7_point_bytes(p: Kph7Point) -> Seq<u8> {
    le_i32(p.time_raw) + le_i32(p.altitude_raw) + le_i32(p.velocity_raw) + le_u32(
        p.phase_and_events,
    )
}

pub open spec fn kph8_point_bytes(p: Kph8Point) -> Seq<u8> {
    le_i32(p.time_raw) + le_i32(p.east_raw) + le_i32(p.north_raw) + le_i32(p.altitude_raw)
        + le_i32(p.vertical_velocity_raw) + le_u32(p.phase_and_events)
}

/// Appends the 16 bytes of a vertical-flight plot point.
pub fn write_kph7_point(out: &mut Vec<u8>, p: Kph7Point)
    ensures
        final(out)@ == old(out)@ + kph7_point_bytes(p),
{
    push_u32(out, p.time_raw as u32);
    push_u32(out, p.altitude_raw as u32);
    push_u32(out, p.velocity_raw as u32);
    push_u32(out, p.phase_and_events);
    assert(final(out)@ =~= old(out)@ + kph7_point_bytes(p));
}

/// Appends the 24 bytes of a spatial-flight plot point.
pub fn write_kph8_point(out: &mut Vec<u8>, p: Kph8Point)
    ensures
        final(out)@ == old(out)@ + kph8_point_bytes(p),
{
    push_u32(out, p.time_raw as u32);
    push_u32(out, p.east_raw as u32);
    push_u32(out, p.north_raw as u32);
    push_u32(out, p.altitude_raw as u32);
    push_u32(out, p.vertical_velocity_raw as u32);
    push_u32(out, p.phase_and_events);
    assert(final(out)@ =~= old(out)@ + kph8_point_bytes(p));
}

/// Reads the vertical-flight plot point stored at `at`.
pub fn read_kph7_point(input: &[u8], at: usize) -> (r: Kph7Point)
    requires
        at + KPH7_POINT_LENGTH <= input@.len(),
    ensures
        r.time_raw as u32 == get_u32(input@, at as int),
        r.altitude_raw as u32 == get_u32(input@, at + 4),
        r.velocity_raw as u32 == get_u32(input@, at + 8),
        r.phase_and_events == get_u32(input@, at + 12),
{
    let n = input.len();
    assert(at + KPH7_POINT_LENGTH <= n);
    let a = read_u32(input, at);
    let b = read_u32(input, at + 4);
    let c = read_u32(input, at + 8);
    proof {
        lemma_i32_u32_cast(0, a);
        lemma_i32_u32_cast(0, b);
        lemma_i32_u32_cast(0, c);
    }
    Kph7Point {
        time_raw: a as i32,
        altitude_raw: b as i32,
        velocity_raw: c as i32,
        phase_and_events: read_u32(input, at + 12),
    }
}

/// Reads the spatial-flight plot point stored at `at`.
pub fn read_kph8_point(input: &[u8], at: usize) -> (r: Kph8Point)
    requires
        at + KPH8_POINT_LENGTH <= input@.len(),
    ensures
        r.time_raw as u32 == get_u32(input@, at as int),
        r.east_raw as u32 == get_u32(input@, at + 4),
        r.north_raw as u32 == get_u32(input@, at + 8),
        r.altitude_raw as u32 == get_u32(input@, at + 12),
        r.vertical_velocity_raw as u32 == get_u32(input@, at + 16),
        r.phase_and_events == get_u32(input@, at + 20),
{
    let n = input.len();
    assert(at + KPH8_POINT_LENGTH <= n);
    let a = read_u32(input, at);
    let b = read_u32(input, at + 4);
    let c = read_u32(input, at + 8);
    let d = read_u32(input, at + 12);
    let e = read_u32(input, at + 16);
    proof {
        lemma_i32_u32_cast(0, a);
        lemma_i32_u32_cast(0, b);
        lemma_i32_u32_cast(0, c);
        lemma_i32_u32_cast(0, d);
        lemma_i32_u32_cast(0, e);
    }
    Kph8Point {
        time_raw: a as i32,
        east_raw: b as i32,
        north_raw: c as i32,
        altitude_raw: d as i32,
        vertical_velocity_raw: e as i32,
        phase_and_events: read_u32(input, at + 20),
    }
}

/// A written vertical-flight point reads back unchanged.
pub proof fn law_kph7_point_round_trip(p: Kph7Point, prefix: Seq<u8>)
    ensures
        ({
            let s = prefix + kph7_point_bytes(p);
            let at = prefix.len() as int;
            &&& get_u32(s, at) == p.time_raw as u32
            &&& get_u32(s, at + 4) == p.altitude_raw as u32
            &&& get_u32(s, at + 8) == p.velocity_raw as u32
            &&& get_u32(s, at + 12) == p.phase_and_events
        }),
{
    let s = prefix + kph7_point_bytes(p);
    let at = prefix.len() as int;
    lemma_u32_roundtrip(p.time_raw as u32);
    lemma_u32_roundtrip(p.altitude_raw as u32);
    lemma_u32_roundtrip(p.velocity_raw as u32);
    lemma_u32_roundtrip(p.phase_and_events);
    assert(s.subrange(at, at + 4) =~= le_u32(p.time_raw as u32));
    assert(s.subrange(at + 4, at + 8) =~= le_u32(p.altitude_raw as u32));
    assert(s.subrange(at + 8, at + 12) =~= le_u32(p.velocity_raw as u32));
    assert(s.subrange(at + 12, at + 16) =~= le_u32(p.phase_and_events));
    assert(get_u32(s, at) == get_u32(s.subrange(at, at + 4), 0));
    assert(get_u32(s, at + 4) == get_u32(s.subrange(at + 4, at + 8), 0));
    assert(get_u32(s, at + 8) == get_u32(s.subrange(at + 8, at + 12), 0));
    assert(get_u32(s, at + 12) == get_u32(s.subrange(at + 12, at + 16), 0));
}

// ---------------------------------------------------------------------------
// Plot records

/// Why a plot record was refused: a reserved header byte is set, the point
/// stride or record length is not what the count says, or (when building
/// one) the telemetry stream holds no frame to plot.
#[derive(Clone, Copy, Debug, PartialEq, Eq, Structural)]
pub enum PlotRecordError {
    Reserved,
    Length,
    Empty,
}

/// The vertical-flight point stored at `at`.
pub open spec fn kph7_point_at(s: Seq<u8>, at: int) -> Kph7Point {
    Kph7Point {
        time_raw: get_u32(s, at) as i32,
        altitude_raw: get_u32(s, at + 4) as i32,
        velocity_raw: get_u32(s, at + 8) as i32,
        phase_and_events: get_u32(s, at + 12),
    }
}

/// Some header byte in `from..to` is not zero.
pub open spec fn any_nonzero(s: Seq<u8>, from: int, to: int) -> bool {
    exists|i: int| from <= i < to && s[i] != 0
}

/// The points of a vertical-flight plot record whose record header is
/// `header_length` bytes long: the header bytes from 52 on are reserved and
/// zero, the point count and stride stand at 32 and 34, the stride is the
/// point length, and the record is exactly the header, the points and a
/// 4-byte seal.
pub open spec fn kph7_points_of(s: Seq<u8>, header_length: int) -> Result<
    Seq<Kph7Point>,
    PlotRecordError,
> {
    if s.len() < header_length + 4 || any_nonzero(s, 52, header_length) {
        Err(PlotRecordError::Reserved)
    } else if get_u16(s, 34) != KPH7_POINT_LENGTH || s.len() != header_length + get_u16(s, 32)
        * KPH7_POINT_LENGTH + 4 {
        Err(PlotRecordError::Length)
    } else {
        Ok(
            Seq::new(
                get_u16(s, 32) as nat,
                |i: int| kph7_point_at(s, header_length + i * KPH7_POINT_LENGTH),
            ),
        )
    }
}

/// Whether a byte in `from..to` is set.
pub(crate) fn find_nonzero(input: &[u8], from: usize, to: usize) -> (r: bool)
    requires
        from <= to <= input@.len(),
    ensures
        r == any_nonzero(input@, from as int, to as int),
{
    let mut i = from;
    while i < to
        invariant
            from <= i <= to <= input@.len(),
            forall|j: int| from <= j < i ==> input@[j] == 0,
        decreases to - i,
    {
        if input[i] != 0 {
            return true;
        }
        i += 1;
    }
    false
}

/// Reads the points of a vertical-flight plot record whose record header
/// (`header_length` bytes, its kind and seal already checked) comes first.
pub fn parse_kph7(input: &[u8], header_length: usize) -> (r: Result<
    Vec<Kph7Point>,
    PlotRecordError,
>)
    requires
        52 <= header_length,
    ensures
        match kph7_points_of(input@, header_length as int) {
            Ok(points) => r matches Ok(v) && v@ == points,
            Err(e) => r == Err::<Vec<Kph7Point>, PlotRecordError>(e),
        },
{
    let n = input.len();
    if n < 4 || n - 4 < header_length {
        return Err(PlotRecordError::Reserved);
    }
    if find_nonzero(input, 52, header_length) {
        return Err(PlotRecordError::Reserved);
    }
    let count = read_u16(input, 32) as usize;
    let stride = read_u16(input, 34) as usize;
    if stride != KPH7_POINT_LENGTH || n - 4 - header_length != count * KPH7_POINT_LENGTH {
        return Err(PlotRecordError::Length);
    }
    let ghost s = input@;
    let ghost h = header_length as int;
    let mut points: Vec<Kph7Point> = Vec::new();
    let mut i: usize = 0;
    while i < count
        invariant
            s == input@,
            n == s.len(),
            h == header_length,
            n == h + count * 16 + 4,
            i <= count,
            points@.len() == i,
            forall|j: int| 0 <= j < i ==> #[trigger] points@[j] == kph7_point_at(s, h + j * 16),
        decreases count - i,
    {
        let at = header_length + i * KPH7_POINT_LENGTH;
        let p = read_kph7_point(input, at);
        proof {
            lemma_i32_u32_cast(p.time_raw, 0);
            lemma_i32_u32_cast(p.altitude_raw, 0);
            lemma_i32_u32_cast(p.velocity_raw, 0);
        }
        points.push(p);
        i += 1;
    }
    assert(points@ =~= Seq::new(count as nat, |j: int| kph7_point_at(s, h + j * 16)));
    Ok(points)
}

/// The bytes of a run of vertical-flight points, in order.
pub open spec fn kph7_points_bytes(points: Seq<Kph7Point>) -> Seq<u8>
    decreases points.len(),
{
    if points.len() == 0 {
        Seq::empty()
    } else {
        kph7_points_bytes(points.drop_last()) + kph7_point_bytes(points.last())
    }
}

/// How many points a bounded plot of `frames` frames keeps, at most `max`.
pub open spec fn plot_point_count(frames: int, max: int) -> int {
    if frames < max {
        frames
    } else {
        max
    }
}

/// The frames a stock vertical-flight plot keeps.
pub open spec fn kph7_sampled(frames: Seq<Kph7Point>) -> Seq<Kph7Point> {
    let count = plot_point_count(frames.len() as int, STOCK_KPH7_MAX_POINTS as int);
    Seq::new(count as nat, |i: int| frames[sampled_frame(i, count, frames.len() as int)])
}

/// The 52 bytes that open a stock vertical-flight plot record: the record
/// header's first 32 bytes (left zero for the record library to stamp),
/// the point count and stride, the vehicle, motor and mission identities,
/// and the telemetry's frame count.
pub open spec fn kph7_head(count: u16, vehicle: u32, motor: u32, mission: u32, frames: u32) -> Seq<
    u8,
> {
    zeros(32) + le_u16(count) + le_u16(KPH7_POINT_LENGTH as u16) + le_u32(vehicle) + le_u32(motor)
        + le_u32(mission) + le_u32(frames)
}

/// A stock vertical-flight plot record of `frames` before its record header
/// is stamped and sealed: the head, the rest of the header reserved, the
/// sampled points, and room for the 4-byte seal.
pub open spec fn stock_kph7_bytes(
    frames: Seq<Kph7Point>,
    header_length: int,
    vehicle: u32,
    motor: u32,
    mission: u32,
) -> Seq<u8> {
    let points = kph7_sampled(frames);
    kph7_head(points.len() as u16, vehicle, motor, mission, frames.len() as u32) + zeros(
        (header_length - 52) as nat,
    ) + kph7_points_bytes(points) + zeros(4)
}

/// Lays out the stock vertical-flight plot of a telemetry stream whose
/// frames are `frames`: at most the stock number of points, sampled evenly
/// from the first frame to the last. The record header's kind, identity and
/// seal are left for the record library.
pub fn build_stock_kph7(
    frames: &[Kph7Point],
    header_length: usize,
    vehicle_identity: u32,
    motor_identity: u32,
    mission_identity: u32,
) -> (r: Result<Vec<u8>, PlotRecordError>)
    requires
        frames@.len() <= u32::MAX,
        52 <= header_length,
    ensures
        frames@.len() == 0 ==> r == Err::<Vec<u8>, PlotRecordError>(PlotRecordError::Empty),
        frames@.len() > 0 ==> r is Ok && r->Ok_0@ == stock_kph7_bytes(
            frames@,
            header_length as int,
            vehicle_identity,
            motor_identity,
            mission_identity,
        ),
{
    let n = frames.len();
    if n == 0 {
        return Err(PlotRecordError::Empty);
    }
    let count = if n < STOCK_KPH7_MAX_POINTS {
        n
    } else {
        STOCK_KPH7_MAX_POINTS
    };
    let ghost points = kph7_sampled(frames@);
    let mut out: Vec<u8> = Vec::new();
    push_zeros(&mut out, 32);
    push_u16(&mut out, count as u16);
    push_u16(&mut out, KPH7_POINT_LENGTH as u16);
    push_u32(&mut out, vehicle_identity);
    push_u32(&mut out, motor_identity);
    push_u32(&mut out, mission_identity);
    push_u32(&mut out, n as u32);
    push_zeros(&mut out, header_length - 52);
    let ghost prefix = out@;
    assert(prefix =~= kph7_head(count as u16, vehicle_identity, motor_identity, mission_identity, n as u32)
        + zeros((header_length - 52) as nat));
    let mut p: usize = 0;
    while p < count
        invariant
            n == frames@.len() <= u32::MAX,
            count == points.len() <= n,
            count <= STOCK_KPH7_MAX_POINTS,
            points == kph7_sampled(frames@),
            p <= count,
            out@ == prefix + kph7_points_bytes(points.take(p as int)),
        decreases count - p,
    {
        let fi = sample_frame_index(p, count, n);
        proof {
            assert(points[p as int] == frames@[fi as int]);
            assert(points.take(p + 1).drop_last() =~= points.take(p as int));
        }
        write_kph7_point(&mut out, frames[fi]);
        p += 1;
        proof {
            assert(points.take(p as int).last() == frames@[fi as int]);
        }
    }
    assert(points.take(count as int) =~= points);
    push_zeros(&mut out, 4);
    Ok(out)
}

/// The points' bytes are the points' records one after another.
proof fn lemma_kph7_points_bytes(points: Seq<Kph7Point>)
    ensures
        kph7_points_bytes(points).len() == points.len() * 16,
        forall|i: int|
            0 <= i < points.len() ==> kph7_points_bytes(points).subrange(i * 16, i * 16 + 16)
                == kph7_point_bytes(#[trigger] points[i]),
    decreases points.len(),
{
    if points.len() > 0 {
        let init = points.drop_last();
        lemma_kph7_points_bytes(init);
        let b = kph7_points_bytes(points);
        let a = kph7_points_bytes(init);
        lemma_u32_roundtrip(0);
        assert(kph7_point_bytes(points.last()).len() == 16);
        assert forall|i: int| 0 <= i < points.len() implies b.subrange(i * 16, i * 16 + 16)
            == kph7_point_bytes(#[trigger] points[i]) by {
            if i < init.len() {
                assert(init[i] == points[i]);
                assert(b.subrange(i * 16, i * 16 + 16) =~= a.subrange(i * 16, i * 16 + 16));
            } else {
                assert(b.subrange(i * 16, i * 16 + 16) =~= kph7_point_bytes(points.last()));
            }
        }
    }
}

/// A point's record, found at `at`, reads back as the point.
proof fn lemma_kph7_point_at(s: Seq<u8>, at: int, p: Kph7Point)
    requires
        0 <= at,
        at + 16 <= s.len(),
        s.subrange(at, at + 16) == kph7_point_bytes(p),
    ensures
        kph7_point_at(s, at) == p,
{
    law_kph7_point_round_trip(p, Seq::empty());
    assert(Seq::<u8>::empty() + kph7_point_bytes(p) =~= kph7_point_bytes(p));
    let b = kph7_point_bytes(p);
    assert(get_u32(s, at) == get_u32(b, 0));
    assert(get_u32(s, at + 4) == get_u32(b, 4));
    assert(get_u32(s, at + 8) == get_u32(b, 8));
    assert(get_u32(s, at + 12) == get_u32(b, 12));
    lemma_i32_u32_cast(p.time_raw, 0);
    lemma_i32_u32_cast(p.altitude_raw, 0);
    lemma_i32_u32_cast(p.velocity_raw, 0);
}

/// A stock vertical-flight plot reads back as exactly the frames it
/// sampled: the reserved header bytes are zero, the count and stride agree
/// with the record's length, and each point is its frame.
pub proof fn law_stock_kph7_reads_back(
    frames: Seq<Kph7Point>,
    header_length: int,
    vehicle: u32,
    motor: u32,
    mission: u32,
)
    requires
        0 < frames.len() <= u32::MAX,
        52 <= header_length,
    ensures
        kph7_points_of(stock_kph7_bytes(frames, header_length, vehicle, motor, mission), header_length)
            == Ok::<Seq<Kph7Point>, PlotRecordError>(kph7_sampled(frames)),
{
    let points = kph7_sampled(frames);
    let count = points.len();
    let head = kph7_head(count as u16, vehicle, motor, mission, frames.len() as u32);
    let body = kph7_points_bytes(points);
    let s = stock_kph7_bytes(frames, header_length, vehicle, motor, mission);
    lemma_kph7_points_bytes(points);
    lemma_u16_roundtrip(count as u16);
    lemma_u16_roundtrip(16);
    lemma_u32_roundtrip(vehicle);
    lemma_u32_roundtrip(motor);
    lemma_u32_roundtrip(mission);
    lemma_u32_roundtrip(frames.len() as u32);
    assert(head.len() == 52);
    assert(s.len() == header_length + count * 16 + 4);
    assert(s.subrange(32, 34) =~= le_u16(count as u16));
    assert(s.subrange(34, 36) =~= le_u16(16));
    assert(get_u16(s, 32) == get_u16(s.subrange(32, 34), 0));
    assert(get_u16(s, 34) == get_u16(s.subrange(34, 36), 0));
    assert(!any_nonzero(s, 52, header_length)) by {
        assert forall|i: int| 52 <= i < header_length implies s[i] == 0 by {
            assert(s[i] == zeros((header_length - 52) as nat)[i - 52]);
        }
    }
    let parsed = Seq::new(count, |i: int| kph7_point_at(s, header_length + i * 16));
    assert forall|i: int| 0 <= i < count implies #[trigger] parsed[i] == points[i] by {
        let at = header_length + i * 16;
        assert(0 <= i * 16);
        assert(i * 16 + 16 <= count * 16);
        assert(s.subrange(at, at + 16) =~= body.subrange(i * 16, i * 16 + 16));
        lemma_kph7_point_at(s, at, points[i]);
    }
    assert(parsed =~= points);
}

/// The spatial-flight point stored at `at`.
pub open spec fn kph8_point_at(s: Seq<u8>, at: int) -> Kph8Point {
    Kph8Point {
        time_raw: get_u32(s, at) as i32,
        east_raw: get_u32(s, at + 4) as i32,
        north_raw: get_u32(s, at + 8) as i32,
        altitude_raw: get_u32(s, at + 12) as i32,
        vertical_velocity_raw: get_u32(s, at + 16) as i32,
        phase_and_events: get_u32(s, at + 20),
    }
}

/// The points of a spatial-flight plot record whose record header is
/// `header_length` bytes long: the header bytes from 56 on are reserved and
/// zero, the point count and stride stand at 32 and 34, the stride is the
/// point length, and the record is exactly the header, the points and a
/// 4-byte seal.
pub open spec fn kph8_points_of(s: Seq<u8>, header_length: int) -> Result<
    Seq<Kph8Point>,
    PlotRecordError,
> {
    if s.len() < header_length + 4 || any_nonzero(s, 56, header_length) {
        Err(PlotRecordError::Reserved)
    } else if get_u16(s, 34) != KPH8_POINT_LENGTH || s.len() != header_length + get_u16(s, 32)
        * KPH8_POINT_LENGTH + 4 {
        Err(PlotRecordError::Length)
    } else {
        Ok(
            Seq::new(
                get_u16(s, 32) as nat,
                |i: int| kph8_point_at(s, header_length + i * KPH8_POINT_LENGTH),
            ),
        )
    }
}

/// Reads the points of a spatial-flight plot record whose record header
/// (`header_length` bytes, its kind and seal already checked) comes first.
pub fn parse_kph8(input: &[u8], header_length: usize) -> (r: Result<
    Vec<Kph8Point>,
    PlotRecordError,
>)
    requires
        56 <= header_length,
    ensures
        match kph8_points_of(input@, header_length as int) {
            Ok(points) => r matches Ok(v) && v@ == points,
            Err(e) => r == Err::<Vec<Kph8Point>, PlotRecordError>(e),
        },
{
    let n = input.len();
    if n < 4 || n - 4 < header_length {
        return Err(PlotRecordError::Reserved);
    }
    if find_nonzero(input, 56, header_length) {
        return Err(PlotRecordError::Reserved);
    }
    let count = read_u16(input, 32) as usize;
    let stride = read_u16(input, 34) as usize;
    if stride != KPH8_POINT_LENGTH || n - 4 - header_length != count * KPH8_POINT_LENGTH {
        return Err(PlotRecordError::Length);
    }
    let ghost s = input@;
    let ghost h = header_length as int;
    let mut points: Vec<Kph8Point> = Vec::new();
    let mut i: usize = 0;
    while i < count
        invariant
            s == input@,
            n == s.len(),
            h == header_length,
            n == h + count * 24 + 4,
            i <= count,
            points@.len() == i,
            forall|j: int| 0 <= j < i ==> #[trigger] points@[j] == kph8_point_at(s, h + j * 24),
        decreases count - i,
    {
        let at = header_length + i * KPH8_POINT_LENGTH;
        let p = read_kph8_point(input, at);
        proof {
            lemma_i32_u32_cast(p.time_raw, 0);
            lemma_i32_u32_cast(p.east_raw, 0);
            lemma_i32_u32_cast(p.north_raw, 0);
            lemma_i32_u32_cast(p.altitude_raw, 0);
            lemma_i32_u32_cast(p.vertical_velocity_raw, 0);
        }
        points.push(p);
        i += 1;
    }
    assert(points@ =~= Seq::new(count as nat, |j: int| kph8_point_at(s, h + j * 24)));
    Ok(points)
}

/// The bytes of a run of spatial-flight points, in order.
pub open spec fn kph8_points_bytes(points: Seq<Kph8Point>) -> Seq<u8>
    decreases points.len(),
{
    if points.len() == 0 {
        Seq::empty()
    } else {
        kph8_points_bytes(points.drop_last()) + kph8_point_bytes(points.last())
    }
}

/// The frames a stock spatial-flight plot keeps.
pub open spec fn kph8_sampled(frames: Seq<Kph8Point>) -> Seq<Kph8Point> {
    let count = plot_point_count(frames.len() as int, STOCK_KPH8_MAX_POINTS as int);
    Seq::new(count as nat, |i: int| frames[sampled_frame(i, count, frames.len() as int)])
}

/// The 56 bytes that open a stock spatial-flight plot record: the record
/// header's first 32 bytes (left zero for the record library to stamp),
/// the point count and stride, the vehicle, motor, mission and wind
/// identities, and the telemetry's frame count.
pub open spec fn kph8_head(
    count: u16,
    vehicle: u32,
    motor: u32,
    mission: u32,
    wind: u32,
    frames: u32,
) -> Seq<u8> {
    zeros(32) + le_u16(count) + le_u16(KPH8_POINT_LENGTH as u16) + le_u32(vehicle) + le_u32(motor)
        + le_u32(mission) + le_u32(wind) + le_u32(frames)
}

/// A stock spatial-flight plot record of `frames` before its record header
/// is stamped and sealed: the head, the rest of the header reserved, the
/// sampled points, and room for the 4-byte seal.
pub open spec fn stock_kph8_bytes(
    frames: Seq<Kph8Point>,
    header_length: int,
    vehicle: u32,
    motor: u32,
    mission: u32,
    wind: u32,
) -> Seq<u8> {
    let points = kph8_sampled(frames);
    kph8_head(points.len() as u16, vehicle, motor, mission, wind, frames.len() as u32) + zeros(
        (header_length - 56) as nat,
    ) + kph8_points_bytes(points) + zeros(4)
}

/// Lays out the stock spatial-flight plot of a telemetry stream whose
/// frames are `frames`: at most the stock number of points, sampled evenly
/// from the first frame to the last. The record header's kind, identity and
/// seal are left for the record library.
pub fn build_stock_kph8(
    frames: &[Kph8Point],
    header_length: usize,
    vehicle_identity: u32,
    motor_identity: u32,
    mission_identity: u32,
    wind_identity: u32,
) -> (r: Result<Vec<u8>, PlotRecordError>)
    requires
        frames@.len() <= u32::MAX,
        56 <= header_length,
    ensures
        frames@.len() == 0 ==> r == Err::<Vec<u8>, PlotRecordError>(PlotRecordError::Empty),
        frames@.len() > 0 ==> r is Ok && r->Ok_0@ == stock_kph8_bytes(
            frames@,
            header_length as int,
            vehicle_identity,
            motor_identity,
            mission_identity,
            wind_identity,
        ),
{
    let n = frames.len();
    if n == 0 {
        return Err(PlotRecordError::Empty);
    }
    let count = if n < STOCK_KPH8_MAX_POINTS {
        n
    } else {
        STOCK_KPH8_MAX_POINTS
    };
    let ghost points = kph8_sampled(frames@);
    let mut out: Vec<u8> = Vec::new();
    push_zeros(&mut out, 32);
    push_u16(&mut out, count as u16);
    push_u16(&mut out, KPH8_POINT_LENGTH as u16);
    push_u32(&mut out, vehicle_identity);
    push_u32(&mut out, motor_identity);
    push_u32(&mut out, mission_identity);
    push_u32(&mut out, wind_identity);
    push_u32(&mut out, n as u32);
    push_zeros(&mut out, header_length - 56);
    let ghost prefix = out@;
    assert(prefix =~= kph8_head(
        count as u16,
        vehicle_identity,
        motor_identity,
        mission_identity,
        wind_identity,
        n as u32,
    ) + zeros((header_length - 56) as nat));
    let mut p: usize = 0;
    while p < count
        invariant
            n == frames@.len() <= u32::MAX,
            count == points.len() <= n,
            count <= STOCK_KPH8_MAX_POINTS,
            points == kph8_sampled(frames@),
            p <= count,
            out@ == prefix + kph8_points_bytes(points.take(p as int)),
        decreases count - p,
    {
        let fi = sample_frame_index(p, count, n);
        proof {
            assert(points[p as int] == frames@[fi as int]);
            assert(points.take(p + 1).drop_last() =~= points.take(p as int));
        }
        write_kph8_point(&mut out, frames[fi]);
        p += 1;
        proof {
            assert(points.take(p as int).last() == frames@[fi as int]);
        }
    }
    assert(points.take(count as int) =~= points);
    push_zeros(&mut out, 4);
    Ok(out)
}

/// The points' bytes are the points' records one after another.
proof fn lemma_kph8_points_bytes(points: Seq<Kph8Point>)
    ensures
        kph8_points_bytes(points).len() == points.len() * 24,
        forall|i: int|
            0 <= i < points.len() ==> kph8_points_bytes(points).subrange(i * 24, i * 24 + 24)
                == kph8_point_bytes(#[trigger] points[i]),
    decreases points.len(),
{
    if points.len() > 0 {
        let init = points.drop_last();
        lemma_kph8_points_bytes(init);
        let b = kph8_points_bytes(points);
        let a = kph8_points_bytes(init);
        lemma_u32_roundtrip(0);
        assert(kph8_point_bytes(points.last()).len() == 24);
        assert forall|i: int| 0 <= i < points.len() implies b.subrange(i * 24, i * 24 + 24)
            == kph8_point_bytes(#[trigger] points[i]) by {
            if i < init.len() {
                assert(init[i] == points[i]);
                assert(b.subrange(i * 24, i * 24 + 24) =~= a.subrange(i * 24, i * 24 + 24));
            } else {
                assert(b.subrange(i * 24, i * 24 + 24) =~= kph8_point_bytes(points.last()));
            }
        }
    }
}

/// A point's record, found at `at`, reads back as the point.
proof fn lemma_kph8_point_at(s: Seq<u8>, at: int, p: Kph8Point)
    requires
        0 <= at,
        at + 24 <= s.len(),
        s.subrange(at, at + 24) == kph8_point_bytes(p),
    ensures
        kph8_point_at(s, at) == p,
{
    let b = kph8_point_bytes(p);
    let words = seq![
        p.time_raw as u32,
        p.east_raw as u32,
        p.north_raw as u32,
        p.altitude_raw as u32,
        p.vertical_velocity_raw as u32,
        p.phase_and_events,
    ];
    assert forall|k: int| 0 <= k < 6 implies get_u32(s, at + 4 * k) == words[k] by {
        lemma_u32_roundtrip(words[k]);
        assert(b.subrange(4 * k, 4 * k + 4) =~= le_u32(words[k]));
        assert(get_u32(s, at + 4 * k) == get_u32(b.subrange(4 * k, 4 * k + 4), 0));
    }
    lemma_i32_u32_cast(p.time_raw, 0);
    lemma_i32_u32_cast(p.east_raw, 0);
    lemma_i32_u32_cast(p.north_raw, 0);
    lemma_i32_u32_cast(p.altitude_raw, 0);
    lemma_i32_u32_cast(p.vertical_velocity_raw, 0);
}

/// A stock spatial-flight plot reads back as exactly the frames it
/// sampled: the reserved header bytes are zero, the count and stride agree
/// with the record's length, and each point is its frame.
pub proof fn law_stock_kph8_reads_back(
    frames: Seq<Kph8Point>,
    header_length: int,
    vehicle: u32,
    motor: u32,
    mission: u32,
    wind: u32,
)
    requires
        0 < frames.len() <= u32::MAX,
        56 <= header_length,
    ensures
        kph8_points_of(stock_kph8_bytes(frames, header_length, vehicle, motor, mission, wind), header_length)
            == Ok::<Seq<Kph8Point>, PlotRecordError>(kph8_sampled(frames)),
{
    let points = kph8_sampled(frames);
    let count = points.len();
    let head = kph8_head(count as u16, vehicle, motor, mission, wind, frames.len() as u32);
    let body = kph8_points_bytes(points);
    let s = stock_kph8_bytes(frames, header_length, vehicle, motor, mission, wind);
    lemma_kph8_points_bytes(points);
    lemma_u16_roundtrip(count as u16);
    lemma_u16_roundtrip(24);
    lemma_u32_roundtrip(vehicle);
    lemma_u32_roundtrip(motor);
    lemma_u32_roundtrip(mission);
    lemma_u32_roundtrip(wind);
    lemma_u32_roundtrip(frames.len() as u32);
    assert(head.len() == 56);
    assert(s.len() == header_length + count * 24 + 4);
    assert(s.subrange(32, 34) =~= le_u16(count as u16));
    assert(s.subrange(34, 36) =~= le_u16(24));
    assert(get_u16(s, 32) == get_u16(s.subrange(32, 34), 0));
    assert(get_u16(s, 34) == get_u16(s.subrange(34, 36), 0));
    assert(!any_nonzero(s, 56, header_length)) by {
        assert forall|i: int| 56 <= i < header_length implies s[i] == 0 by {
            assert(s[i] == zeros((header_length - 56) as nat)[i - 56]);
        }
    }
    let parsed = Seq::new(count, |i: int| kph8_point_at(s, header_length + i * 24));
    assert forall|i: int| 0 <= i < count implies #[trigger] parsed[i] == points[i] by {
        let at = header_length + i * 24;
        assert(0 <= i * 24);
        assert(i * 24 + 24 <= count * 24);
        assert(s.subrange(at, at + 24) =~= body.subrange(i * 24, i * 24 + 24));
        lemma_kph8_point_at(s, at, points[i]);
    }
    assert(parsed =~= points);
}

/// The kind of orbit a state vector is on.
#[derive(Clone, Copy, Debug, PartialEq, Eq, Structural)]
pub enum OrbitKind {
    Elliptic,
    Impacting,
    Escape,
    Degenerate,
}

/// The console's label for an orbit kind.
pub fn format_orbit_kind(kind: OrbitKind) -> (r: &'static str)
    ensures
        r@ == (match kind {
            OrbitKind::Elliptic => "STABLE ELLIPSE"@,
            OrbitKind::Impacting => "EARTH-INTERSECTING"@,
            OrbitKind::Escape => "OPEN / ESCAPE"@,
            OrbitKind::Degenerate => "DEGENERATE"@,
        }),
{
    match kind {
        OrbitKind::Elliptic => "STABLE ELLIPSE",
        OrbitKind::Impacting => "EARTH-INTERSECTING",
        OrbitKind::Escape => "OPEN / ESCAPE",
        OrbitKind::Degenerate => "DEGENERATE",
    }
}

/// Why the embedded reference plan could not be loaded.
#[derive(Clone, Copy, Debug, PartialEq, Eq, Structural)]
pub enum PlanError {
    History,
    Identity,
    Json,
    Orbit,
}

/// Why a planned trajectory artifact was refused.
#[derive(Clone, Copy, Debug, PartialEq, Eq, Structural)]
pub enum PlannedTrajectoryError {
    ArtifactHash,
    Header,
    Identity,
    Length,
    Point,
    Time,
}

/// Every reference point's mission time (in 1/65536 s) is a whole number
/// of releases (2048 units), and the release epochs strictly increase.
pub open spec fn reference_times_ok(times: Seq<u32>) -> bool {
    &&& forall|i: int| 0 <= i < times.len() ==> #[trigger] times[i] % 2048 == 0
    &&& forall|i: int| 0 < i < times.len() ==> times[i - 1] / 2048 < #[trigger] times[i] / 2048
}

/// The release epochs of the reference points whose mission times are
/// `times`, or `Time` where a time falls between releases or the epochs do
/// not strictly increase.
pub fn reference_epochs(times: &[u32]) -> (r: Result<Vec<u32>, PlannedTrajectoryError>)
    ensures
        reference_times_ok(times@) <==> r is Ok,
        r matches Ok(e) ==> e@ == times@.map_values(|t: u32| t / 2048),
        r matches Err(x) ==> x == PlannedTrajectoryError::Time,
{
    let mut epochs: Vec<u32> = Vec::new();
    let mut i: usize = 0;
    while i < times.len()
        invariant
            i <= times@.len(),
            epochs@ == times@.take(i as int).map_values(|t: u32| t / 2048),
            forall|k: int| 0 <= k < i ==> #[trigger] times@[k] % 2048 == 0,
            forall|k: int| 0 < k < i ==> times@[k - 1] / 2048 < #[trigger] times@[k] / 2048,
        decreases times@.len() - i,
    {
        let t = times[i];
        if t % 2048 != 0 {
            return Err(PlannedTrajectoryError::Time);
        }
        let epoch = t / 2048;
        if i > 0 && epoch <= epochs[i - 1] {
            assert(times@[i - 1] / 2048 == epochs@[i - 1]);
            return Err(PlannedTrajectoryError::Time);
        }
        epochs.push(epoch);
        i += 1;
        assert(epochs@ =~= times@.take(i as int).map_values(|t: u32| t / 2048));
    }
    assert(times@.take(times@.len() as int) =~= times@);
    Ok(epochs)
}

} // verus!
