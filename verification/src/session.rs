//! KMR6 Mission Control session recordings.
//!
//! A recording is a 32-byte header followed by framed records. Each record is
//! a kind byte, a zero byte, a little-endian payload length, the payload and a
//! CRC-32 over kind, zero, length and payload. Update records carry one
//! mission-control update in a fixed little-endian layout whose four cell
//! blobs have the lengths of the flight interface's cells; finish records
//! carry the run evidence as JSON, which the embedding application reads.
use vstd::prelude::*;
use vstd::slice::slice_to_vec;
use crate::le::{
    get_u16, get_u32, get_u64, le_i16, le_i32, le_u16, le_u32, le_u64, lemma_i16_u16_cast,
    lemma_i32_u32_cast, lemma_le_injective, lemma_u16_reencode, lemma_u32_reencode,
    lemma_u64_reencode, lemma_u16_roundtrip, lemma_u32_roundtrip, push_u16, push_u32, push_u64, read_u16, read_u32, read_u64,
};
use crate::pace::PaceRate;
use crate::crc::{crc32, crc32_ieee_of};

verus! {

pub const KMR6_HEADER_LENGTH: usize = 32;
pub const KMR6_VERSION: u16 = 1;
pub const RECORD_UPDATE: u8 = 1;
pub const RECORD_FINISH: u8 = 2;
pub const MAX_RECORD: usize = 1024 * 1024;

/// Why a recording could not be read.
#[derive(Clone, Copy, Debug, PartialEq, Eq, Structural)]
pub enum SessionError {
    /// The file header is malformed.
    Header,
    /// An intact update record does not hold a well-formed update.
    Codec,
}

/// The evidence a finished run leaves in its finish record.
#[derive(Clone, Copy, Debug, PartialEq, Eq)]
pub struct SessionEvidence {
    pub complete: bool,
    pub operator_stopped: bool,
    pub fast_epochs: u32,
    pub mission_steps: u32,
    pub terminal_position_q12: [i32; 3],
    pub terminal_velocity_q24: [i32; 3],
    pub navigation_position_q12: [i32; 3],
    pub navigation_velocity_q24: [i32; 3],
    pub status_flight_checksum: u32,
    pub final_flight_checksum: u32,
    pub navigation_checksum: u32,
    pub deadline_misses: u16,
    pub alarms: u16,
}

/// A loaded recording is complete when its finish record says the run
/// completed and no record had to be skipped.
pub fn session_complete(evidence: Option<SessionEvidence>, recovered: bool) -> (r: bool)
    ensures
        r == (evidence matches Some(e) && e.complete && !recovered),
{
    match evidence {
        Some(e) => e.complete && !recovered,
        None => false,
    }
}

/// Byte lengths of the four flight-interface cells carried in an update.
#[derive(Clone, Copy, Debug, PartialEq, Eq, Structural)]
pub struct CellLayout {
    pub inertial: usize,
    pub aid: usize,
    pub command: usize,
    pub status: usize,
}

#[derive(Clone, Copy, Debug, PartialEq, Eq)]
pub struct RecordedFix {
    pub fix_id: u32,
    pub measurement_epoch: u32,
    pub production_epoch: u32,
    pub position: [i32; 3],
    pub velocity: [i32; 3],
    pub network_id: u16,
    pub validity: u16,
}

#[derive(Clone, Copy, Debug, PartialEq, Eq)]
pub struct RecordedEstimate {
    pub epoch: u32,
    pub position: [i32; 3],
    pub velocity: [i32; 3],
    pub fixes: u32,
    pub checksum: u32,
}

#[derive(Clone, Copy, Debug, PartialEq, Eq)]
pub struct RecordedComparison {
    pub position: [i32; 3],
    pub velocity: [i32; 3],
}

#[derive(Clone, Copy, Debug, PartialEq, Eq)]
pub struct RecordedGuidance {
    pub start: [i16; 3],
    pub end: [i16; 3],
    pub rate: [i16; 3],
}

#[derive(Clone, Copy, Debug, PartialEq, Eq)]
pub struct RecordedDirector {
    pub position: [i32; 3],
    pub velocity: [i32; 3],
    pub acceleration: [i32; 3],
    pub attitude: [i32; 4],
    pub angular_rate: [i32; 3],
    pub flexible: [i32; 8],
    pub total_mass: i32,
    pub active_propellant: i32,
    pub rcs_propellant: i32,
    pub time: i32,
    pub step: u32,
    pub active_stage: u8,
    pub phase: u8,
    pub substep: u8,
    pub mach: i32,
    pub dynamic_pressure: i32,
    pub angle_of_attack_sine: i32,
    pub gimbal_requested: [i32; 2],
    pub gimbal_lagged: [i32; 2],
    pub gimbal_applied: [i32; 2],
    pub events: u16,
}

/// One recorded mission-control update.
#[derive(Debug)]
pub struct RecordedUpdate {
    pub epoch: u32,
    pub wall_micros: u64,
    pub inertial: Vec<u8>,
    pub aid: Option<Vec<u8>>,
    pub command: Vec<u8>,
    pub status: Option<Vec<u8>>,
    pub ground_fix: Option<RecordedFix>,
    pub ground_estimate: Option<RecordedEstimate>,
    pub comparison: Option<RecordedComparison>,
    pub director: RecordedDirector,
    pub guidance: RecordedGuidance,
    pub world_cells: u32,
    pub flight_cells: u32,
    pub transcript_checksum: u32,
    pub mission_control_alarms: u16,
    pub pace_rate: u8,
    pub paused: bool,
    pub cancelled: bool,
}

// ---------------------------------------------------------------------------
// Byte layouts

pub open spec fn i32x2_le(a: [i32; 2]) -> Seq<u8> {
    le_i32(a[0]) + le_i32(a[1])
}

pub open spec fn i32x3_le(a: [i32; 3]) -> Seq<u8> {
    le_i32(a[0]) + le_i32(a[1]) + le_i32(a[2])
}

pub open spec fn i32x4_le(a: [i32; 4]) -> Seq<u8> {
    le_i32(a[0]) + le_i32(a[1]) + le_i32(a[2]) + le_i32(a[3])
}

pub open spec fn i32x8_le(a: [i32; 8]) -> Seq<u8> {
    le_i32(a[0]) + le_i32(a[1]) + le_i32(a[2]) + le_i32(a[3]) + le_i32(a[4]) + le_i32(a[5])
        + le_i32(a[6]) + le_i32(a[7])
}

pub open spec fn i16x3_le(a: [i16; 3]) -> Seq<u8> {
    le_i16(a[0]) + le_i16(a[1]) + le_i16(a[2])
}

pub open spec fn bool_byte(v: bool) -> Seq<u8> {
    seq![if v { 1u8 } else { 0u8 }]
}

#[verifier::opaque]
pub open spec fn fix_bytes(f: RecordedFix) -> Seq<u8> {
    le_u32(f.fix_id) + le_u32(f.measurement_epoch) + le_u32(f.production_epoch) + i32x3_le(
        f.position,
    ) + i32x3_le(f.velocity) + le_u16(f.network_id) + le_u16(f.validity)
}

#[verifier::opaque]
pub open spec fn estimate_bytes(e: RecordedEstimate) -> Seq<u8> {
    le_u32(e.epoch) + i32x3_le(e.position) + i32x3_le(e.velocity) + le_u32(e.fixes) + le_u32(
        e.checksum,
    )
}

#[verifier::opaque]
pub open spec fn comparison_bytes(c: RecordedComparison) -> Seq<u8> {
    i32x3_le(c.position) + i32x3_le(c.velocity)
}

/// Director motion block: position, velocity, acceleration, attitude,
/// angular rate and flexible modes (96 bytes).
pub open spec fn director_motion_bytes(d: RecordedDirector) -> Seq<u8> {
    i32x3_le(d.position) + i32x3_le(d.velocity) + i32x3_le(d.acceleration) + i32x4_le(
        d.attitude,
    ) + i32x3_le(d.angular_rate) + i32x8_le(d.flexible)
}

/// Director mass block: masses, time, step, stage, phase, substep (23 bytes).
pub open spec fn director_mass_bytes(d: RecordedDirector) -> Seq<u8> {
    le_i32(d.total_mass) + le_i32(d.active_propellant) + le_i32(d.rcs_propellant) + le_i32(d.time)
        + le_u32(d.step) + seq![d.active_stage] + seq![d.phase] + seq![d.substep]
}

/// Director flow block: Mach, dynamic pressure, angle of attack, gimbal
/// angles and events (38 bytes).
pub open spec fn director_flow_bytes(d: RecordedDirector) -> Seq<u8> {
    le_i32(d.mach) + le_i32(d.dynamic_pressure) + le_i32(d.angle_of_attack_sine) + i32x2_le(
        d.gimbal_requested,
    ) + i32x2_le(d.gimbal_lagged) + i32x2_le(d.gimbal_applied) + le_u16(d.events)
}

/// The director sample: motion, mass and flow blocks in turn (157 bytes).
#[verifier::opaque]
pub open spec fn director_bytes(d: RecordedDirector) -> Seq<u8> {
    director_motion_bytes(d) + director_mass_bytes(d) + director_flow_bytes(d)
}

#[verifier::opaque]
pub open spec fn guidance_bytes(g: RecordedGuidance) -> Seq<u8> {
    i16x3_le(g.start) + i16x3_le(g.end) + i16x3_le(g.rate)
}

pub open spec fn opt_blob_bytes(o: Option<Vec<u8>>) -> Seq<u8> {
    match o {
        Some(x) => seq![1u8] + x@,
        None => seq![0u8],
    }
}

pub open spec fn opt_fix_bytes(o: Option<RecordedFix>) -> Seq<u8> {
    match o {
        Some(x) => seq![1u8] + fix_bytes(x),
        None => seq![0u8],
    }
}

pub open spec fn opt_estimate_bytes(o: Option<RecordedEstimate>) -> Seq<u8> {
    match o {
        Some(x) => seq![1u8] + estimate_bytes(x),
        None => seq![0u8],
    }
}

pub open spec fn opt_comparison_bytes(o: Option<RecordedComparison>) -> Seq<u8> {
    match o {
        Some(x) => seq![1u8] + comparison_bytes(x),
        None => seq![0u8],
    }
}


/// Byte lengths of the fixed-size blocks.
pub proof fn lemma_block_lengths(
    f: RecordedFix,
    e: RecordedEstimate,
    c: RecordedComparison,
    d: RecordedDirector,
    g: RecordedGuidance,
)
    ensures
        fix_bytes(f).len() == 40,
        estimate_bytes(e).len() == 36,
        comparison_bytes(c).len() == 24,
        director_bytes(d).len() == 157,
        guidance_bytes(g).len() == 18,
{
    reveal(fix_bytes);
    reveal(estimate_bytes);
    reveal(comparison_bytes);
    reveal(director_bytes);
    reveal(guidance_bytes);
}

/// Two optional blocks whose flag bytes agree have equally long layouts.
pub proof fn lemma_opt_lengths_agree()
    ensures
        forall|a: Option<RecordedFix>, b: Option<RecordedFix>|
            #![trigger opt_fix_bytes(a), opt_fix_bytes(b)]
            opt_fix_bytes(a)[0] == opt_fix_bytes(b)[0] ==> opt_fix_bytes(a).len()
                == opt_fix_bytes(b).len(),
        forall|a: Option<RecordedEstimate>, b: Option<RecordedEstimate>|
            #![trigger opt_estimate_bytes(a), opt_estimate_bytes(b)]
            opt_estimate_bytes(a)[0] == opt_estimate_bytes(b)[0] ==> opt_estimate_bytes(a).len()
                == opt_estimate_bytes(b).len(),
        forall|a: Option<RecordedComparison>, b: Option<RecordedComparison>|
            #![trigger opt_comparison_bytes(a), opt_comparison_bytes(b)]
            opt_comparison_bytes(a)[0] == opt_comparison_bytes(b)[0] ==> opt_comparison_bytes(
                a,
            ).len() == opt_comparison_bytes(b).len(),
        forall|a: Option<Vec<u8>>, b: Option<Vec<u8>>|
            #![trigger opt_blob_bytes(a), opt_blob_bytes(b)]
            opt_blob_bytes(a)[0] == opt_blob_bytes(b)[0] ==> (a is Some <==> b is Some),
{
    reveal(fix_bytes);
    reveal(estimate_bytes);
    reveal(comparison_bytes);
}

// ---------------------------------------------------------------------------
// Reading

/// A cursor over the bytes of one update record.
pub struct Decoder<'a> {
    pub b: &'a [u8],
    pub p: usize,
}

/// The cursor moved from `old_p` over `k` bytes of `input` whose layout is
/// `enc`.
pub open spec fn consumed(input: Seq<u8>, old_p: int, new_p: int, k: int, enc: Seq<u8>) -> bool {
    &&& old_p + k <= input.len()
    &&& new_p == old_p + k
    &&& enc == input.subrange(old_p, old_p + k)
}

impl<'a> Decoder<'a> {
    pub open spec fn wf(&self) -> bool {
        self.p <= self.b@.len()
    }

    pub fn new(b: &'a [u8]) -> (r: Self)
        ensures
            r.b == b,
            r.p == 0,
            r.wf(),
    {
        Decoder { b, p: 0 }
    }

    /// Takes the next `n` bytes.
    pub fn take(&mut self, n: usize) -> (r: Result<&'a [u8], SessionError>)
        requires
            old(self).wf(),
        ensures
            final(self).b == old(self).b,
            final(self).wf(),
            match r {
                Ok(s) => consumed(old(self).b@, old(self).p as int, final(self).p as int, n as int, s@),
                Err(e) => e == SessionError::Codec && old(self).p + n > old(self).b@.len()
                    && final(self).p == old(self).p,
            },
    {
        if self.b.len() - self.p < n {
            return Err(SessionError::Codec);
        }
        let s = &self.b[self.p..self.p + n];
        self.p = self.p + n;
        Ok(s)
    }

    pub fn u8(&mut self) -> (r: Result<u8, SessionError>)
        requires
            old(self).wf(),
        ensures
            final(self).b == old(self).b,
            final(self).wf(),
            match r {
                Ok(v) => consumed(old(self).b@, old(self).p as int, final(self).p as int, 1, seq![v]),
                Err(e) => e == SessionError::Codec && old(self).p + 1 > old(self).b@.len(),
            },
    {
        let s = self.take(1)?;
        let v = s[0];
        assert(seq![v] =~= s@);
        Ok(v)
    }

    /// A flag byte: 0 is false, 1 is true, anything else is malformed.
    pub fn bool(&mut self) -> (r: Result<bool, SessionError>)
        requires
            old(self).wf(),
        ensures
            final(self).b == old(self).b,
            final(self).wf(),
            match r {
                Ok(v) => consumed(old(self).b@, old(self).p as int, final(self).p as int, 1, bool_byte(v)),
                Err(e) => e == SessionError::Codec && (old(self).p + 1 > old(self).b@.len() || (
                old(self).b@[old(self).p as int] != 0 && old(self).b@[old(self).p as int] != 1)),
            },
    {
        let v = match self.u8() {
            Ok(v) => v,
            Err(e) => return Err(e),
        };
        assert(self.b@.subrange(old(self).p as int, old(self).p + 1) == seq![v]);
        assert(self.b@[old(self).p as int] == self.b@.subrange(old(self).p as int, old(self).p
            + 1)[0]);
        if v == 0 {
            assert(bool_byte(false) =~= seq![v]);
            Ok(false)
        } else if v == 1 {
            assert(bool_byte(true) =~= seq![v]);
            Ok(true)
        } else {
            Err(SessionError::Codec)
        }
    }

    pub fn u16(&mut self) -> (r: Result<u16, SessionError>)
        requires
            old(self).wf(),
        ensures
            final(self).b == old(self).b,
            final(self).wf(),
            match r {
                Ok(v) => consumed(old(self).b@, old(self).p as int, final(self).p as int, 2, le_u16(v)),
                Err(e) => e == SessionError::Codec && old(self).p + 2 > old(self).b@.len(),
            },
    {
        if self.b.len() - self.p < 2 {
            return Err(SessionError::Codec);
        }
        let v = read_u16(self.b, self.p);
        proof {
            lemma_u16_reencode(self.b@, self.p as int);
        }
        self.p = self.p + 2;
        Ok(v)
    }

    pub fn i16(&mut self) -> (r: Result<i16, SessionError>)
        requires
            old(self).wf(),
        ensures
            final(self).b == old(self).b,
            final(self).wf(),
            match r {
                Ok(v) => consumed(old(self).b@, old(self).p as int, final(self).p as int, 2, le_i16(v)),
                Err(e) => e == SessionError::Codec && old(self).p + 2 > old(self).b@.len(),
            },
    {
        let u = self.u16()?;
        proof {
            lemma_i16_u16_cast(0, u);
        }
        Ok(u as i16)
    }

    pub fn u32(&mut self) -> (r: Result<u32, SessionError>)
        requires
            old(self).wf(),
        ensures
            final(self).b == old(self).b,
            final(self).wf(),
            match r {
                Ok(v) => consumed(old(self).b@, old(self).p as int, final(self).p as int, 4, le_u32(v)),
                Err(e) => e == SessionError::Codec && old(self).p + 4 > old(self).b@.len(),
            },
    {
        if self.b.len() - self.p < 4 {
            return Err(SessionError::Codec);
        }
        let v = read_u32(self.b, self.p);
        proof {
            lemma_u32_reencode(self.b@, self.p as int);
        }
        self.p = self.p + 4;
        Ok(v)
    }

    pub fn i32(&mut self) -> (r: Result<i32, SessionError>)
        requires
            old(self).wf(),
        ensures
            final(self).b == old(self).b,
            final(self).wf(),
            match r {
                Ok(v) => consumed(old(self).b@, old(self).p as int, final(self).p as int, 4, le_i32(v)),
                Err(e) => e == SessionError::Codec && old(self).p + 4 > old(self).b@.len(),
            },
    {
        let u = self.u32()?;
        proof {
            lemma_i32_u32_cast(0, u);
        }
        Ok(u as i32)
    }

    pub fn u64(&mut self) -> (r: Result<u64, SessionError>)
        requires
            old(self).wf(),
        ensures
            final(self).b == old(self).b,
            final(self).wf(),
            match r {
                Ok(v) => consumed(old(self).b@, old(self).p as int, final(self).p as int, 8, le_u64(v)),
                Err(e) => e == SessionError::Codec && old(self).p + 8 > old(self).b@.len(),
            },
    {
        if self.b.len() - self.p < 8 {
            return Err(SessionError::Codec);
        }
        let v = read_u64(self.b, self.p);
        proof {
            lemma_u64_reencode(self.b@, self.p as int);
        }
        self.p = self.p + 8;
        Ok(v)
    }

    pub fn i32x2(&mut self) -> (r: Result<[i32; 2], SessionError>)
        requires
            old(self).wf(),
        ensures
            final(self).b == old(self).b,
            final(self).wf(),
            match r {
                Ok(v) => consumed(old(self).b@, old(self).p as int, final(self).p as int, 8, i32x2_le(v)),
                Err(e) => e == SessionError::Codec && old(self).p + 8 > old(self).b@.len(),
            },
    {
        if self.b.len() - self.p < 8 {
            return Err(SessionError::Codec);
        }
        let ghost b = self.b@;
        let ghost p = self.p as int;
        let a0 = self.i32()?;
        let a1 = self.i32()?;
        assert(b.subrange(p, p + 8) =~= b.subrange(p, p + 4) + b.subrange(p + 4, p + 8));
        Ok([a0, a1])
    }

    pub fn i32x3(&mut self) -> (r: Result<[i32; 3], SessionError>)
        requires
            old(self).wf(),
        ensures
            final(self).b == old(self).b,
            final(self).wf(),
            match r {
                Ok(v) => consumed(old(self).b@, old(self).p as int, final(self).p as int, 12, i32x3_le(v)),
                Err(e) => e == SessionError::Codec && old(self).p + 12 > old(self).b@.len(),
            },
    {
        if self.b.len() - self.p < 12 {
            return Err(SessionError::Codec);
        }
        let ghost b = self.b@;
        let ghost p = self.p as int;
        let a0 = self.i32()?;
        let a1 = self.i32()?;
        let a2 = self.i32()?;
        assert(b.subrange(p, p + 12) =~= b.subrange(p, p + 4) + b.subrange(p + 4, p + 8)
            + b.subrange(p + 8, p + 12));
        Ok([a0, a1, a2])
    }

    pub fn i32x4(&mut self) -> (r: Result<[i32; 4], SessionError>)
        requires
            old(self).wf(),
        ensures
            final(self).b == old(self).b,
            final(self).wf(),
            match r {
                Ok(v) => consumed(old(self).b@, old(self).p as int, final(self).p as int, 16, i32x4_le(v)),
                Err(e) => e == SessionError::Codec && old(self).p + 16 > old(self).b@.len(),
            },
    {
        if self.b.len() - self.p < 16 {
            return Err(SessionError::Codec);
        }
        let ghost b = self.b@;
        let ghost p = self.p as int;
        let a0 = self.i32()?;
        let a1 = self.i32()?;
        let a2 = self.i32()?;
        let a3 = self.i32()?;
        assert(b.subrange(p, p + 16) =~= b.subrange(p, p + 4) + b.subrange(p + 4, p + 8)
            + b.subrange(p + 8, p + 12) + b.subrange(p + 12, p + 16));
        Ok([a0, a1, a2, a3])
    }

    pub fn i32x8(&mut self) -> (r: Result<[i32; 8], SessionError>)
        requires
            old(self).wf(),
        ensures
            final(self).b == old(self).b,
            final(self).wf(),
            match r {
                Ok(v) => consumed(old(self).b@, old(self).p as int, final(self).p as int, 32, i32x8_le(v)),
                Err(e) => e == SessionError::Codec && old(self).p + 32 > old(self).b@.len(),
            },
    {
        if self.b.len() - self.p < 32 {
            return Err(SessionError::Codec);
        }
        let ghost b = self.b@;
        let ghost p = self.p as int;
        let lo = self.i32x4()?;
        let hi = self.i32x4()?;
        assert(b.subrange(p, p + 32) =~= b.subrange(p, p + 16) + b.subrange(p + 16, p + 32));
        let v = [lo[0], lo[1], lo[2], lo[3], hi[0], hi[1], hi[2], hi[3]];
        assert(i32x8_le(v) =~= i32x4_le(lo) + i32x4_le(hi));
        Ok(v)
    }

    pub fn i16x3(&mut self) -> (r: Result<[i16; 3], SessionError>)
        requires
            old(self).wf(),
        ensures
            final(self).b == old(self).b,
            final(self).wf(),
            match r {
                Ok(v) => consumed(old(self).b@, old(self).p as int, final(self).p as int, 6, i16x3_le(v)),
                Err(e) => e == SessionError::Codec && old(self).p + 6 > old(self).b@.len(),
            },
    {
        if self.b.len() - self.p < 6 {
            return Err(SessionError::Codec);
        }
        let ghost b = self.b@;
        let ghost p = self.p as int;
        let a0 = self.i16()?;
        let a1 = self.i16()?;
        let a2 = self.i16()?;
        assert(b.subrange(p, p + 6) =~= b.subrange(p, p + 2) + b.subrange(p + 2, p + 4)
            + b.subrange(p + 4, p + 6));
        Ok([a0, a1, a2])
    }
}


/// Two concatenations with equally long first parts are equal exactly when
/// both parts are.
pub proof fn lemma_concat_split(a1: Seq<u8>, b1: Seq<u8>, a2: Seq<u8>, b2: Seq<u8>)
    requires
        a1 + b1 == a2 + b2,
        a1.len() == a2.len(),
    ensures
        a1 == a2,
        b1 == b2,
{
    assert(a1 =~= (a1 + b1).subrange(0, a1.len() as int));
    assert(a2 =~= (a2 + b2).subrange(0, a2.len() as int));
    assert(b1 =~= (a1 + b1).subrange(a1.len() as int, (a1 + b1).len() as int));
    assert(b2 =~= (a2 + b2).subrange(a2.len() as int, (a2 + b2).len() as int));
}

pub proof fn lemma_i32x2_injective(a: [i32; 2], b: [i32; 2])
    requires
        i32x2_le(a) == i32x2_le(b),
    ensures
        a == b,
{
    lemma_le_injective();
    lemma_concat_split(le_i32(a[0]), le_i32(a[1]), le_i32(b[0]), le_i32(b[1]));
    assert(a =~= b);
}

pub proof fn lemma_i32x3_injective(a: [i32; 3], b: [i32; 3])
    requires
        i32x3_le(a) == i32x3_le(b),
    ensures
        a == b,
{
    lemma_le_injective();
    lemma_concat_split(
        le_i32(a[0]) + le_i32(a[1]),
        le_i32(a[2]),
        le_i32(b[0]) + le_i32(b[1]),
        le_i32(b[2]),
    );
    lemma_concat_split(le_i32(a[0]), le_i32(a[1]), le_i32(b[0]), le_i32(b[1]));
    assert(a =~= b);
}

pub proof fn lemma_i32x4_injective(a: [i32; 4], b: [i32; 4])
    requires
        i32x4_le(a) == i32x4_le(b),
    ensures
        a == b,
{
    lemma_le_injective();
    lemma_concat_split(
        le_i32(a[0]) + le_i32(a[1]) + le_i32(a[2]),
        le_i32(a[3]),
        le_i32(b[0]) + le_i32(b[1]) + le_i32(b[2]),
        le_i32(b[3]),
    );
    lemma_concat_split(
        le_i32(a[0]) + le_i32(a[1]),
        le_i32(a[2]),
        le_i32(b[0]) + le_i32(b[1]),
        le_i32(b[2]),
    );
    lemma_concat_split(le_i32(a[0]), le_i32(a[1]), le_i32(b[0]), le_i32(b[1]));
    assert(a =~= b);
}

pub proof fn lemma_i32x8_injective(a: [i32; 8], b: [i32; 8])
    requires
        i32x8_le(a) == i32x8_le(b),
    ensures
        a == b,
{
    let la = [a[0], a[1], a[2], a[3]];
    let ha = [a[4], a[5], a[6], a[7]];
    let lb = [b[0], b[1], b[2], b[3]];
    let hb = [b[4], b[5], b[6], b[7]];
    assert(i32x8_le(a) =~= i32x4_le(la) + i32x4_le(ha));
    assert(i32x8_le(b) =~= i32x4_le(lb) + i32x4_le(hb));
    lemma_concat_split(i32x4_le(la), i32x4_le(ha), i32x4_le(lb), i32x4_le(hb));
    lemma_i32x4_injective(la, lb);
    lemma_i32x4_injective(ha, hb);
    assert(a =~= b);
}

pub proof fn lemma_i16x3_injective(a: [i16; 3], b: [i16; 3])
    requires
        i16x3_le(a) == i16x3_le(b),
    ensures
        a == b,
{
    lemma_le_injective();
    lemma_concat_split(
        le_i16(a[0]) + le_i16(a[1]),
        le_i16(a[2]),
        le_i16(b[0]) + le_i16(b[1]),
        le_i16(b[2]),
    );
    lemma_concat_split(le_i16(a[0]), le_i16(a[1]), le_i16(b[0]), le_i16(b[1]));
    assert(a =~= b);
}

/// The fix layout determines the fix.
pub proof fn lemma_fix_bytes_injective(a: RecordedFix, b: RecordedFix)
    requires
        fix_bytes(a) == fix_bytes(b),
    ensures
        a == b,
{
    reveal(fix_bytes);
    lemma_le_injective();
    let a1 = le_u32(a.fix_id) + le_u32(a.measurement_epoch) + le_u32(a.production_epoch);
    let b1 = le_u32(b.fix_id) + le_u32(b.measurement_epoch) + le_u32(b.production_epoch);
    lemma_concat_split(
        a1 + i32x3_le(a.position) + i32x3_le(a.velocity) + le_u16(a.network_id),
        le_u16(a.validity),
        b1 + i32x3_le(b.position) + i32x3_le(b.velocity) + le_u16(b.network_id),
        le_u16(b.validity),
    );
    lemma_concat_split(
        a1 + i32x3_le(a.position) + i32x3_le(a.velocity),
        le_u16(a.network_id),
        b1 + i32x3_le(b.position) + i32x3_le(b.velocity),
        le_u16(b.network_id),
    );
    lemma_concat_split(
        a1 + i32x3_le(a.position),
        i32x3_le(a.velocity),
        b1 + i32x3_le(b.position),
        i32x3_le(b.velocity),
    );
    lemma_concat_split(a1, i32x3_le(a.position), b1, i32x3_le(b.position));
    lemma_concat_split(
        le_u32(a.fix_id) + le_u32(a.measurement_epoch),
        le_u32(a.production_epoch),
        le_u32(b.fix_id) + le_u32(b.measurement_epoch),
        le_u32(b.production_epoch),
    );
    lemma_concat_split(
        le_u32(a.fix_id),
        le_u32(a.measurement_epoch),
        le_u32(b.fix_id),
        le_u32(b.measurement_epoch),
    );
    lemma_i32x3_injective(a.position, b.position);
    lemma_i32x3_injective(a.velocity, b.velocity);
}

/// The estimate layout determines the estimate.
pub proof fn lemma_estimate_bytes_injective(a: RecordedEstimate, b: RecordedEstimate)
    requires
        estimate_bytes(a) == estimate_bytes(b),
    ensures
        a == b,
{
    reveal(estimate_bytes);
    lemma_le_injective();
    lemma_concat_split(
        le_u32(a.epoch) + i32x3_le(a.position) + i32x3_le(a.velocity) + le_u32(a.fixes),
        le_u32(a.checksum),
        le_u32(b.epoch) + i32x3_le(b.position) + i32x3_le(b.velocity) + le_u32(b.fixes),
        le_u32(b.checksum),
    );
    lemma_concat_split(
        le_u32(a.epoch) + i32x3_le(a.position) + i32x3_le(a.velocity),
        le_u32(a.fixes),
        le_u32(b.epoch) + i32x3_le(b.position) + i32x3_le(b.velocity),
        le_u32(b.fixes),
    );
    lemma_concat_split(
        le_u32(a.epoch) + i32x3_le(a.position),
        i32x3_le(a.velocity),
        le_u32(b.epoch) + i32x3_le(b.position),
        i32x3_le(b.velocity),
    );
    lemma_concat_split(
        le_u32(a.epoch),
        i32x3_le(a.position),
        le_u32(b.epoch),
        i32x3_le(b.position),
    );
    lemma_i32x3_injective(a.position, b.position);
    lemma_i32x3_injective(a.velocity, b.velocity);
}

/// The comparison layout determines the comparison.
pub proof fn lemma_comparison_bytes_injective(a: RecordedComparison, b: RecordedComparison)
    requires
        comparison_bytes(a) == comparison_bytes(b),
    ensures
        a == b,
{
    reveal(comparison_bytes);
    lemma_concat_split(
        i32x3_le(a.position),
        i32x3_le(a.velocity),
        i32x3_le(b.position),
        i32x3_le(b.velocity),
    );
    lemma_i32x3_injective(a.position, b.position);
    lemma_i32x3_injective(a.velocity, b.velocity);
}

/// The guidance layout determines the guidance slice.
pub proof fn lemma_guidance_bytes_injective(a: RecordedGuidance, b: RecordedGuidance)
    requires
        guidance_bytes(a) == guidance_bytes(b),
    ensures
        a == b,
{
    reveal(guidance_bytes);
    lemma_concat_split(
        i16x3_le(a.start) + i16x3_le(a.end),
        i16x3_le(a.rate),
        i16x3_le(b.start) + i16x3_le(b.end),
        i16x3_le(b.rate),
    );
    lemma_concat_split(i16x3_le(a.start), i16x3_le(a.end), i16x3_le(b.start), i16x3_le(b.end));
    lemma_i16x3_injective(a.start, b.start);
    lemma_i16x3_injective(a.end, b.end);
    lemma_i16x3_injective(a.rate, b.rate);
}

impl<'a> Decoder<'a> {
    pub fn fix(&mut self) -> (r: Result<RecordedFix, SessionError>)
        requires
            old(self).wf(),
        ensures
            final(self).b == old(self).b,
            final(self).wf(),
            match r {
                Ok(v) => consumed(old(self).b@, old(self).p as int, final(self).p as int, 40, fix_bytes(v)),
                Err(e) => e == SessionError::Codec && old(self).p + 40 > old(self).b@.len(),
            },
    {
        reveal(fix_bytes);
        if self.b.len() - self.p < 40 {
            return Err(SessionError::Codec);
        }
        let ghost b = self.b@;
        let ghost p = self.p as int;
        let fix_id = self.u32()?;
        let measurement_epoch = self.u32()?;
        let production_epoch = self.u32()?;
        let position = self.i32x3()?;
        let velocity = self.i32x3()?;
        let network_id = self.u16()?;
        let validity = self.u16()?;
        let v = RecordedFix {
            fix_id,
            measurement_epoch,
            production_epoch,
            position,
            velocity,
            network_id,
            validity,
        };
        assert(b.subrange(p, p + 40) =~= b.subrange(p, p + 4) + b.subrange(p + 4, p + 8)
            + b.subrange(p + 8, p + 12) + b.subrange(p + 12, p + 24) + b.subrange(p + 24, p + 36)
            + b.subrange(p + 36, p + 38) + b.subrange(p + 38, p + 40));
        Ok(v)
    }

    pub fn estimate(&mut self) -> (r: Result<RecordedEstimate, SessionError>)
        requires
            old(self).wf(),
        ensures
            final(self).b == old(self).b,
            final(self).wf(),
            match r {
                Ok(v) => consumed(old(self).b@, old(self).p as int, final(self).p as int, 36, estimate_bytes(v)),
                Err(e) => e == SessionError::Codec && old(self).p + 36 > old(self).b@.len(),
            },
    {
        reveal(estimate_bytes);
        if self.b.len() - self.p < 36 {
            return Err(SessionError::Codec);
        }
        let ghost b = self.b@;
        let ghost p = self.p as int;
        let epoch = self.u32()?;
        let position = self.i32x3()?;
        let velocity = self.i32x3()?;
        let fixes = self.u32()?;
        let checksum = self.u32()?;
        assert(b.subrange(p, p + 36) =~= b.subrange(p, p + 4) + b.subrange(p + 4, p + 16)
            + b.subrange(p + 16, p + 28) + b.subrange(p + 28, p + 32) + b.subrange(p + 32, p + 36));
        Ok(RecordedEstimate { epoch, position, velocity, fixes, checksum })
    }

    pub fn comparison(&mut self) -> (r: Result<RecordedComparison, SessionError>)
        requires
            old(self).wf(),
        ensures
            final(self).b == old(self).b,
            final(self).wf(),
            match r {
                Ok(v) => consumed(old(self).b@, old(self).p as int, final(self).p as int, 24, comparison_bytes(v)),
                Err(e) => e == SessionError::Codec && old(self).p + 24 > old(self).b@.len(),
            },
    {
        reveal(comparison_bytes);
        if self.b.len() - self.p < 24 {
            return Err(SessionError::Codec);
        }
        let ghost b = self.b@;
        let ghost p = self.p as int;
        let position = self.i32x3()?;
        let velocity = self.i32x3()?;
        assert(b.subrange(p, p + 24) =~= b.subrange(p, p + 12) + b.subrange(p + 12, p + 24));
        Ok(RecordedComparison { position, velocity })
    }

    pub fn guidance(&mut self) -> (r: Result<RecordedGuidance, SessionError>)
        requires
            old(self).wf(),
        ensures
            final(self).b == old(self).b,
            final(self).wf(),
            match r {
                Ok(v) => consumed(old(self).b@, old(self).p as int, final(self).p as int, 18, guidance_bytes(v)),
                Err(e) => e == SessionError::Codec && old(self).p + 18 > old(self).b@.len(),
            },
    {
        reveal(guidance_bytes);
        if self.b.len() - self.p < 18 {
            return Err(SessionError::Codec);
        }
        let ghost b = self.b@;
        let ghost p = self.p as int;
        let start = self.i16x3()?;
        let end = self.i16x3()?;
        let rate = self.i16x3()?;
        assert(b.subrange(p, p + 18) =~= b.subrange(p, p + 6) + b.subrange(p + 6, p + 12)
            + b.subrange(p + 12, p + 18));
        Ok(RecordedGuidance { start, end, rate })
    }
}

proof fn lemma_director_motion_injective(a: RecordedDirector, b: RecordedDirector)
    requires
        director_motion_bytes(a) == director_motion_bytes(b),
    ensures
        a.position == b.position,
        a.velocity == b.velocity,
        a.acceleration == b.acceleration,
        a.attitude == b.attitude,
        a.angular_rate == b.angular_rate,
        a.flexible == b.flexible,
{
    lemma_le_injective();
    lemma_concat_split(
        i32x3_le(a.position) + i32x3_le(a.velocity) + i32x3_le(a.acceleration) + i32x4_le(a.attitude) + i32x3_le(a.angular_rate),
        i32x8_le(a.flexible),
        i32x3_le(b.position) + i32x3_le(b.velocity) + i32x3_le(b.acceleration) + i32x4_le(b.attitude) + i32x3_le(b.angular_rate),
        i32x8_le(b.flexible),
    );
    lemma_concat_split(
        i32x3_le(a.position) + i32x3_le(a.velocity) + i32x3_le(a.acceleration) + i32x4_le(a.attitude),
        i32x3_le(a.angular_rate),
        i32x3_le(b.position) + i32x3_le(b.velocity) + i32x3_le(b.acceleration) + i32x4_le(b.attitude),
        i32x3_le(b.angular_rate),
    );
    lemma_concat_split(
        i32x3_le(a.position) + i32x3_le(a.velocity) + i32x3_le(a.acceleration),
        i32x4_le(a.attitude),
        i32x3_le(b.position) + i32x3_le(b.velocity) + i32x3_le(b.acceleration),
        i32x4_le(b.attitude),
    );
    lemma_concat_split(
        i32x3_le(a.position) + i32x3_le(a.velocity),
        i32x3_le(a.acceleration),
        i32x3_le(b.position) + i32x3_le(b.velocity),
        i32x3_le(b.acceleration),
    );
    lemma_concat_split(
        i32x3_le(a.position),
        i32x3_le(a.velocity),
        i32x3_le(b.position),
        i32x3_le(b.velocity),
    );
    lemma_i32x3_injective(a.position, b.position);
    lemma_i32x3_injective(a.velocity, b.velocity);
    lemma_i32x3_injective(a.acceleration, b.acceleration);
    lemma_i32x4_injective(a.attitude, b.attitude);
    lemma_i32x3_injective(a.angular_rate, b.angular_rate);
    lemma_i32x8_injective(a.flexible, b.flexible);
}

proof fn lemma_director_mass_injective(a: RecordedDirector, b: RecordedDirector)
    requires
        director_mass_bytes(a) == director_mass_bytes(b),
    ensures
        a.total_mass == b.total_mass,
        a.active_propellant == b.active_propellant,
        a.rcs_propellant == b.rcs_propellant,
        a.time == b.time,
        a.step == b.step,
        a.active_stage == b.active_stage,
        a.phase == b.phase,
        a.substep == b.substep,
{
    lemma_le_injective();
    lemma_concat_split(
        le_i32(a.total_mass) + le_i32(a.active_propellant) + le_i32(a.rcs_propellant) + le_i32(a.time) + le_u32(a.step) + seq![a.active_stage] + seq![a.phase],
        seq![a.substep],
        le_i32(b.total_mass) + le_i32(b.active_propellant) + le_i32(b.rcs_propellant) + le_i32(b.time) + le_u32(b.step) + seq![b.active_stage] + seq![b.phase],
        seq![b.substep],
    );
    lemma_concat_split(
        le_i32(a.total_mass) + le_i32(a.active_propellant) + le_i32(a.rcs_propellant) + le_i32(a.time) + le_u32(a.step) + seq![a.active_stage],
        seq![a.phase],
        le_i32(b.total_mass) + le_i32(b.active_propellant) + le_i32(b.rcs_propellant) + le_i32(b.time) + le_u32(b.step) + seq![b.active_stage],
        seq![b.phase],
    );
    lemma_concat_split(
        le_i32(a.total_mass) + le_i32(a.active_propellant) + le_i32(a.rcs_propellant) + le_i32(a.time) + le_u32(a.step),
        seq![a.active_stage],
        le_i32(b.total_mass) + le_i32(b.active_propellant) + le_i32(b.rcs_propellant) + le_i32(b.time) + le_u32(b.step),
        seq![b.active_stage],
    );
    lemma_concat_split(
        le_i32(a.total_mass) + le_i32(a.active_propellant) + le_i32(a.rcs_propellant) + le_i32(a.time),
        le_u32(a.step),
        le_i32(b.total_mass) + le_i32(b.active_propellant) + le_i32(b.rcs_propellant) + le_i32(b.time),
        le_u32(b.step),
    );
    lemma_concat_split(
        le_i32(a.total_mass) + le_i32(a.active_propellant) + le_i32(a.rcs_propellant),
        le_i32(a.time),
        le_i32(b.total_mass) + le_i32(b.active_propellant) + le_i32(b.rcs_propellant),
        le_i32(b.time),
    );
    lemma_concat_split(
        le_i32(a.total_mass) + le_i32(a.active_propellant),
        le_i32(a.rcs_propellant),
        le_i32(b.total_mass) + le_i32(b.active_propellant),
        le_i32(b.rcs_propellant),
    );
    lemma_concat_split(
        le_i32(a.total_mass),
        le_i32(a.active_propellant),
        le_i32(b.total_mass),
        le_i32(b.active_propellant),
    );
    assert(seq![a.active_stage][0] == seq![b.active_stage][0]);
    assert(seq![a.phase][0] == seq![b.phase][0]);
    assert(seq![a.substep][0] == seq![b.substep][0]);
}

proof fn lemma_director_flow_injective(a: RecordedDirector, b: RecordedDirector)
    requires
        director_flow_bytes(a) == director_flow_bytes(b),
    ensures
        a.mach == b.mach,
        a.dynamic_pressure == b.dynamic_pressure,
        a.angle_of_attack_sine == b.angle_of_attack_sine,
        a.gimbal_requested == b.gimbal_requested,
        a.gimbal_lagged == b.gimbal_lagged,
        a.gimbal_applied == b.gimbal_applied,
        a.events == b.events,
{
    lemma_le_injective();
    lemma_concat_split(
        le_i32(a.mach) + le_i32(a.dynamic_pressure) + le_i32(a.angle_of_attack_sine) + i32x2_le(a.gimbal_requested) + i32x2_le(a.gimbal_lagged) + i32x2_le(a.gimbal_applied),
        le_u16(a.events),
        le_i32(b.mach) + le_i32(b.dynamic_pressure) + le_i32(b.angle_of_attack_sine) + i32x2_le(b.gimbal_requested) + i32x2_le(b.gimbal_lagged) + i32x2_le(b.gimbal_applied),
        le_u16(b.events),
    );
    lemma_concat_split(
        le_i32(a.mach) + le_i32(a.dynamic_pressure) + le_i32(a.angle_of_attack_sine) + i32x2_le(a.gimbal_requested) + i32x2_le(a.gimbal_lagged),
        i32x2_le(a.gimbal_applied),
        le_i32(b.mach) + le_i32(b.dynamic_pressure) + le_i32(b.angle_of_attack_sine) + i32x2_le(b.gimbal_requested) + i32x2_le(b.gimbal_lagged),
        i32x2_le(b.gimbal_applied),
    );
    lemma_concat_split(
        le_i32(a.mach) + le_i32(a.dynamic_pressure) + le_i32(a.angle_of_attack_sine) + i32x2_le(a.gimbal_requested),
        i32x2_le(a.gimbal_lagged),
        le_i32(b.mach) + le_i32(b.dynamic_pressure) + le_i32(b.angle_of_attack_sine) + i32x2_le(b.gimbal_requested),
        i32x2_le(b.gimbal_lagged),
    );
    lemma_concat_split(
        le_i32(a.mach) + le_i32(a.dynamic_pressure) + le_i32(a.angle_of_attack_sine),
        i32x2_le(a.gimbal_requested),
        le_i32(b.mach) + le_i32(b.dynamic_pressure) + le_i32(b.angle_of_attack_sine),
        i32x2_le(b.gimbal_requested),
    );
    lemma_concat_split(
        le_i32(a.mach) + le_i32(a.dynamic_pressure),
        le_i32(a.angle_of_attack_sine),
        le_i32(b.mach) + le_i32(b.dynamic_pressure),
        le_i32(b.angle_of_attack_sine),
    );
    lemma_concat_split(
        le_i32(a.mach),
        le_i32(a.dynamic_pressure),
        le_i32(b.mach),
        le_i32(b.dynamic_pressure),
    );
    lemma_i32x2_injective(a.gimbal_requested, b.gimbal_requested);
    lemma_i32x2_injective(a.gimbal_lagged, b.gimbal_lagged);
    lemma_i32x2_injective(a.gimbal_applied, b.gimbal_applied);
}

/// The director layout determines the director sample.
pub proof fn lemma_director_bytes_injective(a: RecordedDirector, b: RecordedDirector)
    requires
        director_bytes(a) == director_bytes(b),
    ensures
        a == b,
{
    reveal(director_bytes);
    lemma_concat_split(
        director_motion_bytes(a) + director_mass_bytes(a),
        director_flow_bytes(a),
        director_motion_bytes(b) + director_mass_bytes(b),
        director_flow_bytes(b),
    );
    lemma_concat_split(
        director_motion_bytes(a),
        director_mass_bytes(a),
        director_motion_bytes(b),
        director_mass_bytes(b),
    );
    lemma_director_motion_injective(a, b);
    lemma_director_mass_injective(a, b);
    lemma_director_flow_injective(a, b);
}

impl<'a> Decoder<'a> {
    fn director_motion(&mut self) -> (r: Result<([i32; 3], [i32; 3], [i32; 3], [i32; 4], [i32; 3], [i32; 8]), SessionError>)
        requires
            old(self).wf(),
        ensures
            final(self).b == old(self).b,
            final(self).wf(),
            match r {
                Ok(v) => consumed(old(self).b@, old(self).p as int, final(self).p as int, 96, i32x3_le(v.0) + i32x3_le(v.1) + i32x3_le(v.2) + i32x4_le(v.3) + i32x3_le(v.4) + i32x8_le(v.5)),
                Err(e) => e == SessionError::Codec && old(self).p + 96 > old(self).b@.len(),
            },
    {
        if self.b.len() - self.p < 96 {
            return Err(SessionError::Codec);
        }
        let ghost b = self.b@;
        let ghost p = self.p as int;
        let position = self.i32x3()?;
        let velocity = self.i32x3()?;
        let acceleration = self.i32x3()?;
        let attitude = self.i32x4()?;
        let angular_rate = self.i32x3()?;
        let flexible = self.i32x8()?;
        assert(b.subrange(p, p + 96) =~= b.subrange(p + 0, p + 12) + b.subrange(p + 12, p + 24) + b.subrange(p + 24, p + 36) + b.subrange(p + 36, p + 52) + b.subrange(p + 52, p + 64) + b.subrange(p + 64, p + 96));
        Ok((position, velocity, acceleration, attitude, angular_rate, flexible))
    }

    fn director_mass(&mut self) -> (r: Result<(i32, i32, i32, i32, u32, u8, u8, u8), SessionError>)
        requires
            old(self).wf(),
        ensures
            final(self).b == old(self).b,
            final(self).wf(),
            match r {
                Ok(v) => consumed(old(self).b@, old(self).p as int, final(self).p as int, 23, le_i32(v.0) + le_i32(v.1) + le_i32(v.2) + le_i32(v.3) + le_u32(v.4) + seq![v.5] + seq![v.6] + seq![v.7]),
                Err(e) => e == SessionError::Codec && old(self).p + 23 > old(self).b@.len(),
            },
    {
        if self.b.len() - self.p < 23 {
            return Err(SessionError::Codec);
        }
        let ghost b = self.b@;
        let ghost p = self.p as int;
        let total_mass = self.i32()?;
        let active_propellant = self.i32()?;
        let rcs_propellant = self.i32()?;
        let time = self.i32()?;
        let step = self.u32()?;
        let active_stage = self.u8()?;
        let phase = self.u8()?;
        let substep = self.u8()?;
        assert(b.subrange(p, p + 23) =~= b.subrange(p + 0, p + 4) + b.subrange(p + 4, p + 8) + b.subrange(p + 8, p + 12) + b.subrange(p + 12, p + 16) + b.subrange(p + 16, p + 20) + b.subrange(p + 20, p + 21) + b.subrange(p + 21, p + 22) + b.subrange(p + 22, p + 23));
        Ok((total_mass, active_propellant, rcs_propellant, time, step, active_stage, phase, substep))
    }

    fn director_flow(&mut self) -> (r: Result<(i32, i32, i32, [i32; 2], [i32; 2], [i32; 2], u16), SessionError>)
        requires
            old(self).wf(),
        ensures
            final(self).b == old(self).b,
            final(self).wf(),
            match r {
                Ok(v) => consumed(old(self).b@, old(self).p as int, final(self).p as int, 38, le_i32(v.0) + le_i32(v.1) + le_i32(v.2) + i32x2_le(v.3) + i32x2_le(v.4) + i32x2_le(v.5) + le_u16(v.6)),
                Err(e) => e == SessionError::Codec && old(self).p + 38 > old(self).b@.len(),
            },
    {
        if self.b.len() - self.p < 38 {
            return Err(SessionError::Codec);
        }
        let ghost b = self.b@;
        let ghost p = self.p as int;
        let mach = self.i32()?;
        let dynamic_pressure = self.i32()?;
        let angle_of_attack_sine = self.i32()?;
        let gimbal_requested = self.i32x2()?;
        let gimbal_lagged = self.i32x2()?;
        let gimbal_applied = self.i32x2()?;
        let events = self.u16()?;
        assert(b.subrange(p, p + 38) =~= b.subrange(p + 0, p + 4) + b.subrange(p + 4, p + 8) + b.subrange(p + 8, p + 12) + b.subrange(p + 12, p + 20) + b.subrange(p + 20, p + 28) + b.subrange(p + 28, p + 36) + b.subrange(p + 36, p + 38));
        Ok((mach, dynamic_pressure, angle_of_attack_sine, gimbal_requested, gimbal_lagged, gimbal_applied, events))
    }

    #[verifier::spinoff_prover]
    #[verifier::rlimit(40)]
    pub fn director(&mut self) -> (r: Result<RecordedDirector, SessionError>)
        requires
            old(self).wf(),
        ensures
            final(self).b == old(self).b,
            final(self).wf(),
            match r {
                Ok(v) => consumed(old(self).b@, old(self).p as int, final(self).p as int, 157, director_bytes(v)),
                Err(e) => e == SessionError::Codec && old(self).p + 157 > old(self).b@.len(),
            },
    {
        reveal(director_bytes);
        if self.b.len() - self.p < 157 {
            return Err(SessionError::Codec);
        }
        let ghost b = self.b@;
        let ghost p = self.p as int;
        let (position, velocity, acceleration, attitude, angular_rate, flexible) = self.director_motion()?;
        let (total_mass, active_propellant, rcs_propellant, time, step, active_stage, phase, substep) =
            self.director_mass()?;
        let (mach, dynamic_pressure, angle_of_attack_sine, gimbal_requested, gimbal_lagged, gimbal_applied, events) =
            self.director_flow()?;
        let v = RecordedDirector {
            position,
            velocity,
            acceleration,
            attitude,
            angular_rate,
            flexible,
            total_mass,
            active_propellant,
            rcs_propellant,
            time,
            step,
            active_stage,
            phase,
            substep,
            mach,
            dynamic_pressure,
            angle_of_attack_sine,
            gimbal_requested,
            gimbal_lagged,
            gimbal_applied,
            events,
        };
        assert(b.subrange(p, p + 157) =~= b.subrange(p, p + 96) + b.subrange(p + 96, p + 119)
            + b.subrange(p + 119, p + 157));
        Ok(v)
    }
}


// ---------------------------------------------------------------------------
// Update records

/// An update fits the cell layout: each cell blob fits its interface length
/// and the pace rate is one of the five rates.
pub open spec fn update_wf(u: RecordedUpdate, l: CellLayout) -> bool {
    &&& u.inertial@.len() == l.inertial
    &&& (u.aid matches Some(x) ==> x@.len() == l.aid)
    &&& u.command@.len() == l.command
    &&& (u.status matches Some(x) ==> x@.len() == l.status)
    &&& u.pace_rate <= 4
}

/// The fields of an update in record order, each as its bytes.
pub open spec fn update_segments(u: RecordedUpdate) -> Seq<Seq<u8>> {
    seq![
        le_u32(u.epoch),
        le_u64(u.wall_micros),
        u.inertial@,
        opt_blob_bytes(u.aid),
        u.command@,
        opt_blob_bytes(u.status),
        opt_fix_bytes(u.ground_fix),
        opt_estimate_bytes(u.ground_estimate),
        opt_comparison_bytes(u.comparison),
        director_bytes(u.director),
        guidance_bytes(u.guidance),
        le_u32(u.world_cells),
        le_u32(u.flight_cells),
        le_u32(u.transcript_checksum),
        le_u16(u.mission_control_alarms),
        seq![u.pace_rate],
        bool_byte(u.paused),
        bool_byte(u.cancelled),
    ]
}

/// Concatenation of a list of byte strings.
pub open spec fn concat_all(segs: Seq<Seq<u8>>) -> Seq<u8>
    decreases segs.len(),
{
    if segs.len() == 0 {
        Seq::empty()
    } else {
        concat_all(segs.drop_last()) + segs.last()
    }
}

/// The payload of an update record.
pub open spec fn update_bytes(u: RecordedUpdate) -> Seq<u8> {
    concat_all(update_segments(u))
}

pub proof fn lemma_concat_all_append(a: Seq<Seq<u8>>, b: Seq<Seq<u8>>)
    ensures
        concat_all(a + b) == concat_all(a) + concat_all(b),
    decreases b.len(),
{
    if b.len() == 0 {
        assert(a + b =~= a);
        assert(concat_all(a) + concat_all(b) =~= concat_all(a));
    } else {
        assert((a + b).drop_last() =~= a + b.drop_last());
        lemma_concat_all_append(a, b.drop_last());
        assert(concat_all(a) + concat_all(b) =~= concat_all(a) + concat_all(b.drop_last())
            + b.last());
    }
}

/// Within the concatenation of `segs`, segment `k` starts where the first `k`
/// segments end.
pub proof fn lemma_segment_at(segs: Seq<Seq<u8>>, k: int)
    requires
        0 <= k < segs.len(),
    ensures
        concat_all(segs.take(k)).len() + segs[k].len() <= concat_all(segs).len(),
        concat_all(segs).subrange(
            concat_all(segs.take(k)).len() as int,
            (concat_all(segs.take(k)).len() + segs[k].len()) as int,
        ) == segs[k],
{
    let head = segs.take(k);
    let rest = segs.skip(k + 1);
    assert(segs =~= head + seq![segs[k]] + rest);
    lemma_concat_all_append(head + seq![segs[k]], rest);
    lemma_concat_all_append(head, seq![segs[k]]);
    assert(seq![segs[k]].drop_last() =~= Seq::<Seq<u8>>::empty());
    assert(concat_all(Seq::<Seq<u8>>::empty()) == Seq::<u8>::empty());
    assert(concat_all(seq![segs[k]]) == concat_all(seq![segs[k]].drop_last()) + segs[k]);
    assert(concat_all(seq![segs[k]]) =~= segs[k]);
    let all = concat_all(head) + segs[k] + concat_all(rest);
    assert(all.subrange(
        concat_all(head).len() as int,
        (concat_all(head).len() + segs[k].len()) as int,
    ) =~= segs[k]);
}

/// Bookkeeping for one decoded segment: the decoded prefix grows by the bytes
/// just read, and when the input is the layout of some update `t`, what was
/// read is `t`'s segment.
pub proof fn lemma_decode_step(
    b: Seq<u8>,
    done: Seq<Seq<u8>>,
    x: Seq<u8>,
    p0: int,
    p1: int,
    fits: bool,
    t_segs: Seq<Seq<u8>>,
)
    requires
        0 <= p0 <= p1 <= b.len(),
        b.subrange(0, p0) == concat_all(done),
        x == b.subrange(p0, p1),
        done.len() < t_segs.len(),
        fits ==> b == concat_all(t_segs),
        fits ==> done == t_segs.take(done.len() as int),
        fits ==> t_segs[done.len() as int].len() == p1 - p0,
    ensures
        b.subrange(0, p1) == concat_all(done.push(x)),
        fits ==> done.push(x) == t_segs.take(done.len() as int + 1),
{
    assert(done.push(x).drop_last() =~= done);
    assert(b.subrange(0, p1) =~= b.subrange(0, p0) + b.subrange(p0, p1));
    if fits {
        let k = done.len() as int;
        lemma_segment_at(t_segs, k);
        assert(concat_all(t_segs.take(k)).len() == p0);
        assert(x == t_segs[k]);
        assert(done.push(x) =~= t_segs.take(k + 1));
    }
}

/// Where segment `k` of `t_segs` lies in `b`, given that the first `k`
/// segments have been read up to `p`.
pub open spec fn segment_here(b: Seq<u8>, t_segs: Seq<Seq<u8>>, k: int, p: int) -> bool {
    &&& p + t_segs[k].len() <= b.len()
    &&& b.subrange(p, p + t_segs[k].len()) == t_segs[k]
}

pub proof fn lemma_segment_here(b: Seq<u8>, done: Seq<Seq<u8>>, t_segs: Seq<Seq<u8>>, p: int)
    requires
        0 <= p <= b.len(),
        b.subrange(0, p) == concat_all(done),
        done.len() < t_segs.len(),
        b == concat_all(t_segs),
        done == t_segs.take(done.len() as int),
    ensures
        segment_here(b, t_segs, done.len() as int, p),
{
    lemma_segment_at(t_segs, done.len() as int);
}


pub proof fn lemma_concat_push(done: Seq<Seq<u8>>, x: Seq<u8>)
    ensures
        concat_all(done.push(x)) == concat_all(done) + x,
{
    assert(done.push(x).drop_last() =~= done);
}

// ---------------------------------------------------------------------------
// Writing

pub fn put_u8(o: &mut Vec<u8>, v: u8)
    ensures
        final(o)@ == old(o)@ + seq![v],
{
    o.push(v);
    assert(final(o)@ =~= old(o)@ + seq![v]);
}

pub fn put_bool(o: &mut Vec<u8>, v: bool)
    ensures
        final(o)@ == old(o)@ + bool_byte(v),
{
    o.push(if v { 1 } else { 0 });
    assert(final(o)@ =~= old(o)@ + bool_byte(v));
}

pub fn put_u16(o: &mut Vec<u8>, v: u16)
    ensures
        final(o)@ == old(o)@ + le_u16(v),
{
    push_u16(o, v);
}

pub fn put_i16(o: &mut Vec<u8>, v: i16)
    ensures
        final(o)@ == old(o)@ + le_i16(v),
{
    push_u16(o, v as u16);
}

pub fn put_u32(o: &mut Vec<u8>, v: u32)
    ensures
        final(o)@ == old(o)@ + le_u32(v),
{
    push_u32(o, v);
}

pub fn put_i32(o: &mut Vec<u8>, v: i32)
    ensures
        final(o)@ == old(o)@ + le_i32(v),
{
    push_u32(o, v as u32);
}

pub fn put_u64(o: &mut Vec<u8>, v: u64)
    ensures
        final(o)@ == old(o)@ + le_u64(v),
{
    push_u64(o, v);
}

/// Appends raw bytes.
pub fn put_bytes(o: &mut Vec<u8>, v: &[u8])
    ensures
        final(o)@ == old(o)@ + v@,
{
    let mut i: usize = 0;
    while i < v.len()
        invariant
            i <= v@.len(),
            o@ == old(o)@ + v@.take(i as int),
        decreases v@.len() - i,
    {
        o.push(v[i]);
        i += 1;
        assert(o@ =~= old(o)@ + v@.take(i as int));
    }
    assert(v@.take(i as int) =~= v@);
}

pub fn put_i32x2(o: &mut Vec<u8>, v: [i32; 2])
    ensures
        final(o)@ == old(o)@ + i32x2_le(v),
{
    put_i32(o, v[0]);
    put_i32(o, v[1]);
    assert(final(o)@ =~= old(o)@ + i32x2_le(v));
}

pub fn put_i32x3(o: &mut Vec<u8>, v: [i32; 3])
    ensures
        final(o)@ == old(o)@ + i32x3_le(v),
{
    put_i32(o, v[0]);
    put_i32(o, v[1]);
    put_i32(o, v[2]);
    assert(final(o)@ =~= old(o)@ + i32x3_le(v));
}

pub fn put_i32x4(o: &mut Vec<u8>, v: [i32; 4])
    ensures
        final(o)@ == old(o)@ + i32x4_le(v),
{
    put_i32(o, v[0]);
    put_i32(o, v[1]);
    put_i32(o, v[2]);
    put_i32(o, v[3]);
    assert(final(o)@ =~= old(o)@ + i32x4_le(v));
}

pub fn put_i32x8(o: &mut Vec<u8>, v: [i32; 8])
    ensures
        final(o)@ == old(o)@ + i32x8_le(v),
{
    put_i32x4(o, [v[0], v[1], v[2], v[3]]);
    put_i32x4(o, [v[4], v[5], v[6], v[7]]);
    assert(final(o)@ =~= old(o)@ + i32x8_le(v));
}

pub fn put_i16x3(o: &mut Vec<u8>, v: [i16; 3])
    ensures
        final(o)@ == old(o)@ + i16x3_le(v),
{
    put_i16(o, v[0]);
    put_i16(o, v[1]);
    put_i16(o, v[2]);
    assert(final(o)@ =~= old(o)@ + i16x3_le(v));
}

pub fn put_fix(o: &mut Vec<u8>, x: &RecordedFix)
    ensures
        final(o)@ == old(o)@ + fix_bytes(*x),
{
    reveal(fix_bytes);
    put_u32(o, x.fix_id);
    put_u32(o, x.measurement_epoch);
    put_u32(o, x.production_epoch);
    put_i32x3(o, x.position);
    put_i32x3(o, x.velocity);
    put_u16(o, x.network_id);
    put_u16(o, x.validity);
    assert(final(o)@ =~= old(o)@ + fix_bytes(*x));
}

pub fn put_estimate(o: &mut Vec<u8>, x: &RecordedEstimate)
    ensures
        final(o)@ == old(o)@ + estimate_bytes(*x),
{
    reveal(estimate_bytes);
    put_u32(o, x.epoch);
    put_i32x3(o, x.position);
    put_i32x3(o, x.velocity);
    put_u32(o, x.fixes);
    put_u32(o, x.checksum);
    assert(final(o)@ =~= old(o)@ + estimate_bytes(*x));
}

pub fn put_comparison(o: &mut Vec<u8>, x: &RecordedComparison)
    ensures
        final(o)@ == old(o)@ + comparison_bytes(*x),
{
    reveal(comparison_bytes);
    put_i32x3(o, x.position);
    put_i32x3(o, x.velocity);
    assert(final(o)@ =~= old(o)@ + comparison_bytes(*x));
}

pub fn put_director(o: &mut Vec<u8>, d: &RecordedDirector)
    ensures
        final(o)@ == old(o)@ + director_bytes(*d),
{
    reveal(director_bytes);
    let ghost o0 = o@;
    put_i32x3(o, d.position);
    put_i32x3(o, d.velocity);
    put_i32x3(o, d.acceleration);
    put_i32x4(o, d.attitude);
    put_i32x3(o, d.angular_rate);
    put_i32x8(o, d.flexible);
    assert(o@ =~= o0 + director_motion_bytes(*d));
    let ghost o1 = o@;
    put_i32(o, d.total_mass);
    put_i32(o, d.active_propellant);
    put_i32(o, d.rcs_propellant);
    put_i32(o, d.time);
    put_u32(o, d.step);
    put_u8(o, d.active_stage);
    put_u8(o, d.phase);
    put_u8(o, d.substep);
    assert(o@ =~= o1 + director_mass_bytes(*d));
    let ghost o2 = o@;
    put_i32(o, d.mach);
    put_i32(o, d.dynamic_pressure);
    put_i32(o, d.angle_of_attack_sine);
    put_i32x2(o, d.gimbal_requested);
    put_i32x2(o, d.gimbal_lagged);
    put_i32x2(o, d.gimbal_applied);
    put_u16(o, d.events);
    assert(o@ =~= o2 + director_flow_bytes(*d));
    assert(final(o)@ =~= old(o)@ + director_bytes(*d));
}

pub fn put_guidance(o: &mut Vec<u8>, g: &RecordedGuidance)
    ensures
        final(o)@ == old(o)@ + guidance_bytes(*g),
{
    reveal(guidance_bytes);
    put_i16x3(o, g.start);
    put_i16x3(o, g.end);
    put_i16x3(o, g.rate);
    assert(final(o)@ =~= old(o)@ + guidance_bytes(*g));
}

pub fn put_opt_blob(o: &mut Vec<u8>, x: &Option<Vec<u8>>)
    ensures
        final(o)@ == old(o)@ + opt_blob_bytes(*x),
{
    put_bool(o, x.is_some());
    if let Some(v) = x {
        put_bytes(o, v.as_slice());
    }
    assert(final(o)@ =~= old(o)@ + opt_blob_bytes(*x));
}

pub fn put_opt_fix(o: &mut Vec<u8>, x: &Option<RecordedFix>)
    ensures
        final(o)@ == old(o)@ + opt_fix_bytes(*x),
{
    put_bool(o, x.is_some());
    if let Some(v) = x {
        put_fix(o, v);
    }
    assert(final(o)@ =~= old(o)@ + opt_fix_bytes(*x));
}

pub fn put_opt_estimate(o: &mut Vec<u8>, x: &Option<RecordedEstimate>)
    ensures
        final(o)@ == old(o)@ + opt_estimate_bytes(*x),
{
    put_bool(o, x.is_some());
    if let Some(v) = x {
        put_estimate(o, v);
    }
    assert(final(o)@ =~= old(o)@ + opt_estimate_bytes(*x));
}

pub fn put_opt_comparison(o: &mut Vec<u8>, x: &Option<RecordedComparison>)
    ensures
        final(o)@ == old(o)@ + opt_comparison_bytes(*x),
{
    put_bool(o, x.is_some());
    if let Some(v) = x {
        put_comparison(o, v);
    }
    assert(final(o)@ =~= old(o)@ + opt_comparison_bytes(*x));
}

impl RecordedUpdate {
    /// The record payload of this update.
    pub fn encode_binary(&self) -> (r: Vec<u8>)
        ensures
            r@ == update_bytes(*self),
    {
        let ghost segs = update_segments(*self);
        let mut o: Vec<u8> = Vec::with_capacity(512);
        let ghost mut done: Seq<Seq<u8>> = Seq::empty();
        assert(o@ =~= concat_all(done));
        put_u32(&mut o, self.epoch);
        proof { lemma_concat_push(done, segs[0]); done = done.push(segs[0]); }
        put_u64(&mut o, self.wall_micros);
        proof { lemma_concat_push(done, segs[1]); done = done.push(segs[1]); }
        put_bytes(&mut o, self.inertial.as_slice());
        proof { lemma_concat_push(done, segs[2]); done = done.push(segs[2]); }
        put_opt_blob(&mut o, &self.aid);
        proof { lemma_concat_push(done, segs[3]); done = done.push(segs[3]); }
        put_bytes(&mut o, self.command.as_slice());
        proof { lemma_concat_push(done, segs[4]); done = done.push(segs[4]); }
        put_opt_blob(&mut o, &self.status);
        proof { lemma_concat_push(done, segs[5]); done = done.push(segs[5]); }
        put_opt_fix(&mut o, &self.ground_fix);
        proof { lemma_concat_push(done, segs[6]); done = done.push(segs[6]); }
        put_opt_estimate(&mut o, &self.ground_estimate);
        proof { lemma_concat_push(done, segs[7]); done = done.push(segs[7]); }
        put_opt_comparison(&mut o, &self.comparison);
        proof { lemma_concat_push(done, segs[8]); done = done.push(segs[8]); }
        put_director(&mut o, &self.director);
        proof { lemma_concat_push(done, segs[9]); done = done.push(segs[9]); }
        put_guidance(&mut o, &self.guidance);
        proof { lemma_concat_push(done, segs[10]); done = done.push(segs[10]); }
        put_u32(&mut o, self.world_cells);
        proof { lemma_concat_push(done, segs[11]); done = done.push(segs[11]); }
        put_u32(&mut o, self.flight_cells);
        proof { lemma_concat_push(done, segs[12]); done = done.push(segs[12]); }
        put_u32(&mut o, self.transcript_checksum);
        proof { lemma_concat_push(done, segs[13]); done = done.push(segs[13]); }
        put_u16(&mut o, self.mission_control_alarms);
        proof { lemma_concat_push(done, segs[14]); done = done.push(segs[14]); }
        put_u8(&mut o, self.pace_rate);
        proof { lemma_concat_push(done, segs[15]); done = done.push(segs[15]); }
        put_bool(&mut o, self.paused);
        proof { lemma_concat_push(done, segs[16]); done = done.push(segs[16]); }
        put_bool(&mut o, self.cancelled);
        proof { lemma_concat_push(done, segs[17]); done = done.push(segs[17]); }
        assert(done =~= segs);
        o
    }
}


impl<'a> Decoder<'a> {
    /// A present-flag followed, when set, by `n` payload bytes.
    pub fn opt_blob(&mut self, n: usize) -> (r: Result<Option<Vec<u8>>, SessionError>)
        requires
            old(self).wf(),
        ensures
            final(self).b == old(self).b,
            final(self).wf(),
            match r {
                Ok(o) => consumed(
                    old(self).b@,
                    old(self).p as int,
                    final(self).p as int,
                    opt_blob_bytes(o).len() as int,
                    opt_blob_bytes(o),
                ) && (o matches Some(x) ==> x@.len() == n),
                Err(e) => e == SessionError::Codec && (old(self).p + 1 > old(self).b@.len() || (
                old(self).b@[old(self).p as int] != 0 && old(self).b@[old(self).p as int] != 1) || (
                old(self).b@[old(self).p as int] == 1 && old(self).p + 1 + n > old(self).b@.len())),
            },
    {
        let ghost b = self.b@;
        let ghost p = self.p as int;
        let present = self.bool()?;
        assert(b[p] == b.subrange(p, p + 1)[0]);
        if present {
            let x = self.take(n)?;
            let v = slice_to_vec(x);
            assert(b.subrange(p, p + 1 + n) =~= b.subrange(p, p + 1) + b.subrange(p + 1, p + 1 + n));
            Ok(Some(v))
        } else {
            Ok(None)
        }
    }

    pub fn opt_fix(&mut self) -> (r: Result<Option<RecordedFix>, SessionError>)
        requires
            old(self).wf(),
        ensures
            final(self).b == old(self).b,
            final(self).wf(),
            match r {
                Ok(o) => consumed(
                    old(self).b@,
                    old(self).p as int,
                    final(self).p as int,
                    opt_fix_bytes(o).len() as int,
                    opt_fix_bytes(o),
                ),
                Err(e) => e == SessionError::Codec && (old(self).p + 1 > old(self).b@.len() || (
                old(self).b@[old(self).p as int] != 0 && old(self).b@[old(self).p as int] != 1) || (
                old(self).b@[old(self).p as int] == 1 && old(self).p + 41 > old(self).b@.len())),
            },
    {
        let ghost b = self.b@;
        let ghost p = self.p as int;
        let present = self.bool()?;
        assert(b[p] == b.subrange(p, p + 1)[0]);
        if present {
            let x = self.fix()?;
            assert(b.subrange(p, p + 41) =~= b.subrange(p, p + 1) + b.subrange(p + 1, p + 41));
            Ok(Some(x))
        } else {
            Ok(None)
        }
    }

    pub fn opt_estimate(&mut self) -> (r: Result<Option<RecordedEstimate>, SessionError>)
        requires
            old(self).wf(),
        ensures
            final(self).b == old(self).b,
            final(self).wf(),
            match r {
                Ok(o) => consumed(
                    old(self).b@,
                    old(self).p as int,
                    final(self).p as int,
                    opt_estimate_bytes(o).len() as int,
                    opt_estimate_bytes(o),
                ),
                Err(e) => e == SessionError::Codec && (old(self).p + 1 > old(self).b@.len() || (
                old(self).b@[old(self).p as int] != 0 && old(self).b@[old(self).p as int] != 1) || (
                old(self).b@[old(self).p as int] == 1 && old(self).p + 37 > old(self).b@.len())),
            },
    {
        let ghost b = self.b@;
        let ghost p = self.p as int;
        let present = self.bool()?;
        assert(b[p] == b.subrange(p, p + 1)[0]);
        if present {
            let x = self.estimate()?;
            assert(b.subrange(p, p + 37) =~= b.subrange(p, p + 1) + b.subrange(p + 1, p + 37));
            Ok(Some(x))
        } else {
            Ok(None)
        }
    }

    pub fn opt_comparison(&mut self) -> (r: Result<Option<RecordedComparison>, SessionError>)
        requires
            old(self).wf(),
        ensures
            final(self).b == old(self).b,
            final(self).wf(),
            match r {
                Ok(o) => consumed(
                    old(self).b@,
                    old(self).p as int,
                    final(self).p as int,
                    opt_comparison_bytes(o).len() as int,
                    opt_comparison_bytes(o),
                ),
                Err(e) => e == SessionError::Codec && (old(self).p + 1 > old(self).b@.len() || (
                old(self).b@[old(self).p as int] != 0 && old(self).b@[old(self).p as int] != 1) || (
                old(self).b@[old(self).p as int] == 1 && old(self).p + 25 > old(self).b@.len())),
            },
    {
        let ghost b = self.b@;
        let ghost p = self.p as int;
        let present = self.bool()?;
        assert(b[p] == b.subrange(p, p + 1)[0]);
        if present {
            let x = self.comparison()?;
            assert(b.subrange(p, p + 25) =~= b.subrange(p, p + 1) + b.subrange(p + 1, p + 25));
            Ok(Some(x))
        } else {
            Ok(None)
        }
    }
}


/// Decoding fits read the first `done.len()` segments of an update payload
/// `b` up to `p`; when `b` is the layout of the well-formed update `t` (`fits`),
/// these are `t`'s first segments.
pub open spec fn decode_progress(
    b: Seq<u8>,
    p: int,
    done: Seq<Seq<u8>>,
    fits: bool,
    t: RecordedUpdate,
    layout: CellLayout,
) -> bool {
    &&& 0 <= p <= b.len()
    &&& b.subrange(0, p) == concat_all(done)
    &&& done.len() <= 18
    &&& fits ==> {
        &&& update_wf(t, layout)
        &&& b == concat_all(update_segments(t))
        &&& done == update_segments(t).take(done.len() as int)
    }
}

fn decode_cells(
    d: &mut Decoder,
    layout: CellLayout,
    Ghost(done): Ghost<Seq<Seq<u8>>>,
    Ghost(fits): Ghost<bool>,
    Ghost(t): Ghost<RecordedUpdate>,
) -> (r: Result<(u32, u64, Vec<u8>, Option<Vec<u8>>, Vec<u8>, Option<Vec<u8>>), SessionError>)
    requires
        old(d).wf(),
        done.len() == 0,
        decode_progress(old(d).b@, old(d).p as int, done, fits, t, layout),
    ensures
        final(d).b == old(d).b,
        final(d).wf(),
        r matches Ok(v) ==> decode_progress(
            final(d).b@,
            final(d).p as int,
            done + seq![le_u32(v.0), le_u64(v.1), v.2@, opt_blob_bytes(v.3), v.4@, opt_blob_bytes(v.5)],
            fits,
            t,
            layout,
        ) && v.2@.len() == layout.inertial && (v.3 matches Some(x) ==> x@.len() == layout.aid) && v.4@.len() == layout.command && (v.5 matches Some(x) ==> x@.len() == layout.status),
        r matches Err(e) ==> e == SessionError::Codec && !fits,
{
    let ghost b = d.b@;
    let ghost tsegs = update_segments(t);
    proof {
        lemma_opt_lengths_agree();
        if t.ground_fix is Some {
            lemma_block_lengths(t.ground_fix->0, arbitrary(), arbitrary(), t.director, t.guidance);
        }
        if t.ground_estimate is Some {
            lemma_block_lengths(arbitrary(), t.ground_estimate->0, arbitrary(), t.director, t.guidance);
        }
        if t.comparison is Some {
            lemma_block_lengths(arbitrary(), arbitrary(), t.comparison->0, t.director, t.guidance);
        }
        lemma_block_lengths(arbitrary(), arbitrary(), arbitrary(), t.director, t.guidance);
    }
    let ghost mut acc = done;
    let ghost p0 = d.p as int;
    assert(fits ==> segment_here(b, tsegs, 0, p0)) by {
        if fits {
            lemma_segment_here(b, acc, tsegs, p0);
        }
    }
    let epoch = d.u32()?;
    proof {
        lemma_decode_step(b, acc, le_u32(epoch), p0, d.p as int, fits, tsegs);
        acc = acc.push(le_u32(epoch));
    }
    let ghost p0 = d.p as int;
    assert(fits ==> segment_here(b, tsegs, 1, p0)) by {
        if fits {
            lemma_segment_here(b, acc, tsegs, p0);
        }
    }
    let wall_micros = d.u64()?;
    proof {
        lemma_decode_step(b, acc, le_u64(wall_micros), p0, d.p as int, fits, tsegs);
        acc = acc.push(le_u64(wall_micros));
    }
    let ghost p0 = d.p as int;
    assert(fits ==> segment_here(b, tsegs, 2, p0)) by {
        if fits {
            lemma_segment_here(b, acc, tsegs, p0);
        }
    }
    let inertial_slice = d.take(layout.inertial)?;
    let inertial = slice_to_vec(inertial_slice);
    proof {
        lemma_decode_step(b, acc, inertial@, p0, d.p as int, fits, tsegs);
        acc = acc.push(inertial@);
    }
    let ghost p0 = d.p as int;
    assert(fits ==> segment_here(b, tsegs, 3, p0)) by {
        if fits {
            lemma_segment_here(b, acc, tsegs, p0);
        }
    }
    assert(fits ==> tsegs[3][0] == b[p0]) by {
        if fits {
            assert(b.subrange(p0, p0 + tsegs[3].len())[0] == b[p0]);
        }
    }
    let aid = d.opt_blob(layout.aid)?;
    proof {
        assert(b.subrange(p0, d.p as int)[0] == b[p0]);
        lemma_decode_step(b, acc, opt_blob_bytes(aid), p0, d.p as int, fits, tsegs);
        acc = acc.push(opt_blob_bytes(aid));
    }
    let ghost p0 = d.p as int;
    assert(fits ==> segment_here(b, tsegs, 4, p0)) by {
        if fits {
            lemma_segment_here(b, acc, tsegs, p0);
        }
    }
    let command_slice = d.take(layout.command)?;
    let command = slice_to_vec(command_slice);
    proof {
        lemma_decode_step(b, acc, command@, p0, d.p as int, fits, tsegs);
        acc = acc.push(command@);
    }
    let ghost p0 = d.p as int;
    assert(fits ==> segment_here(b, tsegs, 5, p0)) by {
        if fits {
            lemma_segment_here(b, acc, tsegs, p0);
        }
    }
    assert(fits ==> tsegs[5][0] == b[p0]) by {
        if fits {
            assert(b.subrange(p0, p0 + tsegs[5].len())[0] == b[p0]);
        }
    }
    let status = d.opt_blob(layout.status)?;
    proof {
        assert(b.subrange(p0, d.p as int)[0] == b[p0]);
        lemma_decode_step(b, acc, opt_blob_bytes(status), p0, d.p as int, fits, tsegs);
        acc = acc.push(opt_blob_bytes(status));
    }
    assert(acc =~= done + seq![le_u32(epoch), le_u64(wall_micros), inertial@, opt_blob_bytes(aid), command@, opt_blob_bytes(status)]);
    Ok((epoch, wall_micros, inertial, aid, command, status))
}

fn decode_tracking(
    d: &mut Decoder,
    layout: CellLayout,
    Ghost(done): Ghost<Seq<Seq<u8>>>,
    Ghost(fits): Ghost<bool>,
    Ghost(t): Ghost<RecordedUpdate>,
) -> (r: Result<(Option<RecordedFix>, Option<RecordedEstimate>, Option<RecordedComparison>), SessionError>)
    requires
        old(d).wf(),
        done.len() == 6,
        decode_progress(old(d).b@, old(d).p as int, done, fits, t, layout),
    ensures
        final(d).b == old(d).b,
        final(d).wf(),
        r matches Ok(v) ==> decode_progress(
            final(d).b@,
            final(d).p as int,
            done + seq![opt_fix_bytes(v.0), opt_estimate_bytes(v.1), opt_comparison_bytes(v.2)],
            fits,
            t,
            layout,
        ),
        r matches Err(e) ==> e == SessionError::Codec && !fits,
{
    let ghost b = d.b@;
    let ghost tsegs = update_segments(t);
    proof {
        lemma_opt_lengths_agree();
        if t.ground_fix is Some {
            lemma_block_lengths(t.ground_fix->0, arbitrary(), arbitrary(), t.director, t.guidance);
        }
        if t.ground_estimate is Some {
            lemma_block_lengths(arbitrary(), t.ground_estimate->0, arbitrary(), t.director, t.guidance);
        }
        if t.comparison is Some {
            lemma_block_lengths(arbitrary(), arbitrary(), t.comparison->0, t.director, t.guidance);
        }
        lemma_block_lengths(arbitrary(), arbitrary(), arbitrary(), t.director, t.guidance);
    }
    let ghost mut acc = done;
    let ghost p0 = d.p as int;
    assert(fits ==> segment_here(b, tsegs, 6, p0)) by {
        if fits {
            lemma_segment_here(b, acc, tsegs, p0);
        }
    }
    assert(fits ==> tsegs[6][0] == b[p0]) by {
        if fits {
            assert(b.subrange(p0, p0 + tsegs[6].len())[0] == b[p0]);
        }
    }
    let ground_fix = d.opt_fix()?;
    proof {
        assert(b.subrange(p0, d.p as int)[0] == b[p0]);
        lemma_decode_step(b, acc, opt_fix_bytes(ground_fix), p0, d.p as int, fits, tsegs);
        acc = acc.push(opt_fix_bytes(ground_fix));
    }
    let ghost p0 = d.p as int;
    assert(fits ==> segment_here(b, tsegs, 7, p0)) by {
        if fits {
            lemma_segment_here(b, acc, tsegs, p0);
        }
    }
    assert(fits ==> tsegs[7][0] == b[p0]) by {
        if fits {
            assert(b.subrange(p0, p0 + tsegs[7].len())[0] == b[p0]);
        }
    }
    let ground_estimate = d.opt_estimate()?;
    proof {
        assert(b.subrange(p0, d.p as int)[0] == b[p0]);
        lemma_decode_step(b, acc, opt_estimate_bytes(ground_estimate), p0, d.p as int, fits, tsegs);
        acc = acc.push(opt_estimate_bytes(ground_estimate));
    }
    let ghost p0 = d.p as int;
    assert(fits ==> segment_here(b, tsegs, 8, p0)) by {
        if fits {
            lemma_segment_here(b, acc, tsegs, p0);
        }
    }
    assert(fits ==> tsegs[8][0] == b[p0]) by {
        if fits {
            assert(b.subrange(p0, p0 + tsegs[8].len())[0] == b[p0]);
        }
    }
    let comparison = d.opt_comparison()?;
    proof {
        assert(b.subrange(p0, d.p as int)[0] == b[p0]);
        lemma_decode_step(b, acc, opt_comparison_bytes(comparison), p0, d.p as int, fits, tsegs);
        acc = acc.push(opt_comparison_bytes(comparison));
    }
    assert(acc =~= done + seq![opt_fix_bytes(ground_fix), opt_estimate_bytes(ground_estimate), opt_comparison_bytes(comparison)]);
    Ok((ground_fix, ground_estimate, comparison))
}

fn decode_vehicle(
    d: &mut Decoder,
    layout: CellLayout,
    Ghost(done): Ghost<Seq<Seq<u8>>>,
    Ghost(fits): Ghost<bool>,
    Ghost(t): Ghost<RecordedUpdate>,
) -> (r: Result<(RecordedDirector, RecordedGuidance), SessionError>)
    requires
        old(d).wf(),
        done.len() == 9,
        decode_progress(old(d).b@, old(d).p as int, done, fits, t, layout),
    ensures
        final(d).b == old(d).b,
        final(d).wf(),
        r matches Ok(v) ==> decode_progress(
            final(d).b@,
            final(d).p as int,
            done + seq![director_bytes(v.0), guidance_bytes(v.1)],
            fits,
            t,
            layout,
        ),
        r matches Err(e) ==> e == SessionError::Codec && !fits,
{
    let ghost b = d.b@;
    let ghost tsegs = update_segments(t);
    proof {
        lemma_opt_lengths_agree();
        if t.ground_fix is Some {
            lemma_block_lengths(t.ground_fix->0, arbitrary(), arbitrary(), t.director, t.guidance);
        }
        if t.ground_estimate is Some {
            lemma_block_lengths(arbitrary(), t.ground_estimate->0, arbitrary(), t.director, t.guidance);
        }
        if t.comparison is Some {
            lemma_block_lengths(arbitrary(), arbitrary(), t.comparison->0, t.director, t.guidance);
        }
        lemma_block_lengths(arbitrary(), arbitrary(), arbitrary(), t.director, t.guidance);
    }
    let ghost mut acc = done;
    let ghost p0 = d.p as int;
    assert(fits ==> segment_here(b, tsegs, 9, p0)) by {
        if fits {
            lemma_segment_here(b, acc, tsegs, p0);
        }
    }
    let director = d.director()?;
    proof {
        lemma_decode_step(b, acc, director_bytes(director), p0, d.p as int, fits, tsegs);
        acc = acc.push(director_bytes(director));
    }
    let ghost p0 = d.p as int;
    assert(fits ==> segment_here(b, tsegs, 10, p0)) by {
        if fits {
            lemma_segment_here(b, acc, tsegs, p0);
        }
    }
    let guidance = d.guidance()?;
    proof {
        lemma_decode_step(b, acc, guidance_bytes(guidance), p0, d.p as int, fits, tsegs);
        acc = acc.push(guidance_bytes(guidance));
    }
    assert(acc =~= done + seq![director_bytes(director), guidance_bytes(guidance)]);
    Ok((director, guidance))
}

fn decode_counters(
    d: &mut Decoder,
    layout: CellLayout,
    Ghost(done): Ghost<Seq<Seq<u8>>>,
    Ghost(fits): Ghost<bool>,
    Ghost(t): Ghost<RecordedUpdate>,
) -> (r: Result<(u32, u32, u32, u16), SessionError>)
    requires
        old(d).wf(),
        done.len() == 11,
        decode_progress(old(d).b@, old(d).p as int, done, fits, t, layout),
    ensures
        final(d).b == old(d).b,
        final(d).wf(),
        r matches Ok(v) ==> decode_progress(
            final(d).b@,
            final(d).p as int,
            done + seq![le_u32(v.0), le_u32(v.1), le_u32(v.2), le_u16(v.3)],
            fits,
            t,
            layout,
        ),
        r matches Err(e) ==> e == SessionError::Codec && !fits,
{
    let ghost b = d.b@;
    let ghost tsegs = update_segments(t);
    let ghost mut acc = done;
    let ghost p0 = d.p as int;
    assert(fits ==> segment_here(b, tsegs, 11, p0)) by {
        if fits {
            lemma_segment_here(b, acc, tsegs, p0);
        }
    }
    let world_cells = d.u32()?;
    proof {
        lemma_decode_step(b, acc, le_u32(world_cells), p0, d.p as int, fits, tsegs);
        acc = acc.push(le_u32(world_cells));
    }
    let ghost p0 = d.p as int;
    assert(fits ==> segment_here(b, tsegs, 12, p0)) by {
        if fits {
            lemma_segment_here(b, acc, tsegs, p0);
        }
    }
    let flight_cells = d.u32()?;
    proof {
        lemma_decode_step(b, acc, le_u32(flight_cells), p0, d.p as int, fits, tsegs);
        acc = acc.push(le_u32(flight_cells));
    }
    let ghost p0 = d.p as int;
    assert(fits ==> segment_here(b, tsegs, 13, p0)) by {
        if fits {
            lemma_segment_here(b, acc, tsegs, p0);
        }
    }
    let transcript_checksum = d.u32()?;
    proof {
        lemma_decode_step(b, acc, le_u32(transcript_checksum), p0, d.p as int, fits, tsegs);
        acc = acc.push(le_u32(transcript_checksum));
    }
    let ghost p0 = d.p as int;
    assert(fits ==> segment_here(b, tsegs, 14, p0)) by {
        if fits {
            lemma_segment_here(b, acc, tsegs, p0);
        }
    }
    let mission_control_alarms = d.u16()?;
    proof {
        lemma_decode_step(b, acc, le_u16(mission_control_alarms), p0, d.p as int, fits, tsegs);
        acc = acc.push(le_u16(mission_control_alarms));
    }
    assert(acc =~= done + seq![le_u32(world_cells), le_u32(flight_cells), le_u32(transcript_checksum), le_u16(mission_control_alarms)]);
    Ok((world_cells, flight_cells, transcript_checksum, mission_control_alarms))
}

fn decode_flags(
    d: &mut Decoder,
    layout: CellLayout,
    Ghost(done): Ghost<Seq<Seq<u8>>>,
    Ghost(fits): Ghost<bool>,
    Ghost(t): Ghost<RecordedUpdate>,
) -> (r: Result<(u8, bool, bool), SessionError>)
    requires
        old(d).wf(),
        done.len() == 15,
        decode_progress(old(d).b@, old(d).p as int, done, fits, t, layout),
    ensures
        final(d).b == old(d).b,
        final(d).wf(),
        r matches Ok(v) ==> decode_progress(
            final(d).b@,
            final(d).p as int,
            done + seq![seq![v.0], bool_byte(v.1), bool_byte(v.2)],
            fits,
            t,
            layout,
        ),
        r matches Err(e) ==> e == SessionError::Codec && !fits,
{
    let ghost b = d.b@;
    let ghost tsegs = update_segments(t);
    let ghost mut acc = done;
    let ghost p0 = d.p as int;
    assert(fits ==> segment_here(b, tsegs, 15, p0)) by {
        if fits {
            lemma_segment_here(b, acc, tsegs, p0);
        }
    }
    let pace_rate = d.u8()?;
    proof {
        lemma_decode_step(b, acc, seq![pace_rate], p0, d.p as int, fits, tsegs);
        acc = acc.push(seq![pace_rate]);
    }
    let ghost p0 = d.p as int;
    assert(fits ==> segment_here(b, tsegs, 16, p0)) by {
        if fits {
            lemma_segment_here(b, acc, tsegs, p0);
        }
    }
    assert(fits ==> tsegs[16][0] == b[p0]) by {
        if fits {
            assert(b.subrange(p0, p0 + tsegs[16].len())[0] == b[p0]);
        }
    }
    let paused = d.bool()?;
    proof {
        lemma_decode_step(b, acc, bool_byte(paused), p0, d.p as int, fits, tsegs);
        acc = acc.push(bool_byte(paused));
    }
    let ghost p0 = d.p as int;
    assert(fits ==> segment_here(b, tsegs, 17, p0)) by {
        if fits {
            lemma_segment_here(b, acc, tsegs, p0);
        }
    }
    assert(fits ==> tsegs[17][0] == b[p0]) by {
        if fits {
            assert(b.subrange(p0, p0 + tsegs[17].len())[0] == b[p0]);
        }
    }
    let cancelled = d.bool()?;
    proof {
        lemma_decode_step(b, acc, bool_byte(cancelled), p0, d.p as int, fits, tsegs);
        acc = acc.push(bool_byte(cancelled));
    }
    assert(acc =~= done + seq![seq![pace_rate], bool_byte(paused), bool_byte(cancelled)]);
    Ok((pace_rate, paused, cancelled))
}

impl RecordedUpdate {
    /// Decodes an update record payload for the given cell layout. It
    /// succeeds exactly when the payload is the layout of some well-formed
    /// update, and then yields one.
    pub fn decode_binary(b: &[u8], layout: CellLayout) -> (r: Result<RecordedUpdate, SessionError>)
        ensures
            r is Ok <==> exists|t: RecordedUpdate|
                update_wf(t, layout) && #[trigger] update_bytes(t) == b@,
            r matches Ok(u) ==> update_wf(u, layout) && update_bytes(u) == b@,
            r matches Err(e) ==> e == SessionError::Codec,
    {
        let ghost fits = exists|t: RecordedUpdate|
            update_wf(t, layout) && #[trigger] update_bytes(t) == b@;
        let ghost t = choose|t: RecordedUpdate|
            update_wf(t, layout) && #[trigger] update_bytes(t) == b@;
        let mut d = Decoder::new(b);
        let ghost done0: Seq<Seq<u8>> = Seq::empty();
        assert(b@.subrange(0, 0) =~= concat_all(done0));
        assert(done0 =~= update_segments(t).take(0));
        let (epoch, wall_micros, inertial, aid, command, status) = decode_cells(
            &mut d,
            layout,
            Ghost(done0),
            Ghost(fits),
            Ghost(t),
        )?;
        let ghost done1 = done0 + seq![
            le_u32(epoch),
            le_u64(wall_micros),
            inertial@,
            opt_blob_bytes(aid),
            command@,
            opt_blob_bytes(status),
        ];
        let (ground_fix, ground_estimate, comparison) = decode_tracking(
            &mut d,
            layout,
            Ghost(done1),
            Ghost(fits),
            Ghost(t),
        )?;
        let ghost done2 = done1 + seq![
            opt_fix_bytes(ground_fix),
            opt_estimate_bytes(ground_estimate),
            opt_comparison_bytes(comparison),
        ];
        let (director, guidance) = decode_vehicle(
            &mut d,
            layout,
            Ghost(done2),
            Ghost(fits),
            Ghost(t),
        )?;
        let ghost done3 = done2 + seq![director_bytes(director), guidance_bytes(guidance)];
        let (world_cells, flight_cells, transcript_checksum, mission_control_alarms) =
            decode_counters(&mut d, layout, Ghost(done3), Ghost(fits), Ghost(t))?;
        let ghost done4 = done3 + seq![
            le_u32(world_cells),
            le_u32(flight_cells),
            le_u32(transcript_checksum),
            le_u16(mission_control_alarms),
        ];
        let (pace_rate, paused, cancelled) = decode_flags(
            &mut d,
            layout,
            Ghost(done4),
            Ghost(fits),
            Ghost(t),
        )?;
        let ghost done = done4 + seq![seq![pace_rate], bool_byte(paused), bool_byte(cancelled)];
        let ghost tsegs = update_segments(t);
        assert(fits ==> done == tsegs) by {
            if fits {
                assert(tsegs.take(18) =~= tsegs);
            }
        }
        if pace_rate > 4 {
            proof {
                if fits {
                    assert(done[15] == tsegs[15]);
                    assert(seq![pace_rate][0] == seq![t.pace_rate][0]);
                }
            }
            return Err(SessionError::Codec);
        }
        if d.p != b.len() {
            return Err(SessionError::Codec);
        }
        let u = RecordedUpdate {
            epoch,
            wall_micros,
            inertial,
            aid,
            command,
            status,
            ground_fix,
            ground_estimate,
            comparison,
            director,
            guidance,
            world_cells,
            flight_cells,
            transcript_checksum,
            mission_control_alarms,
            pace_rate,
            paused,
            cancelled,
        };
        assert(update_segments(u) =~= done);
        assert(b@.subrange(0, d.p as int) =~= b@);
        assert(update_bytes(u) == b@);
        assert(update_wf(u, layout));
        Ok(u)
    }
}


/// `a` joined is a prefix of `b` joined.
pub open spec fn joined_prefix(a: Seq<Seq<u8>>, b: Seq<Seq<u8>>) -> bool {
    &&& concat_all(a).len() <= concat_all(b).len()
    &&& concat_all(b).take(concat_all(a).len() as int) == concat_all(a)
}

/// Where the first `k` segments agree and segment `k` has the same length
/// in both, and `a` joined is a prefix of `b` joined, segment `k` agrees too.
pub proof fn lemma_equal_segment(a: Seq<Seq<u8>>, b: Seq<Seq<u8>>, k: int)
    requires
        joined_prefix(a, b),
        0 <= k < a.len(),
        a.len() == b.len(),
        a.take(k) == b.take(k),
        a[k].len() == b[k].len(),
    ensures
        a[k] == b[k],
        a.take(k + 1) == b.take(k + 1),
{
    lemma_segment_at(a, k);
    lemma_segment_at(b, k);
    let ca = concat_all(a);
    let cb = concat_all(b);
    let p = concat_all(a.take(k)).len() as int;
    let q = p + a[k].len();
    assert(cb.subrange(p, q) =~= ca.subrange(p, q)) by {
        assert forall|i: int| 0 <= i < q - p implies cb.subrange(p, q)[i] == ca.subrange(p, q)[i] by {
            assert(cb.take(ca.len() as int)[p + i] == cb[p + i]);
        }
    }
    assert(a.take(k + 1) =~= a.take(k).push(a[k]));
    assert(b.take(k + 1) =~= b.take(k).push(b[k]));
}

/// Segment `k` starts with the byte found where the first `k` segments end.
pub proof fn lemma_segment_first_byte(a: Seq<Seq<u8>>, b: Seq<Seq<u8>>, k: int)
    requires
        joined_prefix(a, b),
        0 <= k < a.len(),
        a.len() == b.len(),
        a.take(k) == b.take(k),
        a[k].len() > 0,
        b[k].len() > 0,
    ensures
        a[k][0] == b[k][0],
{
    lemma_segment_at(a, k);
    lemma_segment_at(b, k);
    let p = concat_all(a.take(k)).len() as int;
    assert(a[k][0] == concat_all(a).subrange(p, p + a[k].len())[0]);
    assert(b[k][0] == concat_all(b).subrange(p, p + b[k].len())[0]);
    assert(concat_all(b).take(concat_all(a).len() as int)[p] == concat_all(b)[p]);
}

/// No record payload of a well-formed update is a proper prefix of
/// another's: where one payload begins the other, the two are equal. So
/// cutting an encoded update short, or adding bytes after it, never gives
/// the payload of a well-formed update, and `decode_binary` refuses it.
pub proof fn law_update_layout_prefix_free(x: RecordedUpdate, y: RecordedUpdate, layout: CellLayout)
    requires
        update_wf(x, layout),
        update_wf(y, layout),
        update_bytes(x).len() <= update_bytes(y).len(),
        update_bytes(y).take(update_bytes(x).len() as int) == update_bytes(x),
    ensures
        update_bytes(x) == update_bytes(y),
{
    let a = update_segments(x);
    let b = update_segments(y);
    lemma_opt_lengths_agree();
    lemma_le_injective();
    lemma_block_lengths(arbitrary(), arbitrary(), arbitrary(), x.director, x.guidance);
    lemma_block_lengths(arbitrary(), arbitrary(), arbitrary(), y.director, y.guidance);
    assert(a.take(0) =~= b.take(0));
    lemma_equal_segment(a, b, 0);
    lemma_equal_segment(a, b, 1);
    lemma_equal_segment(a, b, 2);
    lemma_segment_first_byte(a, b, 3);
    lemma_equal_segment(a, b, 3);
    lemma_equal_segment(a, b, 4);
    lemma_segment_first_byte(a, b, 5);
    lemma_equal_segment(a, b, 5);
    lemma_segment_first_byte(a, b, 6);
    lemma_equal_segment(a, b, 6);
    lemma_segment_first_byte(a, b, 7);
    lemma_equal_segment(a, b, 7);
    lemma_segment_first_byte(a, b, 8);
    lemma_equal_segment(a, b, 8);
    lemma_equal_segment(a, b, 9);
    lemma_equal_segment(a, b, 10);
    lemma_equal_segment(a, b, 11);
    lemma_equal_segment(a, b, 12);
    lemma_equal_segment(a, b, 13);
    lemma_equal_segment(a, b, 14);
    lemma_equal_segment(a, b, 15);
    lemma_equal_segment(a, b, 16);
    lemma_equal_segment(a, b, 17);
    assert(a.take(18) =~= a);
    assert(b.take(18) =~= b);
}

/// `a` joined and `b` joined agree on their first `m` bytes.
pub open spec fn joined_agree(a: Seq<Seq<u8>>, b: Seq<Seq<u8>>, m: int) -> bool {
    &&& 0 <= m <= concat_all(a).len()
    &&& m <= concat_all(b).len()
    &&& concat_all(a).take(m) == concat_all(b).take(m)
}

/// Where the joined lists agree past the end of segment `k`, the first `k`
/// segments agree, and segment `k` has the same length in both, segment
/// `k` agrees too.
proof fn lemma_equal_segment_upto(a: Seq<Seq<u8>>, b: Seq<Seq<u8>>, k: int, m: int)
    requires
        joined_agree(a, b, m),
        0 <= k < a.len(),
        a.len() == b.len(),
        a.take(k) == b.take(k),
        a[k].len() == b[k].len(),
        concat_all(a.take(k)).len() + a[k].len() <= m,
    ensures
        a[k] == b[k],
        a.take(k + 1) == b.take(k + 1),
{
    lemma_segment_at(a, k);
    lemma_segment_at(b, k);
    let ca = concat_all(a);
    let cb = concat_all(b);
    let p = concat_all(a.take(k)).len() as int;
    let q = p + a[k].len();
    assert(cb.subrange(p, q) =~= ca.subrange(p, q)) by {
        assert forall|i: int| 0 <= i < q - p implies cb.subrange(p, q)[i] == ca.subrange(p, q)[i] by {
            assert(cb.take(m)[p + i] == cb[p + i]);
            assert(ca.take(m)[p + i] == ca[p + i]);
        }
    }
    assert(a.take(k + 1) =~= a.take(k).push(a[k]));
    assert(b.take(k + 1) =~= b.take(k).push(b[k]));
}

/// Segment `k` starts with the same byte in both, where the joined lists
/// agree past its start.
proof fn lemma_segment_first_byte_upto(a: Seq<Seq<u8>>, b: Seq<Seq<u8>>, k: int, m: int)
    requires
        joined_agree(a, b, m),
        0 <= k < a.len(),
        a.len() == b.len(),
        a.take(k) == b.take(k),
        a[k].len() > 0,
        b[k].len() > 0,
        concat_all(a.take(k)).len() < m,
    ensures
        a[k][0] == b[k][0],
{
    lemma_segment_at(a, k);
    lemma_segment_at(b, k);
    let p = concat_all(a.take(k)).len() as int;
    assert(a[k][0] == concat_all(a).subrange(p, p + a[k].len())[0]);
    assert(b[k][0] == concat_all(b).subrange(p, p + b[k].len())[0]);
    assert(concat_all(b).take(m)[p] == concat_all(b)[p]);
    assert(concat_all(a).take(m)[p] == concat_all(a)[p]);
}

/// The first `j` segments are no longer joined than the first `k`.
proof fn lemma_concat_take_grows(a: Seq<Seq<u8>>, j: int, k: int)
    requires
        0 <= j <= k <= a.len(),
    ensures
        concat_all(a.take(j)).len() <= concat_all(a.take(k)).len(),
        j < k ==> concat_all(a.take(j)).len() + a[j].len() <= concat_all(a.take(k)).len(),
    decreases k - j,
{
    if j < k {
        lemma_concat_take_grows(a, j + 1, k);
        assert(a.take(j + 1) =~= a.take(j).push(a[j]));
        lemma_concat_push(a.take(j), a[j]);
    }
}

/// Each presence byte of an update record (aid, status, ground fix, ground
/// estimate, comparison) is 0 or 1 and opens its segment.
proof fn lemma_presence_bytes(u: RecordedUpdate, k: int)
    requires
        k == 3 || k == 5 || k == 6 || k == 7 || k == 8,
    ensures
        update_segments(u)[k].len() >= 1,
        update_segments(u)[k][0] <= 1,
{
}

/// The last three bytes of an update record are its pace rate code and its
/// paused and cancelled flags, each flag 0 or 1.
pub proof fn lemma_update_tail(u: RecordedUpdate)
    ensures
        update_bytes(u).len() >= 3,
        update_bytes(u)[update_bytes(u).len() - 3] == u.pace_rate,
        update_bytes(u)[update_bytes(u).len() - 2] <= 1,
        update_bytes(u)[update_bytes(u).len() - 1] <= 1,
{
    let a = update_segments(u);
    let c15 = concat_all(a.take(15));
    assert(a.take(18) =~= a);
    assert(a.take(16) =~= a.take(15).push(a[15]));
    assert(a.take(17) =~= a.take(16).push(a[16]));
    assert(a.take(18) =~= a.take(17).push(a[17]));
    lemma_concat_push(a.take(15), a[15]);
    lemma_concat_push(a.take(16), a[16]);
    lemma_concat_push(a.take(17), a[17]);
    let all = c15 + a[15] + a[16] + a[17];
    assert(update_bytes(u) =~= all);
}

/// A record payload whose pace rate code is above 4, or whose paused or
/// cancelled flag is above 1, is the payload of no well-formed update, so
/// `decode_binary` refuses it with `Codec`.
pub proof fn law_bad_tail_byte_is_refused(b: Seq<u8>, layout: CellLayout)
    requires
        b.len() >= 3,
        b[b.len() - 3] > 4 || b[b.len() - 2] > 1 || b[b.len() - 1] > 1,
    ensures
        !exists|t: RecordedUpdate| update_wf(t, layout) && #[trigger] update_bytes(t) == b,
{
    if exists|t: RecordedUpdate| update_wf(t, layout) && #[trigger] update_bytes(t) == b {
        let t = choose|t: RecordedUpdate| update_wf(t, layout) && #[trigger] update_bytes(t) == b;
        lemma_update_tail(t);
    }
}

/// Where the payloads of two well-formed updates agree on their first `p`
/// bytes, and the first `j` segments of the first lie within them, those
/// segments are the same in both.
#[verifier::spinoff_prover]
proof fn lemma_segments_agree_upto(
    u: RecordedUpdate,
    t: RecordedUpdate,
    layout: CellLayout,
    j: int,
    p: int,
)
    requires
        update_wf(u, layout),
        update_wf(t, layout),
        0 <= j <= 18,
        joined_agree(update_segments(u), update_segments(t), p),
        concat_all(update_segments(u).take(j)).len() <= p,
    ensures
        update_segments(u).take(j) == update_segments(t).take(j),
    decreases j,
{
    let a = update_segments(u);
    let b = update_segments(t);
    if j == 0 {
        assert(a.take(0) =~= b.take(0));
    } else {
        let i = j - 1;
        lemma_concat_take_grows(a, i, j);
        lemma_segments_agree_upto(u, t, layout, i, p);
        lemma_opt_lengths_agree();
        lemma_le_injective();
        lemma_block_lengths(arbitrary(), arbitrary(), arbitrary(), u.director, u.guidance);
        lemma_block_lengths(arbitrary(), arbitrary(), arbitrary(), t.director, t.guidance);
        if i == 3 || i == 5 || i == 6 || i == 7 || i == 8 {
            lemma_presence_bytes(u, i);
            lemma_presence_bytes(t, i);
            lemma_segment_first_byte_upto(a, b, i, p);
        }
        lemma_equal_segment_upto(a, b, i, p);
    }
}

/// A presence byte (of the aid, status, ground fix, ground estimate or
/// comparison) set above 1 in the record payload of a well-formed update
/// gives the payload of no well-formed update, so `decode_binary` refuses
/// it with `Codec`.
pub proof fn law_bad_presence_byte_is_refused(u: RecordedUpdate, layout: CellLayout, k: int, v: u8)
    requires
        update_wf(u, layout),
        k == 3 || k == 5 || k == 6 || k == 7 || k == 8,
        v > 1,
    ensures
        !exists|t: RecordedUpdate|
            update_wf(t, layout) && #[trigger] update_bytes(t) == update_bytes(u).update(
                concat_all(update_segments(u).take(k)).len() as int,
                v,
            ),
{
    let a = update_segments(u);
    let p = concat_all(a.take(k)).len() as int;
    let e = update_bytes(u).update(p, v);
    if exists|t: RecordedUpdate| update_wf(t, layout) && #[trigger] update_bytes(t) == e {
        let t = choose|t: RecordedUpdate| update_wf(t, layout) && #[trigger] update_bytes(t) == e;
        let b = update_segments(t);
        lemma_segment_at(a, k);
        lemma_presence_bytes(t, k);
        assert(joined_agree(a, b, p)) by {
            assert(concat_all(a).take(p) =~= concat_all(b).take(p));
        }
        lemma_segments_agree_upto(u, t, layout, k, p);
        lemma_segment_at(b, k);
        assert(concat_all(b)[p] == b[k][0]) by {
            assert(concat_all(b).subrange(p, p + b[k].len())[0] == concat_all(b)[p]);
        }
        assert(e[p] == v);
    }
}

/// A payload cut short from, or running on past, the payload of a
/// well-formed update is the payload of no well-formed update, so
/// `decode_binary` refuses it with `Codec`.
pub proof fn law_cut_or_extended_payload_is_refused(u: RecordedUpdate, layout: CellLayout, b: Seq<u8>)
    requires
        update_wf(u, layout),
        (b.len() < update_bytes(u).len() && update_bytes(u).take(b.len() as int) == b) || (
        update_bytes(u).len() < b.len() && b.take(update_bytes(u).len() as int) == update_bytes(u)),
    ensures
        !exists|t: RecordedUpdate| update_wf(t, layout) && #[trigger] update_bytes(t) == b,
{
    if exists|t: RecordedUpdate| update_wf(t, layout) && #[trigger] update_bytes(t) == b {
        let t = choose|t: RecordedUpdate| update_wf(t, layout) && #[trigger] update_bytes(t) == b;
        if b.len() < update_bytes(u).len() {
            law_update_layout_prefix_free(t, u, layout);
        } else {
            law_update_layout_prefix_free(u, t, layout);
        }
    }
}

/// The update layout is injective on well-formed updates: two updates with
/// the same record payload agree in every field (cell blobs by content).
/// Together with `decode_binary`'s contract this is the round trip: decoding
/// an encoded update gives back that update.
#[verifier::spinoff_prover]
#[verifier::rlimit(50)]
pub proof fn law_update_layout_injective(x: RecordedUpdate, y: RecordedUpdate, layout: CellLayout)
    requires
        update_wf(x, layout),
        update_wf(y, layout),
        update_bytes(x) == update_bytes(y),
    ensures
        x.epoch == y.epoch,
        x.wall_micros == y.wall_micros,
        x.inertial@ == y.inertial@,
        x.aid is Some <==> y.aid is Some,
        x.aid matches Some(v) ==> v@ == y.aid->0@,
        x.command@ == y.command@,
        x.status is Some <==> y.status is Some,
        x.status matches Some(v) ==> v@ == y.status->0@,
        x.ground_fix == y.ground_fix,
        x.ground_estimate == y.ground_estimate,
        x.comparison == y.comparison,
        x.director == y.director,
        x.guidance == y.guidance,
        x.world_cells == y.world_cells,
        x.flight_cells == y.flight_cells,
        x.transcript_checksum == y.transcript_checksum,
        x.mission_control_alarms == y.mission_control_alarms,
        x.pace_rate == y.pace_rate,
        x.paused == y.paused,
        x.cancelled == y.cancelled,
{
    let a = update_segments(x);
    let b = update_segments(y);
    assert(update_bytes(y).take(update_bytes(x).len() as int) =~= update_bytes(x));
    lemma_opt_lengths_agree();
    lemma_le_injective();
    lemma_block_lengths(arbitrary(), arbitrary(), arbitrary(), x.director, x.guidance);
    lemma_block_lengths(arbitrary(), arbitrary(), arbitrary(), y.director, y.guidance);
    assert(a.take(0) =~= b.take(0));
    lemma_equal_segment(a, b, 0);
    lemma_equal_segment(a, b, 1);
    lemma_equal_segment(a, b, 2);
    lemma_segment_first_byte(a, b, 3);
    lemma_equal_segment(a, b, 3);
    lemma_equal_segment(a, b, 4);
    lemma_segment_first_byte(a, b, 5);
    lemma_equal_segment(a, b, 5);
    lemma_segment_first_byte(a, b, 6);
    lemma_equal_segment(a, b, 6);
    lemma_segment_first_byte(a, b, 7);
    lemma_equal_segment(a, b, 7);
    lemma_segment_first_byte(a, b, 8);
    lemma_equal_segment(a, b, 8);
    lemma_equal_segment(a, b, 9);
    lemma_equal_segment(a, b, 10);
    lemma_equal_segment(a, b, 11);
    lemma_equal_segment(a, b, 12);
    lemma_equal_segment(a, b, 13);
    lemma_equal_segment(a, b, 14);
    lemma_equal_segment(a, b, 15);
    lemma_equal_segment(a, b, 16);
    lemma_equal_segment(a, b, 17);
    match (x.ground_fix, y.ground_fix) {
        (Some(f), Some(g)) => {
            assert(fix_bytes(f) =~= a[6].subrange(1, a[6].len() as int));
            assert(fix_bytes(g) =~= b[6].subrange(1, b[6].len() as int));
            lemma_fix_bytes_injective(f, g);
        },
        _ => {},
    }
    match (x.ground_estimate, y.ground_estimate) {
        (Some(f), Some(g)) => {
            assert(estimate_bytes(f) =~= a[7].subrange(1, a[7].len() as int));
            assert(estimate_bytes(g) =~= b[7].subrange(1, b[7].len() as int));
            lemma_estimate_bytes_injective(f, g);
        },
        _ => {},
    }
    match (x.comparison, y.comparison) {
        (Some(f), Some(g)) => {
            assert(comparison_bytes(f) =~= a[8].subrange(1, a[8].len() as int));
            assert(comparison_bytes(g) =~= b[8].subrange(1, b[8].len() as int));
            lemma_comparison_bytes_injective(f, g);
        },
        _ => {},
    }
    match (x.aid, y.aid) {
        (Some(f), Some(g)) => {
            assert(f@ =~= a[3].subrange(1, a[3].len() as int));
            assert(g@ =~= b[3].subrange(1, b[3].len() as int));
        },
        _ => {},
    }
    match (x.status, y.status) {
        (Some(f), Some(g)) => {
            assert(f@ =~= a[5].subrange(1, a[5].len() as int));
            assert(g@ =~= b[5].subrange(1, b[5].len() as int));
        },
        _ => {},
    }
    lemma_director_bytes_injective(x.director, y.director);
    lemma_guidance_bytes_injective(x.guidance, y.guidance);
    assert(a[15][0] == b[15][0]);
    assert(a[16][0] == b[16][0]);
    assert(a[17][0] == b[17][0]);
}


// ---------------------------------------------------------------------------
// Pace rate codes

pub open spec fn rate_code(v: PaceRate) -> u8 {
    match v {
        PaceRate::Quarter => 0,
        PaceRate::Half => 1,
        PaceRate::Realtime => 2,
        PaceRate::Double => 3,
        PaceRate::Max => 4,
    }
}

/// The recorded code of a pace rate, slowest first.
pub fn rate_to_u8(v: PaceRate) -> (r: u8)
    ensures
        r == rate_code(v),
{
    match v {
        PaceRate::Quarter => 0,
        PaceRate::Half => 1,
        PaceRate::Realtime => 2,
        PaceRate::Double => 3,
        PaceRate::Max => 4,
    }
}

/// The pace rate of a recorded code; codes above 3 read as unthrottled.
pub fn rate_from_u8(v: u8) -> (r: PaceRate)
    ensures
        v <= 4 ==> rate_code(r) == v,
        v > 4 ==> r == PaceRate::Max,
{
    match v {
        0 => PaceRate::Quarter,
        1 => PaceRate::Half,
        2 => PaceRate::Realtime,
        3 => PaceRate::Double,
        _ => PaceRate::Max,
    }
}

/// Recording a rate and reading it back gives the same rate, and every
/// recorded code is one an update accepts.
pub proof fn law_rate_code_roundtrip(v: PaceRate, r: PaceRate)
    requires
        rate_code(r) == rate_code(v),
    ensures
        r == v,
        rate_code(v) <= 4,
{
}

// ---------------------------------------------------------------------------
// File header

pub open spec fn kmr6_magic() -> Seq<u8> {
    seq![0x4bu8, 0x4du8, 0x52u8, 0x36u8]
}

/// The first 28 header bytes: magic, version, two zero bytes, the creation
/// time in milliseconds, and twelve zero bytes.
pub open spec fn header_body(created_millis: u64) -> Seq<u8> {
    kmr6_magic() + le_u16(KMR6_VERSION) + seq![0u8, 0u8] + le_u64(created_millis) + Seq::new(
        12,
        |i: int| 0u8,
    )
}

/// A complete KMR6 header: the body followed by its CRC-32.
pub open spec fn header_bytes(created_millis: u64) -> Seq<u8> {
    header_body(created_millis) + le_u32(crc32_ieee_of(header_body(created_millis)))
}

/// The file starts with a valid header.
pub open spec fn header_ok(data: Seq<u8>) -> bool {
    &&& data.len() >= 32
    &&& data.subrange(0, 4) == kmr6_magic()
    &&& get_u16(data, 4) == KMR6_VERSION
    &&& data[6] == 0 && data[7] == 0
    &&& forall|i: int| 16 <= i < 28 ==> data[i] == 0
    &&& crc32_ieee_of(data.subrange(0, 28)) == get_u32(data, 28)
}

/// The 32-byte header of a recording created at `created_millis`.
pub fn kmr6_header(created_millis: u64) -> (r: Vec<u8>)
    ensures
        r@ == header_bytes(created_millis),
{
    let mut h: Vec<u8> = Vec::with_capacity(KMR6_HEADER_LENGTH);
    h.push(0x4b);
    h.push(0x4d);
    h.push(0x52);
    h.push(0x36);
    push_u16(&mut h, KMR6_VERSION);
    h.push(0);
    h.push(0);
    push_u64(&mut h, created_millis);
    let mut i: usize = 0;
    while i < 12
        invariant
            i <= 12,
            h@ == kmr6_magic() + le_u16(KMR6_VERSION) + seq![0u8, 0u8] + le_u64(created_millis)
                + Seq::new(i as nat, |j: int| 0u8),
        decreases 12 - i,
    {
        h.push(0);
        i += 1;
        assert(h@ =~= kmr6_magic() + le_u16(KMR6_VERSION) + seq![0u8, 0u8] + le_u64(
            created_millis,
        ) + Seq::new(i as nat, |j: int| 0u8));
    }
    assert(h@ =~= header_body(created_millis));
    let crc = crc32(h.as_slice());
    push_u32(&mut h, crc);
    h
}

/// Checks the header of a recording.
pub fn check_header(data: &[u8]) -> (r: bool)
    ensures
        r == header_ok(data@),
{
    if data.len() < KMR6_HEADER_LENGTH {
        return false;
    }
    if data[0] != 0x4b || data[1] != 0x4d || data[2] != 0x52 || data[3] != 0x36 {
        proof {
            if data@.subrange(0, 4) == kmr6_magic() {
                assert(data@.subrange(0, 4)[0] == data@[0]);
                assert(data@.subrange(0, 4)[1] == data@[1]);
                assert(data@.subrange(0, 4)[2] == data@[2]);
                assert(data@.subrange(0, 4)[3] == data@[3]);
            }
        }
        return false;
    }
    assert(data@.subrange(0, 4) =~= kmr6_magic());
    if read_u16(data, 4) != KMR6_VERSION || data[6] != 0 || data[7] != 0 {
        return false;
    }
    let mut i: usize = 16;
    while i < 28
        invariant
            16 <= i <= 28,
            data@.len() >= 32,
            forall|j: int| 16 <= j < i ==> data@[j] == 0,
        decreases 28 - i,
    {
        if data[i] != 0 {
            return false;
        }
        i += 1;
    }
    let body = &data[0..28];
    crc32(body) == read_u32(data, 28)
}

/// Writing a header and checking it agrees: a fresh header is valid.
pub proof fn law_fresh_header_is_valid(created_millis: u64)
    ensures
        header_ok(header_bytes(created_millis)),
{
    let h = header_bytes(created_millis);
    let body = header_body(created_millis);
    lemma_u16_roundtrip(KMR6_VERSION);
    lemma_u32_roundtrip(crc32_ieee_of(body));
    assert(h.subrange(0, 28) =~= body);
    assert(h.subrange(0, 4) =~= kmr6_magic());
    assert(h.subrange(4, 6) =~= le_u16(KMR6_VERSION));
    assert(get_u16(h, 4) == get_u16(le_u16(KMR6_VERSION), 0));
    assert(h.subrange(28, 32) =~= le_u32(crc32_ieee_of(body)));
    assert(get_u32(h, 28) == get_u32(le_u32(crc32_ieee_of(body)), 0));
}


// ---------------------------------------------------------------------------
// Record framing

/// Kind byte, zero byte and little-endian payload length.
pub open spec fn record_prefix(kind: u8, len: u32) -> Seq<u8> {
    seq![kind, 0u8] + le_u32(len)
}

/// A framed record: prefix, payload, and the CRC-32 of prefix and payload.
pub open spec fn frame_bytes(kind: u8, payload: Seq<u8>) -> Seq<u8> {
    let prefix = record_prefix(kind, payload.len() as u32);
    prefix + payload + le_u32(crc32_ieee_of(prefix + payload))
}

/// Frames one record for appending to a recording.
pub fn frame_record(kind: u8, payload: &[u8]) -> (r: Vec<u8>)
    requires
        payload@.len() <= u32::MAX,
    ensures
        r@ == frame_bytes(kind, payload@),
{
    let mut o: Vec<u8> = Vec::new();
    o.push(kind);
    o.push(0);
    push_u32(&mut o, payload.len() as u32);
    assert(o@ =~= record_prefix(kind, payload@.len() as u32));
    put_bytes(&mut o, payload);
    let crc = crc32(o.as_slice());
    push_u32(&mut o, crc);
    o
}

/// One intact record read back from a recording.
pub struct SessionRecord {
    pub kind: u8,
    pub payload: Vec<u8>,
}

/// The intact records of a recording, in order, and whether reading stopped
/// early at a torn, corrupted or unknown record.
pub struct RecordScan {
    pub records: Vec<SessionRecord>,
    pub recovered: bool,
}

pub open spec fn record_view(r: SessionRecord) -> (u8, Seq<u8>) {
    (r.kind, r.payload@)
}

/// The declared payload length of the record at `at`.
pub open spec fn record_len(data: Seq<u8>, at: int) -> int {
    get_u32(data, at + 2) as int
}

/// The record at `at` is intact: complete, zero second byte, payload within
/// the record size limit, matching CRC, and a known kind.
pub open spec fn record_at_ok(data: Seq<u8>, at: int) -> bool {
    &&& data.len() - at >= 10
    &&& data[at + 1] == 0
    &&& record_len(data, at) <= MAX_RECORD
    &&& data.len() - at >= 10 + record_len(data, at)
    &&& crc32_ieee_of(data.subrange(at, at + 6 + record_len(data, at))) == get_u32(
        data,
        at + 6 + record_len(data, at),
    )
    &&& (data[at] == RECORD_UPDATE || data[at] == RECORD_FINISH)
}

/// The records found from `at` on, and whether reading had to stop early.
pub open spec fn scan_from(data: Seq<u8>, at: int) -> (Seq<(u8, Seq<u8>)>, bool)
    decreases data.len() - at,
{
    if at < 0 || at >= data.len() {
        (Seq::empty(), false)
    } else if !record_at_ok(data, at) {
        (Seq::empty(), true)
    } else {
        let len = record_len(data, at);
        let rest = scan_from(data, at + 10 + len);
        (seq![(data[at], data.subrange(at + 6, at + 6 + len))] + rest.0, rest.1)
    }
}

/// Reads a recording: the header must be valid; records are then read until
/// the end, stopping (and noting the recovery) at the first record that is
/// torn, corrupted or of unknown kind.
pub fn scan_session(data: &[u8]) -> (r: Result<RecordScan, SessionError>)
    ensures
        r is Ok <==> header_ok(data@),
        r matches Ok(s) ==> s.records@.map_values(|x: SessionRecord| record_view(x))
            == scan_from(data@, 32).0 && s.recovered == scan_from(data@, 32).1,
        r matches Err(e) ==> e == SessionError::Header,
{
    if !check_header(data) {
        return Err(SessionError::Header);
    }
    let mut records: Vec<SessionRecord> = Vec::new();
    let mut at: usize = KMR6_HEADER_LENGTH;
    let mut recovered = false;
    while at < data.len()
        invariant_except_break
            !recovered,
        invariant
            32 <= at <= data@.len(),
            records@.map_values(|x: SessionRecord| record_view(x)) + scan_from(data@, at as int).0
                == scan_from(data@, 32).0,
            scan_from(data@, at as int).1 == scan_from(data@, 32).1,
        ensures
            recovered ==> at < data@.len() && !record_at_ok(data@, at as int),
            !recovered ==> at >= data@.len(),
        decreases data@.len() - at,
    {
        if data.len() - at < 10 {
            recovered = true;
            break;
        }
        if data[at + 1] != 0 {
            recovered = true;
            break;
        }
        let len32 = read_u32(data, at + 2);
        if len32 as usize > MAX_RECORD || data.len() - at < 10 + len32 as usize {
            recovered = true;
            break;
        }
        let len = len32 as usize;
        let framed = &data[at..at + 6 + len];
        let expected = read_u32(data, at + 6 + len);
        if crc32(framed) != expected {
            recovered = true;
            break;
        }
        let kind = data[at];
        if kind != RECORD_UPDATE && kind != RECORD_FINISH {
            recovered = true;
            break;
        }
        let payload = slice_to_vec(&data[at + 6..at + 6 + len]);
        let ghost before = records@.map_values(|x: SessionRecord| record_view(x));
        records.push(SessionRecord { kind, payload });
        assert(records@.map_values(|x: SessionRecord| record_view(x)) =~= before.push(
            (kind, data@.subrange(at + 6, at + 6 + len)),
        ));
        let ghost old_at = at as int;
        at = at + 10 + len;
        assert(scan_from(data@, old_at).0 =~= seq![
            (kind, data@.subrange(old_at + 6, old_at + 6 + len)),
        ] + scan_from(data@, at as int).0);
        assert(records@.map_values(|x: SessionRecord| record_view(x)) + scan_from(
            data@,
            at as int,
        ).0 =~= before + scan_from(data@, old_at).0);
    }
    proof {
        assert(scan_from(data@, at as int).0 =~= Seq::<(u8, Seq<u8>)>::empty());
        assert(records@.map_values(|x: SessionRecord| record_view(x)) =~= records@.map_values(
            |x: SessionRecord| record_view(x),
        ) + scan_from(data@, at as int).0);
    }
    Ok(RecordScan { records, recovered })
}


/// The frames of a list of records, in order.
pub open spec fn frames(rs: Seq<(u8, Seq<u8>)>) -> Seq<u8>
    decreases rs.len(),
{
    if rs.len() == 0 {
        Seq::empty()
    } else {
        frame_bytes(rs[0].0, rs[0].1) + frames(rs.drop_first())
    }
}

/// Records a recorder writes: known kinds and payloads within the size limit.
pub open spec fn writable_records(rs: Seq<(u8, Seq<u8>)>) -> bool {
    forall|i: int|
        0 <= i < rs.len() ==> (#[trigger] rs[i].0 == RECORD_UPDATE || rs[i].0 == RECORD_FINISH)
            && rs[i].1.len() <= MAX_RECORD
}

/// Facts about one frame placed at `at` in `data`.
proof fn lemma_frame_fields(data: Seq<u8>, at: int, kind: u8, payload: Seq<u8>)
    requires
        0 <= at,
        at + frame_bytes(kind, payload).len() <= data.len(),
        data.subrange(at, at + frame_bytes(kind, payload).len()) == frame_bytes(kind, payload),
        payload.len() <= MAX_RECORD,
    ensures
        frame_bytes(kind, payload).len() == 10 + payload.len(),
        data[at] == kind,
        data[at + 1] == 0,
        record_len(data, at) == payload.len(),
        data.subrange(at + 6, at + 6 + payload.len()) == payload,
        data.subrange(at, at + 6 + payload.len()) == record_prefix(kind, payload.len() as u32)
            + payload,
        get_u32(data, at + 6 + payload.len()) == crc32_ieee_of(
            record_prefix(kind, payload.len() as u32) + payload,
        ),
{
    let f = frame_bytes(kind, payload);
    let n = payload.len() as int;
    let prefix = record_prefix(kind, payload.len() as u32);
    let crc = crc32_ieee_of(prefix + payload);
    lemma_u32_roundtrip(payload.len() as u32);
    lemma_u32_roundtrip(crc);
    assert(f[0] == data[at]);
    assert(f[1] == data[at + 1]);
    assert(data.subrange(at + 2, at + 6) =~= f.subrange(2, 6));
    assert(f.subrange(2, 6) =~= le_u32(payload.len() as u32));
    assert(get_u32(data, at + 2) == get_u32(data.subrange(at + 2, at + 6), 0));
    assert(data.subrange(at + 6, at + 6 + n) =~= f.subrange(6, 6 + n));
    assert(f.subrange(6, 6 + n) =~= payload);
    assert(data.subrange(at, at + 6 + n) =~= f.subrange(0, 6 + n));
    assert(f.subrange(0, 6 + n) =~= prefix + payload);
    assert(data.subrange(at + 6 + n, at + 10 + n) =~= f.subrange(6 + n, 10 + n));
    assert(f.subrange(6 + n, 10 + n) =~= le_u32(crc));
    assert(get_u32(data, at + 6 + n) == get_u32(data.subrange(at + 6 + n, at + 10 + n), 0));
}

/// Appending framed records after any prefix and reading from the end of the
/// prefix gives back exactly those records, with no recovery.
#[verifier::spinoff_prover]
#[verifier::rlimit(40)]
pub proof fn law_framed_records_read_back(pre: Seq<u8>, rs: Seq<(u8, Seq<u8>)>)
    requires
        writable_records(rs),
    ensures
        scan_from(pre + frames(rs), pre.len() as int) == (rs, false),
    decreases rs.len(),
{
    let data = pre + frames(rs);
    let at = pre.len() as int;
    if rs.len() == 0 {
        assert(data =~= pre);
        assert(scan_from(data, at).0 =~= rs);
    } else {
        let (kind, payload) = rs[0];
        let f = frame_bytes(kind, payload);
        let rest = rs.drop_first();
        assert(writable_records(rest)) by {
            assert forall|i: int| 0 <= i < rest.len() implies (#[trigger] rest[i].0
                == RECORD_UPDATE || rest[i].0 == RECORD_FINISH) && rest[i].1.len()
                <= MAX_RECORD by {
                assert(rest[i] == rs[i + 1]);
            }
        }
        assert(0 <= 0 < rs.len());
        assert(rs[0].0 == RECORD_UPDATE || rs[0].0 == RECORD_FINISH);
        assert(data =~= (pre + f) + frames(rest));
        assert(data.subrange(at, at + f.len()) =~= f);
        lemma_frame_fields(data, at, kind, payload);
        assert(record_at_ok(data, at));
        law_framed_records_read_back(pre + f, rest);
        assert(scan_from(data, at).0 =~= seq![(kind, payload)] + rest);
        assert(rs =~= seq![(kind, payload)] + rest);
    }
}

/// A recording whose last frame was cut short (a torn write) still yields
/// every record before it, and reports the recovery.
#[verifier::spinoff_prover]
#[verifier::rlimit(40)]
pub proof fn law_torn_tail_recovers_prefix(
    pre: Seq<u8>,
    rs: Seq<(u8, Seq<u8>)>,
    kind: u8,
    payload: Seq<u8>,
    cut: int,
)
    requires
        writable_records(rs),
        payload.len() <= MAX_RECORD,
        0 < cut < frame_bytes(kind, payload).len(),
    ensures
        scan_from(pre + frames(rs) + frame_bytes(kind, payload).subrange(0, cut), pre.len() as int)
            == (rs, true),
    decreases rs.len(),
{
    let tail = frame_bytes(kind, payload).subrange(0, cut);
    let data = pre + frames(rs) + tail;
    let at = pre.len() as int;
    if rs.len() == 0 {
        assert(data =~= pre + tail);
        lemma_u32_roundtrip(payload.len() as u32);
        if cut >= 10 {
            assert(data.subrange(at + 2, at + 6) =~= le_u32(payload.len() as u32));
            assert(get_u32(data, at + 2) == get_u32(data.subrange(at + 2, at + 6), 0));
        }
        assert(!record_at_ok(data, at));
        assert(scan_from(data, at).0 =~= rs);
    } else {
        let (k0, p0) = rs[0];
        let f = frame_bytes(k0, p0);
        let rest = rs.drop_first();
        assert(writable_records(rest)) by {
            assert forall|i: int| 0 <= i < rest.len() implies (#[trigger] rest[i].0
                == RECORD_UPDATE || rest[i].0 == RECORD_FINISH) && rest[i].1.len()
                <= MAX_RECORD by {
                assert(rest[i] == rs[i + 1]);
            }
        }
        assert(0 <= 0 < rs.len());
        assert(rs[0].0 == RECORD_UPDATE || rs[0].0 == RECORD_FINISH);
        assert(data =~= (pre + f) + frames(rest) + tail);
        assert(data.subrange(at, at + f.len()) =~= f);
        lemma_frame_fields(data, at, k0, p0);
        assert(record_at_ok(data, at));
        law_torn_tail_recovers_prefix(pre + f, rest, kind, payload, cut);
        assert(scan_from(data, at).0 =~= seq![(k0, p0)] + rest);
        assert(rs =~= seq![(k0, p0)] + rest);
    }
}

} // verus!
