//! Operator pacing of a mission run: release rates, pause and single-step
//! control, and cancellation; and the transcript mission control keeps of
//! the realtime cells of a run.
//!
//! The controller here is the decision state only. Sharing it between the
//! console thread and the runner, and blocking while a release is withheld,
//! belong to the embedding application.
use crate::fnv::{fnv_fold, rolling_hash, FNV_OFFSET};
use vstd::prelude::*;

verus! {

#[derive(Clone, Copy, Debug, PartialEq, Eq, Structural)]
pub enum RunnerPace {
    Fast,
    Realtime,
    Step,
}

#[derive(Clone, Copy, Debug, PartialEq, Eq, Structural)]
pub enum PaceRate {
    Quarter,
    Half,
    Realtime,
    Double,
    Max,
}

/// Position of a rate on the speed ladder, slowest first.
pub open spec fn rate_rank(r: PaceRate) -> int {
    match r {
        PaceRate::Quarter => 0,
        PaceRate::Half => 1,
        PaceRate::Realtime => 2,
        PaceRate::Double => 3,
        PaceRate::Max => 4,
    }
}

/// The next faster rate; the unthrottled rate stays as it is.
pub open spec fn faster_of(r: PaceRate) -> PaceRate {
    match r {
        PaceRate::Quarter => PaceRate::Half,
        PaceRate::Half => PaceRate::Realtime,
        PaceRate::Realtime => PaceRate::Double,
        PaceRate::Double | PaceRate::Max => PaceRate::Max,
    }
}

/// The next slower rate; the quarter rate stays as it is.
pub open spec fn slower_of(r: PaceRate) -> PaceRate {
    match r {
        PaceRate::Max => PaceRate::Double,
        PaceRate::Double => PaceRate::Realtime,
        PaceRate::Realtime => PaceRate::Half,
        PaceRate::Half | PaceRate::Quarter => PaceRate::Quarter,
    }
}

/// Wall-clock length of one release at each rate, in microseconds; the
/// unthrottled rate has none.
pub open spec fn frame_micros_for(r: PaceRate) -> Option<u64> {
    match r {
        PaceRate::Quarter => Some(125_000u64),
        PaceRate::Half => Some(62_500u64),
        PaceRate::Realtime => Some(31_250u64),
        PaceRate::Double => Some(15_625u64),
        PaceRate::Max => None,
    }
}

impl PaceRate {
    /// Display label of the rate.
    pub fn label(self) -> (r: &'static str)
        ensures
            r@ == (match self {
                PaceRate::Quarter => "0.25x"@,
                PaceRate::Half => "0.5x"@,
                PaceRate::Realtime => "1x"@,
                PaceRate::Double => "2x"@,
                PaceRate::Max => "MAX"@,
            }),
    {
        match self {
            PaceRate::Quarter => "0.25x",
            PaceRate::Half => "0.5x",
            PaceRate::Realtime => "1x",
            PaceRate::Double => "2x",
            PaceRate::Max => "MAX",
        }
    }

    /// Wall-clock length of one release, in microseconds.
    pub fn frame_duration(self) -> (r: Option<u64>)
        ensures
            r == frame_micros_for(self),
    {
        match self {
            PaceRate::Quarter => Some(125_000),
            PaceRate::Half => Some(62_500),
            PaceRate::Realtime => Some(31_250),
            PaceRate::Double => Some(15_625),
            PaceRate::Max => None,
        }
    }

    /// The next faster rate; the unthrottled rate stays as it is.
    pub fn faster(self) -> (r: Self)
        ensures
            r == faster_of(self),
    {
        match self {
            PaceRate::Quarter => PaceRate::Half,
            PaceRate::Half => PaceRate::Realtime,
            PaceRate::Realtime => PaceRate::Double,
            PaceRate::Double | PaceRate::Max => PaceRate::Max,
        }
    }

    /// The next slower rate; the quarter rate stays as it is.
    pub fn slower(self) -> (r: Self)
        ensures
            r == slower_of(self),
    {
        match self {
            PaceRate::Max => PaceRate::Double,
            PaceRate::Double => PaceRate::Realtime,
            PaceRate::Realtime => PaceRate::Half,
            PaceRate::Half | PaceRate::Quarter => PaceRate::Quarter,
        }
    }
}

/// Speeding up moves one place up the ladder, stopping at the top; slowing
/// down moves one place down, stopping at the bottom.
pub proof fn law_rate_ladder(r: PaceRate)
    ensures
        rate_rank(faster_of(r)) == if rate_rank(r) == 4 {
            4
        } else {
            rate_rank(r) + 1
        },
        rate_rank(slower_of(r)) == if rate_rank(r) == 0 {
            0
        } else {
            rate_rank(r) - 1
        },
{
}

/// Slowing down undoes speeding up, except from the unthrottled rate; speeding
/// up undoes slowing down, except from the quarter rate.
pub proof fn law_faster_slower_inverse(r: PaceRate)
    ensures
        r != PaceRate::Max ==> slower_of(faster_of(r)) == r,
        r != PaceRate::Quarter ==> faster_of(slower_of(r)) == r,
{
}

/// Each step up the ladder halves the release period, and only the top rate
/// is unthrottled.
pub proof fn law_faster_halves_period(r: PaceRate)
    ensures
        r != PaceRate::Double && r != PaceRate::Max ==> frame_micros_for(faster_of(r))->0 * 2
            == frame_micros_for(r)->0,
        (frame_micros_for(r) is None) <==> r == PaceRate::Max,
{
}

#[derive(Clone, Copy, Debug, PartialEq, Eq, Structural)]
pub struct PaceSnapshot {
    pub rate: PaceRate,
    pub paused: bool,
    pub cancelled: bool,
}

/// What the runner may do after an epoch.
#[derive(Clone, Copy, Debug, PartialEq, Eq, Structural)]
pub enum PaceRelease {
    /// Release the next epoch, paced at this rate.
    Release(PaceRate),
    /// Paused with no step granted: wait for the operator.
    Hold,
    /// The operator cancelled the run.
    Cancelled,
}

/// The operator's pacing state of one run.
#[derive(Clone, Copy, Debug, PartialEq, Eq, Structural)]
pub struct PaceController {
    pub rate: PaceRate,
    pub paused: bool,
    pub step_budget: u32,
    pub cancelled: bool,
}

impl PaceController {
    /// Fast runs start unthrottled, realtime runs at 1x, stepped runs paused
    /// at 1x; nothing is cancelled and no step is granted.
    pub fn new(initial: RunnerPace) -> (r: Self)
        ensures
            r.rate == (match initial {
                RunnerPace::Fast => PaceRate::Max,
                _ => PaceRate::Realtime,
            }),
            r.paused == (initial == RunnerPace::Step),
            r.step_budget == 0,
            !r.cancelled,
    {
        let (rate, paused) = match initial {
            RunnerPace::Fast => (PaceRate::Max, false),
            RunnerPace::Realtime => (PaceRate::Realtime, false),
            RunnerPace::Step => (PaceRate::Realtime, true),
        };
        PaceController { rate, paused, step_budget: 0, cancelled: false }
    }

    pub fn snapshot(&self) -> (r: PaceSnapshot)
        ensures
            r == (PaceSnapshot { rate: self.rate, paused: self.paused, cancelled: self.cancelled }),
    {
        PaceSnapshot { rate: self.rate, paused: self.paused, cancelled: self.cancelled }
    }

    pub fn toggle_pause(&mut self)
        ensures
            *final(self) == (PaceController { paused: !old(self).paused, ..*old(self) }),
    {
        self.paused = !self.paused;
    }

    pub fn resume(&mut self)
        ensures
            *final(self) == (PaceController { paused: false, ..*old(self) }),
    {
        self.paused = false;
    }

    /// Pauses and grants one more single-step release (saturating).
    pub fn step(&mut self)
        ensures
            *final(self) == stepped(*old(self)),
            *final(self) == (PaceController {
                paused: true,
                step_budget: if old(self).step_budget == u32::MAX {
                    u32::MAX
                } else {
                    (old(self).step_budget + 1) as u32
                },
                ..*old(self)
            }),
    {
        self.paused = true;
        self.step_budget = self.step_budget.saturating_add(1);
    }

    pub fn faster(&mut self)
        ensures
            *final(self) == (PaceController { rate: faster_of(old(self).rate), ..*old(self) }),
    {
        let r = self.rate.faster();
        self.set_rate(r);
    }

    pub fn slower(&mut self)
        ensures
            *final(self) == (PaceController { rate: slower_of(old(self).rate), ..*old(self) }),
    {
        let r = self.rate.slower();
        self.set_rate(r);
    }

    pub fn set_rate(&mut self, rate: PaceRate)
        ensures
            *final(self) == (PaceController { rate, ..*old(self) }),
    {
        self.rate = rate;
    }

    pub fn cancel(&mut self)
        ensures
            *final(self) == (PaceController { cancelled: true, ..*old(self) }),
    {
        self.cancelled = true;
    }

    /// Decides whether the next epoch may be released. A cancelled run stops;
    /// a paused run without a granted step holds; a paused run with a granted
    /// step consumes one step and releases; an unpaused run releases.
    pub fn try_release(&mut self) -> (r: PaceRelease)
        ensures
            (r, *final(self)) == released(*old(self)),
            old(self).cancelled ==> r == PaceRelease::Cancelled && *final(self) == *old(self),
            !old(self).cancelled && old(self).paused && old(self).step_budget == 0 ==> r
                == PaceRelease::Hold && *final(self) == *old(self),
            !old(self).cancelled && old(self).paused && old(self).step_budget > 0 ==> r
                == PaceRelease::Release(old(self).rate) && *final(self) == (PaceController {
                step_budget: (old(self).step_budget - 1) as u32,
                ..*old(self)
            }),
            !old(self).cancelled && !old(self).paused ==> r == PaceRelease::Release(
                old(self).rate,
            ) && *final(self) == *old(self),
    {
        if self.cancelled {
            return PaceRelease::Cancelled;
        }
        if self.paused && self.step_budget == 0 {
            return PaceRelease::Hold;
        }
        if self.paused && self.step_budget > 0 {
            self.step_budget = self.step_budget - 1;
        }
        PaceRelease::Release(self.rate)
    }
}

/// The controller after one more single step is granted.
pub open spec fn stepped(c: PaceController) -> PaceController {
    PaceController {
        paused: true,
        step_budget: if c.step_budget == u32::MAX {
            u32::MAX
        } else {
            (c.step_budget + 1) as u32
        },
        ..c
    }
}

/// What one release decision answers, and the controller after it.
pub open spec fn released(c: PaceController) -> (PaceRelease, PaceController) {
    if c.cancelled {
        (PaceRelease::Cancelled, c)
    } else if c.paused && c.step_budget == 0 {
        (PaceRelease::Hold, c)
    } else if c.paused {
        (PaceRelease::Release(c.rate), PaceController { step_budget: (c.step_budget - 1) as u32, ..c })
    } else {
        (PaceRelease::Release(c.rate), c)
    }
}

/// The controller after `k` single steps.
pub open spec fn steps(c: PaceController, k: nat) -> PaceController
    decreases k,
{
    if k == 0 {
        c
    } else {
        stepped(steps(c, (k - 1) as nat))
    }
}

/// The controller after `n` release decisions.
pub open spec fn releases(c: PaceController, n: nat) -> PaceController
    decreases n,
{
    if n == 0 {
        c
    } else {
        released(releases(c, (n - 1) as nat)).1
    }
}

proof fn lemma_steps(c: PaceController, k: nat)
    requires
        c.step_budget + k <= u32::MAX,
        k > 0,
    ensures
        steps(c, k) == (PaceController { paused: true, step_budget: (c.step_budget + k) as u32, ..c }),
    decreases k,
{
    assert(steps(c, k) == stepped(steps(c, (k - 1) as nat)));
    if k > 1 {
        lemma_steps(c, (k - 1) as nat);
    } else {
        assert(steps(c, 0) == c);
    }
}

proof fn lemma_releases(c: PaceController, n: nat)
    requires
        !c.cancelled,
        c.paused,
        n <= c.step_budget,
    ensures
        releases(c, n) == (PaceController { step_budget: (c.step_budget - n) as u32, ..c }),
    decreases n,
{
    if n > 0 {
        lemma_releases(c, (n - 1) as nat);
    }
}

/// Single steps grant exactly as many releases: from a controller that has
/// no step granted and is not cancelled, `k` steps leave it paused at the
/// same rate, the next `k` release decisions each release at that rate, and
/// the one after holds.
pub proof fn law_steps_grant_releases(c: PaceController, k: nat)
    requires
        !c.cancelled,
        c.step_budget == 0,
        1 <= k <= u32::MAX,
    ensures
        steps(c, k).paused && steps(c, k).rate == c.rate && !steps(c, k).cancelled,
        forall|i: nat| i < k ==> #[trigger] released(releases(steps(c, k), i)).0 == PaceRelease::Release(c.rate),
        released(releases(steps(c, k), k)).0 == PaceRelease::Hold,
{
    lemma_steps(c, k);
    let s = steps(c, k);
    assert forall|i: nat| i < k implies #[trigger] released(releases(s, i)).0 == PaceRelease::Release(c.rate) by {
        lemma_releases(s, i);
    }
    lemma_releases(s, k);
}

/// Pausing twice is no pause at all.
pub proof fn law_toggle_pause_twice(c: PaceController)
    ensures
        (PaceController { paused: !(PaceController { paused: !c.paused, ..c }).paused, ..c }) == c,
{
}

/// Cancellation is final: every operator command keeps a cancelled run
/// cancelled, and a cancelled run never releases another epoch.
pub proof fn law_cancel_is_absorbing(c: PaceController, rate: PaceRate)
    requires
        c.cancelled,
    ensures
        (PaceController { paused: !c.paused, ..c }).cancelled,
        (PaceController { paused: false, ..c }).cancelled,
        (PaceController { paused: true, step_budget: 0, ..c }).cancelled,
        (PaceController { rate, ..c }).cancelled,
{
}

/// Microseconds still to wait before the next release: the release period at
/// `rate`, counted from the previous release at `last_release`, less the time
/// that has passed until `now`; nothing for the unthrottled rate or once the
/// period has elapsed.
pub fn remaining_frame_micros(rate: PaceRate, last_release: u64, now: u64) -> (r: u64)
    requires
        last_release <= now,
    ensures
        r == (match frame_micros_for(rate) {
            None => 0,
            Some(f) => if last_release + f > now {
                (last_release + f - now) as u64
            } else {
                0
            },
        }),
{
    match rate.frame_duration() {
        None => 0,
        Some(frame) => {
            let elapsed = now - last_release;
            if elapsed < frame {
                frame - elapsed
            } else {
                0
            }
        },
    }
}

#[derive(Clone, Copy, Debug, PartialEq, Eq, Structural)]
pub struct RunnerOptions {
    pub mission_control: bool,
    pub pace: RunnerPace,
}

impl Default for RunnerOptions {
    fn default() -> (r: Self)
        ensures
            r == (RunnerOptions { mission_control: true, pace: RunnerPace::Fast }),
    {
        RunnerOptions { mission_control: true, pace: RunnerPace::Fast }
    }
}

#[derive(Clone, Copy, Debug, PartialEq, Eq, Structural)]
pub struct NativeFlightEvidence {
    pub flight_checksum: u32,
    pub navigation_checksum: u32,
}

/// What a run over the real-time bridge to the flight computer produced:
/// epochs and steps, terminal and navigated states, checksums, missed
/// deadlines and alarms.
#[derive(Clone, Copy, Debug, PartialEq, Eq)]
pub struct BridgeEvidence {
    pub fast_epochs: u32,
    pub mission_steps: u32,
    pub terminal_position_q12: [i32; 3],
    pub terminal_velocity_q24: [i32; 3],
    pub navigation_position_q12: [i32; 3],
    pub navigation_velocity_q24: [i32; 3],
    pub flight_checksum: u32,
    pub final_flight_checksum: u32,
    pub navigation_checksum: u32,
    pub deadline_misses: u16,
    pub alarms: u16,
}

// ---------------------------------------------------------------------------
// Mission-control transcript

/// Alarm bit: a realtime cell could not be encoded.
pub const MC_ALARM_CODEC: u16 = 1;

/// Alarm bit: the ground estimator refused a tracking fix.
pub const MC_ALARM_GROUND: u16 = 2;

/// What mission control keeps of the realtime cells it saw: how many world
/// (inertial and aid) and flight (command and status) cells it encoded, the
/// FNV-1a transcript of their bytes, and its alarm bits.
#[derive(Clone, Copy, Debug, PartialEq, Eq, Structural)]
pub struct MissionControlTranscript {
    pub world_cells: u32,
    pub flight_cells: u32,
    pub transcript_checksum: u32,
    pub alarms: u16,
}

impl MissionControlTranscript {
    /// No cells seen, the transcript at the FNV-1a offset basis, no alarms.
    pub fn new() -> (r: Self)
        ensures
            r == (MissionControlTranscript {
                world_cells: 0,
                flight_cells: 0,
                transcript_checksum: FNV_OFFSET,
                alarms: 0,
            }),
    {
        MissionControlTranscript {
            world_cells: 0,
            flight_cells: 0,
            transcript_checksum: FNV_OFFSET,
            alarms: 0,
        }
    }

    /// Takes in a world cell: its encoded bytes extend the transcript and
    /// count; a cell that failed to encode raises the codec alarm.
    pub fn world_cell(&mut self, encoded: Option<&[u8]>)
        requires
            old(self).world_cells < u32::MAX,
        ensures
            *final(self) == (match encoded {
                Some(bytes) => MissionControlTranscript {
                    world_cells: (old(self).world_cells + 1) as u32,
                    transcript_checksum: fnv_fold(old(self).transcript_checksum, bytes@),
                    ..*old(self)
                },
                None => MissionControlTranscript {
                    alarms: old(self).alarms | MC_ALARM_CODEC,
                    ..*old(self)
                },
            }),
    {
        match encoded {
            Some(bytes) => {
                self.transcript_checksum = rolling_hash(self.transcript_checksum, bytes);
                self.world_cells = self.world_cells + 1;
            },
            None => {
                self.alarms = self.alarms | MC_ALARM_CODEC;
            },
        }
    }

    /// Takes in a flight cell: its encoded bytes extend the transcript and
    /// count; a cell that failed to encode raises the codec alarm.
    pub fn flight_cell(&mut self, encoded: Option<&[u8]>)
        requires
            old(self).flight_cells < u32::MAX,
        ensures
            *final(self) == (match encoded {
                Some(bytes) => MissionControlTranscript {
                    flight_cells: (old(self).flight_cells + 1) as u32,
                    transcript_checksum: fnv_fold(old(self).transcript_checksum, bytes@),
                    ..*old(self)
                },
                None => MissionControlTranscript {
                    alarms: old(self).alarms | MC_ALARM_CODEC,
                    ..*old(self)
                },
            }),
    {
        match encoded {
            Some(bytes) => {
                self.transcript_checksum = rolling_hash(self.transcript_checksum, bytes);
                self.flight_cells = self.flight_cells + 1;
            },
            None => {
                self.alarms = self.alarms | MC_ALARM_CODEC;
            },
        }
    }

    /// Records that the ground estimator refused a tracking fix.
    pub fn ground_refused(&mut self)
        ensures
            *final(self) == (MissionControlTranscript {
                alarms: old(self).alarms | MC_ALARM_GROUND,
                ..*old(self)
            }),
    {
        self.alarms = self.alarms | MC_ALARM_GROUND;
    }
}

} // verus!
