//! Monte Carlo campaigns: seeded draws, the sharing of runs among workers,
//! and the aggregates of a campaign's per-run summaries, with the CRC-32 of
//! its concatenated run records.
use crate::crc::{crc32, crc32_ieee_of};
use crate::le::{le_i16, le_i32, le_u16, le_u32, push_u16, push_u32, push_zeros, zeros};
use crate::session::{concat_all, lemma_concat_push, put_bytes};
use crate::study::{seq_max, seq_min, seq_sum, trunc_div, RunOutcome};
use vstd::arithmetic::div_mod::{lemma_fundamental_div_mod, lemma_fundamental_div_mod_converse_mod};
use vstd::prelude::*;

verus! {

/// Why the avionics campaign stopped.
#[derive(Clone, Copy, Debug, PartialEq, Eq, Structural)]
pub enum Phase85CampaignError {
    Configuration,
    Evaluation,
    Encoding,
}

/// A uniform draw in `minimum..=maximum` from a 32-bit random word: the
/// word scaled to the span by multiplication and a 32-bit shift.
pub open spec fn uniform_draw(word: u32, minimum: i32, maximum: i32) -> int {
    let span = maximum - minimum + 1;
    minimum + (word * span) / 0x1_0000_0000
}

/// The scaled word must fit in `i32`: on a larger one the draw overflows.
pub fn uniform_i32(word: u32, minimum: i32, maximum: i32) -> (r: i32)
    requires
        minimum <= maximum,
        (word * (maximum - minimum + 1)) / 0x1_0000_0000 < 0x8000_0000,
    ensures
        r == uniform_draw(word, minimum, maximum),
        minimum <= r <= maximum,
{
    let span = ((maximum as i64) - (minimum as i64) + 1) as u64;
    assert(span <= 0x1_0000_0000);
    assert((word as u64) * span < 0x1_0000_0000 * span) by (nonlinear_arith)
        requires
            word < 0x1_0000_0000,
            span >= 1,
    ;
    assert(span * 0x1_0000_0000 <= 0x1_0000_0000 * 0x1_0000_0000) by (nonlinear_arith)
        requires
            span <= 0x1_0000_0000,
    ;
    assert((word as u64) * span < 0x1_0000_0000 * 0x1_0000_0000) by (nonlinear_arith)
        requires
            word < 0x1_0000_0000,
            span <= 0x1_0000_0000,
    ;
    let product = (word as u64) * span;
    let x = product >> 32;
    assert(product >> 32 == product / 0x1_0000_0000) by (bit_vector);
    assert(x < span) by (nonlinear_arith)
        requires
            x == product / 0x1_0000_0000,
            product < 0x1_0000_0000 * span,
    ;
    assert(x < 0x8000_0000);
    minimum + (x as i32)
}

pub open spec fn unwrap_or_zero(v: Option<i32>) -> i32 {
    match v {
        Some(x) => x,
        None => 0,
    }
}

pub open spec fn count_outcome(outcomes: Seq<RunOutcome>, o: RunOutcome) -> int
    decreases outcomes.len(),
{
    if outcomes.len() == 0 {
        0
    } else {
        count_outcome(outcomes.drop_last(), o) + if outcomes.last() == o {
            1int
        } else {
            0int
        }
    }
}

/// The largest of `init` and the values.
pub open spec fn max_from(v: Seq<int>, init: int) -> int
    decreases v.len(),
{
    if v.len() == 0 {
        init
    } else {
        let m = max_from(v.drop_last(), init);
        if v.last() > m {
            v.last()
        } else {
            m
        }
    }
}

/// The nonempty values' sum lies between their count times their minimum
/// and their count times their maximum.
pub proof fn lemma_sum_between(v: Seq<i32>)
    requires
        v.len() > 0,
    ensures
        seq_min(v) * v.len() <= seq_sum(v) <= seq_max(v) * v.len(),
        i32::MIN <= seq_min(v) <= seq_max(v) <= i32::MAX,
    decreases v.len(),
{
    let t = v.drop_last();
    let n = v.len() as int;
    assert(v.last() == v[n - 1]);
    if t.len() == 0 {
        assert(seq_min(t) == i32::MAX && seq_max(t) == i32::MIN && seq_sum(t) == 0);
        assert(seq_min(v) == v[0] && seq_max(v) == v[0] && seq_sum(v) == v[0]);
        assert(n == 1);
    } else {
        lemma_sum_between(t);
        let lo = seq_min(v);
        let hi = seq_max(v);
        assert(t.len() == n - 1);
        assert(seq_sum(v) == seq_sum(t) + v.last());
        assert(lo <= seq_min(t) && hi >= seq_max(t));
        assert(lo <= v.last() && v.last() <= hi);
        assert(lo * (n - 1) <= seq_min(t) * (n - 1)) by (nonlinear_arith)
            requires
                lo <= seq_min(t),
                n >= 1,
        ;
        assert(hi * (n - 1) >= seq_max(t) * (n - 1)) by (nonlinear_arith)
            requires
                hi >= seq_max(t),
                n >= 1,
        ;
        assert(lo * n == lo * (n - 1) + lo && hi * n == hi * (n - 1) + hi) by (nonlinear_arith);
    }
}

/// A quotient rounded toward zero of a sum that lies between `n * lo` and
/// `n * hi` lies between `lo` and `hi`.
pub proof fn lemma_trunc_mean_between(sum: int, n: int, lo: int, hi: int)
    requires
        n > 0,
        lo * n <= sum <= hi * n,
    ensures
        lo <= trunc_div(sum, n) <= hi,
{
    if sum >= 0 {
        assert(sum / n <= hi) by (nonlinear_arith)
            requires
                sum <= hi * n,
                n > 0,
        ;
        assert(lo <= sum / n) by (nonlinear_arith)
            requires
                lo * n <= sum,
                sum >= 0,
                n > 0,
        ;
    } else {
        assert((-sum) / n <= -lo) by (nonlinear_arith)
            requires
                lo * n <= sum,
                sum < 0,
                n > 0,
        ;
        assert(-hi <= (-sum) / n) by (nonlinear_arith)
            requires
                sum <= hi * n,
                sum < 0,
                n > 0,
        ;
    }
}

// ---------------------------------------------------------------------------
// The vertical hobby campaign

/// The aggregate of a hobby-rocket campaign.
#[derive(Clone, Copy, Debug, PartialEq, Eq, Structural)]
pub struct HobbyCampaignAggregate {
    pub runs: u32,
    pub successful_recoveries: u32,
    pub minimum_apogee_raw: i32,
    pub maximum_apogee_raw: i32,
    pub mean_apogee_raw: i32,
    pub minimum_impact_velocity_raw: i32,
    pub maximum_impact_velocity_raw: i32,
    pub records_crc32: u32,
}

/// What one run of a hobby campaign recorded: its outcome, its apogee and
/// impact velocity where measured, and its encoded run record.
#[derive(Clone, Debug)]
pub struct HobbyRunSummary {
    pub outcome: RunOutcome,
    pub apogee_raw: Option<i32>,
    pub impact_velocity_raw: Option<i32>,
    pub record: Vec<u8>,
}

pub open spec fn hobby_apogees(runs: Seq<HobbyRunSummary>) -> Seq<i32> {
    Seq::new(runs.len(), |i: int| unwrap_or_zero(runs[i].apogee_raw))
}

pub open spec fn hobby_impacts(runs: Seq<HobbyRunSummary>) -> Seq<i32> {
    Seq::new(runs.len(), |i: int| unwrap_or_zero(runs[i].impact_velocity_raw))
}

pub open spec fn hobby_outcomes(runs: Seq<HobbyRunSummary>) -> Seq<RunOutcome> {
    Seq::new(runs.len(), |i: int| runs[i].outcome)
}

pub open spec fn hobby_records(runs: Seq<HobbyRunSummary>) -> Seq<u8> {
    concat_all(Seq::new(runs.len(), |i: int| runs[i].record@))
}

/// Aggregates a hobby campaign: run count, recoveries (runs that reached
/// ground contact), apogee minimum, maximum and mean (rounded toward zero),
/// impact velocity extremes (a missing metric counts as 0), and the CRC-32
/// of the run records in order.
pub fn aggregate_hobby_campaign(runs: &[HobbyRunSummary]) -> (r: HobbyCampaignAggregate)
    requires
        0 < runs@.len() <= u32::MAX,
    ensures
        r.runs == runs@.len(),
        r.successful_recoveries == count_outcome(
            hobby_outcomes(runs@),
            RunOutcome::GroundContact,
        ),
        r.minimum_apogee_raw == seq_min(hobby_apogees(runs@)),
        r.maximum_apogee_raw == seq_max(hobby_apogees(runs@)),
        r.mean_apogee_raw == trunc_div(seq_sum(hobby_apogees(runs@)), runs@.len() as int),
        r.minimum_impact_velocity_raw == seq_min(hobby_impacts(runs@)),
        r.maximum_impact_velocity_raw == seq_max(hobby_impacts(runs@)),
        r.records_crc32 == crc32_ieee_of(hobby_records(runs@)),
{
    let ghost apogees = hobby_apogees(runs@);
    let ghost impacts = hobby_impacts(runs@);
    let ghost outcomes = hobby_outcomes(runs@);
    let ghost records = Seq::new(runs@.len(), |i: int| runs@[i].record@);
    let mut success: u32 = 0;
    let mut minimum_apogee = i32::MAX;
    let mut maximum_apogee = i32::MIN;
    let mut apogee_sum: i128 = 0;
    let mut minimum_impact = i32::MAX;
    let mut maximum_impact = i32::MIN;
    let mut bytes: Vec<u8> = Vec::new();
    let mut i: usize = 0;
    while i < runs.len()
        invariant
            i <= runs@.len() <= u32::MAX,
            apogees == hobby_apogees(runs@),
            impacts == hobby_impacts(runs@),
            outcomes == hobby_outcomes(runs@),
            records == Seq::new(runs@.len(), |i: int| runs@[i].record@),
            success == count_outcome(outcomes.take(i as int), RunOutcome::GroundContact),
            success <= i,
            minimum_apogee == seq_min(apogees.take(i as int)),
            maximum_apogee == seq_max(apogees.take(i as int)),
            apogee_sum == seq_sum(apogees.take(i as int)),
            -0x8000_0000 * i <= apogee_sum <= 0x7fff_ffff * i,
            minimum_impact == seq_min(impacts.take(i as int)),
            maximum_impact == seq_max(impacts.take(i as int)),
            bytes@ == concat_all(records.take(i as int)),
        decreases runs@.len() - i,
    {
        let run = &runs[i];
        assert(apogees.take(i + 1).drop_last() =~= apogees.take(i as int));
        assert(impacts.take(i + 1).drop_last() =~= impacts.take(i as int));
        assert(outcomes.take(i + 1).drop_last() =~= outcomes.take(i as int));
        if run.outcome == RunOutcome::GroundContact {
            success += 1;
        }
        let apogee = match run.apogee_raw {
            Some(v) => v,
            None => 0,
        };
        let impact = match run.impact_velocity_raw {
            Some(v) => v,
            None => 0,
        };
        if apogee < minimum_apogee {
            minimum_apogee = apogee;
        }
        if apogee > maximum_apogee {
            maximum_apogee = apogee;
        }
        apogee_sum = apogee_sum + apogee as i128;
        if impact < minimum_impact {
            minimum_impact = impact;
        }
        if impact > maximum_impact {
            maximum_impact = impact;
        }
        proof {
            assert(records.take(i + 1) =~= records.take(i as int).push(records[i as int]));
            lemma_concat_push(records.take(i as int), records[i as int]);
        }
        put_bytes(&mut bytes, run.record.as_slice());
        i += 1;
    }
    assert(apogees.take(runs@.len() as int) =~= apogees);
    assert(impacts.take(runs@.len() as int) =~= impacts);
    assert(outcomes.take(runs@.len() as int) =~= outcomes);
    assert(records.take(runs@.len() as int) =~= records);
    let n = runs.len() as i128;
    proof {
        lemma_sum_between(apogees);
        lemma_trunc_mean_between(apogee_sum as int, n as int, seq_min(apogees), seq_max(apogees));
    }
    let mean = apogee_sum / n;
    let crc = crc32(bytes.as_slice());
    HobbyCampaignAggregate {
        runs: runs.len() as u32,
        successful_recoveries: success,
        minimum_apogee_raw: minimum_apogee,
        maximum_apogee_raw: maximum_apogee,
        mean_apogee_raw: mean as i32,
        minimum_impact_velocity_raw: minimum_impact,
        maximum_impact_velocity_raw: maximum_impact,
        records_crc32: crc,
    }
}

/// A campaign's mean apogee lies between its minimum and maximum apogee.
pub proof fn law_mean_apogee_within_extremes(apogees: Seq<i32>)
    requires
        apogees.len() > 0,
    ensures
        seq_min(apogees) <= trunc_div(seq_sum(apogees), apogees.len() as int) <= seq_max(apogees),
{
    lemma_sum_between(apogees);
    lemma_trunc_mean_between(
        seq_sum(apogees),
        apogees.len() as int,
        seq_min(apogees),
        seq_max(apogees),
    );
}

// ---------------------------------------------------------------------------
// The spatial campaign

/// The aggregate of a spatial (three-dimensional, wind-affected) campaign.
#[derive(Clone, Copy, Debug, PartialEq, Eq, Structural)]
pub struct SpatialCampaignAggregate {
    pub runs: u32,
    pub ground_contacts: u32,
    pub model_envelope_exceeded: u32,
    pub minimum_apogee_raw: i32,
    pub maximum_apogee_raw: i32,
    pub mean_apogee_raw: i32,
    pub maximum_landing_distance_raw: i32,
    pub maximum_dynamic_pressure_raw: i32,
    pub records_crc32: u32,
}

/// What one run of a spatial campaign recorded.
#[derive(Clone, Debug)]
pub struct SpatialRunSummary {
    pub outcome: RunOutcome,
    pub apogee_raw: Option<i32>,
    pub landing_distance_raw: Option<i32>,
    pub max_dynamic_pressure_raw: Option<i32>,
    pub record: Vec<u8>,
}

pub open spec fn spatial_outcomes(runs: Seq<SpatialRunSummary>) -> Seq<RunOutcome> {
    Seq::new(runs.len(), |i: int| runs[i].outcome)
}

pub open spec fn spatial_apogees(runs: Seq<SpatialRunSummary>) -> Seq<i32> {
    Seq::new(runs.len(), |i: int| unwrap_or_zero(runs[i].apogee_raw))
}

pub open spec fn spatial_landings(runs: Seq<SpatialRunSummary>) -> Seq<int> {
    Seq::new(runs.len(), |i: int| unwrap_or_zero(runs[i].landing_distance_raw) as int)
}

pub open spec fn spatial_pressures(runs: Seq<SpatialRunSummary>) -> Seq<int> {
    Seq::new(runs.len(), |i: int| unwrap_or_zero(runs[i].max_dynamic_pressure_raw) as int)
}

pub open spec fn spatial_records(runs: Seq<SpatialRunSummary>) -> Seq<u8> {
    concat_all(Seq::new(runs.len(), |i: int| runs[i].record@))
}

/// Aggregates a spatial campaign: run count, ground contacts, runs that
/// left the model envelope, apogee minimum, maximum and mean (rounded toward
/// zero), the largest landing distance and dynamic pressure (never below 0;
/// a missing metric counts as 0), and the CRC-32 of the run records.
pub fn aggregate_spatial_campaign(runs: &[SpatialRunSummary]) -> (r: SpatialCampaignAggregate)
    requires
        0 < runs@.len() <= u32::MAX,
    ensures
        r.runs == runs@.len(),
        r.ground_contacts == count_outcome(spatial_outcomes(runs@), RunOutcome::GroundContact),
        r.model_envelope_exceeded == count_outcome(
            spatial_outcomes(runs@),
            RunOutcome::ModelEnvelopeExceeded,
        ),
        r.minimum_apogee_raw == seq_min(spatial_apogees(runs@)),
        r.maximum_apogee_raw == seq_max(spatial_apogees(runs@)),
        r.mean_apogee_raw == trunc_div(seq_sum(spatial_apogees(runs@)), runs@.len() as int),
        r.maximum_landing_distance_raw == max_from(spatial_landings(runs@), 0),
        r.maximum_dynamic_pressure_raw == max_from(spatial_pressures(runs@), 0),
        r.records_crc32 == crc32_ieee_of(spatial_records(runs@)),
{
    let ghost apogees = spatial_apogees(runs@);
    let ghost outcomes = spatial_outcomes(runs@);
    let ghost landings = spatial_landings(runs@);
    let ghost pressures = spatial_pressures(runs@);
    let ghost records = Seq::new(runs@.len(), |i: int| runs@[i].record@);
    let mut ground: u32 = 0;
    let mut envelope: u32 = 0;
    let mut min_apogee = i32::MAX;
    let mut max_apogee = i32::MIN;
    let mut apogee_sum: i128 = 0;
    let mut max_landing: i32 = 0;
    let mut max_q: i32 = 0;
    let mut bytes: Vec<u8> = Vec::new();
    let mut i: usize = 0;
    while i < runs.len()
        invariant
            i <= runs@.len() <= u32::MAX,
            apogees == spatial_apogees(runs@),
            outcomes == spatial_outcomes(runs@),
            landings == spatial_landings(runs@),
            pressures == spatial_pressures(runs@),
            records == Seq::new(runs@.len(), |i: int| runs@[i].record@),
            ground == count_outcome(outcomes.take(i as int), RunOutcome::GroundContact),
            envelope == count_outcome(outcomes.take(i as int), RunOutcome::ModelEnvelopeExceeded),
            ground <= i,
            envelope <= i,
            min_apogee == seq_min(apogees.take(i as int)),
            max_apogee == seq_max(apogees.take(i as int)),
            apogee_sum == seq_sum(apogees.take(i as int)),
            -0x8000_0000 * i <= apogee_sum <= 0x7fff_ffff * i,
            max_landing == max_from(landings.take(i as int), 0),
            max_q == max_from(pressures.take(i as int), 0),
            bytes@ == concat_all(records.take(i as int)),
        decreases runs@.len() - i,
    {
        let run = &runs[i];
        assert(apogees.take(i + 1).drop_last() =~= apogees.take(i as int));
        assert(outcomes.take(i + 1).drop_last() =~= outcomes.take(i as int));
        assert(landings.take(i + 1).drop_last() =~= landings.take(i as int));
        assert(pressures.take(i + 1).drop_last() =~= pressures.take(i as int));
        if run.outcome == RunOutcome::GroundContact {
            ground += 1;
        }
        if run.outcome == RunOutcome::ModelEnvelopeExceeded {
            envelope += 1;
        }
        let apogee = match run.apogee_raw {
            Some(v) => v,
            None => 0,
        };
        if apogee < min_apogee {
            min_apogee = apogee;
        }
        if apogee > max_apogee {
            max_apogee = apogee;
        }
        apogee_sum = apogee_sum + apogee as i128;
        let landing = match run.landing_distance_raw {
            Some(v) => v,
            None => 0,
        };
        if landing > max_landing {
            max_landing = landing;
        }
        let q = match run.max_dynamic_pressure_raw {
            Some(v) => v,
            None => 0,
        };
        if q > max_q {
            max_q = q;
        }
        proof {
            assert(records.take(i + 1) =~= records.take(i as int).push(records[i as int]));
            lemma_concat_push(records.take(i as int), records[i as int]);
        }
        put_bytes(&mut bytes, run.record.as_slice());
        i += 1;
    }
    assert(apogees.take(runs@.len() as int) =~= apogees);
    assert(outcomes.take(runs@.len() as int) =~= outcomes);
    assert(landings.take(runs@.len() as int) =~= landings);
    assert(pressures.take(runs@.len() as int) =~= pressures);
    assert(records.take(runs@.len() as int) =~= records);
    let n = runs.len() as i128;
    proof {
        law_mean_apogee_within_extremes(apogees);
    }
    let mean = apogee_sum / n;
    let crc = crc32(bytes.as_slice());
    SpatialCampaignAggregate {
        runs: runs.len() as u32,
        ground_contacts: ground,
        model_envelope_exceeded: envelope,
        minimum_apogee_raw: min_apogee,
        maximum_apogee_raw: max_apogee,
        mean_apogee_raw: mean as i32,
        maximum_landing_distance_raw: max_landing,
        maximum_dynamic_pressure_raw: max_q,
        records_crc32: crc,
    }
}

// ---------------------------------------------------------------------------
// The avionics campaign

/// The aggregate of an avionics (flight software in the loop) campaign.
#[derive(Clone, Copy, Debug, PartialEq, Eq, Structural)]
pub struct Phase85CampaignAggregate {
    pub runs: u32,
    pub completed: u32,
    pub recovery_incomplete: u32,
    pub model_envelope_exceeded: u32,
    pub alarmed: u32,
    pub saturated: u32,
    pub maximum_navigation_error_q13: i32,
    pub maximum_attitude_error_turn16: i16,
    pub records_crc32: u32,
}

/// What one run of an avionics campaign recorded.
#[derive(Clone, Debug)]
pub struct AvionicsRunSummary {
    pub outcome: RunOutcome,
    pub alarms: u16,
    pub saturation_count: u16,
    pub max_navigation_error_q13: i32,
    pub max_attitude_error_turn16: i16,
    pub record: Vec<u8>,
}

pub open spec fn avionics_outcomes(runs: Seq<AvionicsRunSummary>) -> Seq<RunOutcome> {
    Seq::new(runs.len(), |i: int| runs[i].outcome)
}

pub open spec fn count_where(runs: Seq<AvionicsRunSummary>, p: spec_fn(AvionicsRunSummary) -> bool) -> int
    decreases runs.len(),
{
    if runs.len() == 0 {
        0
    } else {
        count_where(runs.drop_last(), p) + if p(runs.last()) {
            1int
        } else {
            0int
        }
    }
}

pub open spec fn avionics_records(runs: Seq<AvionicsRunSummary>) -> Seq<u8> {
    concat_all(Seq::new(runs.len(), |i: int| runs[i].record@))
}

/// Aggregates an avionics campaign: runs, completed runs (complete or
/// ground contact), incomplete recoveries, envelope exits, runs with an
/// alarm, runs with actuator saturation, the largest navigation and
/// attitude errors (never below 0), and the CRC-32 of the run records.
pub fn aggregate_phase85_campaign(runs: &[AvionicsRunSummary]) -> (r: Phase85CampaignAggregate)
    requires
        runs@.len() <= u32::MAX,
    ensures
        r.runs == runs@.len(),
        r.completed == count_where(
            runs@,
            |x: AvionicsRunSummary|
                x.outcome == RunOutcome::Complete || x.outcome == RunOutcome::GroundContact,
        ),
        r.recovery_incomplete == count_outcome(
            avionics_outcomes(runs@),
            RunOutcome::RecoveryIncomplete,
        ),
        r.model_envelope_exceeded == count_outcome(
            avionics_outcomes(runs@),
            RunOutcome::ModelEnvelopeExceeded,
        ),
        r.alarmed == count_where(runs@, |x: AvionicsRunSummary| x.alarms != 0),
        r.saturated == count_where(runs@, |x: AvionicsRunSummary| x.saturation_count != 0),
        r.maximum_navigation_error_q13 == max_from(
            Seq::new(runs@.len(), |i: int| runs@[i].max_navigation_error_q13 as int),
            0,
        ),
        r.maximum_attitude_error_turn16 == max_from(
            Seq::new(runs@.len(), |i: int| runs@[i].max_attitude_error_turn16 as int),
            0,
        ),
        r.records_crc32 == crc32_ieee_of(avionics_records(runs@)),
{
    let ghost outcomes = avionics_outcomes(runs@);
    let ghost navs = Seq::new(runs@.len(), |i: int| runs@[i].max_navigation_error_q13 as int);
    let ghost atts = Seq::new(runs@.len(), |i: int| runs@[i].max_attitude_error_turn16 as int);
    let ghost records = Seq::new(runs@.len(), |i: int| runs@[i].record@);
    let ghost done = |x: AvionicsRunSummary|
        x.outcome == RunOutcome::Complete || x.outcome == RunOutcome::GroundContact;
    let ghost alarm = |x: AvionicsRunSummary| x.alarms != 0;
    let ghost saturation = |x: AvionicsRunSummary| x.saturation_count != 0;
    let mut completed: u32 = 0;
    let mut incomplete: u32 = 0;
    let mut envelope: u32 = 0;
    let mut alarmed: u32 = 0;
    let mut saturated: u32 = 0;
    let mut max_nav: i32 = 0;
    let mut max_att: i16 = 0;
    let mut bytes: Vec<u8> = Vec::new();
    let mut i: usize = 0;
    while i < runs.len()
        invariant
            i <= runs@.len() <= u32::MAX,
            outcomes == avionics_outcomes(runs@),
            navs == Seq::new(runs@.len(), |i: int| runs@[i].max_navigation_error_q13 as int),
            atts == Seq::new(runs@.len(), |i: int| runs@[i].max_attitude_error_turn16 as int),
            records == Seq::new(runs@.len(), |i: int| runs@[i].record@),
            done == (|x: AvionicsRunSummary|
                x.outcome == RunOutcome::Complete || x.outcome == RunOutcome::GroundContact),
            alarm == (|x: AvionicsRunSummary| x.alarms != 0),
            saturation == (|x: AvionicsRunSummary| x.saturation_count != 0),
            completed == count_where(runs@.take(i as int), done),
            incomplete == count_outcome(outcomes.take(i as int), RunOutcome::RecoveryIncomplete),
            envelope == count_outcome(outcomes.take(i as int), RunOutcome::ModelEnvelopeExceeded),
            alarmed == count_where(runs@.take(i as int), alarm),
            saturated == count_where(runs@.take(i as int), saturation),
            completed <= i && incomplete <= i && envelope <= i && alarmed <= i && saturated <= i,
            max_nav == max_from(navs.take(i as int), 0),
            max_att == max_from(atts.take(i as int), 0),
            bytes@ == concat_all(records.take(i as int)),
        decreases runs@.len() - i,
    {
        let run = &runs[i];
        assert(runs@.take(i + 1).drop_last() =~= runs@.take(i as int));
        assert(outcomes.take(i + 1).drop_last() =~= outcomes.take(i as int));
        assert(navs.take(i + 1).drop_last() =~= navs.take(i as int));
        assert(atts.take(i + 1).drop_last() =~= atts.take(i as int));
        if run.outcome == RunOutcome::Complete || run.outcome == RunOutcome::GroundContact {
            completed += 1;
        }
        if run.outcome == RunOutcome::RecoveryIncomplete {
            incomplete += 1;
        }
        if run.outcome == RunOutcome::ModelEnvelopeExceeded {
            envelope += 1;
        }
        if run.alarms != 0 {
            alarmed += 1;
        }
        if run.saturation_count != 0 {
            saturated += 1;
        }
        if run.max_navigation_error_q13 > max_nav {
            max_nav = run.max_navigation_error_q13;
        }
        if run.max_attitude_error_turn16 > max_att {
            max_att = run.max_attitude_error_turn16;
        }
        proof {
            assert(records.take(i + 1) =~= records.take(i as int).push(records[i as int]));
            lemma_concat_push(records.take(i as int), records[i as int]);
        }
        put_bytes(&mut bytes, run.record.as_slice());
        i += 1;
    }
    assert(runs@.take(runs@.len() as int) =~= runs@);
    assert(outcomes.take(runs@.len() as int) =~= outcomes);
    assert(navs.take(runs@.len() as int) =~= navs);
    assert(atts.take(runs@.len() as int) =~= atts);
    assert(records.take(runs@.len() as int) =~= records);
    let crc = crc32(bytes.as_slice());
    Phase85CampaignAggregate {
        runs: runs.len() as u32,
        completed,
        recovery_incomplete: incomplete,
        model_envelope_exceeded: envelope,
        alarmed,
        saturated,
        maximum_navigation_error_q13: max_nav,
        maximum_attitude_error_turn16: max_att,
        records_crc32: crc,
    }
}

// ---------------------------------------------------------------------------
// Sharing a campaign's runs among workers

/// How many runs worker `worker` of `workers` executes out of `runs`.
pub open spec fn worker_run_count(worker: int, workers: int, runs: int) -> int {
    if worker >= runs {
        0
    } else {
        (runs - worker + workers - 1) / workers
    }
}

/// The runs worker `worker` of `workers` executes, in order: its own index,
/// then every `workers`-th run after it, below `runs`.
pub open spec fn worker_runs(worker: int, workers: int, runs: int) -> Seq<u32> {
    Seq::new(worker_run_count(worker, workers, runs) as nat, |k: int| (worker + k * workers) as u32)
}

/// With the last run taken below `runs` and the next one past it, the
/// worker has taken exactly its share.
proof fn lemma_worker_run_count(worker: int, workers: int, runs: int, taken: int)
    requires
        1 <= workers,
        0 <= worker < runs,
        1 <= taken,
        worker + (taken - 1) * workers < runs,
        runs <= worker + taken * workers,
    ensures
        worker_run_count(worker, workers, runs) == taken,
{
    let x = runs - worker + workers - 1;
    let q = x / workers;
    lemma_fundamental_div_mod(x, workers);
    assert(q == taken) by (nonlinear_arith)
        requires
            x == workers * q + x % workers,
            0 <= x % workers < workers,
            x == runs - worker + workers - 1,
            worker + (taken - 1) * workers < runs,
            runs <= worker + taken * workers,
            workers >= 1,
    ;
}

/// The run indices worker `worker` of `workers` executes in a campaign of
/// `run_count` runs.
pub fn worker_run_indices(worker: usize, workers: usize, run_count: u32) -> (r: Vec<u32>)
    requires
        worker < workers <= u32::MAX,
    ensures
        r@ == worker_runs(worker as int, workers as int, run_count as int),
{
    let mut out: Vec<u32> = Vec::new();
    let mut index = worker as u32;
    let step = workers as u32;
    while index < run_count
        invariant
            worker < workers <= u32::MAX,
            step == workers,
            out@ == Seq::new(out@.len(), |k: int| (worker + k * workers) as u32),
            index == (if worker + out@.len() * workers <= u32::MAX {
                worker + out@.len() * workers
            } else {
                u32::MAX as int
            }),
            out@.len() > 0 ==> worker + (out@.len() - 1) * workers < run_count,
        decreases u32::MAX - index,
    {
        let ghost len = out@.len();
        out.push(index);
        assert(worker + (len + 1) * workers == worker + len * workers + workers) by (
        nonlinear_arith);
        index = index.saturating_add(step);
        assert(out@ =~= Seq::new(out@.len(), |k: int| (worker + k * workers) as u32));
    }
    proof {
        let taken = out@.len() as int;
        if taken > 0 {
            lemma_worker_run_count(worker as int, workers as int, run_count as int, taken);
        } else {
            assert(worker >= run_count);
        }
        assert(out@ =~= worker_runs(worker as int, workers as int, run_count as int));
    }
    out
}

/// Every run of a campaign is executed by exactly one worker: run `run` is
/// entry `run / workers` of worker `run % workers`, no worker holds it
/// anywhere else, and no worker executes a run past the campaign.
pub proof fn law_each_run_has_one_worker(run: int, workers: int, runs: int)
    requires
        1 <= workers,
        0 <= run < runs <= u32::MAX,
    ensures
        ({
            let w = run % workers;
            let k = run / workers;
            &&& 0 <= k < worker_run_count(w, workers, runs)
            &&& worker_runs(w, workers, runs)[k] == run
        }),
        forall|v: int, j: int|
            0 <= v < workers && 0 <= j < worker_run_count(v, workers, runs)
                && #[trigger] worker_runs(v, workers, runs)[j] == run ==> v == run % workers && j
                == run / workers,
        forall|v: int, j: int|
            0 <= v < workers && 0 <= j < worker_run_count(v, workers, runs) ==> #[trigger] worker_runs(
                v,
                workers,
                runs,
            )[j] < runs,
{
    let w = run % workers;
    let k = run / workers;
    lemma_fundamental_div_mod(run, workers);
    assert(0 <= w < workers && 0 <= k) by (nonlinear_arith)
        requires
            run == workers * k + w,
            w == run % workers,
            k == run / workers,
            workers >= 1,
            run >= 0,
    ;
    assert(k * workers == workers * k) by (nonlinear_arith);
    lemma_bounded_entry_below(w, k, workers, runs);
    assert forall|v: int, j: int|
        0 <= v < workers && 0 <= j < worker_run_count(v, workers, runs) implies #[trigger] worker_runs(
        v,
        workers,
        runs,
    )[j] < runs by {
        lemma_entry_below_runs(v, j, workers, runs);
    }
    assert forall|v: int, j: int|
        0 <= v < workers && 0 <= j < worker_run_count(v, workers, runs)
            && #[trigger] worker_runs(v, workers, runs)[j] == run implies v == run % workers && j
            == run / workers by {
        lemma_entry_below_runs(v, j, workers, runs);
        assert(v + j * workers == run);
        assert(run == j * workers + v);
        lemma_fundamental_div_mod_converse_mod(run, workers, j, v);
        assert(j * workers == k * workers);
        assert(j == k) by (nonlinear_arith)
            requires
                j * workers == k * workers,
                workers >= 1,
        ;
    }
}

/// An entry of a worker's share lies below the campaign's run count.
proof fn lemma_entry_below_runs(v: int, j: int, workers: int, runs: int)
    requires
        1 <= workers,
        0 <= v,
        0 <= j < worker_run_count(v, workers, runs),
        runs <= u32::MAX,
    ensures
        v + j * workers < runs,
        worker_runs(v, workers, runs)[j] == v + j * workers,
{
    let x = runs - v + workers - 1;
    let q = x / workers;
    lemma_fundamental_div_mod(x, workers);
    assert(v + j * workers < runs) by (nonlinear_arith)
        requires
            x == workers * q + x % workers,
            0 <= x % workers < workers,
            x == runs - v + workers - 1,
            j < q,
            workers >= 1,
    ;
    assert(0 <= v + j * workers) by (nonlinear_arith)
        requires
            0 <= v,
            0 <= j,
            1 <= workers,
    ;
}

/// A run below the campaign's run count is within its worker's share.
proof fn lemma_bounded_entry_below(w: int, k: int, workers: int, runs: int)
    requires
        1 <= workers,
        0 <= w < workers,
        0 <= k,
        w + k * workers < runs <= u32::MAX,
    ensures
        0 <= k < worker_run_count(w, workers, runs),
        worker_runs(w, workers, runs)[k] == w + k * workers,
{
    let x = runs - w + workers - 1;
    let q = x / workers;
    lemma_fundamental_div_mod(x, workers);
    assert(k < q) by (nonlinear_arith)
        requires
            x == workers * q + x % workers,
            0 <= x % workers < workers,
            x == runs - w + workers - 1,
            w + k * workers < runs,
            workers >= 1,
    ;
    assert(0 <= w + k * workers) by (nonlinear_arith)
        requires
            0 <= w,
            0 <= k,
            1 <= workers,
    ;
}

/// The run indices a campaign's workers reported are exactly its runs,
/// each once: as many as the campaign's runs, each below the count, none
/// twice.
pub open spec fn complete_runs(indices: Seq<u32>, runs: int) -> bool {
    &&& indices.len() == runs
    &&& forall|i: int| 0 <= i < indices.len() ==> indices[i] < runs
    &&& forall|i: int, j: int| 0 <= i < j < indices.len() ==> indices[i] != indices[j]
}

/// Whether the run indices gathered from the workers cover the campaign's
/// runs exactly once each; put in order, they are then `0..run_count`.
pub fn runs_complete(indices: &[u32], run_count: u32) -> (r: bool)
    ensures
        r == complete_runs(indices@, run_count as int),
{
    let n = indices.len();
    if n != run_count as usize {
        return false;
    }
    let mut seen: Vec<bool> = vec![false; n];
    let mut i: usize = 0;
    while i < n
        invariant
            n == indices@.len() == run_count,
            seen@.len() == n,
            i <= n,
            forall|a: int| 0 <= a < i ==> indices@[a] < n,
            forall|a: int, b: int| 0 <= a < b < i ==> indices@[a] != indices@[b],
            forall|v: int|
                0 <= v < n ==> (seen@[v] <==> exists|a: int| 0 <= a < i && indices@[a] == v),
        decreases n - i,
    {
        let v = indices[i];
        if v as usize >= n {
            return false;
        }
        if seen[v as usize] {
            return false;
        }
        seen.set(v as usize, true);
        i += 1;
    }
    true
}

// ---------------------------------------------------------------------------
// Avionics uncertainty cases

/// What an avionics campaign varies from run to run: sensor seed and biases,
/// noise, delays, clock drift, and sensor and link dropouts.
#[derive(Clone, Copy, Debug, PartialEq, Eq)]
pub struct AvionicsVariation {
    pub seed: u32,
    pub imu_delta_bias: [i16; 3],
    pub gyro_bias: [i16; 3],
    pub gps_position_bias_q13: [i32; 3],
    pub gps_velocity_bias_q19: [i32; 3],
    pub barometer_bias_q13: i32,
    pub sensor_noise_scale: u16,
    pub aid_delay_epochs: u8,
    pub clock_drift_ppm: i16,
    pub deployment_actuation_delay_epochs: u8,
    pub barometer_dropout_start: u16,
    pub barometer_dropout_epochs: u8,
    pub gps_dropout_start: u16,
    pub gps_dropout_epochs: u8,
    pub link_dropout_start: u16,
    pub link_dropout_epochs: u8,
}

/// The keyed random words of a run are numbered by parameter from 16 (the
/// sensor seed) to 38 (the last actuator draw).
pub const AVIONICS_FIRST_PARAMETER: u8 = 16;

/// How many keyed words a run's case is drawn from.
pub const AVIONICS_PARAMETER_COUNT: usize = 23;

/// The draw of parameter `p` within `minimum..=maximum`.
pub open spec fn draw_of(words: Seq<u32>, p: int, minimum: int, maximum: int) -> int {
    uniform_draw(words[p - 16], minimum as i32, maximum as i32)
}

/// The variation of run `run` (not the nominal run 0), drawn from its keyed
/// words; dropouts come from the word of parameter 34, each present when
/// its bits of that word are clear, and otherwise left as in `nominal`.
pub open spec fn drawn_variation(nominal: AvionicsVariation, words: Seq<u32>) -> AvionicsVariation {
    let dropout = words[34 - 16];
    let baro = dropout & 7 == 0;
    let gps = dropout & 0x38 == 0;
    let link = dropout & 0x1c0 == 0;
    AvionicsVariation {
        seed: words[0],
        imu_delta_bias: [
            draw_of(words, 17, -12, 12) as i16,
            draw_of(words, 18, -12, 12) as i16,
            draw_of(words, 19, -12, 12) as i16,
        ],
        gyro_bias: [
            draw_of(words, 20, -8, 8) as i16,
            draw_of(words, 21, -8, 8) as i16,
            draw_of(words, 22, -8, 8) as i16,
        ],
        gps_position_bias_q13: [
            draw_of(words, 24, -409_600, 409_600) as i32,
            draw_of(words, 25, -409_600, 409_600) as i32,
            draw_of(words, 26, -409_600, 409_600) as i32,
        ],
        gps_velocity_bias_q19: [
            draw_of(words, 27, -262_144, 262_144) as i32,
            draw_of(words, 28, -262_144, 262_144) as i32,
            draw_of(words, 29, -262_144, 262_144) as i32,
        ],
        barometer_bias_q13: draw_of(words, 23, -204_800, 204_800) as i32,
        sensor_noise_scale: draw_of(words, 30, 0, 512) as u16,
        aid_delay_epochs: draw_of(words, 31, 0, 2) as u8,
        clock_drift_ppm: draw_of(words, 32, -250, 250) as i16,
        deployment_actuation_delay_epochs: draw_of(words, 33, 0, 4) as u8,
        barometer_dropout_start: if baro {
            (64 + (dropout as u16) % 320) as u16
        } else {
            nominal.barometer_dropout_start
        },
        barometer_dropout_epochs: if baro {
            (4 + (((dropout >> 16u32) as u8) & 7)) as u8
        } else {
            nominal.barometer_dropout_epochs
        },
        gps_dropout_start: if gps {
            (32 + ((dropout >> 8u32) as u16) % 256) as u16
        } else {
            nominal.gps_dropout_start
        },
        gps_dropout_epochs: if gps {
            (8 + (((dropout >> 24u32) as u8) & 15)) as u8
        } else {
            nominal.gps_dropout_epochs
        },
        link_dropout_start: if link {
            (48 + ((dropout >> 12u32) as u16) % 256) as u16
        } else {
            nominal.link_dropout_start
        },
        link_dropout_epochs: if link {
            (1 + (((dropout >> 28u32) as u8) & 1)) as u8
        } else {
            nominal.link_dropout_epochs
        },
    }
}

/// The actuator scatter of a run: a lag step in `-1..=1` and three scales
/// in parts per million, within 10% of unity.
pub open spec fn drawn_actuator(words: Seq<u32>) -> Seq<i32> {
    seq![
        draw_of(words, 35, -1, 1) as i32,
        draw_of(words, 36, 900_000, 1_100_000) as i32,
        draw_of(words, 37, 900_000, 1_100_000) as i32,
        draw_of(words, 38, 900_000, 1_100_000) as i32,
    ]
}

/// The 96 bytes a case's checksum is taken over: the seed, the six 16-bit
/// biases, the GPS and barometer biases and the actuator scatter as words,
/// the noise scale, the delays and clock drift, then the dropouts, padded
/// with zeros.
pub open spec fn case_bytes(v: AvionicsVariation, actuator: Seq<i32>) -> Seq<u8> {
    let head = le_u32(v.seed) + le_i16(v.imu_delta_bias[0]) + le_i16(v.imu_delta_bias[1]) + le_i16(
        v.imu_delta_bias[2],
    ) + le_i16(v.gyro_bias[0]) + le_i16(v.gyro_bias[1]) + le_i16(v.gyro_bias[2]);
    let words = le_i32(v.gps_position_bias_q13[0]) + le_i32(v.gps_position_bias_q13[1]) + le_i32(
        v.gps_position_bias_q13[2],
    ) + le_i32(v.gps_velocity_bias_q19[0]) + le_i32(v.gps_velocity_bias_q19[1]) + le_i32(
        v.gps_velocity_bias_q19[2],
    ) + le_i32(v.barometer_bias_q13) + le_i32(actuator[0]) + le_i32(actuator[1]) + le_i32(
        actuator[2],
    ) + le_i32(actuator[3]);
    let tail = le_u16(v.sensor_noise_scale) + seq![v.aid_delay_epochs, v.deployment_actuation_delay_epochs]
        + le_i16(v.clock_drift_ppm) + le_u16(v.barometer_dropout_start) + seq![
        v.barometer_dropout_epochs,
        v.gps_dropout_epochs,
    ] + le_u16(v.gps_dropout_start) + le_u16(v.link_dropout_start) + seq![v.link_dropout_epochs];
    head + words + tail + zeros(21)
}

fn draw(words: &[u32], parameter: usize, minimum: i32, maximum: i32) -> (r: i32)
    requires
        16 <= parameter < 39,
        words@.len() == AVIONICS_PARAMETER_COUNT,
        minimum <= maximum,
        maximum - minimum < 0x8000_0000,
    ensures
        r == draw_of(words@, parameter as int, minimum as int, maximum as int),
        minimum <= r <= maximum,
{
    let word = words[parameter - 16];
    assert((word * (maximum - minimum + 1)) / 0x1_0000_0000 < 0x8000_0000) by (nonlinear_arith)
        requires
            0 <= word < 0x1_0000_0000,
            1 <= maximum - minimum + 1 <= 0x8000_0000,
    ;
    uniform_i32(word, minimum, maximum)
}

fn drawn_case(nominal: AvionicsVariation, words: &[u32]) -> (v: AvionicsVariation)
    requires
        words@.len() == AVIONICS_PARAMETER_COUNT,
    ensures
        v == drawn_variation(nominal, words@),
{
    let dropout = words[34 - 16];
    let baro = dropout & 7 == 0;
    let gps = dropout & 0x38 == 0;
    let link = dropout & 0x1c0 == 0;
    let baro_span = ((dropout >> 16) as u8) & 7;
    let gps_span = ((dropout >> 24) as u8) & 15;
    let link_span = ((dropout >> 28) as u8) & 1;
    assert(((dropout >> 16u32) as u8) & 7u8 <= 7u8) by (bit_vector);
    assert(((dropout >> 24u32) as u8) & 15u8 <= 15u8) by (bit_vector);
    assert(((dropout >> 28u32) as u8) & 1u8 <= 1u8) by (bit_vector);
    let v = AvionicsVariation {
        seed: words[0],
        imu_delta_bias: [
            draw(words, 17, -12, 12) as i16,
            draw(words, 18, -12, 12) as i16,
            draw(words, 19, -12, 12) as i16,
        ],
        gyro_bias: [
            draw(words, 20, -8, 8) as i16,
            draw(words, 21, -8, 8) as i16,
            draw(words, 22, -8, 8) as i16,
        ],
        gps_position_bias_q13: [
            draw(words, 24, -409_600, 409_600),
            draw(words, 25, -409_600, 409_600),
            draw(words, 26, -409_600, 409_600),
        ],
        gps_velocity_bias_q19: [
            draw(words, 27, -262_144, 262_144),
            draw(words, 28, -262_144, 262_144),
            draw(words, 29, -262_144, 262_144),
        ],
        barometer_bias_q13: draw(words, 23, -204_800, 204_800),
        sensor_noise_scale: draw(words, 30, 0, 512) as u16,
        aid_delay_epochs: draw(words, 31, 0, 2) as u8,
        clock_drift_ppm: draw(words, 32, -250, 250) as i16,
        deployment_actuation_delay_epochs: draw(words, 33, 0, 4) as u8,
        barometer_dropout_start: if baro {
            64 + (dropout as u16) % 320
        } else {
            nominal.barometer_dropout_start
        },
        barometer_dropout_epochs: if baro {
            4 + baro_span
        } else {
            nominal.barometer_dropout_epochs
        },
        gps_dropout_start: if gps {
            32 + ((dropout >> 8) as u16) % 256
        } else {
            nominal.gps_dropout_start
        },
        gps_dropout_epochs: if gps {
            8 + gps_span
        } else {
            nominal.gps_dropout_epochs
        },
        link_dropout_start: if link {
            48 + ((dropout >> 12) as u16) % 256
        } else {
            nominal.link_dropout_start
        },
        link_dropout_epochs: if link {
            1 + link_span
        } else {
            nominal.link_dropout_epochs
        },
    };
    v
}

#[verifier::rlimit(30)]
fn case_byte_image(v: &AvionicsVariation, actuator: &[i32; 4]) -> (bytes: Vec<u8>)
    ensures
        bytes@ == case_bytes(*v, actuator@),
{
    let mut bytes: Vec<u8> = Vec::new();
    push_u32(&mut bytes, v.seed);
    push_u16(&mut bytes, v.imu_delta_bias[0] as u16);
    push_u16(&mut bytes, v.imu_delta_bias[1] as u16);
    push_u16(&mut bytes, v.imu_delta_bias[2] as u16);
    push_u16(&mut bytes, v.gyro_bias[0] as u16);
    push_u16(&mut bytes, v.gyro_bias[1] as u16);
    push_u16(&mut bytes, v.gyro_bias[2] as u16);
    push_u32(&mut bytes, v.gps_position_bias_q13[0] as u32);
    push_u32(&mut bytes, v.gps_position_bias_q13[1] as u32);
    push_u32(&mut bytes, v.gps_position_bias_q13[2] as u32);
    push_u32(&mut bytes, v.gps_velocity_bias_q19[0] as u32);
    push_u32(&mut bytes, v.gps_velocity_bias_q19[1] as u32);
    push_u32(&mut bytes, v.gps_velocity_bias_q19[2] as u32);
    push_u32(&mut bytes, v.barometer_bias_q13 as u32);
    push_u32(&mut bytes, actuator[0] as u32);
    push_u32(&mut bytes, actuator[1] as u32);
    push_u32(&mut bytes, actuator[2] as u32);
    push_u32(&mut bytes, actuator[3] as u32);
    push_u16(&mut bytes, v.sensor_noise_scale);
    bytes.push(v.aid_delay_epochs);
    bytes.push(v.deployment_actuation_delay_epochs);
    push_u16(&mut bytes, v.clock_drift_ppm as u16);
    push_u16(&mut bytes, v.barometer_dropout_start);
    bytes.push(v.barometer_dropout_epochs);
    bytes.push(v.gps_dropout_epochs);
    push_u16(&mut bytes, v.gps_dropout_start);
    push_u16(&mut bytes, v.link_dropout_start);
    bytes.push(v.link_dropout_epochs);
    push_zeros(&mut bytes, 21);
    assert(bytes@ =~= case_bytes(*v, actuator@));
    bytes
}

/// Derives the avionics uncertainty case of run `run` from its keyed words
/// (parameters 16 to 38): the nominal case for run 0, otherwise the drawn
/// variation, the actuator scatter, and the CRC-32 of the case's bytes.
pub fn derive_avionics_case(run: u32, nominal: AvionicsVariation, words: &[u32]) -> (r: (
    AvionicsVariation,
    [i32; 4],
    u32,
))
    requires
        words@.len() == AVIONICS_PARAMETER_COUNT,
    ensures
        run == 0 ==> r.0 == nominal && r.1@ == seq![0i32, 0i32, 0i32, 0i32] && r.2 == 0,
        run != 0 ==> r.0 == drawn_variation(nominal, words@) && r.1@ == drawn_actuator(words@)
            && r.2 == crc32_ieee_of(case_bytes(r.0, r.1@)),
{
    if run == 0 {
        return (nominal, [0; 4], 0);
    }
    let v = drawn_case(nominal, words);
    let actuator = [
        draw(words, 35, -1, 1),
        draw(words, 36, 900_000, 1_100_000),
        draw(words, 37, 900_000, 1_100_000),
        draw(words, 38, 900_000, 1_100_000),
    ];
    assert(actuator@ =~= drawn_actuator(words@));
    let bytes = case_byte_image(&v, &actuator);
    let checksum = crc32(bytes.as_slice());
    (v, actuator, checksum)
}

} // verus!
