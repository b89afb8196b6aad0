//! Design studies: study identities, quantisation of design variables, and
//! the exact aggregation of per-case metrics into candidate objectives and
//! constraint results.
use crate::crc::{crc32, crc32_ieee_of};
use crate::fnv::words_le;
use crate::le::{le_u32, push_u32, push_zeros, zeros};
use crate::session::{concat_all, lemma_concat_push};
use vstd::prelude::*;
use vstd::relations::{sorted_by, total_ordering};

verus! {

pub const STUDY_A_ID: u32 = 0x3941_0001;

pub const STUDY_B_ID: u32 = 0x3942_0001;

pub const COUPLED_STUDY_ID: u32 = 0x3943_0001;

pub const EXPERIMENTAL_AIRFRAME_ID: u32 = 0x3945_0001;

pub const PHASE9_SEED: u32 = 0x4b53_4139;

pub const CASE_METRIC_COUNT: usize = 13;

/// The built-in design studies.
#[derive(Clone, Copy, Debug, PartialEq, Eq, Structural)]
pub enum StudyId {
    PassiveRecovery,
    GimbalControl,
    Coupled,
    ExperimentalAirframe,
}

impl StudyId {
    pub open spec fn raw_id(self) -> u32 {
        match self {
            StudyId::PassiveRecovery => STUDY_A_ID,
            StudyId::GimbalControl => STUDY_B_ID,
            StudyId::Coupled => COUPLED_STUDY_ID,
            StudyId::ExperimentalAirframe => EXPERIMENTAL_AIRFRAME_ID,
        }
    }

    /// The study's identity as stored in manifests.
    pub fn raw(self) -> (r: u32)
        ensures
            r == self.raw_id(),
    {
        match self {
            StudyId::PassiveRecovery => STUDY_A_ID,
            StudyId::GimbalControl => STUDY_B_ID,
            StudyId::Coupled => COUPLED_STUDY_ID,
            StudyId::ExperimentalAirframe => EXPERIMENTAL_AIRFRAME_ID,
        }
    }

    /// Whether the study flies the gimballed vehicle.
    pub fn gimbal(self) -> (r: bool)
        ensures
            r <==> (self == StudyId::GimbalControl || self == StudyId::Coupled),
    {
        match self {
            StudyId::GimbalControl | StudyId::Coupled => true,
            _ => false,
        }
    }
}

/// Distinct studies carry distinct identities.
pub proof fn law_study_ids_distinct(a: StudyId, b: StudyId)
    ensures
        a.raw_id() == b.raw_id() <==> a == b,
{
}

/// Why a candidate could not be evaluated.
#[derive(Clone, Copy, Debug, PartialEq, Eq, Structural)]
pub enum Phase9EvaluationError {
    Configuration,
    Candidate,
    World,
    Metric,
}

/// How a simulated run ended.
#[derive(Clone, Copy, Debug, PartialEq, Eq, Structural)]
pub enum RunOutcome {
    Complete,
    GroundContact,
    RecoveryIncomplete,
    ModelEnvelopeExceeded,
    NoLiftoff,
    StepLimit,
    Aborted,
    ConfigurationFault,
    NumericFault,
    Other,
}

pub open spec fn fatal_class_of(o: RunOutcome) -> u8 {
    match o {
        RunOutcome::Complete | RunOutcome::GroundContact => 0,
        RunOutcome::RecoveryIncomplete => 1,
        RunOutcome::ModelEnvelopeExceeded => 2,
        RunOutcome::NoLiftoff | RunOutcome::StepLimit => 3,
        RunOutcome::Aborted => 4,
        RunOutcome::ConfigurationFault => 5,
        RunOutcome::NumericFault => 6,
        RunOutcome::Other => 1,
    }
}

/// How bad an outcome is: 0 for a flight that ended normally, higher for
/// worse failures.
pub fn fatal_class(o: RunOutcome) -> (r: u8)
    ensures
        r == fatal_class_of(o),
{
    match o {
        RunOutcome::Complete | RunOutcome::GroundContact => 0,
        RunOutcome::RecoveryIncomplete => 1,
        RunOutcome::ModelEnvelopeExceeded => 2,
        RunOutcome::NoLiftoff | RunOutcome::StepLimit => 3,
        RunOutcome::Aborted => 4,
        RunOutcome::ConfigurationFault => 5,
        RunOutcome::NumericFault => 6,
        RunOutcome::Other => 1,
    }
}

/// A quotient rounded toward zero, as integer division does.
pub open spec fn trunc_div(a: int, b: int) -> int {
    if a >= 0 {
        a / b
    } else {
        -((-a) / b)
    }
}

pub open spec fn clamp_int(v: int, lo: int, hi: int) -> int {
    if v < lo {
        lo
    } else if v > hi {
        hi
    } else {
        v
    }
}

/// `raw` scaled by `ppm` parts per million, rounded toward zero and
/// clamped to the `i32` range.
pub open spec fn scaled(raw: int, ppm: int) -> int {
    clamp_int(trunc_div(raw * ppm, 1_000_000), i32::MIN as int, i32::MAX as int)
}

pub fn scale(raw: i32, ppm: i32) -> (r: i32)
    ensures
        r == scaled(raw as int, ppm as int),
{
    assert(-0x4000_0000_0000_0000 <= (raw as int) * (ppm as int) <= 0x4000_0000_0000_0000)
        by (nonlinear_arith)
        requires
            i32::MIN <= raw <= i32::MAX,
            i32::MIN <= ppm <= i32::MAX,
    ;
    let product = (raw as i64) * (ppm as i64);
    let q = product / 1_000_000;
    if q < i32::MIN as i64 {
        i32::MIN
    } else if q > i32::MAX as i64 {
        i32::MAX
    } else {
        q as i32
    }
}

/// The allowed range and step of a design variable.
#[derive(Clone, Copy, Debug, PartialEq, Eq, Structural)]
pub struct VariableRange {
    pub minimum: i32,
    pub maximum: i32,
    pub quantum: u32,
}

/// `value` clamped into the range, then moved to the nearest step from the
/// minimum (halves round up), and clamped again.
pub open spec fn quantized(value: int, spec: VariableRange) -> int {
    let v = clamp_int(value, spec.minimum as int, spec.maximum as int);
    let q = spec.quantum as int;
    let k = (v - spec.minimum + q / 2) / q;
    clamp_int(spec.minimum + k * q, spec.minimum as int, spec.maximum as int)
}

pub fn quantize_clamp(value: i32, spec: VariableRange) -> (r: i32)
    requires
        spec.minimum <= spec.maximum,
        spec.quantum > 0,
    ensures
        r == quantized(value as int, spec),
        spec.minimum <= r <= spec.maximum,
{
    let v = if value < spec.minimum {
        spec.minimum
    } else if value > spec.maximum {
        spec.maximum
    } else {
        value
    };
    let q = spec.quantum as i64;
    let offset = (v as i64) - (spec.minimum as i64) + q / 2;
    let k = offset / q;
    assert(k * q <= offset) by (nonlinear_arith)
        requires
            k == offset / q,
            q > 0,
            offset >= 0,
    ;
    assert(0 <= k * q) by (nonlinear_arith)
        requires
            k == offset / q,
            q > 0,
            offset >= 0,
    ;
    let stepped = (spec.minimum as i64) + k * q;
    if stepped < spec.minimum as i64 {
        spec.minimum
    } else if stepped > spec.maximum as i64 {
        spec.maximum
    } else {
        stepped as i32
    }
}

// ---------------------------------------------------------------------------
// Aggregating case metrics

/// How the metric values of a candidate's cases are combined.
#[derive(Clone, Copy, Debug, PartialEq, Eq, Structural)]
pub enum AggregateId {
    Nominal,
    Minimum,
    Maximum,
    Mean,
    Quantile95,
    FailureRate,
}

/// The evidence of one evaluated case: how it ended, its metric values,
/// which of them are valid (bit `i` for metric `i`), and its checksum.
#[derive(Clone, Copy, Debug, PartialEq, Eq)]
pub struct CaseEvidence {
    pub outcome: RunOutcome,
    pub metrics: [i32; 13],
    pub valid: u16,
    pub checksum: u32,
}

impl CaseEvidence {
    pub open spec fn metric_valid(self, index: int) -> bool {
        self.valid & (1u16 << (index as u16)) != 0
    }

    /// Metric `index`, if the case recorded it.
    pub fn metric(&self, index: usize) -> (r: Option<i32>)
        requires
            index < CASE_METRIC_COUNT,
        ensures
            r == (if self.metric_valid(index as int) {
                Some(self.metrics[index as int])
            } else {
                None::<i32>
            }),
    {
        if self.valid & (1u16 << (index as u16)) != 0 {
            Some(self.metrics[index])
        } else {
            None
        }
    }
}

/// The 64 bytes a case's checksum is taken over: the outcome code, three
/// zero bytes, the physical summary's identity, the case's checksum chains,
/// then zero padding.
pub open spec fn case_checksum_input(outcome_code: u8, summary_identity: u32, chains: Seq<u32>) -> Seq<
    u8,
> {
    seq![outcome_code, 0u8, 0u8, 0u8] + le_u32(summary_identity) + words_le(chains) + zeros(
        (56 - 4 * chains.len()) as nat,
    )
}

/// The checksum of an evaluated case: the CRC-32 of its 64 checksum bytes.
pub fn case_checksum(outcome_code: u8, summary_identity: u32, chains: &[u32]) -> (r: u32)
    requires
        chains@.len() <= 14,
    ensures
        r == crc32_ieee_of(case_checksum_input(outcome_code, summary_identity, chains@)),
{
    let mut bytes: Vec<u8> = Vec::new();
    bytes.push(outcome_code);
    bytes.push(0);
    bytes.push(0);
    bytes.push(0);
    push_u32(&mut bytes, summary_identity);
    let ghost head = bytes@;
    let mut i: usize = 0;
    while i < chains.len()
        invariant
            i <= chains@.len() <= 14,
            bytes@ == head + words_le(chains@.take(i as int)),
        decreases chains@.len() - i,
    {
        push_u32(&mut bytes, chains[i]);
        assert(chains@.take(i + 1).drop_last() =~= chains@.take(i as int));
        i += 1;
        assert(bytes@ =~= head + words_le(chains@.take(i as int)));
    }
    assert(chains@.take(i as int) =~= chains@);
    push_zeros(&mut bytes, 56 - 4 * chains.len());
    assert(bytes@ =~= case_checksum_input(outcome_code, summary_identity, chains@));
    crc32(bytes.as_slice())
}

pub open spec fn all_metrics_valid(cases: Seq<CaseEvidence>, index: int) -> bool {
    forall|i: int| 0 <= i < cases.len() ==> #[trigger] cases[i].metric_valid(index)
}

pub open spec fn metric_values(cases: Seq<CaseEvidence>, index: int) -> Seq<i32> {
    Seq::new(cases.len(), |i: int| cases[i].metrics[index])
}

pub open spec fn seq_min(v: Seq<i32>) -> int
    decreases v.len(),
{
    if v.len() == 0 {
        i32::MAX as int
    } else {
        let m = seq_min(v.drop_last());
        if v.last() < m {
            v.last() as int
        } else {
            m
        }
    }
}

pub open spec fn seq_max(v: Seq<i32>) -> int
    decreases v.len(),
{
    if v.len() == 0 {
        i32::MIN as int
    } else {
        let m = seq_max(v.drop_last());
        if v.last() > m {
            v.last() as int
        } else {
            m
        }
    }
}

pub open spec fn seq_sum(v: Seq<i32>) -> int
    decreases v.len(),
{
    if v.len() == 0 {
        0
    } else {
        seq_sum(v.drop_last()) + v.last()
    }
}

pub open spec fn ascending() -> spec_fn(i32, i32) -> bool {
    |a: i32, b: i32| a <= b
}

/// The index of the 95th percentile among `n` sorted values: the
/// ceiling of 95% of `n`, at least 1, less one.
pub open spec fn rank95(n: int) -> int {
    let c = (95 * n + 99) / 100;
    if c < 1 {
        0
    } else {
        c - 1
    }
}

pub open spec fn failed_cases(cases: Seq<CaseEvidence>) -> int
    decreases cases.len(),
{
    if cases.len() == 0 {
        0
    } else {
        failed_cases(cases.drop_last()) + if cases.last().outcome == RunOutcome::Complete
            || cases.last().outcome == RunOutcome::GroundContact {
            0int
        } else {
            1int
        }
    }
}

/// The mean rounded half away from zero.
pub open spec fn rounded_mean(sum: int, n: int) -> int {
    let sign = if sum < 0 {
        -1int
    } else {
        1int
    };
    trunc_div(sum + sign * (n / 2), n)
}

/// The aggregate of metric `index` over the cases: every case must have
/// recorded it.
pub open spec fn aggregate_of(cases: Seq<CaseEvidence>, index: int, kind: AggregateId) -> Result<
    i32,
    Phase9EvaluationError,
> {
    if !all_metrics_valid(cases, index) {
        Err(Phase9EvaluationError::Metric)
    } else {
        let v = metric_values(cases, index);
        let n = cases.len() as int;
        match kind {
            AggregateId::Nominal => Ok(v[0]),
            AggregateId::Minimum => Ok(seq_min(v) as i32),
            AggregateId::Maximum => Ok(seq_max(v) as i32),
            AggregateId::Mean => Ok(
                clamp_int(rounded_mean(seq_sum(v), n), i32::MIN as int, i32::MAX as int) as i32,
            ),
            AggregateId::Quantile95 => Ok(v.sort_by(ascending())[rank95(n)]),
            AggregateId::FailureRate => Ok(
                ((failed_cases(cases) * 1_000_000 + n / 2) / n) as i32,
            ),
        }
    }
}

proof fn lemma_ascending_total()
    ensures
        total_ordering(ascending()),
{
    assert(total_ordering(ascending())) by {
        reveal(vstd::relations::total_ordering);
    }
}

/// The values in ascending order.
fn sort_values(v: &Vec<i32>) -> (r: Vec<i32>)
    ensures
        r@ == v@.sort_by(ascending()),
{
    broadcast use vstd::seq_lib::group_to_multiset_ensures;

    let mut out: Vec<i32> = Vec::new();
    let mut i: usize = 0;
    while i < v.len()
        invariant
            i <= v@.len(),
            sorted_by(out@, ascending()),
            out@.to_multiset() == v@.take(i as int).to_multiset(),
        decreases v@.len() - i,
    {
        let x = v[i];
        let mut p: usize = 0;
        while p < out.len() && out[p] <= x
            invariant
                p <= out@.len(),
                forall|k: int| 0 <= k < p ==> out@[k] <= x,
            decreases out@.len() - p,
        {
            p += 1;
        }
        let ghost before = out@;
        proof {
            assert forall|k: int| p <= k < before.len() implies before[k] > x by {
                assert(before[p as int] > x);
                if k > p {
                    assert(ascending()(before[p as int], before[k]));
                }
            }
        }
        out.insert(p, x);
        proof {
            vstd::seq_lib::to_multiset_insert(before, p as int, x);
            assert(v@.take(i + 1) =~= v@.take(i as int).push(x));
            vstd::seq_lib::to_multiset_build(v@.take(i as int), x);
            assert forall|a: int, b: int| 0 <= a < b < out@.len() implies #[trigger] ascending()(
                out@[a],
                out@[b],
            ) by {
                if b < p {
                    assert(ascending()(before[a], before[b]));
                } else if b == p {
                } else if a < p {
                } else if a == p {
                } else {
                    assert(ascending()(before[a - 1], before[b - 1]));
                }
            }
        }
        i += 1;
    }
    proof {
        assert(v@.take(v@.len() as int) =~= v@);
        lemma_ascending_total();
        v@.lemma_sort_by_ensures(ascending());
        vstd::seq_lib::lemma_sorted_unique(out@, v@.sort_by(ascending()), ascending());
    }
    out
}

/// Combines metric `index` over a candidate's cases as `kind` says: the
/// nominal (first) case, the minimum, the maximum, the mean rounded half
/// away from zero, the 95th percentile, or the failure rate in parts per
/// million. Fails if a case lacks the metric.
pub fn aggregate_value(cases: &[CaseEvidence], index: usize, kind: AggregateId) -> (r: Result<
    i32,
    Phase9EvaluationError,
>)
    requires
        0 < cases@.len() <= u32::MAX,
        index < CASE_METRIC_COUNT,
    ensures
        r == aggregate_of(cases@, index as int, kind),
{
    let mut values: Vec<i32> = Vec::new();
    let mut i: usize = 0;
    while i < cases.len()
        invariant
            i <= cases@.len(),
            index < CASE_METRIC_COUNT,
            values@ == metric_values(cases@, index as int).take(i as int),
            forall|k: int| 0 <= k < i ==> #[trigger] cases@[k].metric_valid(index as int),
        decreases cases@.len() - i,
    {
        match cases[i].metric(index) {
            Some(m) => values.push(m),
            None => {
                return Err(Phase9EvaluationError::Metric);
            },
        }
        assert(values@ =~= metric_values(cases@, index as int).take(i + 1));
        i += 1;
    }
    let ghost v = metric_values(cases@, index as int);
    assert(values@ =~= v);
    let n = values.len();
    match kind {
        AggregateId::Nominal => Ok(values[0]),
        AggregateId::Minimum => {
            let mut m = i32::MAX;
            let mut k: usize = 0;
            while k < n
                invariant
                    k <= n == values@.len(),
                    m == seq_min(values@.take(k as int)),
                decreases n - k,
            {
                assert(values@.take(k + 1).drop_last() =~= values@.take(k as int));
                if values[k] < m {
                    m = values[k];
                }
                k += 1;
            }
            assert(values@.take(n as int) =~= values@);
            Ok(m)
        },
        AggregateId::Maximum => {
            let mut m = i32::MIN;
            let mut k: usize = 0;
            while k < n
                invariant
                    k <= n == values@.len(),
                    m == seq_max(values@.take(k as int)),
                decreases n - k,
            {
                assert(values@.take(k + 1).drop_last() =~= values@.take(k as int));
                if values[k] > m {
                    m = values[k];
                }
                k += 1;
            }
            assert(values@.take(n as int) =~= values@);
            Ok(m)
        },
        AggregateId::Mean => {
            let mut sum: i128 = 0;
            let mut k: usize = 0;
            while k < n
                invariant
                    k <= n == values@.len(),
                    n <= u32::MAX,
                    sum == seq_sum(values@.take(k as int)),
                    -0x8000_0000 * k <= sum <= 0x7fff_ffff * k,
                decreases n - k,
            {
                assert(values@.take(k + 1).drop_last() =~= values@.take(k as int));
                sum = sum + values[k] as i128;
                k += 1;
            }
            assert(values@.take(n as int) =~= values@);
            let count = n as i128;
            let sign: i128 = if sum < 0 {
                -1
            } else {
                1
            };
            let q = (sum + sign * (count / 2)) / count;
            if q < i32::MIN as i128 {
                Ok(i32::MIN)
            } else if q > i32::MAX as i128 {
                Ok(i32::MAX)
            } else {
                Ok(q as i32)
            }
        },
        AggregateId::Quantile95 => {
            let sorted = sort_values(&values);
            proof {
                v.lemma_sort_by_ensures(ascending());
                vstd::seq_lib::to_multiset_len(v);
                vstd::seq_lib::to_multiset_len(v.sort_by(ascending()));
            }
            let c = (95 * (n as u64) + 99) / 100;
            assert(c <= n) by (nonlinear_arith)
                requires
                    c == (95 * (n as u64) + 99) / 100,
                    n >= 1,
            ;
            let rank = if c < 1 {
                0
            } else {
                (c - 1) as usize
            };
            Ok(sorted[rank])
        },
        AggregateId::FailureRate => {
            let mut failed: u64 = 0;
            let mut k: usize = 0;
            while k < n
                invariant
                    k <= n == cases@.len(),
                    n <= u32::MAX,
                    failed == failed_cases(cases@.take(k as int)),
                    failed <= k,
                decreases n - k,
            {
                assert(cases@.take(k + 1).drop_last() =~= cases@.take(k as int));
                let o = cases[k].outcome;
                if !(o == RunOutcome::Complete || o == RunOutcome::GroundContact) {
                    failed += 1;
                }
                k += 1;
            }
            assert(cases@.take(n as int) =~= cases@);
            let count = n as u64;
            Ok(((failed * 1_000_000 + count / 2) / count) as i32)
        },
    }
}

// ---------------------------------------------------------------------------
// Duplicate candidates

/// A candidate design: the values of its `value_count` design variables and
/// the identities of its materialised models.
#[derive(Clone, Copy, Debug, PartialEq, Eq)]
pub struct DesignVector {
    pub identity: u32,
    pub manifest_identity: u32,
    pub value_count: u8,
    pub values: [i32; 32],
    pub materialized_ids: [u32; 4],
}

/// Two designs are duplicates when they have the same variable values and
/// the same materialised models.
pub open spec fn same_design(a: DesignVector, b: DesignVector) -> bool {
    &&& a.value_count == b.value_count
    &&& forall|i: int| 0 <= i < a.value_count ==> a.values[i] == b.values[i]
    &&& a.materialized_ids == b.materialized_ids
}

/// The first index below `k` in `u` holding a duplicate of `x`, or -1.
pub open spec fn find_design(u: Seq<DesignVector>, x: DesignVector, k: int) -> int
    decreases k,
{
    if k <= 0 {
        -1
    } else if find_design(u, x, k - 1) >= 0 {
        find_design(u, x, k - 1)
    } else if same_design(u[k - 1], x) {
        k - 1
    } else {
        -1
    }
}

/// The distinct designs in order of first occurrence, and for each input
/// the index of its design among them.
pub open spec fn collapsed(s: Seq<DesignVector>) -> (Seq<DesignVector>, Seq<int>)
    decreases s.len(),
{
    if s.len() == 0 {
        (Seq::empty(), Seq::empty())
    } else {
        let prev = collapsed(s.drop_last());
        let x = s.last();
        let j = find_design(prev.0, x, prev.0.len() as int);
        if j >= 0 {
            (prev.0, prev.1.push(j))
        } else {
            (prev.0.push(x), prev.1.push(prev.0.len() as int))
        }
    }
}

fn design_matches(a: &DesignVector, b: &DesignVector) -> (r: bool)
    requires
        a.value_count <= 32,
    ensures
        r == same_design(*a, *b),
{
    if a.value_count != b.value_count {
        return false;
    }
    let mut i: usize = 0;
    while i < a.value_count as usize
        invariant
            i <= a.value_count <= 32,
            a.value_count == b.value_count,
            forall|k: int| 0 <= k < i ==> a.values[k] == b.values[k],
        decreases a.value_count - i,
    {
        if a.values[i] != b.values[i] {
            return false;
        }
        i += 1;
    }
    let mut m: usize = 0;
    while m < 4
        invariant
            m <= 4,
            forall|k: int| 0 <= k < m ==> a.materialized_ids[k] == b.materialized_ids[k],
        decreases 4 - m,
    {
        if a.materialized_ids[m] != b.materialized_ids[m] {
            return false;
        }
        m += 1;
    }
    assert(a.materialized_ids =~= b.materialized_ids);
    true
}

/// Removes duplicate designs, keeping the first of each in input order, and
/// maps every input to the index of its design in the result.
pub fn collapse_duplicates(vectors: Vec<DesignVector>) -> (r: (Vec<DesignVector>, Vec<usize>))
    requires
        forall|i: int| 0 <= i < vectors@.len() ==> (#[trigger] vectors@[i]).value_count <= 32,
    ensures
        r.0@ == collapsed(vectors@).0,
        r.1@.map_values(|x: usize| x as int) == collapsed(vectors@).1,
{
    let mut unique: Vec<DesignVector> = Vec::new();
    let mut refs: Vec<usize> = Vec::new();
    let mut i: usize = 0;
    while i < vectors.len()
        invariant
            i <= vectors@.len(),
            forall|k: int| 0 <= k < vectors@.len() ==> (#[trigger] vectors@[k]).value_count <= 32,
            unique@ == collapsed(vectors@.take(i as int)).0,
            refs@.map_values(|x: usize| x as int) == collapsed(vectors@.take(i as int)).1,
            unique@.len() <= i,
        decreases vectors@.len() - i,
    {
        let x = vectors[i];
        assert(vectors@.take(i + 1).drop_last() =~= vectors@.take(i as int));
        let ghost old_refs = refs@;
        match find_duplicate(&unique, &x) {
            Some(j) => {
                refs.push(j);
            },
            None => {
                refs.push(unique.len());
                unique.push(x);
            },
        }
        assert(refs@.map_values(|x: usize| x as int) =~= old_refs.map_values(|x: usize| x as int).push(
            refs@.last() as int,
        ));
        i += 1;
    }
    assert(vectors@.take(vectors@.len() as int) =~= vectors@);
    (unique, refs)
}

/// Where among `unique` a duplicate of `x` is, if anywhere.
fn find_duplicate(unique: &Vec<DesignVector>, x: &DesignVector) -> (r: Option<usize>)
    requires
        x.value_count <= 32,
    ensures
        match r {
            Some(j) => find_design(unique@, *x, unique@.len() as int) == j && j < unique@.len(),
            None => find_design(unique@, *x, unique@.len() as int) == -1,
        },
{
    let mut j: usize = 0;
    while j < unique.len()
        invariant
            j <= unique@.len(),
            x.value_count <= 32,
            find_design(unique@, *x, j as int) == -1,
        decreases unique@.len() - j,
    {
        if design_matches(x, &unique[j]) {
            assert(same_design(unique@[j as int], *x));
            assert(find_design(unique@, *x, j + 1) == j);
            proof {
                lemma_find_design_stable(unique@, *x, j + 1, unique@.len() as int);
            }
            return Some(j);
        }
        j += 1;
    }
    None
}

proof fn lemma_find_design_stable(u: Seq<DesignVector>, x: DesignVector, a: int, b: int)
    requires
        0 <= a <= b,
        find_design(u, x, a) >= 0,
    ensures
        find_design(u, x, b) == find_design(u, x, a),
    decreases b - a,
{
    if b > a {
        lemma_find_design_stable(u, x, a, b - 1);
    }
}

proof fn lemma_find_design(u: Seq<DesignVector>, x: DesignVector, k: int)
    requires
        0 <= k <= u.len(),
    ensures
        find_design(u, x, k) == -1 ==> forall|j: int| 0 <= j < k ==> !same_design(u[j], x),
        find_design(u, x, k) != -1 ==> 0 <= find_design(u, x, k) < k && same_design(
            u[find_design(u, x, k)],
            x,
        ),
    decreases k,
{
    if k > 0 {
        lemma_find_design(u, x, k - 1);
    }
}

/// What collapsing promises: every input maps to a duplicate of itself
/// among the kept designs, the kept designs are pairwise distinct, and
/// each kept design is an input that came after the first occurrences of
/// all designs kept before it.
pub open spec fn collapse_ok(s: Seq<DesignVector>, u: Seq<DesignVector>, r: Seq<int>) -> bool {
    &&& r.len() == s.len()
    &&& forall|i: int|
        0 <= i < s.len() ==> 0 <= #[trigger] r[i] < u.len() && same_design(u[r[i]], s[i])
    &&& forall|a: int, b: int| 0 <= a < b < u.len() ==> !same_design(#[trigger] u[a], #[trigger] u[b])
    &&& forall|j: int| 0 <= j < u.len() ==> #[trigger] kept_first(s, u, r, j)
}

/// Kept design `j` is an input whose index maps to `j` and before which
/// only designs kept earlier occur.
pub open spec fn kept_first(s: Seq<DesignVector>, u: Seq<DesignVector>, r: Seq<int>, j: int) -> bool {
    exists|i: int|
        0 <= i < s.len() && u[j] == #[trigger] s[i] && r[i] == j && forall|k: int|
            0 <= k < i ==> #[trigger] r[k] < j
}

/// Collapsing duplicates keeps the first occurrence of each design, in
/// input order, and maps each input to its kept duplicate.
pub proof fn law_collapse_keeps_first_occurrences(s: Seq<DesignVector>)
    ensures
        collapse_ok(s, collapsed(s).0, collapsed(s).1),
    decreases s.len(),
{
    if s.len() > 0 {
        let t = s.drop_last();
        law_collapse_keeps_first_occurrences(t);
        let (u, r) = collapsed(t);
        let x = s.last();
        let n = s.len() - 1;
        lemma_find_design(u, x, u.len() as int);
        let j = find_design(u, x, u.len() as int);
        let (u2, r2) = collapsed(s);
        assert(forall|i: int| 0 <= i < n ==> s[i] == t[i]);
        if j >= 0 {
            assert(u2 == u && r2 == r.push(j));
            assert forall|i: int| 0 <= i < s.len() implies 0 <= #[trigger] r2[i] < u2.len()
                && same_design(u2[r2[i]], s[i]) by {
                if i < n {
                    assert(r2[i] == r[i]);
                }
            }
            assert forall|jj: int| 0 <= jj < u2.len() implies #[trigger] kept_first(s, u2, r2, jj) by {
                assert(kept_first(t, u, r, jj));
                let i = choose|i: int|
                    0 <= i < t.len() && u[jj] == #[trigger] t[i] && r[i] == jj && forall|k: int|
                        0 <= k < i ==> #[trigger] r[k] < jj;
                assert(s[i] == t[i]);
                assert forall|k: int| 0 <= k < i implies #[trigger] r2[k] < jj by {
                    assert(r2[k] == r[k]);
                }
            }
        } else {
            assert(u2 == u.push(x) && r2 == r.push(u.len() as int));
            assert forall|i: int| 0 <= i < s.len() implies 0 <= #[trigger] r2[i] < u2.len()
                && same_design(u2[r2[i]], s[i]) by {
                if i < n {
                    assert(r2[i] == r[i]);
                    assert(u2[r[i]] == u[r[i]]);
                }
            }
            assert forall|a: int, b: int| 0 <= a < b < u2.len() implies !same_design(
                #[trigger] u2[a],
                #[trigger] u2[b],
            ) by {
                if b < u.len() {
                    assert(u2[a] == u[a] && u2[b] == u[b]);
                } else {
                    assert(u2[b] == x);
                    assert(u2[a] == u[a]);
                }
            }
            assert forall|jj: int| 0 <= jj < u2.len() implies #[trigger] kept_first(s, u2, r2, jj) by {
                if jj < u.len() {
                    assert(kept_first(t, u, r, jj));
                    let i = choose|i: int|
                        0 <= i < t.len() && u[jj] == #[trigger] t[i] && r[i] == jj && forall|k: int|
                            0 <= k < i ==> #[trigger] r[k] < jj;
                    assert(s[i] == t[i]);
                    assert(u2[jj] == u[jj]);
                    assert forall|k: int| 0 <= k < i implies #[trigger] r2[k] < jj by {
                        assert(r2[k] == r[k]);
                    }
                } else {
                    assert(u2[jj] == s[n]);
                    assert forall|k: int| 0 <= k < n implies #[trigger] r2[k] < jj by {
                        assert(r2[k] == r[k]);
                    }
                }
            }
        }
    }
}

/// A design variable of a study: its identifier and its range.
#[derive(Clone, Copy, Debug, PartialEq, Eq, Structural)]
pub struct VariableSpec {
    pub id: u16,
    pub range: VariableRange,
}

/// At most 32 variables, each with a nonempty range and a positive step.
pub open spec fn valid_variables(variables: Seq<VariableSpec>) -> bool {
    &&& variables.len() <= 32
    &&& forall|i: int|
        0 <= i < variables.len() ==> (#[trigger] variables[i]).range.minimum
            <= variables[i].range.maximum && variables[i].range.quantum > 0
}

/// The first `variables.len()` values quantised into their variables'
/// ranges; the rest as given.
pub open spec fn quantized_values(variables: Seq<VariableSpec>, values: Seq<i32>) -> Seq<i32> {
    Seq::new(
        32,
        |i: int|
            if i < variables.len() {
                quantized(values[i] as int, variables[i].range) as i32
            } else {
                values[i]
            },
    )
}

/// Some ballast-mass variable is zero among the quantised values.
pub open spec fn ballast_absent(variables: Seq<VariableSpec>, q: Seq<i32>, mass_id: u16) -> bool {
    exists|i: int| 0 <= i < variables.len() && variables[i].id == mass_id && q[i] == 0
}

/// The values of a design: quantised, and with no ballast mass, every
/// ballast-position variable at its minimum.
pub open spec fn design_values(
    variables: Seq<VariableSpec>,
    values: Seq<i32>,
    mass_id: u16,
    position_id: u16,
) -> Seq<i32> {
    let q = quantized_values(variables, values);
    if ballast_absent(variables, q, mass_id) {
        Seq::new(
            32,
            |i: int|
                if i < variables.len() && variables[i].id == position_id {
                    variables[i].range.minimum
                } else {
                    q[i]
                },
        )
    } else {
        q
    }
}

/// The bytes a design's model identities are taken over: the manifest
/// identity, then the design's values.
pub open spec fn design_bytes(manifest_identity: u32, values: Seq<i32>) -> Seq<u8> {
    le_u32(manifest_identity) + words_le(values.map_values(|v: i32| v as u32))
}

/// The identity of a design's materialised model in `slot` (0 to 3): the
/// CRC-32 of the design's bytes followed by the slot's number from 1.
pub open spec fn model_identity(manifest_identity: u32, values: Seq<i32>, slot: int) -> u32 {
    crc32_ieee_of(design_bytes(manifest_identity, values) + le_u32((slot + 1) as u32))
}

/// Builds a design from raw values for a study with `variables`: each value
/// quantised into its range, the ballast position at its minimum when the
/// ballast mass is zero, and the identities of the four materialised models
/// taken. The design's own identity is left 0 for the record library to
/// seal.
pub fn unsealed_design(
    manifest_identity: u32,
    variables: &[VariableSpec],
    values: [i32; 32],
    ballast_mass_id: u16,
    ballast_position_id: u16,
) -> (r: DesignVector)
    requires
        valid_variables(variables@),
    ensures
        r.identity == 0,
        r.manifest_identity == manifest_identity,
        r.value_count == variables@.len(),
        r.values@ == design_values(variables@, values@, ballast_mass_id, ballast_position_id),
        forall|slot: int|
            0 <= slot < 4 ==> r.materialized_ids@[slot] == model_identity(
                manifest_identity,
                r.values@.take(variables@.len() as int),
                slot,
            ),
{
    let n = variables.len();
    let ghost vars = variables@;
    let ghost q = quantized_values(vars, values@);
    let mut v = values;
    let mut ballast_zero = false;
    let mut i: usize = 0;
    while i < n
        invariant
            n == vars.len() <= 32,
            vars == variables@,
            valid_variables(vars),
            q == quantized_values(vars, values@),
            i <= n,
            v@.len() == 32,
            forall|k: int| 0 <= k < 32 ==> #[trigger] v@[k] == (if k < i { q[k] } else { values@[k] }),
            ballast_zero == exists|k: int| 0 <= k < i && vars[k].id == ballast_mass_id && q[k] == 0,
        decreases n - i,
    {
        let spec = variables[i];
        assert(vars[i as int] == spec);
        assert(v@[i as int] == values@[i as int]);
        let x = quantize_clamp(v[i], spec.range);
        assert(q[i as int] == x);
        v.set(i, x);
        if spec.id == ballast_mass_id && x == 0 {
            ballast_zero = true;
        }
        i += 1;
    }
    assert(v@ =~= q);
    if ballast_zero {
        let mut j: usize = 0;
        while j < n
            invariant
                n == vars.len() <= 32,
                vars == variables@,
                j <= n,
                v@.len() == 32,
                forall|k: int|
                    0 <= k < 32 ==> #[trigger] v@[k] == (if k < j && vars[k].id
                        == ballast_position_id {
                        vars[k].range.minimum
                    } else {
                        q[k]
                    }),
            decreases n - j,
        {
            if variables[j].id == ballast_position_id {
                v.set(j, variables[j].range.minimum);
            }
            j += 1;
        }
    }
    assert(v@ =~= design_values(vars, values@, ballast_mass_id, ballast_position_id));
    let mut bytes: Vec<u8> = Vec::new();
    push_u32(&mut bytes, manifest_identity);
    let mut k: usize = 0;
    while k < n
        invariant
            n <= 32,
            v@.len() == 32,
            k <= n,
            bytes@ == design_bytes(manifest_identity, v@.take(k as int)),
        decreases n - k,
    {
        let ghost before = v@.take(k as int).map_values(|x: i32| x as u32);
        push_u32(&mut bytes, v[k] as u32);
        assert(v@.take(k + 1).map_values(|x: i32| x as u32).drop_last() =~= before);
        assert(v@.take(k + 1).map_values(|x: i32| x as u32).last() == v@[k as int] as u32);
        k += 1;
        assert(bytes@ =~= design_bytes(manifest_identity, v@.take(k as int)));
    }
    let ghost base = bytes@;
    let mut ids = [0u32; 4];
    let mut slot: usize = 0;
    while slot < 4
        invariant
            bytes@ == base,
            base == design_bytes(manifest_identity, v@.take(n as int)),
            ids@.len() == 4,
            slot <= 4,
            forall|s: int| 0 <= s < slot ==> #[trigger] ids@[s] == crc32_ieee_of(
                base + le_u32((s + 1) as u32),
            ),
        decreases 4 - slot,
    {
        push_u32(&mut bytes, (slot + 1) as u32);
        let id = crc32(bytes.as_slice());
        ids.set(slot, id);
        bytes.truncate(bytes.len() - 4);
        assert(bytes@ =~= base);
        slot += 1;
    }
    DesignVector {
        identity: 0,
        manifest_identity,
        value_count: n as u8,
        values: v,
        materialized_ids: ids,
    }
}

/// The value of variable `id` in a design, or `default` when the study has
/// no such variable.
pub open spec fn value_of(
    variables: Seq<VariableSpec>,
    design: DesignVector,
    id: u16,
    default: i32,
    k: int,
) -> i32
    decreases design.value_count - k,
{
    if k >= design.value_count {
        default
    } else if variables[k].id == id {
        design.values[k]
    } else {
        value_of(variables, design, id, default, k + 1)
    }
}

/// Looks up the value of variable `id` in a design: the first of the
/// design's variables with that identifier.
pub fn value_for(variables: &[VariableSpec], design: &DesignVector, id: u16, default: i32) -> (r:
    i32)
    requires
        design.value_count <= variables@.len(),
        design.value_count <= 32,
    ensures
        r == value_of(variables@, *design, id, default, 0),
{
    let count = design.value_count as usize;
    let mut i: usize = 0;
    while i < count
        invariant
            count == design.value_count <= variables@.len(),
            count <= 32,
            i <= count,
            value_of(variables@, *design, id, default, 0) == value_of(
                variables@,
                *design,
                id,
                default,
                i as int,
            ),
        decreases count - i,
    {
        if variables[i].id == id {
            return design.values[i];
        }
        i += 1;
    }
    default
}

// ---------------------------------------------------------------------------
// Constraints and feasibility

/// How a constraint compares a metric aggregate with its threshold.
#[derive(Clone, Copy, Debug, PartialEq, Eq, Structural)]
pub enum ConstraintOp {
    AtLeast,
    AtMost,
    Equal,
}

/// One evaluated constraint: its comparison, threshold and normalising
/// scale, and the aggregate value it was evaluated on.
#[derive(Clone, Copy, Debug, PartialEq, Eq, Structural)]
pub struct ConstraintCheck {
    pub op: ConstraintOp,
    pub threshold: i32,
    pub scale: u32,
    pub value: i32,
}

/// By how much the value misses the constraint (0 when it is met).
pub open spec fn excess(c: ConstraintCheck) -> int {
    match c.op {
        ConstraintOp::AtLeast => if c.threshold > c.value {
            c.threshold - c.value
        } else {
            0
        },
        ConstraintOp::AtMost => if c.value > c.threshold {
            c.value - c.threshold
        } else {
            0
        },
        ConstraintOp::Equal => if c.value >= c.threshold {
            c.value - c.threshold
        } else {
            c.threshold - c.value
        },
    }
}

/// The miss in parts per million of the constraint's scale (a zero scale
/// counts as 1).
pub open spec fn normalized_excess(c: ConstraintCheck) -> int {
    excess(c) * 1_000_000 / (if c.scale == 0 {
        1
    } else {
        c.scale as int
    })
}

pub open spec fn violations(cs: Seq<ConstraintCheck>) -> int
    decreases cs.len(),
{
    if cs.len() == 0 {
        0
    } else {
        violations(cs.drop_last()) + if excess(cs.last()) > 0 {
            1int
        } else {
            0int
        }
    }
}

pub open spec fn total_normalized_excess(cs: Seq<ConstraintCheck>) -> int
    decreases cs.len(),
{
    if cs.len() == 0 {
        0
    } else {
        total_normalized_excess(cs.drop_last()) + normalized_excess(cs.last())
    }
}

pub open spec fn worst_fatal_class(cases: Seq<CaseEvidence>) -> int
    decreases cases.len(),
{
    if cases.len() == 0 {
        0
    } else {
        let w = worst_fatal_class(cases.drop_last());
        let f = fatal_class_of(cases.last().outcome) as int;
        if f > w {
            f
        } else {
            w
        }
    }
}

/// The case checksums, each little-endian, in case order.
pub open spec fn case_checksum_bytes(cases: Seq<CaseEvidence>) -> Seq<u8> {
    concat_all(Seq::new(cases.len(), |i: int| le_u32(cases[i].checksum)))
}

/// What a candidate's cases and constraint results say about it.
#[derive(Clone, Copy, Debug, PartialEq, Eq, Structural)]
pub struct CandidateAssessment {
    pub fatal_class: u8,
    pub violated_constraints: u8,
    pub feasible: bool,
    pub case_crc: u32,
    pub normalized_violation: i64,
}

/// Assesses a candidate: its worst case outcome, how many constraints it
/// misses (counting to at most 255) and by how much in total (clamped to
/// the `i64` range), whether it is feasible (no fatal case, no missed
/// constraint), and the CRC-32 of its case checksums.
pub fn assess_candidate(cases: &[CaseEvidence], checks: &[ConstraintCheck]) -> (r:
    CandidateAssessment)
    requires
        checks@.len() <= u32::MAX,
    ensures
        r.fatal_class == worst_fatal_class(cases@),
        r.violated_constraints == clamp_int(violations(checks@), 0, 255),
        r.normalized_violation == clamp_int(
            total_normalized_excess(checks@),
            i64::MIN as int,
            i64::MAX as int,
        ),
        r.feasible <==> (worst_fatal_class(cases@) == 0 && violations(checks@) == 0),
        r.case_crc == crc32_ieee_of(case_checksum_bytes(cases@)),
{
    let mut violated: u8 = 0;
    let mut total: i128 = 0;
    let mut k: usize = 0;
    while k < checks.len()
        invariant
            k <= checks@.len() <= u32::MAX,
            violated == clamp_int(violations(checks@.take(k as int)), 0, 255),
            violations(checks@.take(k as int)) >= 0,
            total == total_normalized_excess(checks@.take(k as int)),
            0 <= total <= k * 0x2_0000_0000 * 1_000_000,
        decreases checks@.len() - k,
    {
        let c = checks[k];
        assert(checks@.take(k + 1).drop_last() =~= checks@.take(k as int));
        let value = c.value as i128;
        let threshold = c.threshold as i128;
        let delta: i128 = match c.op {
            ConstraintOp::AtLeast => if threshold > value {
                threshold - value
            } else {
                0
            },
            ConstraintOp::AtMost => if value > threshold {
                value - threshold
            } else {
                0
            },
            ConstraintOp::Equal => if value >= threshold {
                value - threshold
            } else {
                threshold - value
            },
        };
        let divisor: i128 = if c.scale == 0 {
            1
        } else {
            c.scale as i128
        };
        assert(0 <= (delta as int) * 1_000_000 / (divisor as int) <= 0x2_0000_0000 * 1_000_000)
            by (nonlinear_arith)
            requires
                0 <= delta <= 0x2_0000_0000,
                divisor >= 1,
        ;
        if delta > 0 {
            if violated < 255 {
                violated = violated + 1;
            }
        }
        total = total + delta * 1_000_000 / divisor;
        k += 1;
    }
    assert(checks@.take(checks@.len() as int) =~= checks@);
    let normalized: i64 = if total > i64::MAX as i128 {
        i64::MAX
    } else {
        total as i64
    };
    let mut fatal: u8 = 0;
    let mut bytes: Vec<u8> = Vec::new();
    let mut i: usize = 0;
    while i < cases.len()
        invariant
            i <= cases@.len(),
            fatal == worst_fatal_class(cases@.take(i as int)),
            bytes@ == concat_all(Seq::new(i as nat, |j: int| le_u32(cases@[j].checksum))),
        decreases cases@.len() - i,
    {
        assert(cases@.take(i + 1).drop_last() =~= cases@.take(i as int));
        let f = fatal_class(cases[i].outcome);
        if f > fatal {
            fatal = f;
        }
        proof {
            let pieces = Seq::new(i as nat, |j: int| le_u32(cases@[j].checksum));
            assert(Seq::new((i + 1) as nat, |j: int| le_u32(cases@[j].checksum)) =~= pieces.push(
                le_u32(cases@[i as int].checksum),
            ));
            lemma_concat_push(pieces, le_u32(cases@[i as int].checksum));
        }
        push_u32(&mut bytes, cases[i].checksum);
        i += 1;
    }
    assert(cases@.take(cases@.len() as int) =~= cases@);
    let case_crc = crc32(bytes.as_slice());
    CandidateAssessment {
        fatal_class: fatal,
        violated_constraints: violated,
        feasible: fatal == 0 && violated == 0,
        case_crc,
        normalized_violation: normalized,
    }
}

} // verus!
