//! The checks and quantisation of the vertical-flight pack compiler: the
//! schema, profile and identity cross-checks of a vehicle, motor and mission
//! source, and each decimal field scaled to its fixed-point value, in the
//! order the compiler reads them. The packs' binary encoding belongs to the
//! pack library.
use crate::decimal::{
    decimal_in_range, decimal_of, decimal_overflows, identity, identity_of, parse_scaled, trimmed,
    CompileError,
};
use vstd::prelude::*;
use vstd::string::StrSliceExecFns;

verus! {

/// A vehicle source, its fields as text.
pub struct VehicleSource<'a> {
    pub schema: &'a str,
    pub identity: &'a str,
    pub profile: &'a str,
    pub dry_mass_kg: &'a str,
    pub length_m: &'a str,
    pub diameter_m: &'a str,
    pub reference_area_m2: &'a str,
    pub body_cd: &'a str,
    pub drogue_cda_m2: &'a str,
    pub main_cda_m2: &'a str,
}

/// A motor source: its fields as text and its thrust curve as (time,
/// thrust) text pairs.
pub struct MotorSource<'a> {
    pub schema: &'a str,
    pub identity: &'a str,
    pub loaded_mass_kg: &'a str,
    pub propellant_mass_kg: &'a str,
    pub total_impulse_ns: &'a str,
    pub burn_time_s: &'a str,
    pub knots: Vec<[&'a str; 2]>,
}

/// A mission source, its fields as text.
pub struct MissionSource<'a> {
    pub schema: &'a str,
    pub identity: &'a str,
    pub vehicle_identity: &'a str,
    pub motor_identity: &'a str,
    pub environment: &'a str,
    pub launch_altitude_m: &'a str,
    pub rail_length_m: &'a str,
    pub main_deployment_altitude_m: &'a str,
    pub drogue_inflation_time_s: &'a str,
    pub main_inflation_time_s: &'a str,
    pub max_mission_time_s: &'a str,
    pub telemetry_period_s: &'a str,
    pub minimum_rail_exit_velocity_mps: &'a str,
}

/// The fixed-point formats of the packs' quantities (fractional bits), the
/// environment every mission must name, and the most thrust-curve knots a
/// motor pack holds.
#[derive(Clone, Copy, Debug, PartialEq, Eq, Structural)]
pub struct HobbyPackRules {
    pub mass_bits: u8,
    pub altitude_bits: u8,
    pub area_bits: u8,
    pub recovery_cda_bits: u8,
    pub time_bits: u8,
    pub force_bits: u8,
    pub velocity_bits: u8,
    pub environment_identity: u32,
    pub max_knots: usize,
}

impl HobbyPackRules {
    pub open spec fn wf(self) -> bool {
        &&& self.mass_bits < 128
        &&& self.altitude_bits < 128
        &&& self.area_bits < 128
        &&& self.recovery_cda_bits < 128
        &&& self.time_bits < 128
        &&& self.force_bits < 128
        &&& self.velocity_bits < 128
        &&& self.max_knots <= 255
    }
}

/// The quantised vehicle: identity, then dry mass, length, diameter,
/// reference area, body drag coefficient (16 fractional bits), drogue and
/// main drag areas.
#[derive(Clone, Copy, Debug, PartialEq, Eq, Structural)]
pub struct HobbyVehicleFields {
    pub identity: u32,
    pub dry_mass: i32,
    pub length: i32,
    pub diameter: i32,
    pub reference_area: i32,
    pub body_cd_q16: i32,
    pub drogue_cda: i32,
    pub main_cda: i32,
}

/// The quantised motor, apart from its thrust curve.
#[derive(Clone, Copy, Debug, PartialEq, Eq, Structural)]
pub struct HobbyMotorFields {
    pub identity: u32,
    pub loaded_mass: i32,
    pub propellant_mass: i32,
    pub total_impulse_q16: i32,
    pub burn_time: i32,
}

/// The quantised mission.
#[derive(Clone, Copy, Debug, PartialEq, Eq, Structural)]
pub struct HobbyMissionFields {
    pub identity: u32,
    pub vehicle_identity: u32,
    pub motor_identity: u32,
    pub environment_identity: u32,
    pub launch_altitude: i32,
    pub rail_length: i32,
    pub main_deployment_altitude: i32,
    pub drogue_inflation_time: i32,
    pub main_inflation_time: i32,
    pub max_mission_time: i32,
    pub telemetry_period: i32,
    pub minimum_rail_exit_velocity: i32,
}

/// Everything the packs are built from: the three quantised sources and the
/// motor's knots as (time, thrust) values, in curve order.
pub struct HobbyPackFields {
    pub vehicle: HobbyVehicleFields,
    pub motor: HobbyMotorFields,
    pub knots: Vec<(i32, i32)>,
    pub mission: HobbyMissionFields,
}

/// One decimal field scaled to `bits` fractional bits.
pub open spec fn scaled_field(text: &str, bits: u8) -> Result<i32, CompileError> {
    decimal_of(trimmed(text@), bits as nat)
}

/// The first error among results checked in order.
pub open spec fn first_error(rs: Seq<Result<i32, CompileError>>) -> Option<CompileError>
    decreases rs.len(),
{
    if rs.len() == 0 {
        None
    } else {
        match rs[0] {
            Err(e) => Some(e),
            Ok(_) => first_error(rs.drop_first()),
        }
    }
}

pub open spec fn value_of(r: Result<i32, CompileError>) -> i32 {
    match r {
        Ok(v) => v,
        Err(_) => 0,
    }
}

pub open spec fn vehicle_results(v: VehicleSource, b: HobbyPackRules) -> Seq<Result<i32, CompileError>> {
    seq![
        scaled_field(v.dry_mass_kg, b.mass_bits),
        scaled_field(v.length_m, b.altitude_bits),
        scaled_field(v.diameter_m, b.altitude_bits),
        scaled_field(v.reference_area_m2, b.area_bits),
        scaled_field(v.body_cd, 16),
        scaled_field(v.drogue_cda_m2, b.recovery_cda_bits),
        scaled_field(v.main_cda_m2, b.recovery_cda_bits),
    ]
}

/// The knots' fields in reading order: each knot's time, then its thrust.
pub open spec fn knot_results(knots: Seq<[&str; 2]>, b: HobbyPackRules) -> Seq<
    Result<i32, CompileError>,
> {
    Seq::new(
        2 * knots.len(),
        |i: int|
            if i % 2 == 0 {
                scaled_field(knots[i / 2][0], b.time_bits)
            } else {
                scaled_field(knots[i / 2][1], b.force_bits)
            },
    )
}

pub open spec fn motor_results(m: MotorSource, b: HobbyPackRules) -> Seq<Result<i32, CompileError>> {
    seq![
        scaled_field(m.loaded_mass_kg, b.mass_bits),
        scaled_field(m.propellant_mass_kg, b.mass_bits),
        scaled_field(m.total_impulse_ns, 16),
        scaled_field(m.burn_time_s, b.time_bits),
    ]
}

pub open spec fn mission_results(s: MissionSource, b: HobbyPackRules) -> Seq<Result<i32, CompileError>> {
    seq![
        scaled_field(s.launch_altitude_m, b.altitude_bits),
        scaled_field(s.rail_length_m, b.altitude_bits),
        scaled_field(s.main_deployment_altitude_m, b.altitude_bits),
        scaled_field(s.drogue_inflation_time_s, b.time_bits),
        scaled_field(s.main_inflation_time_s, b.time_bits),
        scaled_field(s.max_mission_time_s, b.time_bits),
        scaled_field(s.telemetry_period_s, b.time_bits),
        scaled_field(s.minimum_rail_exit_velocity_mps, b.velocity_bits),
    ]
}

/// What the compiler makes of three sources, before the packs are encoded:
/// `Schema` unless each source names its own schema, `Profile` unless the
/// vehicle is a hobby vertical one, `Identity` where the vehicle's or the
/// motor's identity is not a usable one, the mission names another vehicle
/// or motor, or its environment is not the hobby environment; then each
/// vehicle field in turn; `Count` where the motor has too many knots; then
/// each knot, each motor field, the mission's identity and each mission
/// field in turn, the first that fails giving its error.
pub open spec fn hobby_fields(
    v: VehicleSource,
    m: MotorSource,
    s: MissionSource,
    b: HobbyPackRules,
) -> Result<(HobbyVehicleFields, HobbyMotorFields, Seq<(i32, i32)>, HobbyMissionFields), CompileError> {
    match sources_header(v, m, s, b) {
        Err(e) => Err(e),
        Ok((vid, mid)) => hobby_values(v, m, s, b, vid, mid),
    }
}

/// The schema, profile and identity checks, giving the vehicle's and the
/// motor's identities.
pub open spec fn sources_header(v: VehicleSource, m: MotorSource, s: MissionSource, b: HobbyPackRules) -> Result<(u32, u32), CompileError> {
    if v.schema@ != "ksa64.vehicle-source-v1"@ || m.schema@ != "ksa64.motor-source-v1"@
        || s.schema@ != "ksa64.mission-source-v1"@ {
        Err(CompileError::Schema)
    } else if v.profile@ != "HobbyVerticalV1"@ {
        Err(CompileError::Profile)
    } else if identity_of(v.identity) is Err {
        Err(CompileError::Identity)
    } else if identity_of(m.identity) is Err {
        Err(CompileError::Identity)
    } else if s.vehicle_identity@ != v.identity@ || s.motor_identity@ != m.identity@ {
        Err(CompileError::Identity)
    } else if identity_of(s.environment) is Err || identity_of(s.environment)->Ok_0
        != b.environment_identity {
        Err(CompileError::Identity)
    } else {
        Ok((identity_of(v.identity)->Ok_0, identity_of(m.identity)->Ok_0))
    }
}

/// The quantised fields, once the sources' headers have passed.
pub open spec fn hobby_values(
    v: VehicleSource,
    m: MotorSource,
    s: MissionSource,
    b: HobbyPackRules,
    vid: u32,
    mid: u32,
) -> Result<(HobbyVehicleFields, HobbyMotorFields, Seq<(i32, i32)>, HobbyMissionFields), CompileError> {
    if first_error(vehicle_results(v, b)) is Some {
        Err(first_error(vehicle_results(v, b))->Some_0)
    } else if m.knots@.len() > b.max_knots {
        Err(CompileError::Count)
    } else if first_error(knot_results(m.knots@, b)) is Some {
        Err(first_error(knot_results(m.knots@, b))->Some_0)
    } else if first_error(motor_results(m, b)) is Some {
        Err(first_error(motor_results(m, b))->Some_0)
    } else if identity_of(s.identity) is Err {
        Err(CompileError::Identity)
    } else if first_error(mission_results(s, b)) is Some {
        Err(first_error(mission_results(s, b))->Some_0)
    } else {
        let vr = vehicle_results(v, b);
        let kr = knot_results(m.knots@, b);
        let mr = motor_results(m, b);
        let sr = mission_results(s, b);
        Ok(
            (
                HobbyVehicleFields {
                    identity: vid,
                    dry_mass: value_of(vr[0]),
                    length: value_of(vr[1]),
                    diameter: value_of(vr[2]),
                    reference_area: value_of(vr[3]),
                    body_cd_q16: value_of(vr[4]),
                    drogue_cda: value_of(vr[5]),
                    main_cda: value_of(vr[6]),
                },
                HobbyMotorFields {
                    identity: mid,
                    loaded_mass: value_of(mr[0]),
                    propellant_mass: value_of(mr[1]),
                    total_impulse_q16: value_of(mr[2]),
                    burn_time: value_of(mr[3]),
                },
                knot_pairs(kr.map_values(|x: Result<i32, CompileError>| value_of(x)), m.knots@.len()),
                HobbyMissionFields {
                    identity: identity_of(s.identity)->Ok_0,
                    vehicle_identity: vid,
                    motor_identity: mid,
                    environment_identity: b.environment_identity,
                    launch_altitude: value_of(sr[0]),
                    rail_length: value_of(sr[1]),
                    main_deployment_altitude: value_of(sr[2]),
                    drogue_inflation_time: value_of(sr[3]),
                    main_inflation_time: value_of(sr[4]),
                    max_mission_time: value_of(sr[5]),
                    telemetry_period: value_of(sr[6]),
                    minimum_rail_exit_velocity: value_of(sr[7]),
                },
            ),
        )
    }
}

/// No decimal field of the sources is one on which the decimal parser's
/// 128-bit arithmetic cannot go on (there the compiler panics).
pub open spec fn sources_in_range(v: VehicleSource, m: MotorSource, s: MissionSource, b: HobbyPackRules) -> bool {
    &&& forall|i: int| 0 <= i < 7 ==> !#[trigger] overflow_at(vehicle_texts(v, b), i)
    &&& forall|i: int| 0 <= i < 4 ==> !#[trigger] overflow_at(motor_texts(m, b), i)
    &&& forall|i: int| 0 <= i < 8 ==> !#[trigger] overflow_at(mission_texts(s, b), i)
    &&& forall|k: int|
        0 <= k < m.knots@.len() ==> !decimal_overflows(
            trimmed((#[trigger] m.knots@[k])[0]@),
            b.time_bits as nat,
        ) && !decimal_overflows(trimmed(m.knots@[k][1]@), b.force_bits as nat)
}

pub open spec fn overflow_at(texts: Seq<(Seq<char>, u8)>, i: int) -> bool {
    decimal_overflows(trimmed(texts[i].0), texts[i].1 as nat)
}

pub open spec fn vehicle_texts(v: VehicleSource, b: HobbyPackRules) -> Seq<(Seq<char>, u8)> {
    seq![
        (v.dry_mass_kg@, b.mass_bits),
        (v.length_m@, b.altitude_bits),
        (v.diameter_m@, b.altitude_bits),
        (v.reference_area_m2@, b.area_bits),
        (v.body_cd@, 16u8),
        (v.drogue_cda_m2@, b.recovery_cda_bits),
        (v.main_cda_m2@, b.recovery_cda_bits),
    ]
}

pub open spec fn motor_texts(m: MotorSource, b: HobbyPackRules) -> Seq<(Seq<char>, u8)> {
    seq![
        (m.loaded_mass_kg@, b.mass_bits),
        (m.propellant_mass_kg@, b.mass_bits),
        (m.total_impulse_ns@, 16u8),
        (m.burn_time_s@, b.time_bits),
    ]
}

pub open spec fn mission_texts(s: MissionSource, b: HobbyPackRules) -> Seq<(Seq<char>, u8)> {
    seq![
        (s.launch_altitude_m@, b.altitude_bits),
        (s.rail_length_m@, b.altitude_bits),
        (s.main_deployment_altitude_m@, b.altitude_bits),
        (s.drogue_inflation_time_s@, b.time_bits),
        (s.main_inflation_time_s@, b.time_bits),
        (s.max_mission_time_s@, b.time_bits),
        (s.telemetry_period_s@, b.time_bits),
        (s.minimum_rail_exit_velocity_mps@, b.velocity_bits),
    ]
}

/// The values read two at a time as (time, thrust) pairs.
pub open spec fn knot_pairs(vals: Seq<i32>, n: nat) -> Seq<(i32, i32)> {
    Seq::new(n, |k: int| (vals[2 * k], vals[2 * k + 1]))
}

/// The knots' texts in reading order, each with its fractional bits.
pub open spec fn knot_texts(knots: Seq<[&str; 2]>, b: HobbyPackRules) -> Seq<(&str, u8)> {
    Seq::new(
        2 * knots.len(),
        |i: int|
            if i % 2 == 0 {
                (knots[i / 2][0], b.time_bits)
            } else {
                (knots[i / 2][1], b.force_bits)
            },
    )
}

/// The results of scaling each text to its number of fractional bits.
pub open spec fn field_results(texts: Seq<(&str, u8)>) -> Seq<Result<i32, CompileError>> {
    Seq::new(texts.len(), |i: int| scaled_field(texts[i].0, texts[i].1))
}

proof fn lemma_first_error_skip(rs: Seq<Result<i32, CompileError>>, i: int)
    requires
        0 <= i < rs.len(),
    ensures
        first_error(rs.skip(i)) == match rs[i] {
            Err(e) => Some(e),
            Ok(_) => first_error(rs.skip(i + 1)),
        },
{
    assert(rs.skip(i)[0] == rs[i]);
    assert(rs.skip(i).drop_first() =~= rs.skip(i + 1));
}

/// Scales each text in order and stops at the first that fails.
fn scale_fields(texts: &[(&str, u8)]) -> (r: Result<Vec<i32>, CompileError>)
    requires
        forall|i: int|
            0 <= i < texts@.len() ==> (#[trigger] texts@[i]).1 < 128 && !decimal_overflows(
                trimmed(texts@[i].0@),
                texts@[i].1 as nat,
            ),
    ensures
        match first_error(field_results(texts@)) {
            Some(e) => r == Err::<Vec<i32>, CompileError>(e),
            None => r matches Ok(vals) && vals@ == field_results(texts@).map_values(
                |x: Result<i32, CompileError>| value_of(x),
            ),
        },
{
    let ghost rs = field_results(texts@);
    let mut vals: Vec<i32> = Vec::new();
    let mut i: usize = 0;
    assert(rs.skip(0) =~= rs);
    while i < texts.len()
        invariant
            i <= texts@.len(),
            rs == field_results(texts@),
            rs.len() == texts@.len(),
            forall|j: int|
                0 <= j < texts@.len() ==> (#[trigger] texts@[j]).1 < 128 && !decimal_overflows(
                    trimmed(texts@[j].0@),
                    texts@[j].1 as nat,
                ),
            first_error(rs) == first_error(rs.skip(i as int)),
            vals@ == rs.take(i as int).map_values(|x: Result<i32, CompileError>| value_of(x)),
        decreases texts@.len() - i,
    {
        let (text, bits) = texts[i];
        proof {
            lemma_first_error_skip(rs, i as int);
            assert(texts@[i as int] == (text, bits));
        }
        match parse_scaled(text, bits) {
            Err(e) => {
                return Err(e);
            },
            Ok(x) => {
                vals.push(x);
                proof {
                    assert(rs.take(i + 1) =~= rs.take(i as int).push(rs[i as int]));
                    assert(vals@ =~= rs.take(i + 1).map_values(
                        |x: Result<i32, CompileError>| value_of(x),
                    ));
                }
            },
        }
        i += 1;
    }
    assert(rs.skip(rs.len() as int) =~= Seq::<Result<i32, CompileError>>::empty());
    assert(rs.take(rs.len() as int) =~= rs);
    Ok(vals)
}

fn check_sources(v: &VehicleSource, m: &MotorSource, s: &MissionSource, rules: &HobbyPackRules) -> (r:
    Result<(u32, u32), CompileError>)
    ensures
        r == sources_header(*v, *m, *s, *rules),
{
    if !same_text(v.schema, "ksa64.vehicle-source-v1") || !same_text(m.schema, "ksa64.motor-source-v1")
        || !same_text(s.schema, "ksa64.mission-source-v1") {
        return Err(CompileError::Schema);
    }
    if !same_text(v.profile, "HobbyVerticalV1") {
        return Err(CompileError::Profile);
    }
    let vid = match identity(v.identity) {
        Ok(x) => x,
        Err(_) => return Err(CompileError::Identity),
    };
    let mid = match identity(m.identity) {
        Ok(x) => x,
        Err(_) => return Err(CompileError::Identity),
    };
    if !same_text(s.vehicle_identity, v.identity) || !same_text(s.motor_identity, m.identity) {
        return Err(CompileError::Identity);
    }
    match identity(s.environment) {
        Ok(x) => {
            if x != rules.environment_identity {
                return Err(CompileError::Identity);
            }
        },
        Err(_) => return Err(CompileError::Identity),
    }
    Ok((vid, mid))
}

fn flatten_knots<'a>(knots: &Vec<[&'a str; 2]>, rules: &HobbyPackRules) -> (r: Vec<(&'a str, u8)>)
    requires
        knots@.len() <= 255,
    ensures
        r@ == knot_texts(knots@, *rules),
{
    let mut flat: Vec<(&str, u8)> = Vec::new();
    let mut k: usize = 0;
    while k < knots.len()
        invariant
            k <= knots@.len() <= 255,
            flat@ =~= knot_texts(knots@.take(k as int), *rules),
        decreases knots@.len() - k,
    {
        let knot = knots[k];
        flat.push((knot[0], rules.time_bits));
        flat.push((knot[1], rules.force_bits));
        proof {
            let t = knot_texts(knots@.take(k + 1), *rules);
            assert forall|i: int| 0 <= i < 2 * (k + 1) implies flat@[i] == t[i] by {
                if i >= 2 * k {
                    assert(i / 2 == k);
                } else {
                    assert(knots@.take(k + 1)[i / 2] == knots@.take(k as int)[i / 2]);
                }
            }
            assert(flat@ =~= t);
        }
        k += 1;
    }
    assert(knots@.take(knots@.len() as int) =~= knots@);
    flat
}

fn pair_up(vals: &Vec<i32>, n: usize) -> (r: Vec<(i32, i32)>)
    requires
        vals@.len() == 2 * n,
        n <= 255,
    ensures
        r@ == knot_pairs(vals@, n as nat),
{
    let mut out: Vec<(i32, i32)> = Vec::new();
    let mut j: usize = 0;
    while j < n
        invariant
            j <= n <= 255,
            vals@.len() == 2 * n,
            out@ =~= knot_pairs(vals@, j as nat),
        decreases n - j,
    {
        out.push((vals[2 * j], vals[2 * j + 1]));
        j += 1;
    }
    out
}

/// Checks three sources and quantises their fields as the pack compiler
/// does, ahead of encoding the packs.
#[verifier::spinoff_prover]
#[verifier::rlimit(100)]
pub fn quantize_hobby_sources(
    v: &VehicleSource,
    m: &MotorSource,
    s: &MissionSource,
    rules: &HobbyPackRules,
) -> (r: Result<HobbyPackFields, CompileError>)
    requires
        rules.wf(),
        sources_in_range(*v, *m, *s, *rules),
    ensures
        match hobby_fields(*v, *m, *s, *rules) {
            Ok((vf, mf, knots, sf)) => r matches Ok(p) && p.vehicle == vf && p.motor == mf
                && p.knots@ == knots && p.mission == sf,
            Err(e) => r matches Err(x) && x == e,
        },
{
    let (vid, mid) = match check_sources(v, m, s, rules) {
        Ok(ids) => ids,
        Err(e) => return Err(e),
    };
    let vt = vec![
        (v.dry_mass_kg, rules.mass_bits),
        (v.length_m, rules.altitude_bits),
        (v.diameter_m, rules.altitude_bits),
        (v.reference_area_m2, rules.area_bits),
        (v.body_cd, 16u8),
        (v.drogue_cda_m2, rules.recovery_cda_bits),
        (v.main_cda_m2, rules.recovery_cda_bits),
    ];
    proof {
        assert forall|i: int| 0 <= i < vt@.len() implies (#[trigger] vt@[i]).1 < 128
            && !decimal_overflows(trimmed(vt@[i].0@), vt@[i].1 as nat) by {
            assert(!overflow_at(vehicle_texts(*v, *rules), i));
        }
        assert(field_results(vt@) =~= vehicle_results(*v, *rules));
    }
    let vv = match scale_fields(vt.as_slice()) {
        Ok(x) => x,
        Err(e) => return Err(e),
    };
    if m.knots.len() > rules.max_knots {
        return Err(CompileError::Count);
    }
    let flat = flatten_knots(&m.knots, rules);
    proof {
        assert forall|i: int| 0 <= i < flat@.len() implies (#[trigger] flat@[i]).1 < 128
            && !decimal_overflows(trimmed(flat@[i].0@), flat@[i].1 as nat) by {
            assert(0 <= i / 2 < m.knots@.len());
            let kk = m.knots@[i / 2];
        }
        assert(field_results(flat@) =~= knot_results(m.knots@, *rules));
    }
    let kv = match scale_fields(flat.as_slice()) {
        Ok(x) => x,
        Err(e) => return Err(e),
    };
    let mt = vec![
        (m.loaded_mass_kg, rules.mass_bits),
        (m.propellant_mass_kg, rules.mass_bits),
        (m.total_impulse_ns, 16u8),
        (m.burn_time_s, rules.time_bits),
    ];
    proof {
        assert forall|i: int| 0 <= i < mt@.len() implies (#[trigger] mt@[i]).1 < 128
            && !decimal_overflows(trimmed(mt@[i].0@), mt@[i].1 as nat) by {
            assert(!overflow_at(motor_texts(*m, *rules), i));
        }
        assert(field_results(mt@) =~= motor_results(*m, *rules));
    }
    let mv = match scale_fields(mt.as_slice()) {
        Ok(x) => x,
        Err(e) => return Err(e),
    };
    let sid = match identity(s.identity) {
        Ok(x) => x,
        Err(_) => return Err(CompileError::Identity),
    };
    let st = vec![
        (s.launch_altitude_m, rules.altitude_bits),
        (s.rail_length_m, rules.altitude_bits),
        (s.main_deployment_altitude_m, rules.altitude_bits),
        (s.drogue_inflation_time_s, rules.time_bits),
        (s.main_inflation_time_s, rules.time_bits),
        (s.max_mission_time_s, rules.time_bits),
        (s.telemetry_period_s, rules.time_bits),
        (s.minimum_rail_exit_velocity_mps, rules.velocity_bits),
    ];
    proof {
        assert forall|i: int| 0 <= i < st@.len() implies (#[trigger] st@[i]).1 < 128
            && !decimal_overflows(trimmed(st@[i].0@), st@[i].1 as nat) by {
            assert(!overflow_at(mission_texts(*s, *rules), i));
        }
        assert(field_results(st@) =~= mission_results(*s, *rules));
    }
    let sv = match scale_fields(st.as_slice()) {
        Ok(x) => x,
        Err(e) => return Err(e),
    };
    let knots = pair_up(&kv, m.knots.len());
    let vehicle = HobbyVehicleFields {
        identity: vid,
        dry_mass: vv[0],
        length: vv[1],
        diameter: vv[2],
        reference_area: vv[3],
        body_cd_q16: vv[4],
        drogue_cda: vv[5],
        main_cda: vv[6],
    };
    let motor = HobbyMotorFields {
        identity: mid,
        loaded_mass: mv[0],
        propellant_mass: mv[1],
        total_impulse_q16: mv[2],
        burn_time: mv[3],
    };
    let mission = HobbyMissionFields {
        identity: sid,
        vehicle_identity: vid,
        motor_identity: mid,
        environment_identity: rules.environment_identity,
        launch_altitude: sv[0],
        rail_length: sv[1],
        main_deployment_altitude: sv[2],
        drogue_inflation_time: sv[3],
        main_inflation_time: sv[4],
        max_mission_time: sv[5],
        telemetry_period: sv[6],
        minimum_rail_exit_velocity: sv[7],
    };
    Ok(HobbyPackFields { vehicle, motor, knots, mission })
}

/// Texts with their fractional bits, as character sequences.
pub open spec fn texts_view(texts: Seq<(&str, u8)>) -> Seq<(Seq<char>, u8)> {
    texts.map_values(|t: (&str, u8)| (t.0@, t.1))
}

fn texts_in_range(texts: &[(&str, u8)]) -> (r: bool)
    requires
        forall|i: int| 0 <= i < texts@.len() ==> (#[trigger] texts@[i]).1 < 128,
    ensures
        r == forall|i: int| 0 <= i < texts@.len() ==> !#[trigger] overflow_at(texts_view(texts@), i),
{
    let mut i: usize = 0;
    while i < texts.len()
        invariant
            i <= texts@.len(),
            forall|j: int| 0 <= j < texts@.len() ==> (#[trigger] texts@[j]).1 < 128,
            forall|j: int| 0 <= j < i ==> !#[trigger] overflow_at(texts_view(texts@), j),
        decreases texts@.len() - i,
    {
        let (text, bits) = texts[i];
        assert(texts_view(texts@)[i as int] == (text@, bits));
        if !decimal_in_range(text, bits) {
            assert(overflow_at(texts_view(texts@), i as int));
            return false;
        }
        i += 1;
    }
    true
}

/// Whether every decimal field of the sources can be read: the condition
/// `quantize_hobby_sources` needs, for a caller to test first.
pub fn hobby_sources_in_range(
    v: &VehicleSource,
    m: &MotorSource,
    s: &MissionSource,
    rules: &HobbyPackRules,
) -> (r: bool)
    requires
        rules.wf(),
    ensures
        r == sources_in_range(*v, *m, *s, *rules),
{
    let vt = vec![
        (v.dry_mass_kg, rules.mass_bits),
        (v.length_m, rules.altitude_bits),
        (v.diameter_m, rules.altitude_bits),
        (v.reference_area_m2, rules.area_bits),
        (v.body_cd, 16u8),
        (v.drogue_cda_m2, rules.recovery_cda_bits),
        (v.main_cda_m2, rules.recovery_cda_bits),
    ];
    let mt = vec![
        (m.loaded_mass_kg, rules.mass_bits),
        (m.propellant_mass_kg, rules.mass_bits),
        (m.total_impulse_ns, 16u8),
        (m.burn_time_s, rules.time_bits),
    ];
    let st = vec![
        (s.launch_altitude_m, rules.altitude_bits),
        (s.rail_length_m, rules.altitude_bits),
        (s.main_deployment_altitude_m, rules.altitude_bits),
        (s.drogue_inflation_time_s, rules.time_bits),
        (s.main_inflation_time_s, rules.time_bits),
        (s.max_mission_time_s, rules.time_bits),
        (s.telemetry_period_s, rules.time_bits),
        (s.minimum_rail_exit_velocity_mps, rules.velocity_bits),
    ];
    let a = texts_in_range(vt.as_slice());
    let b = texts_in_range(mt.as_slice());
    let c = texts_in_range(st.as_slice());
    proof {
        assert(texts_view(vt@) =~= vehicle_texts(*v, *rules));
        assert(texts_view(mt@) =~= motor_texts(*m, *rules));
        assert(texts_view(st@) =~= mission_texts(*s, *rules));
    }
    if !a || !b || !c {
        return false;
    }
    let mut k: usize = 0;
    while k < m.knots.len()
        invariant
            k <= m.knots@.len(),
            rules.wf(),
            forall|j: int|
                0 <= j < k ==> !decimal_overflows(trimmed((#[trigger] m.knots@[j])[0]@), rules.time_bits as nat)
                    && !decimal_overflows(trimmed(m.knots@[j][1]@), rules.force_bits as nat),
        decreases m.knots@.len() - k,
    {
        let knot = m.knots[k];
        if !decimal_in_range(knot[0], rules.time_bits) || !decimal_in_range(knot[1], rules.force_bits) {
            return false;
        }
        k += 1;
    }
    true
}

/// Whether two texts are the same characters.
fn same_text(a: &str, b: &str) -> (r: bool)
    ensures
        r == (a@ == b@),
{
    let n = a.unicode_len();
    if n != b.unicode_len() {
        return false;
    }
    let mut i: usize = 0;
    while i < n
        invariant
            n == a@.len() == b@.len(),
            i <= n,
            forall|k: int| 0 <= k < i ==> a@[k] == b@[k],
        decreases n - i,
    {
        if a.get_char(i) != b.get_char(i) {
            return false;
        }
        i += 1;
    }
    assert(a@ =~= b@);
    true
}

} // verus!
