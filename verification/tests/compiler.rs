use ksa64_host::compiler::hobby_sources_in_range;
use ksa64_host::decimal::decimal_in_range;
use ksa64_host::compiler::{quantize_hobby_sources, HobbyPackRules, MissionSource, MotorSource, VehicleSource};
use ksa64_host::decimal::{identity, CompileError};

fn rules() -> HobbyPackRules {
    HobbyPackRules {
        mass_bits: 16,
        altitude_bits: 8,
        area_bits: 20,
        recovery_cda_bits: 16,
        time_bits: 12,
        force_bits: 13,
        velocity_bits: 10,
        environment_identity: identity("ksa64.environment.hobby-standard").unwrap(),
        max_knots: 3,
    }
}

fn vehicle() -> VehicleSource<'static> {
    VehicleSource {
        schema: "ksa64.vehicle-source-v1",
        identity: "rocket-a",
        profile: "HobbyVerticalV1",
        dry_mass_kg: "1.5",
        length_m: " 2.0 ",
        diameter_m: "0.25",
        reference_area_m2: "0.05",
        body_cd: "0.5",
        drogue_cda_m2: "0.25",
        main_cda_m2: "1",
    }
}

fn motor() -> MotorSource<'static> {
    MotorSource {
        schema: "ksa64.motor-source-v1",
        identity: "motor-b",
        loaded_mass_kg: "0.5",
        propellant_mass_kg: "0.25",
        total_impulse_ns: "160",
        burn_time_s: "2",
        knots: vec![["0", "10"], ["1.25", "0"]],
    }
}

fn mission() -> MissionSource<'static> {
    MissionSource {
        schema: "ksa64.mission-source-v1",
        identity: "flight-1",
        vehicle_identity: "rocket-a",
        motor_identity: "motor-b",
        environment: "ksa64.environment.hobby-standard",
        launch_altitude_m: "100",
        rail_length_m: "1.5",
        main_deployment_altitude_m: "150",
        drogue_inflation_time_s: "0.5",
        main_inflation_time_s: "1",
        max_mission_time_s: "120",
        telemetry_period_s: "0.125",
        minimum_rail_exit_velocity_mps: "15",
    }
}

#[test]
fn hobby_sources_quantise_in_their_formats() {
    let p = quantize_hobby_sources(&vehicle(), &motor(), &mission(), &rules()).unwrap();
    assert_eq!(p.vehicle.identity, identity("rocket-a").unwrap());
    assert_eq!(p.vehicle.dry_mass, 98_304);
    assert_eq!(p.vehicle.length, 512);
    assert_eq!(p.vehicle.body_cd_q16, 32_768);
    assert_eq!(p.motor.total_impulse_q16, 160 << 16);
    assert_eq!(p.knots, vec![(0, 81_920), (5_120, 0)]);
    assert_eq!(p.mission.identity, identity("flight-1").unwrap());
    assert_eq!(p.mission.motor_identity, identity("motor-b").unwrap());
    assert_eq!(p.mission.telemetry_period, 512);
    assert_eq!(p.mission.minimum_rail_exit_velocity, 15 * 1024);
}

#[test]
fn hobby_sources_are_refused_in_check_order() {
    let mut v = vehicle();
    v.schema = "ksa64.vehicle-source-v2";
    v.profile = "Other";
    assert_eq!(quantize_hobby_sources(&v, &motor(), &mission(), &rules()).err(), Some(CompileError::Schema));
    let mut v = vehicle();
    v.profile = "Other";
    assert_eq!(quantize_hobby_sources(&v, &motor(), &mission(), &rules()).err(), Some(CompileError::Profile));
    let mut s = mission();
    s.motor_identity = "motor-c";
    assert_eq!(quantize_hobby_sources(&vehicle(), &motor(), &s, &rules()).err(), Some(CompileError::Identity));
    let mut s = mission();
    s.environment = "elsewhere";
    assert_eq!(quantize_hobby_sources(&vehicle(), &motor(), &s, &rules()).err(), Some(CompileError::Identity));
    let mut v = vehicle();
    v.diameter_m = "1e3";
    assert_eq!(quantize_hobby_sources(&v, &motor(), &mission(), &rules()).err(), Some(CompileError::Decimal));
    let mut m = motor();
    m.knots = vec![["0", "1"], ["1", "1"], ["2", "1"], ["3", "0"]];
    assert_eq!(quantize_hobby_sources(&vehicle(), &m, &mission(), &rules()).err(), Some(CompileError::Count));
    let mut m = motor();
    m.knots = vec![["0", "x"]];
    m.burn_time_s = "99999999999";
    assert_eq!(quantize_hobby_sources(&vehicle(), &m, &mission(), &rules()).err(), Some(CompileError::Decimal));
    let mut m = motor();
    m.burn_time_s = "99999999999";
    assert_eq!(quantize_hobby_sources(&vehicle(), &m, &mission(), &rules()).err(), Some(CompileError::Range));
}

#[test]
fn decimals_out_of_128_bit_range_are_detected_before_parsing() {
    assert!(decimal_in_range(" 1.5 ", 16));
    assert!(decimal_in_range("junk", 16));
    assert!(!decimal_in_range("-1", 127));
    assert!(decimal_in_range("1", 127));
    assert!(hobby_sources_in_range(&vehicle(), &motor(), &mission(), &rules()));
    let mut m = motor();
    m.knots = vec![["-1", "0"]];
    let mut wide = rules();
    wide.time_bits = 127;
    assert!(!hobby_sources_in_range(&vehicle(), &m, &mission(), &wide));
}
