use sp3::entry::{PositionEntry, SP3Entry, Vector3D, VelocityEntry};
use sp3::{Constellation, ParsingError, SV};

fn g01() -> SV {
    SV::new(Constellation::GPS, 1)
}

fn v(x: i64, y: i64, z: i64) -> Vector3D {
    Vector3D::new(x, y, z)
}

fn entry(position: Vector3D) -> SP3Entry {
    SP3Entry::from_position_mm(position)
}

fn text(e: &SP3Entry) -> String {
    String::from_utf8(e.format(&g01())).unwrap()
}

#[test]
fn basic_data_formatting() {
    let data = entry(v(15402861499, 21607418873, -992500669)).with_clock_offset_ps(10571484);
    assert_eq!(
        text(&data),
        "PG01  15402.861499  21607.418873   -992.500669     10.571484\n"
    );
}

#[test]
fn basic_noclock_formatting() {
    let data = entry(v(15402861499, 21607418873, -992500669));
    assert_eq!(text(&data), "PG01  15402.861499  21607.418873   -992.500669\n");
}

#[test]
fn basic_maneuver_formatting() {
    let mut data = entry(v(-12593593500, 10170327650, -20354534400));
    data.maneuver = true;
    assert_eq!(
        text(&data),
        "PG01 -12593.593500  10170.327650 -20354.534400                                M\n"
    );
}

#[test]
fn clock_prediction_formatting() {
    let mut data = entry(v(-11044805800, -10475672350, 21929418200));
    data.predicted_clock = true;
    assert_eq!(
        text(&data),
        "PG01 -11044.805800 -10475.672350  21929.418200                             P\n"
    );
}

#[test]
fn orbit_prediction_formatting() {
    let data = SP3Entry::from_predicted_position_mm(v(-11044805800, -10475672350, 21929418200));
    assert_eq!(
        text(&data),
        "PG01 -11044.805800 -10475.672350  21929.418200                                 P\n"
    );
}

#[test]
fn dual_clock_orbit_prediction_formatting() {
    let mut data = SP3Entry::from_predicted_position_mm(v(-11044805800, -10475672350, 21929418200));
    data.predicted_clock = true;
    assert_eq!(
        text(&data),
        "PG01 -11044.805800 -10475.672350  21929.418200                             P   P\n"
    );
}

#[test]
fn basic_velocity_formatting() {
    let data = entry(v(15402861499, 21607418873, -992500669))
        .with_velocity(v(-8880949046, -23142274905, -14050679881));
    assert_eq!(
        text(&data),
        "PG01  15402.861499  21607.418873   -992.500669\nVG01  -8880.949046 -23142.274905 -14050.679881\n"
    );
}

// The drift column holds ten times the drift in nanoseconds per second:
// 8.9376 ns/s is written 89.376000.
#[test]
fn basic_velocity_drift_formatting() {
    let data = entry(v(15402861499, 21607418873, -992500669))
        .with_velocity(v(-8880949046, -23142274905, -14050679881))
        .with_clock_drift(89376000);
    assert_eq!(
        text(&data),
        "PG01  15402.861499  21607.418873   -992.500669\nVG01  -8880.949046 -23142.274905 -14050.679881     89.376000\n"
    );
}

#[test]
fn sp3_d_predicted_entry_formatting() {
    let mut data = SP3Entry::from_predicted_position_mm(v(-22335782004, -14656280389, -1218238499))
        .with_predicted_clock_offset_ps(-176397152);
    data.maneuver = true;
    data.clock_event = true;
    assert_eq!(
        text(&data),
        "PG01 -22335.782004 -14656.280389  -1218.238499   -176.397152              EP  MP\n"
    );
}

#[test]
fn scenario_entry_with_clock() {
    let data = entry(v(15402861499, 21607418873, -992500669)).with_clock_offset_ps(10571484);
    assert_eq!(
        text(&data),
        "PG01  15402.861499  21607.418873   -992.500669     10.571484\n"
    );
}

// A clock field reading 999999.999999 means an unknown clock.
#[test]
fn position_entry_parsing() {
    for (content, sv, x, y, z, clock, clock_event, clock_prediction, maneuver, orbit_prediction) in [
        (
            "PC01 -32312.652253  27060.656563    205.195454     63.035497",
            SV::new(Constellation::BeiDou, 1),
            -32312652253i64,
            27060656563i64,
            205195454i64,
            Some(63035497i64),
            false,
            false,
            false,
            false,
        ),
        (
            "PG01 -22335.782004 -14656.280389  -1218.238499   -176.397152 10  9 11 102      P",
            g01(),
            -22335782004,
            -14656280389,
            -1218238499,
            Some(-176397152),
            false,
            false,
            false,
            true,
        ),
        (
            "PG01 -22335.782004 -14656.280389  -1218.238499   -176.397152 10  9 11 102     MP",
            g01(),
            -22335782004,
            -14656280389,
            -1218238499,
            Some(-176397152),
            false,
            false,
            true,
            true,
        ),
        (
            "PG01 -22335.782004 -14656.280389  -1218.238499   -176.397152 10  9 11 102 E",
            g01(),
            -22335782004,
            -14656280389,
            -1218238499,
            Some(-176397152),
            true,
            false,
            false,
            false,
        ),
        (
            "PG01 -22335.782004 -14656.280389  -1218.238499   -176.397152 10  9 11 102  P",
            g01(),
            -22335782004,
            -14656280389,
            -1218238499,
            Some(-176397152),
            false,
            true,
            false,
            false,
        ),
        (
            "PG23      0.000000      0.000000      0.000000 999999.999999                  M",
            SV::new(Constellation::GPS, 23),
            0,
            0,
            0,
            None,
            false,
            false,
            true,
            false,
        ),
    ] {
        let entry = PositionEntry::parse(content.as_bytes(), true).unwrap();
        assert_eq!(entry.sv, sv);
        assert_eq!(entry.x_mm, x);
        assert_eq!(entry.y_mm, y);
        assert_eq!(entry.z_mm, z);
        assert_eq!(entry.clock_ps, clock);
        assert_eq!(entry.clock_event, clock_event);
        assert_eq!(entry.clock_prediction, clock_prediction);
        assert_eq!(entry.maneuver, maneuver);
        assert_eq!(entry.orbit_prediction, orbit_prediction);
    }
}

#[test]
fn sp3_d_predicted_position() {
    let content = "PG01 -22335.782004 -14656.280389  -1218.238499   -176.397152 10  9 11 102 EP  MP";
    let position = PositionEntry::parse(content.as_bytes(), true).unwrap();
    assert_eq!(position.sv, g01());
    assert_eq!(position.x_mm, -22335782004);
    assert_eq!(position.y_mm, -14656280389);
    assert_eq!(position.z_mm, -1218238499);
    assert!(position.clock_event);
    assert!(position.clock_prediction);
    assert!(position.maneuver);
    assert!(position.orbit_prediction);
}

#[test]
fn revision_a_position_without_letter() {
    let content = "P 12 -22335.782004 -14656.280389  -1218.238499   -176.397152";
    let position = PositionEntry::parse(content.as_bytes(), false).unwrap();
    assert_eq!(position.sv, SV::new(Constellation::GPS, 12));
}

#[test]
fn velocity_entry_parsing() {
    let content = "VG01  -8880.949046 -23142.274905 -14050.679881     89.376000";
    let entry = VelocityEntry::parse(content.as_bytes(), true).unwrap();
    let (sv, vel, drift) = entry.to_parts();
    assert_eq!(sv, g01());
    assert_eq!(vel, v(-8880949046, -23142274905, -14050679881));
    assert_eq!(drift, Some(89376000));
}

#[test]
fn bad_coordinates_are_reported() {
    let content = "PG01 -22335.78x004 -14656.280389  -1218.238499   -176.397152";
    match PositionEntry::parse(content.as_bytes(), true) {
        Err(ParsingError::Coordinates(f)) => assert_eq!(f, b" -22335.78x004".to_vec()),
        other => panic!("unexpected {:?}", other),
    }
}

#[test]
fn bad_clock_is_reported() {
    let content = "PG01 -22335.782004 -14656.280389  -1218.238499   -176.39715x";
    assert!(matches!(
        PositionEntry::parse(content.as_bytes(), true),
        Err(ParsingError::Clock(_))
    ));
}

#[test]
fn bad_satellite_is_reported() {
    let content = "PX01 -22335.782004 -14656.280389  -1218.238499   -176.397152";
    assert!(matches!(
        PositionEntry::parse(content.as_bytes(), true),
        Err(ParsingError::SV(_))
    ));
}

#[test]
fn entry_subtraction_keeps_common_fields() {
    let a = entry(v(10, 20, 30)).with_clock_offset_ps(7).with_velocity(v(1, 1, 1));
    let b = entry(v(1, 2, 3)).with_clock_offset_ps(5);
    let d = a.sub(&b);
    assert_eq!(d.position_mm, v(9, 18, 27));
    assert_eq!(d.clock_ps, Some(2));
    assert_eq!(d.velocity, None);
    assert_eq!(d.clock_drift, None);
}

#[test]
fn entry_subtraction_in_place_keeps_own_fields() {
    let mut a = entry(v(10, 20, 30)).with_clock_offset_ps(7).with_velocity(v(1, 1, 1));
    let b = entry(v(1, 2, 3)).with_clock_offset_ps(5);
    a.sub_assign(&b);
    assert_eq!(a.position_mm, v(9, 18, 27));
    assert_eq!(a.clock_ps, Some(2));
    assert_eq!(a.velocity, Some(v(1, 1, 1)));
}
