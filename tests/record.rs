use sp3::entry::{SP3Entry, Vector3D};
use sp3::record::SP3Key;
use sp3::{Constellation, DataType, Epoch, Header, MergeError, ParsingError, PredictionError, TimeScale, SP3, SV};

const FIXTURE: &str = "#dP2020  6 25  0  0  0.00000000       2 __u+U IGS14 FIT  GRG
## 2111 345600.00000000   900.00000000 59025 0.0000000000000
%c M  cc GPS ccc cccc cccc cccc cccc ccccc ccccc ccccc ccccc
%c cc cc ccc ccc cccc cccc cccc cccc ccccc ccccc ccccc ccccc
/* a comment line here
*  2020  6 25  0  0  0.00000000
PG03  -1490.224168  15550.044531 -21555.137342     10.000000
PE01 -11562.163582  14053.114306  23345.128269    100.000000
*  2020  6 25  0 15  0.00000000
PG03  -3800.388902  14678.852973 -21871.749478     10.090000
PE01 -13618.625154  13865.251337  22325.739925    100.900000
EOF
";

fn lines(text: &str) -> Vec<Vec<u8>> {
    text.lines().map(|l| l.as_bytes().to_vec()).collect()
}

fn gpst(hour: u8, minute: u8) -> Epoch {
    Epoch { year: 2020, month: 6, day: 25, hour, minute, second: 0, nanos: 0, timescale: TimeScale::GPST }
}

fn e01() -> SV {
    SV::new(Constellation::Galileo, 1)
}

fn g03() -> SV {
    SV::new(Constellation::GPS, 3)
}

fn fixture() -> SP3 {
    SP3::from_lines(&lines(FIXTURE)).unwrap()
}

#[test]
fn fixture_is_read() {
    let s = fixture();
    assert_eq!(s.len(), 4);
    assert_eq!(s.header.agency, b"GRG".to_vec());
    assert_eq!(s.header.constellation, Constellation::Mixed);
    assert_eq!(s.header.timescale, TimeScale::GPST);
    assert_eq!(s.header.week, 2111);
    assert_eq!(s.header.sampling_period_ns, 900_000_000_000);
    assert_eq!(s.comments, vec![b"a comment line here".to_vec()]);
    assert_eq!(s.header.satellites, vec![g03(), e01()]);
    assert_eq!(s.epochs(), vec![gpst(0, 0), gpst(0, 15)]);
    assert_eq!(s.total_epochs(), 2);
    assert_eq!(s.first_epoch(), Some(gpst(0, 0)));
    assert_eq!(s.last_epoch(), Some(gpst(0, 15)));
    let e = s.get(&SP3Key { sv: e01(), epoch: gpst(0, 15) }).unwrap();
    assert_eq!(e.position_mm, Vector3D::new(-13618625154, 13865251337, 22325739925));
    assert_eq!(e.clock_ps, Some(100900000));
    assert!(!s.has_satellite_velocity());
    assert!(s.has_satellite_clock_offset());
    assert!(!s.has_satellite_clock_drift());
    assert!(!s.has_satellite_maneuver());
    assert!(!s.has_satellite_clock_event());
    assert!(!s.has_satellite_positions_prediction());
}

#[test]
fn fixture_round_trip() {
    let s = fixture();
    assert_eq!(String::from_utf8(s.format()).unwrap(), FIXTURE);
}

#[test]
fn reading_stops_at_eof() {
    let text = format!("{}PG05  -1490.224168  15550.044531 -21555.137342     10.000000\n", FIXTURE);
    assert_eq!(SP3::from_lines(&lines(&text)).unwrap().len(), 4);
}

#[test]
fn short_descriptor_is_refused() {
    let text = "%c M  cc GPS\n";
    assert_eq!(
        SP3::from_lines(&lines(text)).unwrap_err(),
        ParsingError::MalformedDescriptor(b"%c M  cc GPS".to_vec())
    );
}

#[test]
fn bad_epoch_marker_is_refused() {
    let text = "*  2020 13 25  0  0  0.00000000\n";
    assert_eq!(SP3::from_lines(&lines(text)).unwrap_err(), ParsingError::EpochParsing);
}

#[test]
fn velocity_line_updates_entry() {
    let text = FIXTURE.replace(
        "PE01 -13618.625154  13865.251337  22325.739925    100.900000\n",
        "PE01 -13618.625154  13865.251337  22325.739925    100.900000\nVE01  -8880.949046 -23142.274905 -14050.679881     89.376000\n",
    );
    let s = SP3::from_lines(&lines(&text)).unwrap();
    let e = s.get(&SP3Key { sv: e01(), epoch: gpst(0, 15) }).unwrap();
    assert_eq!(e.velocity, Some(Vector3D::new(-8880949046, -23142274905, -14050679881)));
    assert_eq!(e.clock_drift, Some(89376000));
    assert_eq!(e.clock_ps, Some(100900000));
}

fn rate(delta_mm: i128) -> i64 {
    let n = delta_mm * 10_000_000_000_000;
    let d = 900_000_000_000i128;
    (if n >= 0 { (n + d / 2) / d } else { -((-n + d / 2) / d) }) as i64
}

#[test]
fn scenario_resolve_velocities() {
    let s = fixture().resolve_velocities();
    assert_eq!(s.header.data_type, DataType::Velocity);
    let first = s.get(&SP3Key { sv: e01(), epoch: gpst(0, 0) }).unwrap();
    assert_eq!(first.velocity, None);
    let v = s.get(&SP3Key { sv: e01(), epoch: gpst(0, 15) }).unwrap().velocity.unwrap();
    let expected = (
        (-13618.625154 - -11562.163582) / 900.0,
        (13865.251337 - 14053.114306) / 900.0,
        (22325.739925 - 23345.128269) / 900.0,
    );
    assert_eq!(v, Vector3D::new(rate(-2056461572), rate(-187862969), rate(-1019388344)));
    assert_eq!(v, Vector3D::new(-22849573022, -2087366322, -11326537156));
    for (got, want) in [(v.x, expected.0), (v.y, expected.1), (v.z, expected.2)] {
        assert!((got as f64 * 1e-10 - want).abs() < 1e-9);
    }
}

#[test]
fn resolve_velocities_twice_is_once() {
    let once = fixture().resolve_velocities();
    let twice = once.resolve_velocities();
    assert_eq!(once.data, twice.data);
    assert_eq!(once.header, twice.header);
}

#[test]
fn resolve_clock_drift_values() {
    let s = fixture().resolve_clock_drift();
    let e = s.get(&SP3Key { sv: e01(), epoch: gpst(0, 15) }).unwrap();
    assert_eq!(e.clock_drift, Some(10_000_000));
    let g = s.get(&SP3Key { sv: g03(), epoch: gpst(0, 15) }).unwrap();
    assert_eq!(g.clock_drift, Some(1_000_000));
    assert_eq!(s.header.data_type, DataType::Position);
    assert_eq!(s.get(&SP3Key { sv: e01(), epoch: gpst(0, 0) }).unwrap().clock_drift, None);
}

#[test]
fn resolve_clock_drift_twice_is_once() {
    let once = fixture().resolve_clock_drift();
    assert_eq!(once.resolve_clock_drift().data, once.data);
}

#[test]
fn resolve_dynamics_fills_both() {
    let s = fixture().resolve_dynamics();
    let e = s.get(&SP3Key { sv: e01(), epoch: gpst(0, 15) }).unwrap();
    assert_eq!(e.velocity, Some(Vector3D::new(-22849573022, -2087366322, -11326537156)));
    assert_eq!(e.clock_drift, Some(10_000_000));
    assert_eq!(s.header.data_type, DataType::Velocity);
}

#[test]
fn subtract_self_is_null() {
    let s = fixture().resolve_velocities();
    let null = s.substract(&s);
    assert_eq!(null.len(), s.len());
    for (k, v) in null.data.iter() {
        assert_eq!(v.position_mm, Vector3D::new(0, 0, 0), "{:?}", k);
        assert_eq!(v.clock_ps, Some(0));
        let orig = s.get(k).unwrap();
        assert_eq!(v.velocity.is_some(), orig.velocity.is_some());
        if let Some(vel) = v.velocity {
            assert_eq!(vel, Vector3D::new(0, 0, 0));
        }
        assert_eq!(v.clock_drift, None);
    }
}

#[test]
fn subtract_drops_missing_keys() {
    let s = fixture();
    let (left, _) = s.split(&gpst(0, 0));
    let d = s.substract(&left);
    assert_eq!(d.len(), 2);
}

#[test]
fn split_partitions() {
    let s = fixture();
    let (left, right) = s.split(&gpst(0, 0));
    assert_eq!(left.len(), 2);
    assert_eq!(right.len(), 2);
    assert!(left.data.iter().all(|(k, _)| k.epoch == gpst(0, 0)));
    assert!(right.data.iter().all(|(k, _)| k.epoch == gpst(0, 15)));
    assert_eq!(left.header, s.header);
    assert_eq!(right.comments, s.comments);
    let (all, none) = s.split(&gpst(1, 0));
    assert_eq!(all.len(), 4);
    assert_eq!(none.len(), 0);
}

#[test]
fn merge_combines_and_checks() {
    let mut a = fixture();
    let b = fixture().resolve_velocities();
    a.merge_mut(&b).unwrap();
    assert_eq!(a.len(), 4);
    assert!(a.get(&SP3Key { sv: e01(), epoch: gpst(0, 15) }).unwrap().velocity.is_some());

    let mut other = fixture();
    other.header.agency = b"ESA".to_vec();
    let mut c = fixture();
    assert_eq!(c.merge_mut(&other), Err(MergeError::DataProviderMismatch));
    let mut other = fixture();
    other.header.timescale = TimeScale::UTC;
    assert_eq!(c.merge_mut(&other), Err(MergeError::TimescaleMismatch));
    let mut other = fixture();
    other.header.coord_system = b"ITRF".to_vec();
    assert_eq!(c.merge_mut(&other), Err(MergeError::ReferenceFrameMismatch));
    assert_eq!(c.data, fixture().data);
}

#[test]
fn merge_upgrades_header() {
    let mut a = fixture();
    let mut b = fixture();
    b.header.constellation = Constellation::GPS;
    b.header.version = sp3::Version::C;
    b.header.sampling_period_ns = 1_800_000_000_000;
    b.header.satellites.push(SV::new(Constellation::Glonass, 4));
    a.merge_mut(&b).unwrap();
    assert_eq!(a.header.constellation, Constellation::Mixed);
    assert_eq!(a.header.version, sp3::Version::C);
    assert_eq!(a.header.sampling_period_ns, 1_800_000_000_000);
    assert_eq!(a.header.satellites.len(), 3);
}

fn sampled(n: u32) -> SP3 {
    let mut s = SP3::new(Header::new());
    for k in 0..n {
        let minutes = k * 15;
        let t = gpst((minutes / 60) as u8, (minutes % 60) as u8);
        s.insert(SP3Key { sv: g03(), epoch: t }, SP3Entry::from_position_mm(Vector3D::new(k as i64, 0, 0)));
    }
    s
}

#[test]
fn interpolation_window_inside() {
    let s = sampled(40);
    for order in [9usize, 11, 17] {
        let w = s.interpolation_window(&g03(), &gpst(5, 0), order).unwrap();
        assert_eq!(w.len(), order + 1);
        let w = s.interpolation_window(&g03(), &gpst(5, 7), order).unwrap();
        assert_eq!(w.len(), order + 1);
        let before = w.iter().filter(|(t, _)| t.hour < 5 || (t.hour == 5 && t.minute <= 7)).count();
        assert_eq!(before, (order + 1) / 2);
    }
}

#[test]
fn interpolation_window_edges() {
    let s = sampled(40);
    assert!(s.interpolation_window(&g03(), &gpst(0, 15), 9).is_none());
    assert!(s.interpolation_window(&g03(), &gpst(1, 0), 9).is_some());
    assert!(s.interpolation_window(&g03(), &gpst(9, 45), 9).is_none());
    assert!(s.interpolation_window(&g03(), &gpst(8, 30), 9).is_some());
    assert!(s.interpolation_window(&SV::new(Constellation::GPS, 4), &gpst(5, 0), 9).is_none());
}

#[test]
fn timeshift_to_utc() {
    let mut s = fixture();
    s.timeshift_mut(TimeScale::UTC).unwrap();
    assert_eq!(s.header.timescale, TimeScale::UTC);
    let first = s.data[0].0.epoch;
    assert_eq!(
        first,
        Epoch { year: 2020, month: 6, day: 24, hour: 23, minute: 59, second: 42, nanos: 0, timescale: TimeScale::UTC }
    );
    assert_eq!(s.len(), 4);
    assert_eq!(s.header.mjd, 59024);
    assert_eq!(s.header.mjd_fraction, 9_997_916_666_666);
}

#[test]
fn timeshift_keeps_record_on_same_scale() {
    let mut s = fixture();
    s.timeshift_mut(TimeScale::GPST).unwrap();
    assert_eq!(s.data, fixture().data);
    assert_eq!(s.header.mjd, 59025);
    assert_eq!(s.header.mjd_fraction, 0);
}

#[test]
fn predictions_are_inserted() {
    let s = fixture();
    assert_eq!(s.prediction_initial_states().unwrap_err(), PredictionError::UndeterminedInitialState);
    let mut s = s.resolve_velocities();
    let init = s.prediction_initial_states().unwrap();
    assert_eq!(init.len(), 2);
    assert_eq!(init[0].0, g03());
    assert_eq!(init[0].1, gpst(0, 15));
    let states = vec![(gpst(0, 30), Vector3D::new(1, 2, 3), Vector3D::new(4, 5, 6))];
    s.insert_predictions(e01(), &states);
    assert_eq!(s.header.num_epochs, 3);
    let e = s.get(&SP3Key { sv: e01(), epoch: gpst(0, 30) }).unwrap();
    assert!(e.predicted_orbit);
    assert_eq!(e.velocity, Some(Vector3D::new(4, 5, 6)));
    assert_eq!(s.predicted_positions().len(), 1);
}

#[test]
fn selections() {
    let mut s = fixture();
    let mut e = s.get(&SP3Key { sv: e01(), epoch: gpst(0, 0) }).unwrap();
    e.maneuver = true;
    e.clock_event = true;
    s.insert(SP3Key { sv: e01(), epoch: gpst(0, 0) }, e);
    assert_eq!(s.positions().len(), 4);
    assert_eq!(s.stable_positions().len(), 3);
    assert_eq!(s.fitted_positions().len(), 3);
    assert_eq!(s.maneuvers().len(), 1);
    assert_eq!(s.events().len(), 1);
    assert_eq!(s.velocities().len(), 0);
    assert!(s.has_satellite_maneuver());
    assert!(s.has_satellite_clock_event());
}

#[test]
fn steady_sampling() {
    assert!(fixture().has_steady_sampling());
    let mut s = fixture();
    s.header.sampling_period_ns = 300_000_000_000;
    assert!(!s.has_steady_sampling());
}

#[test]
fn standardized_filename_from_header() {
    let mut s = fixture();
    s.header.release_epoch = Epoch { year: 2020, month: 6, day: 25, hour: 0, minute: 0, second: 0, nanos: 0, timescale: TimeScale::UTC };
    assert_eq!(
        String::from_utf8(s.standardized_filename()).unwrap(),
        "GRG0OPSRAP_20201770000_01D_15M_ORB.SP3"
    );
    s.prod_attributes = Some(sp3::ProductionAttributes::parse(b"GRG0MGXFIN_20201770000_01D_15M_ORB.SP3.gz").unwrap());
    assert_eq!(
        String::from_utf8(s.standardized_filename()).unwrap(),
        "GRG0MGXFIN_20201770000_01D_15M_ORB.SP3.gz"
    );
}

#[test]
fn release_date_from_epoch() {
    let d = sp3::ReleaseDate::from_epoch(&gpst(0, 0));
    assert_eq!(d, sp3::ReleaseDate { year: 2020, doy: 177 });
}

#[test]
fn short_comment_lines_are_kept() {
    let text = "/* x\n/*\n/* \n/* longer comment\n";
    let s = SP3::from_lines(&lines(text)).unwrap();
    assert_eq!(
        s.comments,
        vec![b"x".to_vec(), Vec::new(), Vec::new(), b"longer comment".to_vec()]
    );
}

#[test]
fn epochs_are_unique_across_timescales() {
    let mut s = SP3::new(Header::new());
    let t_gps = gpst(0, 0);
    let t_utc = Epoch { timescale: TimeScale::UTC, ..t_gps };
    let g01 = SV::new(Constellation::GPS, 1);
    let g02 = SV::new(Constellation::GPS, 2);
    let e = SP3Entry::from_position_mm(Vector3D::new(1, 2, 3));
    s.insert(SP3Key { sv: g01, epoch: t_gps }, e);
    s.insert(SP3Key { sv: g01, epoch: t_utc }, e);
    s.insert(SP3Key { sv: g02, epoch: t_gps }, e);
    assert_eq!(s.epochs(), vec![t_gps, t_utc]);
    assert_eq!(s.total_epochs(), 2);
}

#[test]
fn prediction_sampling_schedule() {
    let start = gpst(0, 0);
    let forward = sp3::prediction::prediction_epochs(&start, 3_600_000_000_000, 900_000_000_000).unwrap();
    assert_eq!(forward, vec![gpst(0, 15), gpst(0, 30), gpst(0, 45), gpst(1, 0)]);
    let backward = sp3::prediction::prediction_epochs(&start, -1_800_000_000_000, 900_000_000_000).unwrap();
    assert_eq!(
        backward,
        vec![
            Epoch { day: 24, hour: 23, minute: 45, ..start },
            Epoch { day: 24, hour: 23, minute: 30, ..start },
        ]
    );
    assert_eq!(sp3::prediction::prediction_epochs(&start, 100, 900_000_000_000).unwrap(), vec![]);
}

#[test]
fn precise_correction_applies_and_fails() {
    let utc = |e: Epoch| Epoch { second: 1, timescale: TimeScale::UTC, ..e };
    let corrections = vec![(gpst(0, 0), utc(gpst(0, 0))), (gpst(0, 15), utc(gpst(0, 15)))];
    let reference = (1000u32, 5u64, utc(gpst(0, 0)));
    let mut s = fixture();
    s.precise_correction_mut(TimeScale::UTC, &corrections, reference).unwrap();
    assert_eq!(s.header.timescale, TimeScale::UTC);
    assert_eq!(s.header.week, 1000);
    assert_eq!(s.header.mjd, 59025);
    assert_eq!(s.epochs(), vec![utc(gpst(0, 0)), utc(gpst(0, 15))]);
    let mut t = fixture();
    assert_eq!(
        t.precise_correction_mut(TimeScale::UTC, &corrections[..1].to_vec(), reference),
        Err(sp3::TimeCorrectionError::NoCorrectionAvailable(TimeScale::GPST, TimeScale::UTC))
    );
    assert_eq!(t.data, fixture().data);
}

#[test]
fn resolved_records_keep_comments() {
    let s = fixture();
    let v = s.resolve_velocities();
    assert_eq!(v.comments, s.comments);
    assert_eq!(v.resolve_velocities().comments, s.comments);
    let mut u = fixture();
    u.timeshift_mut(TimeScale::UTC).unwrap();
    assert_eq!(u.comments, s.comments);
}

#[test]
fn velocity_across_leap_second() {
    let mut h = Header::new();
    h.timescale = TimeScale::UTC;
    let mut s = SP3::new(h);
    let a = Epoch { year: 2016, month: 12, day: 31, hour: 23, minute: 45, second: 0, nanos: 0, timescale: TimeScale::UTC };
    let b = Epoch { year: 2017, month: 1, day: 1, hour: 0, minute: 0, second: 0, nanos: 0, timescale: TimeScale::UTC };
    s.insert(SP3Key { sv: g03(), epoch: a }, SP3Entry::from_position_mm(Vector3D::new(0, 0, 0)));
    s.insert(SP3Key { sv: g03(), epoch: b }, SP3Entry::from_position_mm(Vector3D::new(901_000, 0, 0)));
    s.resolve_velocities_mut();
    // 901 s elapsed (leap second): 901 m over 901 s is 1 m/s.
    assert_eq!(s.get(&SP3Key { sv: g03(), epoch: b }).unwrap().velocity, Some(Vector3D::new(10_000_000, 0, 0)));
}
