use sp3::header::{Line1, Line2};
use sp3::{DataType, Epoch, Header, OrbitType, ParsingError, TimeScale, Version};
use std::str::FromStr;

fn utc(year: u16, month: u8, day: u8, hour: u8, minute: u8, second: u8, nanos: u32) -> Epoch {
    Epoch { year, month, day, hour, minute, second, nanos, timescale: TimeScale::UTC }
}

#[test]
fn test_line1() {
    for (line, version, dtype, epoch, num_epochs, fit_type, coord_system, orbit_type) in [
        ("#dP2020  6 24  1  3  4.12345678      97 __u+U IGS14 FIT  IAC", Version::D, DataType::Position, utc(2020, 6, 24, 1, 3, 4, 123456780), 97, "__u+U", "IGS14", OrbitType::FIT),
        ("#dV2020  6 24  1  3 54.12345678      97 __u+U IGS14 FIT  IAC", Version::D, DataType::Velocity, utc(2020, 6, 24, 1, 3, 54, 123456780), 97, "__u+U", "IGS14", OrbitType::FIT),
        ("#dV2020 12 24 21  3 54.12345678      97 __u+U IGS14 FIT  IAC", Version::D, DataType::Velocity, utc(2020, 12, 24, 21, 3, 54, 123456780), 97, "__u+U", "IGS14", OrbitType::FIT),
        ("#dV2020 12 24 21 43 54.12345678      97 __u+U IGS14 FIT  IAC", Version::D, DataType::Velocity, utc(2020, 12, 24, 21, 43, 54, 123456780), 97, "__u+U", "IGS14", OrbitType::FIT),
        ("#dV2020 12 24 21 43 54.12345678       7 __u+U IGS14 FIT  IAC", Version::D, DataType::Velocity, utc(2020, 12, 24, 21, 43, 54, 123456780), 7, "__u+U", "IGS14", OrbitType::FIT),
        ("#dV2020 12 24 21 43 54.12345678    1000 __u+U IGS14 FIT  IAC", Version::D, DataType::Velocity, utc(2020, 12, 24, 21, 43, 54, 123456780), 1000, "__u+U", "IGS14", OrbitType::FIT),
        ("#dV2020 12 24 21 43 54.12345678  100022 __u+U IGS14 FIT  IAC", Version::D, DataType::Velocity, utc(2020, 12, 24, 21, 43, 54, 123456780), 100022, "__u+U", "IGS14", OrbitType::FIT),
        ("#dV2020 12 24 21 43 54.12345678 9100022 __u+U IGS14 FIT  IAC", Version::D, DataType::Velocity, utc(2020, 12, 24, 21, 43, 54, 123456780), 9100022, "__u+U", "IGS14", OrbitType::FIT),
    ] {
        let line1 = Line1::from_str(line).unwrap();
        assert_eq!(line1.version, version);
        assert_eq!(line1.coord_system, coord_system.as_bytes().to_vec());
        assert_eq!(line1.orbit_type, orbit_type);
        assert_eq!(line1.epoch, epoch);
        assert_eq!(line1.data_type, dtype);
        assert_eq!(line1.num_epochs, num_epochs);
        assert_eq!(line1.fit_type, fit_type.as_bytes().to_vec());
        assert_eq!(line1.agency, b"IAC".to_vec());
        let formatted = String::from_utf8(line1.format()).unwrap();
        assert_eq!(formatted, line);
    }
}

#[test]
fn scenario_line1_parsing() {
    let l = Line1::from_str("#dV2020 12 24 21 43 54.12345678    1000 __u+U IGS14 FIT  IAC").unwrap();
    assert_eq!(l.version, Version::D);
    assert_eq!(l.data_type, DataType::Velocity);
    assert_eq!(l.epoch, utc(2020, 12, 24, 21, 43, 54, 123456780));
    assert_eq!(l.num_epochs, 1000);
    assert_eq!(l.fit_type, b"__u+U".to_vec());
    assert_eq!(l.coord_system, b"IGS14".to_vec());
    assert_eq!(l.orbit_type, OrbitType::FIT);
    assert_eq!(l.agency, b"IAC".to_vec());
}

#[test]
fn test_line2_parsing() {
    for (line, week, sow, week_nanos, interval_ns, mjd, mjd_fract) in [
        ("##  887      0.00000000   900.00000000 50453 0.0000000000000", 887u32, 0u64, 0u64, 900_000_000_000u64, 50453u32, 0u64),
        ("##    7     10.12345678    10.55000000 50453 0.0000000000000", 7, 10, 123456780, 10_550_000_000, 50453, 0),
        ("##    7     10.12345678   900.00000000 50453 0.0000000000000", 7, 10, 123456780, 900_000_000_000, 50453, 0),
        ("##   87     10.12300000   900.00000000 50453 0.0000000000000", 87, 10, 123000000, 900_000_000_000, 50453, 0),
        ("##   87     10.12345678   900.00000000 50453 0.0000000000000", 87, 10, 123456780, 900_000_000_000, 50453, 0),
        ("##    7     10.12345678    10.00000000 50453 0.0000000000000", 7, 10, 123456780, 10_000_000_000, 50453, 0),
        ("## 2276  21600.00000000   900.00000000 60176 0.2500000000000", 2276, 21600, 0, 900_000_000_000, 60176, 2_500_000_000_000),
        ("##  887      0.00000000   900.00000000 50453 0.0000000000000", 887, 0, 0, 900_000_000_000, 50453, 0),
        ("##  887  86400.00000000   900.00000000 50454 0.0000000000000", 887, 86400, 0, 900_000_000_000, 50454, 0),
        ("## 2277  64800.00000000   900.00000000 60183 0.7500000000000", 2277, 64800, 0, 900_000_000_000, 60183, 7_500_000_000_000),
    ] {
        let line2 = Line2::from_str(line).unwrap();
        assert_eq!(line2.week, week);
        assert_eq!(line2.week_nanos, sow * 1_000_000_000 + week_nanos);
        assert_eq!(line2.mjd, mjd);
        assert_eq!(line2.mjd_fraction, mjd_fract);
        assert_eq!(line2.sampling_period_ns, interval_ns);
        let formatted = String::from_utf8(line2.format()).unwrap();
        assert_eq!(formatted, line);
    }
}

#[test]
fn scenario_line2_round_trip() {
    let line = "## 2276  21600.00000000   900.00000000 60176 0.2500000000000";
    let l = Line2::from_str(line).unwrap();
    assert_eq!(l.week, 2276);
    assert_eq!(l.week_nanos, 21_600 * 1_000_000_000);
    assert_eq!(l.sampling_period_ns, 900 * 1_000_000_000);
    assert_eq!(l.mjd, 60176);
    assert_eq!(l.mjd_fraction, 2_500_000_000_000);
    assert_eq!(String::from_utf8(l.format()).unwrap(), line);
}

#[test]
fn version() {
    for (desc, expected) in [("c", Version::C), ("d", Version::D)] {
        let version = Version::from_str(desc);
        assert!(version.is_ok(), "failed to parse Version from \"{}\"", desc);
        assert_eq!(version.unwrap(), expected);
    }

    for (vers, expected) in [(Version::C, 3), (Version::D, 4)] {
        let version: u8 = vers.into();
        assert_eq!(version, expected, "convertion to integer failed");
    }

    assert!(Version::C < Version::D);
    assert!(Version::D >= Version::C);

    assert_eq!(Version::C - 2, Version::A);
    assert_eq!(Version::C - 1, Version::B);
    assert_eq!(Version::C + 1, Version::D);

    assert_eq!(Version::D - 3, Version::A);
    assert_eq!(Version::D - 2, Version::B);
    assert_eq!(Version::D - 1, Version::C);
    assert_eq!(Version::D + 1, Version::D);

    assert_eq!(Version::A - 1, Version::A);
    assert_eq!(Version::A + 1, Version::B);
    assert_eq!(Version::A + 2, Version::C);

    let version: Version = 4_u8.into();
    assert_eq!(version, Version::D);

    let version: Version = 3_u8.into();
    assert_eq!(version, Version::C);

    assert!(Version::A < Version::B);
    assert!(Version::A < Version::C);
    assert!(Version::A < Version::D);
    assert!(Version::D > Version::C);
}

#[test]
fn header_line_errors() {
    assert_eq!(Line1::from_str("#dP2020").unwrap_err(), ParsingError::MalformedH1);
    assert_eq!(
        Line1::from_str("#eP2020  6 24  1  3  4.12345678      97 __u+U IGS14 FIT  IAC").unwrap_err(),
        ParsingError::NonSupportedRevision
    );
    assert_eq!(
        Line1::from_str("#dX2020  6 24  1  3  4.12345678      97 __u+U IGS14 FIT  IAC").unwrap_err(),
        ParsingError::UnknownDataType
    );
    assert_eq!(
        Line1::from_str("#dP2020  6 24  1  3  4.12345678      97 __u+U IGS14 XYZ  IAC").unwrap_err(),
        ParsingError::UnknownOrbitType
    );
    assert_eq!(
        Line1::from_str("#dP2020 13 24  1  3  4.12345678      97 __u+U IGS14 FIT  IAC").unwrap_err(),
        ParsingError::Epoch
    );
    assert_eq!(Line2::from_str("## 2276").unwrap_err(), ParsingError::MalformedH2);
    assert_eq!(
        Line2::from_str("## 22x6  21600.00000000   900.00000000 60176 0.2500000000000").unwrap_err(),
        ParsingError::WeekCounter
    );
    assert_eq!(
        Line2::from_str("## 2276  21600.0000000x   900.00000000 60176 0.2500000000000").unwrap_err(),
        ParsingError::WeekSeconds
    );
    assert_eq!(
        Line2::from_str("## 2276  21600.00000000   9x0.00000000 60176 0.2500000000000").unwrap_err(),
        ParsingError::SamplingPeriod
    );
    assert_eq!(
        Line2::from_str("## 2276  21600.00000000   900.00000000 6x176 0.2500000000000").unwrap_err(),
        ParsingError::Mjd
    );
}

#[test]
fn header_lines_formatting() {
    let mut h = Header::new();
    h.version = Version::C;
    h.observables = b"__u+U".to_vec();
    h.coord_system = b"IGS14".to_vec();
    h.agency = b"GRG".to_vec();
    h.num_epochs = 10;
    h.constellation = sp3::Constellation::GPS;
    h.timescale = TimeScale::GPST;
    h.week = 2276;
    h.week_nanos = 21_600_000_000_000;
    h.mjd = 60176;
    h.mjd_fraction = 2_500_000_000_000;
    h.sampling_period_ns = 900_000_000_000;
    h.release_epoch = utc(2019, 12, 31, 23, 59, 42, 0);
    assert_eq!(
        String::from_utf8(h.format()).unwrap(),
        "#cP2019 12 31 23 59 42.00000000      10 __u+U IGS14 FIT  GRG\n\
## 2276  21600.00000000   900.00000000 60176 0.2500000000000\n\
%c G  cc GPS ccc cccc cccc cccc cccc ccccc ccccc ccccc ccccc\n\
%c cc cc ccc ccc cccc cccc cccc cccc ccccc ccccc ccccc ccccc\n"
    );
}
