use sp3::{Availability, Campaign, Epoch, ParsingError, ProductionAttributes, ReleaseDate, ReleasePeriod, TimeScale};

fn attrs(agency: &str, batch_id: u8, campaign: Campaign, year: u16, doy: u16, availability: Availability, release_period: ReleasePeriod, sampling_period_s: u64) -> ProductionAttributes {
    ProductionAttributes {
        agency: agency.as_bytes().to_vec(),
        batch_id,
        release_date: ReleaseDate { year, doy },
        release_period,
        campaign,
        availability,
        sampling_period_s,
        gzip_compressed: true,
    }
}

fn check(cases: Vec<(ProductionAttributes, &str)>) {
    for (expected, filename) in cases {
        let parsed = ProductionAttributes::parse(filename.as_bytes()).unwrap_or_else(|e| {
            panic!("Failed to parse production attributes from \"{}\": {:?}", filename, e);
        });
        assert_eq!(parsed, expected);
        let formatted = String::from_utf8(expected.format()).unwrap();
        assert_eq!(formatted, filename);
    }
}

fn release_epoch_check() {
    let release_date = ReleaseDate { year: 2023, doy: 239 };
    let release_epoch = release_date.to_epoch().unwrap();
    assert_eq!(
        release_epoch,
        Epoch { year: 2023, month: 8, day: 27, hour: 0, minute: 0, second: 0, nanos: 0, timescale: TimeScale::UTC }
    );
}

#[test]
fn production_release_epoch() {
    release_epoch_check();
}

#[test]
fn mod_release_epoch() {
    release_epoch_check();
}

#[test]
fn production_production_attributes_parsing() {
    check(vec![
        (attrs("ESA", 0, Campaign::OPS, 2023, 239, Availability::Rapid, ReleasePeriod::Daily, 900), "ESA0OPSRAP_20232390000_01D_15M_ORB.SP3.gz"),
        (attrs("GRS", 0, Campaign::OPS, 2019, 1, Availability::Final, ReleasePeriod::Hourly, 900), "GRS0OPSFIN_20190010000_01H_15M_ORB.SP3.gz"),
        (attrs("GRS", 5, Campaign::OPS, 2019, 1, Availability::Final, ReleasePeriod::Hourly, 300), "GRS5OPSFIN_20190010000_01H_05M_ORB.SP3.gz"),
    ]);
}

#[test]
fn mod_production_attributes_parsing() {
    check(vec![
        (attrs("ESA", 0, Campaign::OPS, 2023, 239, Availability::Rapid, ReleasePeriod::Daily, 900), "ESA0OPSRAP_20232390000_01D_15M_ORB.SP3.gz"),
        (attrs("GRS", 0, Campaign::MGX, 2019, 1, Availability::Final, ReleasePeriod::Hourly, 900), "GRS0MGXFIN_20190010000_01H_15M_ORB.SP3.gz"),
        (attrs("GRS", 5, Campaign::Test, 2019, 1, Availability::Final, ReleasePeriod::Hourly, 300), "GRS5TSTFIN_20190010000_01H_05M_ORB.SP3.gz"),
        (attrs("GRS", 1, Campaign::Reprocessing(1), 2019, 1, Availability::Final, ReleasePeriod::Hourly, 300), "GRS1R01FIN_20190010000_01H_05M_ORB.SP3.gz"),
        (attrs("GRS", 1, Campaign::Reprocessing(10), 2019, 1, Availability::Final, ReleasePeriod::Hourly, 300), "GRS1R10FIN_20190010000_01H_05M_ORB.SP3.gz"),
        (attrs("GRS", 1, Campaign::Reprocessing(99), 2019, 1, Availability::Final, ReleasePeriod::Hourly, 300), "GRS1R99FIN_20190010000_01H_05M_ORB.SP3.gz"),
    ]);
}

#[test]
fn scenario_filename() {
    let a = ProductionAttributes::parse(b"GRS5TSTFIN_20190010000_01H_05M_ORB.SP3.gz").unwrap();
    assert_eq!(a.agency, b"GRS".to_vec());
    assert_eq!(a.batch_id, 5);
    assert_eq!(a.campaign, Campaign::Test);
    assert_eq!(a.availability, Availability::Final);
    assert_eq!(a.release_date, ReleaseDate { year: 2019, doy: 1 });
    assert_eq!(a.release_period, ReleasePeriod::Hourly);
    assert_eq!(a.sampling_period_s, 300);
    assert!(a.gzip_compressed);
}

#[test]
fn filename_round_trip_without_gzip() {
    let name = "COD0MGXFIN_20230500000_01D_05M_ORB.SP3";
    let a = ProductionAttributes::parse(name.as_bytes()).unwrap();
    assert!(!a.gzip_compressed);
    assert_eq!(String::from_utf8(a.format()).unwrap(), name);
}

#[test]
fn filename_units() {
    let a = ProductionAttributes::parse(b"GRS5TSTFIN_20190010000_01H_02H_ORB.SP3").unwrap();
    assert_eq!(a.sampling_period_s, 7200);
    let a = ProductionAttributes::parse(b"GRS5TSTFIN_20190010000_01H_30S_ORB.SP3").unwrap();
    assert_eq!(a.sampling_period_s, 30);
    let a = ProductionAttributes::parse(b"GRS5TSTFIN_20190010000_01L_01L_ORB.SP3").unwrap();
    assert_eq!(a.sampling_period_s, 30 * 604800);
    assert_eq!(a.release_period, ReleasePeriod::Monthly);
}

#[test]
fn filename_errors() {
    assert_eq!(ProductionAttributes::parse(b"GRS5TSTFIN_2019").unwrap_err(), ParsingError::InvalidFilename);
    assert_eq!(
        ProductionAttributes::parse(b"GRS5XYZFIN_20190010000_01H_05M_ORB.SP3").unwrap_err(),
        ParsingError::InvalidCampaignName
    );
    assert_eq!(
        ProductionAttributes::parse(b"GRS5TSTXXX_20190010000_01H_05M_ORB.SP3").unwrap_err(),
        ParsingError::InvalidFileAvailability
    );
    assert_eq!(
        ProductionAttributes::parse(b"GRS5TSTFIN_20190010000_02H_05M_ORB.SP3").unwrap_err(),
        ParsingError::InvalidFilename
    );
    assert_eq!(
        ProductionAttributes::parse(b"GRS5TSTFIN_20190010000_01H_05Q_ORB.SP3").unwrap_err(),
        ParsingError::InvalidFilename
    );
}

#[test]
fn release_date_out_of_year() {
    assert_eq!(ReleaseDate { year: 2023, doy: 366 }.to_epoch(), None);
    assert_eq!(
        ReleaseDate { year: 2024, doy: 366 }.to_epoch().unwrap().day,
        31
    );
}
