use sp3::header::{file_descriptor, is_header_line1, is_header_line2, parse_descriptor};
use sp3::parsing::{end_of_file, new_epoch, parse_epoch, sp3_comment};
use sp3::{Constellation, Epoch, ParsingError, TimeScale};

#[test]
fn line_kinds() {
    assert!(sp3_comment(b"/* hello"));
    assert!(!sp3_comment(b"* hello"));
    assert!(end_of_file(b"EOF"));
    assert!(!end_of_file(b"EOF "));
    assert!(new_epoch(b"*  2020  6 25  0  0  0.00000000"));
    assert!(!new_epoch(b"* 2020"));
    assert!(is_header_line1(b"#dP"));
    assert!(is_header_line2(b"## 2111"));
    assert!(!is_header_line2(b"#dP"));
    assert!(file_descriptor(b"%c M"));
}

#[test]
fn epoch_marker_content() {
    let e = parse_epoch(b"2020  6 25  0 15  0.12345678", TimeScale::GST).unwrap();
    assert_eq!(
        e,
        Epoch { year: 2020, month: 6, day: 25, hour: 0, minute: 15, second: 0, nanos: 123456780, timescale: TimeScale::GST }
    );
    assert_eq!(parse_epoch(b"2020  6 25", TimeScale::GST).unwrap_err(), ParsingError::EpochParsing);
    assert_eq!(
        parse_epoch(b"2021  2 29  0 15  0.00000000", TimeScale::GST).unwrap_err(),
        ParsingError::EpochParsing
    );
}

#[test]
fn descriptor_line() {
    let (c, ts) = parse_descriptor(b"%c G  cc GAL ccc cccc cccc cccc cccc ccccc ccccc ccccc ccccc").unwrap();
    assert_eq!(c, Constellation::GPS);
    assert_eq!(ts, TimeScale::GST);
    let (_, ts) = parse_descriptor(b"%c R  cc GLO ccc cccc cccc cccc cccc ccccc ccccc ccccc ccccc").unwrap();
    assert_eq!(ts, TimeScale::UTC);
    assert!(matches!(
        parse_descriptor(b"%c G  cc XYZ ccc cccc cccc cccc cccc ccccc ccccc ccccc ccccc"),
        Err(ParsingError::MalformedDescriptor(_))
    ));
}
