use std::str::FromStr;

use comtrade::{
    split_cfg_line, ChannelSizes, ComtradeDateTime, ComtradeError, Date, DateTime,
    FormatRevision, LeapSecondStatus, StatusConfig, TimeOfDay, TimePrecision, TimeQuality,
};

#[test]
fn time_precision_ordering() {
    assert!(TimePrecision::Microseconds > TimePrecision::Nanoseconds);
}

#[test]
fn split_line_uses_csv_seperator_and_trims_whitespace() {
    let line = "  1, 2, 3 ,4   ";
    let mut iter = split_cfg_line(line);
    assert_eq!(iter.next(), Some("1".to_string()));
    assert_eq!(iter.next(), Some("2".to_string()));
    assert_eq!(iter.next(), Some("3".to_string()));
    assert_eq!(iter.next(), Some("4".to_string()));
    assert_eq!(iter.next(), None);
}

#[test]
fn get_channel_counts() {
    let line = "20,4A,16D ";
    let line = split_cfg_line(line);
    let sizes = ChannelSizes::from_line(line).unwrap().unwrap();
    assert_eq!(sizes.analog, 4);
    assert_eq!(sizes.status, 16);
}

#[test]
fn format_revision_from_str_works() {
    assert_eq!(
        FormatRevision::from_str("1991").unwrap(),
        FormatRevision::Revision1991
    );
    assert_eq!(
        FormatRevision::from_str("1999").unwrap(),
        FormatRevision::Revision1999
    );
    assert_eq!(
        FormatRevision::from_str("2013").unwrap(),
        FormatRevision::Revision2013
    );
}

#[test]
fn error_in_format_revision_from_str() {
    assert!(FormatRevision::from_str("1990").is_err());
}

#[test]
fn errors_on_invalid_standard_status_value() {
    let line = "3, name, phase, component, 2";
    let result = StatusConfig::from_config_row(split_cfg_line(line), &FormatRevision::Revision2013);
    assert!(result.is_err());
}

#[test]
fn test_time_quality_parsing() {
    assert_eq!("0".parse::<TimeQuality>().unwrap(), TimeQuality::ClockLocked);
    assert_eq!("1".parse::<TimeQuality>().unwrap(), TimeQuality::ClockUnlocked(-9));
    assert_eq!("9".parse::<TimeQuality>().unwrap(), TimeQuality::ClockUnlocked(-1));
    assert_eq!("a".parse::<TimeQuality>().unwrap(), TimeQuality::ClockUnlocked(0));
    assert_eq!("b".parse::<TimeQuality>().unwrap(), TimeQuality::ClockUnlocked(1));
    assert_eq!("c".parse::<TimeQuality>().unwrap(), TimeQuality::ClockUnlocked(2));
    assert_eq!("d".parse::<TimeQuality>().unwrap(), TimeQuality::ClockUnlocked(3));
    assert_eq!("e".parse::<TimeQuality>().unwrap(), TimeQuality::ClockUnlocked(4));
    assert_eq!("f".parse::<TimeQuality>().unwrap(), TimeQuality::ClockFailure);
    assert_eq!("x".parse::<TimeQuality>().unwrap(), TimeQuality::Unknown);
    assert_eq!("".parse::<TimeQuality>().unwrap(), TimeQuality::Unknown);
    assert_eq!("  ".parse::<TimeQuality>().unwrap(), TimeQuality::Unknown);
}

#[test]
fn test_leap_second_status_parsing() {
    assert_eq!("0".parse::<LeapSecondStatus>().unwrap(), LeapSecondStatus::NotPresent);
    assert_eq!("1".parse::<LeapSecondStatus>().unwrap(), LeapSecondStatus::ToOccur);
    assert_eq!("2".parse::<LeapSecondStatus>().unwrap(), LeapSecondStatus::Unknown);
    assert_eq!("10".parse::<LeapSecondStatus>().unwrap(), LeapSecondStatus::HasOccurred);
    assert_eq!("3".parse::<LeapSecondStatus>().unwrap(), LeapSecondStatus::NoCapability);
    assert_eq!("".parse::<LeapSecondStatus>().unwrap(), LeapSecondStatus::Unknown);
}

fn expected_1999_12_31() -> DateTime {
    DateTime {
        date: Date { year: 1999, month: 12, day: 31 },
        time: TimeOfDay { hour: 12, minute: 31, second: 59, nanosecond: 123_456_000 },
    }
}

#[test]
fn read_date_with_revision_1991() {
    let revision = FormatRevision::Revision1991;
    let line = "12/31/1999,12:31:59.123456";
    let line = split_cfg_line(line);
    let time = ComtradeDateTime::from_config_line(line, &revision).unwrap();
    assert_eq!(time.date_time, expected_1999_12_31());
}

#[test]
fn read_date_with_revision_1999() {
    let revision = FormatRevision::Revision1999;
    let line = "31/12/1999,12:31:59.123456";
    let line = split_cfg_line(line);
    let time = ComtradeDateTime::from_config_line(line, &revision).unwrap();
    assert_eq!(time.date_time, expected_1999_12_31());
}

#[test]
fn read_date_with_revision_2013() {
    let revision = FormatRevision::Revision2013;
    let line = "31/12/1999,12:31:59.123456";
    let line = split_cfg_line(line);
    let time = ComtradeDateTime::from_config_line(line, &revision).unwrap();
    assert_eq!(time.date_time, expected_1999_12_31());
}

#[test]
fn read_time_precision_microseconds_6_digits_or_less() {
    let revision = FormatRevision::Revision2013;
    let line = "31/12/1999,12:31:59.123456";
    let line = split_cfg_line(line);
    let time = ComtradeDateTime::from_config_line(line, &revision).unwrap();
    assert_eq!(time.precision, TimePrecision::Microseconds);

    let line = "31/12/1999,12:31:59.12345";
    let line = split_cfg_line(line);
    let time = ComtradeDateTime::from_config_line(line, &revision).unwrap();
    assert_eq!(time.precision, TimePrecision::Microseconds);

    let line = "31/12/1999,12:31:59.123";
    let line = split_cfg_line(line);
    let time = ComtradeDateTime::from_config_line(line, &revision).unwrap();
    assert_eq!(time.precision, TimePrecision::Microseconds);
}

#[test]
fn read_time_precision_nanoseconds_7_digits_or_more() {
    let revision = FormatRevision::Revision2013;
    let line = "31/12/1999,12:31:59.1234567";
    let line = split_cfg_line(line);
    let time = ComtradeDateTime::from_config_line(line, &revision).unwrap();
    assert_eq!(time.precision, TimePrecision::Nanoseconds);

    let line = "31/12/1999,12:31:59.12345678";
    let line = split_cfg_line(line);
    let time = ComtradeDateTime::from_config_line(line, &revision).unwrap();
    assert_eq!(time.precision, TimePrecision::Nanoseconds);

    let line = "31/12/1999,12:31:59.123456789";
    let line = split_cfg_line(line);
    let time = ComtradeDateTime::from_config_line(line, &revision).unwrap();
    assert_eq!(time.precision, TimePrecision::Nanoseconds);
}

#[test]
fn read_time_precision_nanoseconds_error_if_no_fractional_digits() {
    let revision = FormatRevision::Revision2013;
    let line = "31/12/1999,12:31:59";
    let line = split_cfg_line(line);
    let time = ComtradeDateTime::from_config_line(line, &revision);
    assert!(matches!(time, Err(ComtradeError::CantFindTimestampPrecision)));
}
