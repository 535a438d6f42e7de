use comtrade::{
    parse_cfg, parse_time_offset, split_cfg_line, ts_base_unit, AnalogSample, AnalogScalingMode,
    ChannelSizes, ComtradeError, ComtradeParserBuilder, DataFormat, FileType, FloatLiteral,
    FormatRevision, LeapSecondStatus, TimeBasis, TimePrecision, TimeQuality,
};

const SCALING_CFG: &str = "TEST_STATION,TEST_DEVICE,2013\n\
                    4,4A,0D\n\
                    1,IA,,Line1,A,0.5,10.0,100.0,-32768,32767,2000.0,5.0,p\n\
                    2,IB,,Line1,A,1.0,0.0,-50.0,-32768,32767,1000.0,5.0,s\n\
                    3,IC,,Line1,A,1.0,0.0,0.0,-32768,32767,1000.0,0.0,s\n\
                    4,ID,,Line1,A,1.0,0.0,0.0,-32768,32767,0.0,5.0,p\n\
                    60\n\
                    1\n\
                    1000,2\n\
                    12/01/2011,05:55:30.750110\n\
                    12/01/2011,05:55:30.782610\n\
                    ASCII\n\
                    1\n\
                    -5h30,-5h30\n\
                    B,3";

const SCALING_DAT: &str = "1,0,100,200,300,400\n\
                    2,1000,150,250,350,450\n";

fn text(f: &FloatLiteral) -> f64 {
    f.text().parse::<f64>().unwrap()
}

fn decimal(s: &AnalogSample) -> f64 {
    match s {
        AnalogSample::Decimal(f) => text(f),
        other => panic!("not a decimal sample: {:?}", other),
    }
}

fn assert_near(a: f64, b: f64) {
    assert!((a - b).abs() < 1e-9, "expected {} to be near {}", a, b);
}

#[test]
fn test_scaling_and_skew_calculations() {
    let record = ComtradeParserBuilder::new()
        .cfg_file(SCALING_CFG.as_bytes().to_vec())
        .dat_file(SCALING_DAT.as_bytes().to_vec())
        .build()
        .parse()
        .expect("parsing does not panic")
        .expect("Failed to parse synthetic COMTRADE files");

    assert_eq!(record.station_name, "TEST_STATION");
    assert_eq!(record.recording_device_id, "TEST_DEVICE");
    assert_eq!(record.revision, FormatRevision::Revision2013);
    assert_eq!(record.data_format, DataFormat::Ascii);
    assert_eq!(record.ts_base_unit, TimePrecision::Microseconds);
    assert_eq!(record.time_offset, Some(-19800));
    assert_eq!(record.local_offset, Some(-19800));
    assert_eq!(record.time_quality, Some(TimeQuality::ClockUnlocked(1)));
    assert_eq!(record.leap_second_status, Some(LeapSecondStatus::NoCapability));
    assert_eq!(record.sample_numbers, vec![1, 2]);
    // Both samples fall within the single 1000 Hz rate: times 0.0 s and 0.001 s.
    assert_eq!(
        record.time_bases,
        vec![TimeBasis::SampleRate { rate_index: 0 }, TimeBasis::SampleRate { rate_index: 0 }]
    );
    assert_near(text(&record.sampling_rates[0].rate_hz), 1000.0);
    assert_eq!(record.analog_channels.len(), 4);
    assert_eq!(record.status_channels.len(), 0);

    // Channel 1: primary scaling; value = raw * multiplier + adder.
    let ch1 = &record.analog_channels[0];
    assert_eq!(ch1.config.scaling_mode, AnalogScalingMode::Primary);
    let (m, a) = (text(&ch1.config.multiplier), text(&ch1.config.offset_adder));
    assert_near(decimal(&ch1.data[0]) * m + a, 60.0);
    assert_near(decimal(&ch1.data[1]) * m + a, 85.0);
    assert!(ch1.value(2).is_none());
    let ratio = text(&ch1.config.secondary_factor) / text(&ch1.config.primary_factor);
    assert_near((decimal(&ch1.data[0]) * m + a) * ratio, 0.15);
    assert_near((decimal(&ch1.data[1]) * m + a) * ratio, 0.2125);
    assert_near(text(&ch1.config.skew) * 1e-6, 0.0001);

    // Channel 2: secondary scaling.
    let ch2 = &record.analog_channels[1];
    assert_eq!(ch2.config.scaling_mode, AnalogScalingMode::Secondary);
    assert_near(decimal(&ch2.data[0]), 200.0);
    assert_near(decimal(&ch2.data[1]), 250.0);
    let ratio = text(&ch2.config.primary_factor) / text(&ch2.config.secondary_factor);
    assert_near(decimal(&ch2.data[0]) * ratio, 40000.0);
    assert_near(decimal(&ch2.data[1]) * ratio, 50000.0);
    assert_near(text(&ch2.config.skew) * 1e-6, -0.00005);

    // Channels 3 and 4: a zero factor.
    assert_near(text(&record.analog_channels[2].config.secondary_factor), 0.0);
    assert_near(decimal(&record.analog_channels[2].data[0]), 300.0);
    assert_near(text(&record.analog_channels[3].config.primary_factor), 0.0);
    assert_near(decimal(&record.analog_channels[3].data[0]), 400.0);
}

#[test]
fn cfg_file_of_1991_defaults() {
    let cfg = "STATION,DEV\n\
               2,1A,1D\n\
               1,VA,A,Bus,kV,2.0,1.0,0.0,-100,100\n\
               1,BRK,0\n\
               50\n\
               0\n\
               0,3\n\
               12/31/1999,12:31:59.123456789\n\
               12/31/1999,12:31:59.123456\n\
               ASCII";
    let c = parse_cfg(cfg).unwrap().unwrap();
    assert_eq!(c.channels.id.format_revision, FormatRevision::Revision1991);
    let a = &c.channels.analog[0];
    assert_eq!(a.primary_factor.text(), "1.0");
    assert_eq!(a.secondary_factor.text(), "1.0");
    assert_eq!(a.scaling_mode, AnalogScalingMode::Primary);
    let s = &c.channels.status[0];
    assert_eq!(s.phase, "");
    assert_eq!(s.circuit_component_being_monitored, "");
    assert_eq!(s.normal_status_value, 0);
    assert!(c.rates.is_timestamp_critical);
    assert_eq!(c.rates.total_num_samples, 3);
    assert_eq!(c.ts_base_unit, TimePrecision::Nanoseconds);
    assert!(c.times.timestamp_multiplication_factor.is_none());
    assert!(c.times.time_quality.is_none());
}

#[test]
fn cfg_total_samples_is_largest_end_sample() {
    let cfg = "S,D,1999\n\
               0,0A,0D\n\
               60\n\
               2\n\
               1000,10\n\
               500,40\n\
               01/01/2020,00:00:00.000000\n\
               01/01/2020,00:00:00.000000\n\
               binary\n\
               2.5";
    let c = parse_cfg(cfg).unwrap().unwrap();
    assert_eq!(c.rates.total_num_samples, 40);
    assert!(!c.rates.is_timestamp_critical);
    assert_eq!(c.times.data_format, DataFormat::Binary16);
    assert_eq!(c.times.timestamp_multiplication_factor.as_ref().unwrap().text(), "2.5");
    assert!(c.times.time_offset.is_none());
}

#[test]
fn cfg_errors() {
    assert_eq!(
        parse_cfg("S,D,2013").unwrap().err(),
        Some(ComtradeError::UnexpectedEndOfCfgFile)
    );
    assert_eq!(
        parse_cfg("S,D,2020\n1,1A,0D").unwrap().err(),
        Some(ComtradeError::BadRevisionFormat("2020".to_string()))
    );
    assert_eq!(
        parse_cfg("S").unwrap().err(),
        Some(ComtradeError::MissingLineElements("ID Line: Recording Device ID"))
    );
    assert_eq!(
        parse_cfg("S,D,2013\nx,1A,0D").unwrap().err(),
        Some(ComtradeError::InvalidValue {
            value: "x".to_string(),
            type_: "usize",
            field: "Channel Sizes: Total",
        })
    );
    assert_eq!(
        parse_cfg("S,D,2013\n1,1A").unwrap().err(),
        Some(ComtradeError::MissingLineElements("Channel Sizes: Status"))
    );
    assert_eq!(
        parse_cfg("S,D,2013\n1,0A,1D\n7,BRK,,,5").unwrap().err(),
        Some(ComtradeError::InvalidNormalStatus(7))
    );
    assert_eq!(
        parse_cfg("S,D,2013\n1,1A,0D\n1,IA,,,A,zz,0,0,0,0,1,1,p").unwrap().err(),
        Some(ComtradeError::InvalidValue {
            value: "zz".to_string(),
            type_: "f64",
            field: "Analog Channel: Multiplier",
        })
    );
    // A unit letter that is a multi-byte character cannot be sliced off.
    assert!(parse_cfg("S,D,2013\n1,1é,0D").is_none());
    // A negative number of sampling rates.
    assert!(parse_cfg("S,D,2013\n0,0A,0D\n50\n-1").is_none());
}

#[test]
fn error_messages() {
    assert_eq!(
        ComtradeError::MissingLineElements("ctx").message(),
        "Missing elements on line. Context: ctx"
    );
    assert_eq!(
        ComtradeError::InvalidValue { value: "v".into(), type_: "u8", field: "f" }.message(),
        "Unable to parse value: v as u8 for f."
    );
    assert_eq!(ComtradeError::UnexpectedEndOfCfgFile.message(), "Unexpected end of cfg file.");
    assert_eq!(
        ComtradeError::BadRevisionFormat("1990".into()).message(),
        "Invalid version string: 1990"
    );
    assert_eq!(
        ComtradeError::InvalidNormalStatus(12).message(),
        "The normal status for status channel index 12 is invalid. It must be 0 or 1."
    );
    assert_eq!(ComtradeError::new("boom".into()).message(), "Parser Error: boom");
    assert_eq!(
        ComtradeError::CantFindTimestampPrecision.message(),
        "Unable to find timestamp precision"
    );
}

#[test]
fn add_context_replaces_only_context() {
    let e = ComtradeError::MissingLineElements("").add_context("a").add_context("b");
    assert_eq!(e, ComtradeError::MissingLineElements("b"));
    let e = ComtradeError::InvalidValue { value: "v".into(), type_: "u8", field: "" }
        .add_context("F");
    assert_eq!(e, ComtradeError::InvalidValue { value: "v".into(), type_: "u8", field: "F" });
    assert_eq!(
        ComtradeError::UnexpectedEndOfCfgFile.add_context("x"),
        ComtradeError::UnexpectedEndOfCfgFile
    );
}

#[test]
fn time_offsets() {
    assert_eq!(parse_time_offset("x"), Some(Ok(None)));
    assert_eq!(parse_time_offset(" X "), Some(Ok(None)));
    assert_eq!(parse_time_offset("-4"), Some(Ok(Some(-4 * 3600))));
    assert_eq!(parse_time_offset("+10h30"), Some(Ok(Some(10 * 3600 + 30 * 60))));
    assert_eq!(parse_time_offset("-7h15"), Some(Ok(Some(-(7 * 3600 + 15 * 60)))));
    assert_eq!(parse_time_offset("0"), Some(Ok(Some(0))));
    // The sign of the text gives the direction, also with zero hours.
    assert_eq!(parse_time_offset("+0h30"), Some(Ok(Some(1800))));
    assert_eq!(parse_time_offset("0h30"), Some(Ok(Some(1800))));
    assert_eq!(parse_time_offset("-0h30"), Some(Ok(Some(-1800))));
    assert_eq!(parse_time_offset(" -1h45 "), Some(Ok(Some(-(3600 + 45 * 60)))));
    assert_eq!(
        parse_time_offset("5h3h"),
        Some(Err(ComtradeError::ParserError("invalid time offset on line: 5h3h".into())))
    );
    assert_eq!(
        parse_time_offset("ah30"),
        Some(Err(ComtradeError::ParserError(
            "invalid hour offset in time offset: a in ah30".into()
        )))
    );
    assert_eq!(
        parse_time_offset("5hb"),
        Some(Err(ComtradeError::ParserError(
            "invalid minute offset in time offset: b in 5hb".into()
        )))
    );
    // A day or more from UTC: no fixed offset can be made.
    assert_eq!(parse_time_offset("24"), None);
}

#[test]
fn precision_from_stamps() {
    assert_eq!(ts_base_unit("12:00:00.123456").unwrap(), TimePrecision::Microseconds);
    assert_eq!(ts_base_unit("12:00:00.1234567").unwrap(), TimePrecision::Nanoseconds);
    assert_eq!(ts_base_unit("12:00:00").err(), Some(ComtradeError::CantFindTimestampPrecision));
    // The length counts bytes: three two-byte characters exceed six.
    assert_eq!(ts_base_unit("1.ééé").unwrap(), TimePrecision::Microseconds);
    assert_eq!(ts_base_unit("1.éééé").unwrap(), TimePrecision::Nanoseconds);
    assert!(TimePrecision::Nanoseconds < TimePrecision::Microseconds);
    assert_eq!(
        TimePrecision::Microseconds.finer(TimePrecision::Nanoseconds),
        TimePrecision::Nanoseconds
    );
}

#[test]
fn codes_ignore_case() {
    assert_eq!(FileType::parse(" Dat "), Ok(FileType::Dat));
    assert_eq!(DataFormat::parse("BINARY32"), Ok(DataFormat::Binary32));
    assert_eq!(DataFormat::parse("Float32"), Ok(DataFormat::Float32));
    assert_eq!(AnalogScalingMode::parse("S"), Ok(AnalogScalingMode::Secondary));
    assert_eq!("E".parse::<TimeQuality>(), Ok(TimeQuality::ClockUnlocked(4)));
    assert_eq!(
        DataFormat::parse("text"),
        Err(ComtradeError::ParserError(
            "unrecognised or invalid COMTRADE data format: 'text'".into()
        ))
    );
    assert_eq!(
        "g".parse::<TimeQuality>(),
        Err(ComtradeError::ParserError("invalid time quality code 'g'".into()))
    );
    assert_eq!(
        "7".parse::<LeapSecondStatus>(),
        Err(ComtradeError::ParserError("invalid leap second indicator '7'".into()))
    );
}

#[test]
fn typed_reads() {
    let mut line = split_cfg_line(" 12 , +7, -3 , 1e3, nan, abc, 256");
    assert_eq!(line.read_usize(), Ok(12));
    assert_eq!(line.read_u32(), Ok(7));
    assert_eq!(line.read_i32(), Ok(-3));
    assert_eq!(line.read_float().unwrap().text(), "1e3");
    assert_eq!(line.read_float().unwrap().text(), "nan");
    assert!(line.read_float().is_err());
    assert_eq!(
        line.read_u8(),
        Err(ComtradeError::InvalidValue { value: "256".into(), type_: "u8", field: "" })
    );
    assert_eq!(line.read_next(), Err(ComtradeError::MissingLineElements("")));
    let sizes = ChannelSizes::from_line(split_cfg_line("3,2A,1D")).unwrap().unwrap();
    assert_eq!((sizes.analog, sizes.status), (2, 1));
}

#[test]
fn truncated_cfg_ends_early() {
    let cfg = "ST,DEV,1999\n\
               1,1A,1D\n\
               1,VA,A,Bus,kV,2.0,1.0,0.0,-100,100,1,1,P\n\
               1,BRK,A,Bus,0\n\
               50\n\
               1\n\
               1000,3\n\
               01/02/2020,10:00:00.000000\n\
               01/02/2020,10:00:00.001000\n\
               ASCII\n\
               1.0";
    assert!(matches!(parse_cfg(cfg), Some(Ok(_))));
    let lines: Vec<&str> = cfg.split('\n').collect();
    assert_eq!(lines.len(), 11);
    for k in 1..lines.len() {
        let cut = lines[..k].join("\n");
        match parse_cfg(&cut) {
            Some(Err(e)) => assert_eq!(e, ComtradeError::UnexpectedEndOfCfgFile, "cut after {} lines", k),
            _ => panic!("a cut after {} lines was not refused", k),
        }
    }
}
