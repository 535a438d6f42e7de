use comtrade::{
    load_cff, AnalogSample, ComtradeError, ComtradeParserBuilder, DataFormat, TimeBasis,
};

const CFG_ASCII: &str = "ST,DEV,1999\n\
                         2,1A,1D\n\
                         1,VA,A,Bus,kV,2.0,1.0,0.0,-100,100,1,1,P\n\
                         1,BRK,A,Bus,0\n\
                         50\n\
                         1\n\
                         1000,3\n\
                         01/02/2020,10:00:00.000000\n\
                         01/02/2020,10:00:00.001000\n\
                         ASCII\n\
                         1.0";

#[test]
fn ascii_record_from_separate_files() {
    let dat = "1,0,5,1\n\n  \n2,1000,-3.5,0\n";
    let rec = ComtradeParserBuilder::new()
        .cfg_file(CFG_ASCII.as_bytes().to_vec())
        .dat_file(dat.as_bytes().to_vec())
        .hdr_file(b"free text".to_vec())
        .build()
        .parse()
        .unwrap()
        .unwrap();
    assert_eq!(rec.sample_numbers, vec![1, 2]);
    assert_eq!(rec.analog_channels[0].data.len(), 2);
    match &rec.analog_channels[0].data[1] {
        AnalogSample::Decimal(f) => assert_eq!(f.text(), "-3.5"),
        other => panic!("unexpected {:?}", other),
    }
    assert_eq!(rec.status_channels[0].data, vec![1, 0]);
    assert_eq!(rec.status_channels[0].value(0), Some(1));
    assert_eq!(rec.status_channels[0].value(2), None);
}

#[test]
fn ascii_data_errors() {
    let parse = |dat: &str| {
        ComtradeParserBuilder::new()
            .cfg_file(CFG_ASCII.as_bytes().to_vec())
            .dat_file(dat.as_bytes().to_vec())
            .build()
            .parse()
            .unwrap()
            .err()
            .unwrap()
    };
    assert_eq!(
        parse("1,0,5"),
        ComtradeError::ParserError(
            "Row 0 has incorrect number of columns; expected 4 but got 3.".into()
        )
    );
    assert_eq!(
        parse("1,0,5,1\nq,0,5,1"),
        ComtradeError::ParserError("[DAT] Invalid sample number q on line 2".into())
    );
    assert_eq!(
        parse("1,t,5,1"),
        ComtradeError::ParserError("[DAT] Invalid timestamp t on line 0.".into())
    );
    assert_eq!(
        parse("1,0,five,1"),
        ComtradeError::ParserError(
            "[DAT] Invalid float value five in analog channel 1 on line 1.".into()
        )
    );
    assert_eq!(
        parse("1,0,5,300"),
        ComtradeError::ParserError(
            "[DAT] Invalid status value 300 in status channel 1 on line 1".into()
        )
    );
}

#[test]
fn missing_files() {
    let e = ComtradeParserBuilder::new().build().parse().unwrap().err().unwrap();
    assert_eq!(e, ComtradeError::ParserError("you must specify either .cff or .cfg file".into()));
    let e = ComtradeParserBuilder::new()
        .cfg_file(CFG_ASCII.as_bytes().to_vec())
        .build()
        .parse()
        .unwrap()
        .err()
        .unwrap();
    assert_eq!(e, ComtradeError::ParserError("you must specify either .cff or .dat file".into()));
    let e = ComtradeParserBuilder::new()
        .cfg_file(vec![0xff, 0xfe])
        .build()
        .parse()
        .unwrap()
        .err()
        .unwrap();
    assert_eq!(e, ComtradeError::ParserError("unable to read specified .cfg file".into()));
    let e = ComtradeParserBuilder::new()
        .cfg_file(b"S".to_vec())
        .dat_file(vec![])
        .build()
        .parse()
        .unwrap()
        .err()
        .unwrap();
    // An error of the configuration comes back as a parser error with its message.
    assert_eq!(
        e,
        ComtradeError::ParserError(
            "Missing elements on line. Context: ID Line: Recording Device ID".into()
        )
    );
}

#[test]
fn binary_record() {
    let cfg = "ST,DEV,2013\n\
               3,1A,2D\n\
               1,VA,,,kV,1,0,0,-100,100,1,1,P\n\
               1,S1,,,0\n\
               2,S2,,,1\n\
               50\n\
               1\n\
               4000,2\n\
               01/02/2020,10:00:00.000000\n\
               01/02/2020,10:00:00.000000\n\
               BINARY\n\
               1\n\
               0,0\n\
               0,0";
    let mut dat: Vec<u8> = Vec::new();
    dat.extend_from_slice(&1u32.to_le_bytes());
    dat.extend_from_slice(&0u32.to_le_bytes());
    dat.extend_from_slice(&(-5i16).to_le_bytes());
    dat.extend_from_slice(&0b10u16.to_le_bytes());
    dat.extend_from_slice(&2u32.to_le_bytes());
    dat.extend_from_slice(&0xffff_ffffu32.to_le_bytes());
    dat.extend_from_slice(&300i16.to_le_bytes());
    dat.extend_from_slice(&0b01u16.to_le_bytes());
    let rec = ComtradeParserBuilder::new()
        .cfg_file(cfg.as_bytes().to_vec())
        .dat_file(dat.clone())
        .build()
        .parse()
        .unwrap()
        .unwrap();
    assert_eq!(rec.data_format, DataFormat::Binary16);
    assert_eq!(rec.sample_numbers, vec![1, 2]);
    assert_eq!(rec.time_bases, vec![TimeBasis::SampleRate { rate_index: 0 }; 2]);
    assert_eq!(rec.analog_channels[0].data, vec![AnalogSample::Int16(-5), AnalogSample::Int16(300)]);
    assert_eq!(rec.status_channels[0].data, vec![0, 1]);
    assert_eq!(rec.status_channels[1].data, vec![1, 0]);

    // A record cut short in its analog values.
    let e = ComtradeParserBuilder::new()
        .cfg_file(cfg.as_bytes().to_vec())
        .dat_file(dat[..9].to_vec())
        .build()
        .parse()
        .unwrap()
        .err()
        .unwrap();
    assert_eq!(
        e,
        ComtradeError::ParserError(
            "failed to read binary16 analog value: failed to fill whole buffer".into()
        )
    );
    let e = ComtradeParserBuilder::new()
        .cfg_file(cfg.as_bytes().to_vec())
        .dat_file(dat[..2].to_vec())
        .build()
        .parse()
        .unwrap()
        .err()
        .unwrap();
    assert_eq!(
        e,
        ComtradeError::ParserError(
            "failed to read sample number in binary data: failed to fill whole buffer".into()
        )
    );
}

#[test]
fn binary32_and_float32_values() {
    let cfg = |fmt: &str| {
        format!(
            "ST,DEV,1999\n1,1A,0D\n1,VA,,,kV,1,0,0,-100,100,1,1,P\n50\n1\n4000,1\n\
             01/02/2020,10:00:00.000000\n01/02/2020,10:00:00.000000\n{}\n1",
            fmt
        )
    };
    let mut dat: Vec<u8> = Vec::new();
    dat.extend_from_slice(&1u32.to_le_bytes());
    dat.extend_from_slice(&7u32.to_le_bytes());
    dat.extend_from_slice(&(-70000i32).to_le_bytes());
    let rec = ComtradeParserBuilder::new()
        .cfg_file(cfg("BINARY32").into_bytes())
        .dat_file(dat.clone())
        .build()
        .parse()
        .unwrap()
        .unwrap();
    assert_eq!(rec.analog_channels[0].data, vec![AnalogSample::Int32(-70000)]);
    let mut dat: Vec<u8> = Vec::new();
    dat.extend_from_slice(&1u32.to_le_bytes());
    dat.extend_from_slice(&7u32.to_le_bytes());
    dat.extend_from_slice(&2.5f32.to_bits().to_le_bytes());
    let rec = ComtradeParserBuilder::new()
        .cfg_file(cfg("FLOAT32").into_bytes())
        .dat_file(dat)
        .build()
        .parse()
        .unwrap()
        .unwrap();
    assert_eq!(rec.analog_channels[0].data, vec![AnalogSample::Float32Bits(2.5f32.to_bits())]);
}

#[test]
fn timestamps_when_critical() {
    let cfg = "ST,DEV,1999\n0,0A,0D\n50\n0\n0,2\n\
               01/02/2020,10:00:00.000000\n01/02/2020,10:00:00.000000\nASCII\n1";
    let rec = ComtradeParserBuilder::new()
        .cfg_file(cfg.as_bytes().to_vec())
        .dat_file(b"1,10\n2,25\n".to_vec())
        .build()
        .parse()
        .unwrap()
        .unwrap();
    assert_eq!(
        rec.time_bases,
        vec![TimeBasis::Timestamp { value: 10 }, TimeBasis::Timestamp { value: 25 }]
    );
    let e = ComtradeParserBuilder::new()
        .cfg_file(cfg.as_bytes().to_vec())
        .dat_file(b"1,\n".to_vec())
        .build()
        .parse()
        .unwrap()
        .err()
        .unwrap();
    assert_eq!(
        e,
        ComtradeError::ParserError("could not determine sampling rate for sample number 1".into())
    );
}

#[test]
fn cff_sections() {
    let cff = format!(
        "--- file type: CFG ---\n{}\n--- file type: DAT ASCII: 20 ---\n1,0,5,1\n2,1000,6,0\n\
         --- file type: HDR ---\nsome header\n--- file type: INF ---\n",
        CFG_ASCII
    );
    let c = load_cff(cff.as_bytes()).unwrap();
    assert_eq!(c.cfg, CFG_ASCII);
    assert_eq!(c.dat, "1,0,5,1\n2,1000,6,0");
    assert_eq!(c.hdr, "some header");
    assert_eq!(c.inf, "");
    let rec = ComtradeParserBuilder::new()
        .cff_file(cff.into_bytes())
        .build()
        .parse()
        .unwrap()
        .unwrap();
    assert_eq!(rec.sample_numbers, vec![1, 2]);
    assert_eq!(rec.status_channels[0].data, vec![1, 0]);
}

#[test]
fn cff_errors() {
    assert_eq!(
        load_cff(b"1,2,3\n").err(),
        Some(ComtradeError::ParserError(
            "encountered file contents line before header in .cff".into()
        ))
    );
    assert_eq!(
        load_cff(b"--- file type: dat binary ---\n\x01\x02\n").err(),
        Some(ComtradeError::ParserError("missing size of binary .dat section in .cff".into()))
    );
    assert_eq!(
        load_cff(b"--- file type: dat binary: 5 ---\n\x01\x02\n").err(),
        Some(ComtradeError::ParserError("unexpected end of binary .dat section in .cff".into()))
    );
    assert_eq!(
        load_cff(b"--- file type: dat binary: 2 ---\n\x01\x02\nxyz\n").err(),
        Some(ComtradeError::ParserError("unexpected text after binary data in .cff".into()))
    );
    assert_eq!(
        load_cff(b"--- file type: dat ---\n1,2\n").err(),
        Some(ComtradeError::ParserError("binary data in .cff files is not yet supported".into()))
    );
    assert_eq!(
        load_cff(b"--- file type: xyz ---\n").err(),
        Some(ComtradeError::ParserError("invalid file type: 'xyz'".into()))
    );
    assert_eq!(
        load_cff(b"--- file type: cfg ---\n\xff\n").err(),
        Some(ComtradeError::ParserError(
            "I/O error reading .cff file: stream did not contain valid UTF-8".into()
        ))
    );
    assert_eq!(
        load_cff(b"--- file type: dat ascii: 99999999999999999999999 ---\n").err(),
        Some(ComtradeError::ParserError(
            "unable to parse .dat size: '99999999999999999999999'".into()
        ))
    );
}

#[test]
fn cff_with_float32_data() {
    let cfg = "EXAMPLE,example,2013\n\
               2,1A,1D\n\
               1,test/out1,,,none,1,0,1,-3.40282347e38,3.40282347e38,1,1,P\n\
               1,test/bool1,,,0\n\
               0\n\
               1\n\
               100,3\n\
               17/02/2021,17:37:12.422969065\n\
               17/02/2021,17:37:13.922969065\n\
               FLOAT32\n\
               1\n\
               0,0\n\
               0,0";
    let mut dat: Vec<u8> = Vec::new();
    for (n, v, s) in [(1u32, 0.5f32, 1u16), (2, -1.25, 0), (3, 3.0, 1)] {
        dat.extend_from_slice(&n.to_le_bytes());
        dat.extend_from_slice(&0xffff_ffffu32.to_le_bytes());
        dat.extend_from_slice(&v.to_bits().to_le_bytes());
        dat.extend_from_slice(&s.to_le_bytes());
    }
    let mut cff: Vec<u8> = Vec::new();
    cff.extend_from_slice(b"--- file type: CFG ---\r\n");
    cff.extend_from_slice(cfg.as_bytes());
    cff.extend_from_slice(format!("\r\n--- file type: DAT FLOAT32: {} ---\r\n", dat.len()).as_bytes());
    cff.extend_from_slice(&dat);
    cff.extend_from_slice(b"\r\n--- file type: HDR ---\r\nnotes\r\n--- file type: INF ---\r\n");

    let c = load_cff(&cff).unwrap();
    assert_eq!(c.dat_bytes, dat);
    assert_eq!(c.dat, "");
    assert_eq!(c.hdr, "notes");

    let rec = ComtradeParserBuilder::new()
        .cff_file(cff)
        .build()
        .parse()
        .unwrap()
        .unwrap();
    assert_eq!(rec.data_format, DataFormat::Float32);
    assert_eq!(rec.sample_numbers, vec![1, 2, 3]);
    assert_eq!(
        rec.analog_channels[0].data,
        vec![
            AnalogSample::Float32Bits(0.5f32.to_bits()),
            AnalogSample::Float32Bits((-1.25f32).to_bits()),
            AnalogSample::Float32Bits(3.0f32.to_bits()),
        ]
    );
    assert_eq!(rec.status_channels[0].data, vec![1, 0, 1]);
}

#[test]
fn ascii_status_must_be_a_state() {
    let e = ComtradeParserBuilder::new()
        .cfg_file(CFG_ASCII.as_bytes().to_vec())
        .dat_file(b"1,0,5,2\n".to_vec())
        .build()
        .parse()
        .unwrap()
        .err()
        .unwrap();
    assert_eq!(
        e,
        ComtradeError::ParserError(
            "[DAT] Invalid status value 2 in status channel 1 on line 1".into()
        )
    );
}
