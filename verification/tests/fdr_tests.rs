use xfdr::fdr::{DataRef, FDRConfigurationBuilder, FDRWriter, FlightDataBlock, FlightDataError};
use xfdr::garmin::GarminLogFile;
use xfdr::table::{Column, Table, ValueType};

fn sample_csv() -> String {
    let mut s = String::new();
    s.push_str("#airframe_info, tail_number=\"N12345\", software_version=\"9.1\"\n");
    s.push_str("#yyy-mm-dd,hh:mm:ss,hh:mm,degrees,degrees,ft Baro,deg,deg,deg,volts\n");
    s.push_str("Lcl Date, Lcl Time, UTCOfst, Longitude, Latitude, AltB, HDG, Pitch, Roll, bus1volts\n");
    s.push_str("2023-11-04,08:48:13,-04:00,-73.88,41.62,300.5,115,1.1,-0.5,27.9\n");
    s
}

#[test]
fn test_fdr_configuration_builder() {
    let cfg = FDRConfigurationBuilder::default()
        .aircraft_model("Aircraft/Laminar Research/Cirrus SR22/Cirrus SR22.acf".to_string())
        .tail_number_override(Some("N12345".to_string()))
        .default_tail_number("N54321".to_string())
        .build();
    assert_eq!(
        cfg.aircraft_model,
        "Aircraft/Laminar Research/Cirrus SR22/Cirrus SR22.acf"
    );
    assert_eq!(cfg.tail_number_override, Some("N12345".to_string()));
    assert_eq!(cfg.defaut_tail_number, "N54321".to_string());
}

#[test]
fn test_fdr_writer() {
    let cfg = FDRConfigurationBuilder::default().build();
    let writer = FDRWriter::new(cfg);
    let data = GarminLogFile::new(&sample_csv()).unwrap();
    let mut out = String::new();
    writer.write(&data, &mut out).unwrap();
    assert_eq!(out.is_empty(), false);
}

#[test]
fn minimal_mode_full_output() {
    // 2023-11-04T08:48:13-04:00 is 12:48:13 UTC.
    let cfg = FDRConfigurationBuilder::default().build();
    let writer = FDRWriter::new(cfg);
    let data = GarminLogFile::new(&sample_csv()).unwrap();
    let mut out = String::new();
    writer.write(&data, &mut out).unwrap();
    assert_eq!(
        out,
        "A\n4\nACFT,\nTAIL,N12345\n12:48:13,-73.88,41.62,300.5,115,1.1,-0.5\n"
    );
}

#[test]
fn tail_override_wins_over_metadata() {
    let cfg = FDRConfigurationBuilder::default()
        .tail_number_override(Some("N99999".to_string()))
        .build();
    let writer = FDRWriter::new(cfg);
    let data = GarminLogFile::new(&sample_csv()).unwrap();
    let mut out = String::new();
    writer.write(&data, &mut out).unwrap();
    assert!(out.contains("TAIL,N99999\n"));
    assert!(!out.contains("TAIL,N12345\n"));
}

// Scenario: no identity override and no identity key in the metadata, so
// the TAIL line falls back to the configured default.
#[test]
fn tail_defaults_without_metadata_identity() {
    let mut s = String::new();
    s.push_str("#log_version=\"1.0\", unit_one=\"a\", unit_two=\"b\"\n");
    s.push_str("#yyy-mm-dd,hh:mm:ss,hh:mm,degrees,degrees,ft Baro,deg,deg,deg\n");
    s.push_str("Lcl Date,Lcl Time,UTCOfst,Longitude,Latitude,AltB,HDG,Pitch,Roll\n");
    s.push_str("2023-11-04,08:48:13,-04:00,-73.88,41.62,300.5,115,1.1,-0.5\n");
    let cfg = FDRConfigurationBuilder::default()
        .default_tail_number("NDEFLT".to_string())
        .build();
    let writer = FDRWriter::new(cfg);
    let data = GarminLogFile::new(&s).unwrap();
    // three metadata entries were read from line 1
    assert_eq!(data.header.metadata.len(), 3);
    let mut out = String::new();
    writer.write(&data, &mut out).unwrap();
    assert!(out.contains("TAIL,NDEFLT\n"));
}

// Scenario: a known mapping with scale 0.45359237 emits its DREF line and
// the column's values stay unscaled in the row data.
#[test]
fn mapped_mode_scale_is_metadata_only() {
    let mut s = String::new();
    s.push_str("#airframe_info, tail_number=\"N12345\"\n");
    s.push_str("#yyy-mm-dd,hh:mm:ss,hh:mm,degrees,degrees,ft Baro,deg,deg,deg,lbs\n");
    s.push_str("Lcl Date,Lcl Time,UTCOfst,Longitude,Latitude,AltB,HDG,Pitch,Roll,FQtyLlbs\n");
    s.push_str("2023-11-04,08:48:13,-04:00,-73.88,41.62,300.5,115,1.1,-0.5,30.2\n");
    let cfg = FDRConfigurationBuilder::default().auto_drefs(true).build();
    let writer = FDRWriter::new(cfg);
    let data = GarminLogFile::new(&s).unwrap();
    let mut out = String::new();
    writer.write(&data, &mut out).unwrap();
    assert!(out.contains("DREF,sim/flightmodel/weight/m_fuel[0],0.45359237\n"));
    assert!(out.contains("12:48:13,-73.88,41.62,300.5,115,1.1,-0.5,30.2\n"));
}

// Scenario: with nulls disallowed, a row holding one null in a retained
// non-mandatory column is removed from the body.
#[test]
fn null_row_dropped_from_body() {
    let mut s = String::new();
    s.push_str("#airframe_info, tail_number=\"N12345\"\n");
    s.push_str("#yyy-mm-dd,hh:mm:ss,hh:mm,degrees,degrees,ft Baro,deg,deg,deg,volts\n");
    s.push_str("Lcl Date,Lcl Time,UTCOfst,Longitude,Latitude,AltB,HDG,Pitch,Roll,bus1volts\n");
    s.push_str("2023-11-04,08:48:13,-04:00,-73.88,41.62,300.5,115,1.1,-0.5,27.9\n");
    s.push_str("2023-11-04,08:48:14,-04:00,-73.89,41.63,301.5,116,1.2,-0.4,27.8\n");
    s.push_str("2023-11-04,08:48:15,-04:00,-73.90,41.64,302.5,117,1.3,-0.3,\n");
    s.push_str("2023-11-04,08:48:16,-04:00,-73.91,41.65,303.5,118,1.4,-0.2,27.6\n");
    s.push_str("2023-11-04,08:48:17,-04:00,-73.92,41.66,304.5,119,1.5,-0.1,27.5\n");
    let cfg = FDRConfigurationBuilder::default().auto_drefs(true).build();
    let writer = FDRWriter::new(cfg);
    let data = GarminLogFile::new(&s).unwrap();
    assert_eq!(data.data.height(), 5);
    let mut out = String::new();
    writer.write(&data, &mut out).unwrap();
    let body: Vec<&str> = out
        .lines()
        .filter(|l| l.starts_with("12:48:"))
        .collect();
    assert_eq!(body.len(), 4);
    assert!(!out.contains("12:48:15"));
}

#[test]
fn allow_nulls_keeps_null_rows() {
    let mut s = String::new();
    s.push_str("#airframe_info, tail_number=\"N12345\"\n");
    s.push_str("#yyy-mm-dd,hh:mm:ss,hh:mm,degrees,degrees,ft Baro,deg,deg,deg,volts\n");
    s.push_str("Lcl Date,Lcl Time,UTCOfst,Longitude,Latitude,AltB,HDG,Pitch,Roll,bus1volts\n");
    s.push_str("2023-11-04,08:48:13,-04:00,-73.88,41.62,300.5,115,1.1,-0.5,\n");
    let cfg = FDRConfigurationBuilder::default()
        .auto_drefs(true)
        .allow_nulls(true)
        .build();
    let writer = FDRWriter::new(cfg);
    let data = GarminLogFile::new(&s).unwrap();
    let mut out = String::new();
    writer.write(&data, &mut out).unwrap();
    assert!(out.contains("12:48:13,-73.88,41.62,300.5,115,1.1,-0.5,\n"));
}

#[test]
fn insufficient_data_on_narrow_table() {
    let data = GarminLogFile {
        header: xfdr::garmin::GarminEISLogHeader {
            metadata: Vec::new(),
            columns: Vec::new(),
        },
        data: Table {
            columns: vec![Column {
                name: "timestamp".to_string(),
                vtype: ValueType::Timestamp,
                cells: vec![Some("0".to_string())],
            }],
        },
    };
    let cfg = FDRConfigurationBuilder::default().build();
    let writer = FDRWriter::new(cfg);
    let mut out = String::new();
    let err = writer.write(&data, &mut out).unwrap_err();
    match err {
        xfdr::fdr::FDRWriteError::FlightDataError(FlightDataError::InsufficientData) => {}
        other => panic!("unexpected error: {:?}", other),
    }
}

#[test]
fn block_new_reports_missing_drefs() {
    let mut columns = Vec::new();
    for name in [
        "timestamp", "Longitude", "Latitude", "AltB", "HDG", "Pitch", "Roll", "Extra1", "Extra2",
    ] {
        columns.push(Column {
            name: name.to_string(),
            vtype: ValueType::Float,
            cells: Vec::new(),
        });
    }
    let err = FlightDataBlock::new(Vec::new(), Table { columns }).unwrap_err();
    match err {
        FlightDataError::MissingDrefs(ns) => {
            assert_eq!(ns, vec!["Extra1".to_string(), "Extra2".to_string()]);
        }
        other => panic!("unexpected error: {:?}", other),
    }
}

#[test]
fn block_new_accepts_aligned_drefs() {
    let mut columns = Vec::new();
    for name in [
        "timestamp", "Longitude", "Latitude", "AltB", "HDG", "Pitch", "Roll", "Extra1",
    ] {
        columns.push(Column {
            name: name.to_string(),
            vtype: ValueType::Float,
            cells: Vec::new(),
        });
    }
    let drefs = vec![DataRef::new("sim/test/path".to_string())];
    let block = FlightDataBlock::new(drefs, Table { columns }).unwrap();
    assert_eq!(block.drefs.len(), 1);
    assert_eq!(block.drefs[0].scale, "1");
}

#[test]
fn flight_data_error_messages() {
    let e = FlightDataError::MissingDrefs(vec!["A".to_string(), "B".to_string()]);
    assert_eq!(e.message(), "Missing DREFs for columns: A,B");
    let e = FlightDataError::UnknownColumn("Foo".to_string());
    assert_eq!(e.message(), "Unknown column: Foo");
    let e = FlightDataError::InsufficientData;
    assert_eq!(e.message(), "Insufficient data");
}

#[test]
fn required_schema_shape() {
    let s = xfdr::fdr::required_schema();
    assert_eq!(s.len(), 7);
    assert_eq!(s[0].name, "timestamp");
    assert_eq!(s[0].vtype, ValueType::Timestamp);
    assert_eq!(s[6].name, "roll");
    assert_eq!(s[6].vtype, ValueType::Float);
}

#[test]
fn test_args_parse() -> Result<(), String> {
    let args = xfdr::Args {
        source: None,
        aircraft: "Aircraft/Laminar Research/Cirrus SR22/Cirrus SR22.acf".to_string(),
        tail_number: None,
        input: "input.csv".to_string(),
        output: None,
        strict: false,
    };

    assert_eq!(args.input.as_str(), "input.csv");
    assert_eq!(args.output, None);
    Ok(())
}

#[test]
fn write_error_messages() {
    let e = xfdr::fdr::FDRWriteError::FlightDataError(FlightDataError::InsufficientData);
    assert_eq!(e.message(), "Flight data error: Insufficient data");
    let e = xfdr::fdr::FDRWriteError::TimestampRenderFailure;
    assert_eq!(e.message(), "Timestamp render failure");
}
