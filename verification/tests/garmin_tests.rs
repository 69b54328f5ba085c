use xfdr::detection::{detect_source, read_avionics_log, SourceDetectionError};
use xfdr::fdr::FDRConfigurationBuilder;
use xfdr::fdr::FlightDataError;
use xfdr::fdr::FlightDataSource;
use xfdr::garmin::{
    build_dref_map, dref_lookup, remove_empty_rows, unit_value_type, GarminEISLogHeader,
    GarminLogFile, GarminLogFileParseError,
};
use xfdr::table::{Column, Table, ValueType};
use xfdr::AviationLogSourceOption;

fn nine_col_csv(extra_units: &str, extra_names: &str, extra_vals: &str) -> String {
    let mut s = String::new();
    s.push_str("#airframe_info, tail_number=\"N12345\"\n");
    s.push_str("#yyy-mm-dd,hh:mm:ss,hh:mm,degrees,degrees,ft Baro,deg,deg,deg");
    s.push_str(extra_units);
    s.push('\n');
    s.push_str("Lcl Date,Lcl Time,UTCOfst,Longitude,Latitude,AltB,HDG,Pitch,Roll");
    s.push_str(extra_names);
    s.push('\n');
    s.push_str("2023-11-04,08:48:13,-04:00,-73.88,41.62,300.5,115,1.1,-0.5");
    s.push_str(extra_vals);
    s.push('\n');
    s
}

#[test]
fn detection_is_garmin() {
    assert_eq!(detect_source("whatever.csv"), Ok(AviationLogSourceOption::Garmin));
    let _ = SourceDetectionError::UnrecognizedSource;
}

#[test]
fn read_avionics_log_parses() {
    let s = nine_col_csv("", "", "");
    let f = read_avionics_log(&AviationLogSourceOption::Garmin, &s).unwrap();
    assert_eq!(f.data.width(), 7);
}

// Scenario: minimal-mode conversion of a nine-column source keeps the seven
// mandatory columns and carries no mapping entries.
#[test]
fn minimal_mode_drops_extras() {
    let s = nine_col_csv(",volts,amps", ",FooX,FooY", ",27.9,41.0");
    let f = GarminLogFile::new(&s).unwrap();
    assert_eq!(f.data.width(), 9);
    let cfg = FDRConfigurationBuilder::default().build();
    let block = f.data_block(&cfg).unwrap();
    assert_eq!(block.data.width(), 7);
    assert_eq!(block.drefs.len(), 0);
}

// Strict mapped mode with one mapped and one unmapped extra fails and
// reports exactly the unmapped column name.
#[test]
fn strict_mode_reports_all_unmapped() {
    let s = nine_col_csv(",Hg,amps", ",BaroA,Zzz", ",29.92,41.0");
    let f = GarminLogFile::new(&s).unwrap();
    let cfg = FDRConfigurationBuilder::default()
        .auto_drefs(true)
        .strict(true)
        .build();
    let err = f.data_block(&cfg).unwrap_err();
    match err {
        FlightDataError::MissingDrefs(ns) => assert_eq!(ns, vec!["Zzz".to_string()]),
        other => panic!("unexpected error: {:?}", other),
    }
}

#[test]
fn lenient_mode_drops_unmapped_keeps_mapped() {
    let s = nine_col_csv(",Hg,amps", ",BaroA,Zzz", ",29.92,41.0");
    let f = GarminLogFile::new(&s).unwrap();
    let cfg = FDRConfigurationBuilder::default().auto_drefs(true).build();
    let block = f.data_block(&cfg).unwrap();
    assert_eq!(block.data.width(), 8);
    assert_eq!(block.drefs.len(), 1);
    assert_eq!(
        block.drefs[0].path,
        "sim/cockpit2/gauges/actuators/barometer_setting_in_hg_pilot"
    );
}

#[test]
fn header_round_trip_counts() {
    let s = nine_col_csv("", "", "");
    let h = GarminEISLogHeader::from_csv(&s).unwrap();
    // "airframe_info" carries no "=": it denotes no metadata pair
    assert_eq!(h.metadata.len(), 1);
    assert_eq!(h.metadata[0].key, "tail_number");
    assert_eq!(h.metadata[0].value, "N12345");
    assert_eq!(h.columns.len(), 9);
    let names: Vec<&str> = h.columns.iter().map(|c| c.raw_name()).collect();
    assert_eq!(
        names.join(","),
        "Lcl Date,Lcl Time,UTCOfst,Longitude,Latitude,AltB,HDG,Pitch,Roll"
    );
    assert_eq!(h.columns[0].unit(), "yyy-mm-dd");
}

#[test]
fn header_requires_three_lines() {
    let err = GarminEISLogHeader::from_csv("#one line\n#two lines\n").unwrap_err();
    assert!(matches!(err, GarminLogFileParseError::MalformedHeader));
}

#[test]
fn unit_types_cover_all_kinds() {
    assert_eq!(unit_value_type("yyy-mm-dd"), ValueType::Date);
    assert_eq!(unit_value_type("bool"), ValueType::Integer);
    assert_eq!(unit_value_type("#"), ValueType::Integer);
    assert_eq!(unit_value_type("kt"), ValueType::Float);
    assert_eq!(unit_value_type("deg F/min"), ValueType::Float);
    assert_eq!(unit_value_type("%"), ValueType::Float);
    assert_eq!(unit_value_type("enum"), ValueType::Text);
    assert_eq!(unit_value_type("crc16"), ValueType::Text);
    assert_eq!(unit_value_type("no-such-unit"), ValueType::Text);
    assert_eq!(unit_value_type(""), ValueType::Text);
}

#[test]
fn row_width_mismatch_fails_load() {
    let mut s = String::new();
    s.push_str("#meta, tail_number=\"N1\"\n");
    s.push_str("#yyy-mm-dd,hh:mm:ss,hh:mm,degrees,degrees,ft Baro,deg,deg,deg\n");
    s.push_str("Lcl Date,Lcl Time,UTCOfst,Longitude,Latitude,AltB,HDG,Pitch,Roll\n");
    s.push_str("2023-11-04,08:48:13,-04:00,-73.88\n");
    let err = GarminLogFile::new(&s).unwrap_err();
    assert!(matches!(err, GarminLogFileParseError::RowWidthMismatch));
}

#[test]
fn bad_timestamp_fails_load() {
    let mut s = nine_col_csv("", "", "");
    s.push_str("2023-13-99,08:48:13,-04:00,-73.88,41.62,300.5,115,1.1,-0.5\n");
    let err = GarminLogFile::new(&s).unwrap_err();
    assert!(matches!(err, GarminLogFileParseError::TimestampParseFailure));
}

#[test]
fn missing_mandatory_column_is_unknown() {
    let mut s = String::new();
    s.push_str("#meta, tail_number=\"N1\"\n");
    s.push_str("#yyy-mm-dd,hh:mm:ss,hh:mm,degrees,degrees,ft Baro,deg,deg\n");
    s.push_str("Lcl Date,Lcl Time,UTCOfst,Longitude,Latitude,AltB,HDG,Pitch\n");
    s.push_str("2023-11-04,08:48:13,-04:00,-73.88,41.62,300.5,115,1.1\n");
    let err = GarminLogFile::new(&s).unwrap_err();
    match err {
        GarminLogFileParseError::UnknownColumn(n) => assert_eq!(n, "Roll"),
        other => panic!("unexpected error: {:?}", other),
    }
}

#[test]
fn trailing_nuls_are_stripped() {
    let mut s = nine_col_csv("", "", "");
    s.push('\u{0}');
    s.push('\u{0}');
    let f = GarminLogFile::new(&s).unwrap();
    assert_eq!(f.data.height(), 1);
}

#[test]
fn empty_rows_are_dropped_on_load() {
    let mut s = nine_col_csv("", "", "");
    s.push_str(",,,,,,,,\n");
    s.push_str("2023-11-04,08:48:14,-04:00,-73.89,41.63,301.5,116,1.2,-0.4\n");
    let f = GarminLogFile::new(&s).unwrap();
    assert_eq!(f.data.height(), 2);
}

fn tables_equal(a: &Table, b: &Table) -> bool {
    if a.columns.len() != b.columns.len() {
        return false;
    }
    for (ca, cb) in a.columns.iter().zip(b.columns.iter()) {
        if ca.name != cb.name || ca.vtype != cb.vtype || ca.cells != cb.cells {
            return false;
        }
    }
    true
}

fn small_table() -> Table {
    Table {
        columns: vec![
            Column {
                name: "a".to_string(),
                vtype: ValueType::Text,
                cells: vec![Some("x".to_string()), None, None, Some("y".to_string())],
            },
            Column {
                name: "b".to_string(),
                vtype: ValueType::Float,
                cells: vec![None, None, Some("1.5".to_string()), None],
            },
        ],
    }
}

// The empty-row filter is idempotent: a second pass changes nothing.
#[test]
fn empty_row_filter_idempotent() {
    let once = remove_empty_rows(small_table());
    let twice = remove_empty_rows(remove_empty_rows(small_table()));
    assert!(tables_equal(&once, &twice));
    // row 1 (all null) is gone; the other three rows stay
    assert_eq!(once.height(), 3);
}

#[test]
fn dref_map_lookups() {
    let map = build_dref_map();
    assert_eq!(map.len(), 28);
    let d = dref_lookup(&map, "FQtyL").unwrap();
    assert_eq!(d.path, "sim/cockpit2/fuel/fuel_quantity[0]");
    assert_eq!(d.scale, "2.73062384");
    let d = dref_lookup(&map, "E1 RPM").unwrap();
    assert_eq!(d.path, "sim/cockpit2/engine/indicators/engine_speed_rpm[0]");
    assert_eq!(d.scale, "1");
    assert!(dref_lookup(&map, "NoSuchColumn").is_none());
}

#[test]
fn cleaning_reorders_mandatory_first() {
    let mut s = String::new();
    s.push_str("#meta, tail_number=\"N1\"\n");
    s.push_str("#volts,yyy-mm-dd,hh:mm:ss,hh:mm,degrees,degrees,ft Baro,deg,deg,deg\n");
    s.push_str("bus1volts,Lcl Date,Lcl Time,UTCOfst,Longitude,Latitude,AltB,HDG,Pitch,Roll\n");
    s.push_str("27.9,2023-11-04,08:48:13,-04:00,-73.88,41.62,300.5,115,1.1,-0.5\n");
    let f = GarminLogFile::new(&s).unwrap();
    let names: Vec<&str> = f.data.columns.iter().map(|c| c.name.as_str()).collect();
    assert_eq!(
        names,
        vec!["timestamp", "Longitude", "Latitude", "AltB", "HDG", "Pitch", "Roll", "bus1volts"]
    );
}

#[test]
fn text_values_are_trimmed() {
    let mut s = String::new();
    s.push_str("#meta, tail_number=\"N1\"\n");
    s.push_str("#yyy-mm-dd,hh:mm:ss,hh:mm,degrees,degrees,ft Baro,deg,deg,deg,enum\n");
    s.push_str("Lcl Date,Lcl Time,UTCOfst,Longitude,Latitude,AltB,HDG,Pitch,Roll,AtvWpt\n");
    s.push_str("2023-11-04,08:48:13,-04:00,-73.88,41.62,300.5,115,1.1,-0.5,  KPOU \n");
    let f = GarminLogFile::new(&s).unwrap();
    let wpt = &f.data.columns[7];
    assert_eq!(wpt.name, "AtvWpt");
    assert_eq!(wpt.vtype, ValueType::Text);
    assert_eq!(wpt.cells[0], Some("KPOU".to_string()));
}

#[test]
fn first_instant_is_epoch_seconds() {
    let s = nine_col_csv("", "", "");
    let f = GarminLogFile::new(&s).unwrap();
    // 2023-11-04T08:48:13-04:00 == 2023-11-04T12:48:13Z
    assert_eq!(f.timestamp(), Some(1699102093));
    assert_eq!(f.tail_number(), Some("N12345".to_string()));
}

#[test]
fn parse_error_messages() {
    assert_eq!(
        GarminLogFileParseError::UnknownColumn("Roll".to_string()).message(),
        "Unknown column: Roll"
    );
    assert_eq!(
        GarminLogFileParseError::RowWidthMismatch.message(),
        "Row width mismatch"
    );
}

#[test]
fn header_units_and_values_are_trimmed() {
    let mut s = String::new();
    s.push_str("# product = \"G3X\" , tail_number = \"N777\" \n");
    s.push_str("# yyy-mm-dd , hh:mm:ss , hh:mm , degrees , degrees , ft Baro , deg , deg , deg\n");
    s.push_str("Lcl Date,Lcl Time,UTCOfst,Longitude,Latitude,AltB,HDG,Pitch,Roll\n");
    let h = GarminEISLogHeader::from_csv(&s).unwrap();
    assert_eq!(h.metadata.len(), 2);
    assert_eq!(h.metadata[0].key, "product");
    assert_eq!(h.metadata[0].value, "G3X");
    assert_eq!(h.metadata[1].value, "N777");
    assert_eq!(h.columns[0].unit(), "yyy-mm-dd");
    assert_eq!(h.columns[5].unit(), "ft Baro");
    let schema = h.build_schema();
    assert_eq!(schema[5].vtype, ValueType::Float);
    assert_eq!(schema[5].name, "AltB");
}
