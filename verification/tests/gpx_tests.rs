use gpx_report::GpxError;
use gpx_report::geo::distance_mm;
use gpx_report::report::{Aggregate, TrackReport, analyze_bytes};
use gpx_report::sample::{Sample, Timestamp};

fn minimal_gpx() -> String {
    let mut doc = String::new();
    doc.push_str("<gpx>\n  <trk>\n    <name>Morning Ride</name>\n    <trkseg>\n");
    doc.push_str("      <trkpt lat=\"0.0\" lon=\"0.0\">\n");
    doc.push_str("        <ele>100.0</ele>\n        <time>2021-09-16T11:03:01</time>\n");
    doc.push_str("      </trkpt>\n");
    doc.push_str("      <trkpt lat=\"0.0\" lon=\"1.0\">\n");
    doc.push_str("        <ele>110.5</ele>\n        <time>2021-09-16T11:04:31</time>\n");
    doc.push_str("      </trkpt>\n");
    doc.push_str("    </trkseg>\n  </trk>\n</gpx>\n");
    doc
}

fn expected_leg_mm() -> u128 {
    let t = Timestamp { year: 2021, month: 9, day: 16, hour: 11, minute: 3, second: 1 };
    let a = Sample { ele_mm: 100_000, time: t, lat_udeg: 0, lon_udeg: 0 };
    let b = Sample { ele_mm: 110_500, time: t, lat_udeg: 0, lon_udeg: 1_000_000 };
    distance_mm(&a, &b) as u128
}

#[test]
fn end_to_end_minimal_document() {
    let doc = minimal_gpx();
    let rep: TrackReport = analyze_bytes(doc.as_bytes()).unwrap();
    assert_eq!(rep.title, "Morning Ride");
    assert_eq!(rep.num_samples, 2);
    assert_eq!(rep.start.year, 2021);
    assert_eq!(rep.start.month, 9);
    assert_eq!(rep.start.day, 16);
    assert_eq!(rep.start.hour, 11);
    assert_eq!(rep.start.minute, 3);
    assert_eq!(rep.start.second, 1);
    assert_eq!(rep.duration_seconds, 90);
    assert_eq!(rep.elevation_gain_mm, 100_000 + 10_500);
    assert_eq!(rep.distance_mm, expected_leg_mm());
}

#[test]
fn archive_style_aggregate_of_two_tracks() {
    let doc = minimal_gpx();
    let mut agg = Aggregate::new();
    let first = analyze_bytes(doc.as_bytes()).unwrap();
    assert!(agg.add(&first));
    let second = analyze_bytes(doc.as_bytes()).unwrap();
    assert!(agg.add(&second));
    assert_eq!(agg.rides, 2);
    assert_eq!(agg.duration_seconds, 180);
    assert_eq!(agg.elevation_gain_mm, 2 * 110_500);
    assert_eq!(agg.distance_mm, 2 * expected_leg_mm());
}

#[test]
fn empty_name_element_gives_placeholder_title() {
    let doc = "<gpx><trk><name></name><trkseg>\
        <trkpt lat=\"1.0\" lon=\"2.0\"><ele>3.0</ele><time>2020-01-02T03:04:05</time></trkpt>\
        </trkseg></trk></gpx>";
    let rep = analyze_bytes(doc.as_bytes()).unwrap();
    assert_eq!(rep.title, "Unnamed Activity");
}

#[test]
fn missing_name_element_is_malformed() {
    let doc = "<gpx><trk><trkseg>\
        <trkpt lat=\"1.0\" lon=\"2.0\"><ele>3.0</ele><time>2020-01-02T03:04:05</time></trkpt>\
        </trkseg></trk></gpx>";
    assert_eq!(analyze_bytes(doc.as_bytes()), Err(GpxError::MalformedDocument));
}

#[test]
fn missing_time_child_is_malformed() {
    let doc = "<gpx><trk><name>x</name><trkseg>\
        <trkpt lat=\"1.0\" lon=\"2.0\"><ele>3.0</ele></trkpt>\
        </trkseg></trk></gpx>";
    assert_eq!(analyze_bytes(doc.as_bytes()), Err(GpxError::MalformedDocument));
}

#[test]
fn unparsable_time_text_is_malformed() {
    let doc = "<gpx><trk><name>x</name><trkseg>\
        <trkpt lat=\"1.0\" lon=\"2.0\"><ele>3.0</ele><time>2020-01-02 03:04:05</time></trkpt>\
        </trkseg></trk></gpx>";
    assert_eq!(analyze_bytes(doc.as_bytes()), Err(GpxError::MalformedDocument));
}

#[test]
fn missing_ele_child_is_malformed() {
    let doc = "<gpx><trk><name>x</name><trkseg>\
        <trkpt lat=\"1.0\" lon=\"2.0\"><time>2020-01-02T03:04:05</time></trkpt>\
        </trkseg></trk></gpx>";
    assert_eq!(analyze_bytes(doc.as_bytes()), Err(GpxError::MalformedDocument));
}

#[test]
fn empty_ele_element_defaults_to_zero() {
    let doc = "<gpx><trk><name>x</name><trkseg>\
        <trkpt lat=\"1.0\" lon=\"2.0\"><ele></ele><time>2020-01-02T03:04:05</time></trkpt>\
        </trkseg></trk></gpx>";
    let rep = analyze_bytes(doc.as_bytes()).unwrap();
    assert_eq!(rep.elevation_gain_mm, 0);
}

#[test]
fn missing_lat_attribute_is_malformed() {
    let doc = "<gpx><trk><name>x</name><trkseg>\
        <trkpt lon=\"2.0\"><ele>3.0</ele><time>2020-01-02T03:04:05</time></trkpt>\
        </trkseg></trk></gpx>";
    assert_eq!(analyze_bytes(doc.as_bytes()), Err(GpxError::MalformedDocument));
}

#[test]
fn unparsable_lat_attribute_is_malformed() {
    let doc = "<gpx><trk><name>x</name><trkseg>\
        <trkpt lat=\"north\" lon=\"2.0\"><ele>3.0</ele><time>2020-01-02T03:04:05</time></trkpt>\
        </trkseg></trk></gpx>";
    assert_eq!(analyze_bytes(doc.as_bytes()), Err(GpxError::MalformedDocument));
}

#[test]
fn track_without_points_is_empty_track() {
    let doc = "<gpx><trk><name>x</name><trkseg></trkseg></trk></gpx>";
    assert_eq!(analyze_bytes(doc.as_bytes()), Err(GpxError::EmptyTrack));
}

#[test]
fn missing_trk_element_is_malformed() {
    let doc = "<gpx><metadata></metadata></gpx>";
    assert_eq!(analyze_bytes(doc.as_bytes()), Err(GpxError::MalformedDocument));
}

#[test]
fn missing_trkseg_element_is_malformed() {
    let doc = "<gpx><trk><name>x</name></trk></gpx>";
    assert_eq!(analyze_bytes(doc.as_bytes()), Err(GpxError::MalformedDocument));
}

#[test]
fn bytes_that_are_not_xml_are_malformed() {
    let doc = "this is not xml at all";
    assert_eq!(analyze_bytes(doc.as_bytes()), Err(GpxError::MalformedDocument));
}

#[test]
fn aggregate_starts_empty() {
    let agg = Aggregate::new();
    assert_eq!(agg.rides, 0);
    assert_eq!(agg.duration_seconds, 0);
    assert_eq!(agg.elevation_gain_mm, 0);
    assert_eq!(agg.distance_mm, 0);
}
