use geotagger::domain::CoordinateSystem;
use geotagger::error::{AppError, ErrorCode};
use geotagger::gpx::{
    has_time_inversion, lay_out_track, order_track_points, parse_gpx_structure, scan_gpx_bytes, time_order,
    GpxStructure, OrderedSegment, TrackLayout,
};

const SEGMENTED_GPX: &str = r#"<?xml version="1.0" encoding="UTF-8"?>
<gpx version="1.1" creator="test">
  <trk>
    <name>Segmented</name>
    <trkseg>
      <trkpt lat="30.0000" lon="120.0000"><ele>10</ele><time>2024-01-01T00:00:10Z</time></trkpt>
      <trkpt lat="30.0001" lon="120.0001"><ele>11</ele><time>2024-01-01T00:00:00Z</time></trkpt>
    </trkseg>
    <trkseg>
      <trkpt lat="31.0000" lon="121.0000"><time>2024-01-01T01:00:00Z</time></trkpt>
    </trkseg>
  </trk>
</gpx>"#;

fn every_point_converts(structure: &GpxStructure) -> Vec<Vec<Result<u64, AppError>>> {
    structure.segments.iter().map(|points| points.iter().map(|_| Ok(0)).collect()).collect()
}

fn no_jumps(ordered: &[OrderedSegment]) -> Vec<Vec<Option<String>>> {
    ordered.iter().map(|s| vec![None; s.order.len().saturating_sub(1)]).collect()
}

fn parse_gpx_bytes(bytes: &[u8], source_path: &str, relative_path: &str, hash: &str) -> Result<TrackLayout, AppError> {
    let structure = parse_gpx_structure(bytes, CoordinateSystem::Wgs84)?;
    let conversions = every_point_converts(&structure);
    let ordered = order_track_points(&structure, &conversions)?;
    let jumps = no_jumps(&ordered);
    lay_out_track(
        structure.track_name.clone(),
        source_path.to_owned(),
        relative_path.to_owned(),
        hash.to_owned(),
        CoordinateSystem::Wgs84,
        &ordered,
        &jumps,
        false,
    )
}

#[test]
fn preserves_segments_and_sorts_inside_each_segment() {
    let track = parse_gpx_bytes(SEGMENTED_GPX.as_bytes(), "/tmp/segmented.gpx", "segmented.gpx", "fixture-hash")
        .expect("parse");
    assert_eq!(track.segments.len(), 2);
    assert_eq!(track.point_count, 3);
    assert!(track.segments[0].times[0] < track.segments[0].times[1]);
    assert!(track.warnings.iter().any(|warning| warning.code == "TRACK_TIME_NOT_SORTED"));
}

#[test]
fn rejects_missing_time() {
    let missing_time = br#"<gpx><trk><trkseg><trkpt lat="1" lon="2"/></trkseg></trk></gpx>"#;
    let error = parse_gpx_bytes(missing_time, "missing.gpx", "missing.gpx", "hash").expect_err("must reject");
    assert_eq!(error.code, ErrorCode::TrackNoTime);
}

#[test]
fn track_layout_carries_name_span_and_identity() {
    let track = parse_gpx_bytes(SEGMENTED_GPX.as_bytes(), "/tmp/segmented.gpx", "segmented.gpx", "fixture-hash")
        .expect("parse");
    assert_eq!(track.name, "Segmented");
    assert_eq!(track.segment_count, 2);
    assert_eq!(track.segments[0].points, vec![1, 0]);
    assert_eq!(track.segments[1].source_index, 1);
    assert_eq!(track.duration_seconds, 3600);
    assert_eq!(track.end_utc - track.start_utc, 3_600_000_000_000);
    let expected = uuid::Uuid::new_v5(&uuid::Uuid::NAMESPACE_URL, b"/tmp/segmented.gpx|fixture-hash|Wgs84");
    assert_eq!(track.id, expected.as_u128());
    let again = parse_gpx_bytes(SEGMENTED_GPX.as_bytes(), "/tmp/segmented.gpx", "other.gpx", "fixture-hash")
        .expect("parse");
    assert_eq!(again.id, track.id);
    assert_eq!(again.segments[0].id, track.segments[0].id);
    let changed = parse_gpx_bytes(SEGMENTED_GPX.as_bytes(), "/tmp/segmented.gpx", "segmented.gpx", "other-hash")
        .expect("parse");
    assert_ne!(changed.id, track.id);
}

#[test]
fn untitled_track_takes_its_file_stem() {
    let gpx = br#"<gpx><trk><trkseg><trkpt lat="1" lon="2"><time>2024-01-01T00:00:00Z</time></trkpt></trkseg></trk></gpx>"#;
    let track = parse_gpx_bytes(gpx, "/data/morning-ride.gpx", "morning-ride.gpx", "h").expect("parse");
    assert_eq!(track.name, "morning-ride");
    assert_eq!(track.point_count, 1);
    assert!(track.warnings.is_empty());
}

#[test]
fn close_points_are_reported() {
    let gpx = br#"<gpx><trk><trkseg>
        <trkpt lat="1" lon="2"><time>2024-01-01T00:00:00.0000Z</time></trkpt>
        <trkpt lat="1" lon="2"><time>2024-01-01T00:00:00.0004Z</time></trkpt>
    </trkseg></trk></gpx>"#;
    let track = parse_gpx_bytes(gpx, "/d.gpx", "d.gpx", "h").expect("parse");
    assert!(track.warnings.iter().any(|w| w.code == "TRACK_DUPLICATE_TIME"));
}

#[test]
fn structural_errors_are_parse_failures() {
    let no_points = br#"<gpx><trk><trkseg></trkseg></trk></gpx>"#;
    let error = scan_gpx_bytes(no_points).expect_err("no points");
    assert_eq!(error.code, ErrorCode::TrackParseFailed);
    let outside = br#"<gpx><trk><trkpt lat="1" lon="2"><time>2024-01-01T00:00:00Z</time></trkpt></trk></gpx>"#;
    assert_eq!(scan_gpx_bytes(outside).expect_err("outside").code, ErrorCode::TrackParseFailed);
    let unterminated = br#"<gpx><trk><trkseg><trkpt lat="1" lon="2"><time>2024-01-01T00:00:00Z</time></trkpt>"#;
    assert_eq!(scan_gpx_bytes(unterminated).expect_err("unterminated").code, ErrorCode::TrackParseFailed);
}

#[test]
fn unconfirmed_coordinate_system_is_refused() {
    let error = parse_gpx_structure(SEGMENTED_GPX.as_bytes(), CoordinateSystem::Unknown).expect_err("crs");
    assert_eq!(error.code, ErrorCode::CrsUnconfirmed);
}

#[test]
fn bad_coordinates_are_refused_before_time() {
    let gpx = br#"<gpx><trk><trkseg><trkpt lat="north" lon="2"><time>2024-01-01T00:00:00Z</time></trkpt></trkseg></trk></gpx>"#;
    let error = parse_gpx_bytes(gpx, "/x.gpx", "x.gpx", "h").expect_err("lat");
    assert_eq!(error.code, ErrorCode::TrackParseFailed);
    assert_eq!(error.message, "分段 1 的轨迹点 1 缺少纬度。");
    let empty = br#"<gpx><trk><trkseg><trkpt lat="north" lon="2"/></trkseg></trk></gpx>"#;
    assert_eq!(parse_gpx_bytes(empty, "/x.gpx", "x.gpx", "h").expect_err("empty").code, ErrorCode::TrackNoTime);
}

#[test]
fn time_order_is_stable() {
    let times = vec![5i128, 1, 5, 1];
    let ranks = vec![0u64, 0, 0, 0];
    assert_eq!(time_order(&times, &ranks), vec![1, 3, 0, 2]);
    let ranked = vec![0u64, 2, 0, 1];
    assert_eq!(time_order(&times, &ranked), vec![3, 1, 0, 2]);
    assert!(has_time_inversion(&times));
    assert!(!has_time_inversion(&vec![1, 1, 2]));
}

#[test]
fn importing_the_same_track_twice_gives_the_same_layout() {
    let first = parse_gpx_bytes(SEGMENTED_GPX.as_bytes(), "/tmp/segmented.gpx", "segmented.gpx", "fixture-hash").expect("first");
    let second = parse_gpx_bytes(SEGMENTED_GPX.as_bytes(), "/tmp/segmented.gpx", "segmented.gpx", "fixture-hash").expect("second");
    assert_eq!(first.id, second.id);
    assert_eq!(first.name, second.name);
    assert_eq!((first.start_utc, first.end_utc, first.point_count), (second.start_utc, second.end_utc, second.point_count));
    assert_eq!(first.segments.len(), second.segments.len());
    for (a, b) in first.segments.iter().zip(&second.segments) {
        assert_eq!((a.id, &a.points, &a.times), (b.id, &b.points, &b.times));
    }
}

#[test]
fn untitled_windows_track_takes_its_file_stem() {
    let gpx = br#"<gpx><trk><trkseg><trkpt lat="1" lon="2"><time>2024-01-01T00:00:00Z</time></trkpt></trkseg></trk></gpx>"#;
    let structure = parse_gpx_structure(gpx, CoordinateSystem::Wgs84).expect("structure");
    let conversions = every_point_converts(&structure);
    let ordered = order_track_points(&structure, &conversions).expect("ordered");
    let jumps = no_jumps(&ordered);
    let track = lay_out_track(
        None,
        "C:\\data\\evening-ride.gpx".to_owned(),
        "evening-ride.gpx".to_owned(),
        "h".to_owned(),
        CoordinateSystem::Wgs84,
        &ordered,
        &jumps,
        true,
    )
    .expect("layout");
    assert_eq!(track.name, "evening-ride");
}
