use geotagger::error::ErrorCode;
use geotagger::domain::MatchStatus;
use geotagger::matching::{match_method, match_reason, matched_status};
use geotagger::matching::{
    match_photo_time, place_time, prepare_matching, segment_hit, select_sorted, PhotoTimeMatch, SegmentTimes,
    TimePlacement, TrackTimes,
};

fn time(value: &str) -> i128 {
    chrono::DateTime::parse_from_rfc3339(value)
        .expect("time")
        .timestamp_nanos_opt()
        .expect("in range") as i128
}

fn track() -> TrackTimes {
    TrackTimes {
        id: uuid::Uuid::new_v5(&uuid::Uuid::NAMESPACE_URL, b"track").as_u128(),
        start_utc: time("2024-01-01T00:00:00Z"),
        end_utc: time("2024-01-01T00:01:10Z"),
        segments: vec![
            SegmentTimes {
                id: 1,
                source_index: 0,
                times: vec![time("2024-01-01T00:00:00Z"), time("2024-01-01T00:00:10Z")],
            },
            SegmentTimes {
                id: 2,
                source_index: 1,
                times: vec![time("2024-01-01T00:01:00Z"), time("2024-01-01T00:01:10Z")],
            },
        ],
    }
}

fn placement(capture: Option<&str>) -> PhotoTimeMatch {
    match_photo_time(capture.map(time), 0, &vec![track()], &vec![0])
}

#[test]
fn linearly_interpolates_inside_one_segment() {
    match placement(Some("2024-01-01T00:00:05Z")) {
        PhotoTimeMatch::Placed { corrected_utc, placement: TimePlacement::Found(candidate) } => {
            assert_eq!(corrected_utc, time("2024-01-01T00:00:05Z"));
            assert_eq!(candidate.track_index, 0);
            assert_eq!(candidate.segment_index, 0);
            assert_eq!(candidate.hit.previous_index, 0);
            assert_eq!(candidate.hit.next_index, 1);
            assert_eq!(candidate.hit.offset_ms, 5000);
            assert_eq!(candidate.hit.interval_ms, 10000);
        }
        _ => panic!("expected a placement inside the first segment"),
    }
}

#[test]
fn never_interpolates_across_segments() {
    assert!(matches!(
        placement(Some("2024-01-01T00:00:30Z")),
        PhotoTimeMatch::Placed { placement: TimePlacement::SegmentGap, .. }
    ));
}

#[test]
fn reports_out_of_range_and_missing_time() {
    assert!(matches!(
        placement(Some("2023-12-31T23:00:00Z")),
        PhotoTimeMatch::Placed { placement: TimePlacement::OutOfRange, .. }
    ));
    assert!(matches!(placement(None), PhotoTimeMatch::NoCaptureTime));
}

#[test]
fn camera_offset_shifts_the_capture_time() {
    let result = match_photo_time(Some(time("2024-01-01T00:00:02Z")), 3000, &vec![track()], &vec![0]);
    match result {
        PhotoTimeMatch::Placed { corrected_utc, placement: TimePlacement::Found(candidate) } => {
            assert_eq!(corrected_utc, time("2024-01-01T00:00:05Z"));
            assert_eq!(candidate.hit.offset_ms, 5000);
        }
        _ => panic!("expected a placement"),
    }
}

#[test]
fn time_on_a_point_is_an_exact_hit() {
    let hit = segment_hit(&vec![10, 20, 30], 20).expect("hit");
    assert_eq!((hit.previous_index, hit.next_index, hit.offset_ms, hit.interval_ms), (1, 1, 0, 0));
    assert!(segment_hit(&vec![10, 20, 30], 5).is_none());
    assert!(segment_hit(&vec![10, 20, 30], 35).is_none());
    assert!(segment_hit(&vec![], 35).is_none());
}

#[test]
fn shortest_interval_wins_between_tracks() {
    let coarse = TrackTimes {
        id: 1,
        start_utc: 0,
        end_utc: 100_000_000_000,
        segments: vec![SegmentTimes { id: 10, source_index: 0, times: vec![0, 100_000_000_000] }],
    };
    let fine = TrackTimes {
        id: 2,
        start_utc: 40_000_000_000,
        end_utc: 60_000_000_000,
        segments: vec![SegmentTimes { id: 20, source_index: 0, times: vec![40_000_000_000, 60_000_000_000] }],
    };
    let tracks = vec![coarse, fine];
    match place_time(&tracks, &vec![0, 1], 50_000_000_000) {
        TimePlacement::Found(candidate) => {
            assert_eq!(candidate.track_index, 1);
            assert_eq!(candidate.hit.interval_ms, 20_000);
        }
        _ => panic!("expected a placement"),
    }
}

#[test]
fn selection_is_sorted_by_id() {
    let ids = vec![30u128, 10, 20, 10];
    assert_eq!(select_sorted(&ids, &None), vec![1, 3, 2, 0]);
    assert_eq!(select_sorted(&ids, &Some(vec![20, 30])), vec![2, 0]);
    assert!(select_sorted(&ids, &Some(vec![])).is_empty());
}

#[test]
fn matching_needs_a_track() {
    let error = prepare_matching(&vec![1], &vec![5, 6], &None, &Some(vec![7])).expect_err("no track");
    assert_eq!(error.code, ErrorCode::MatchNotFound);
    let selection = prepare_matching(&vec![2, 1], &vec![6, 5], &None, &None).expect("selection");
    assert_eq!(selection.track_order, vec![1, 0]);
    assert_eq!(selection.photo_order, vec![1, 0]);
}

#[test]
fn placed_photos_name_their_method_and_status() {
    assert_eq!(match_method(0), "EXACT_TRACK_POINT");
    assert_eq!(match_method(1500), "LINEAR_TIME_INTERPOLATION");
    assert_eq!(matched_status(true, MatchStatus::MatchedHigh), MatchStatus::AlreadyHasGps);
    assert_eq!(matched_status(false, MatchStatus::MatchedMedium), MatchStatus::MatchedMedium);
    assert_eq!(match_reason(MatchStatus::MatchedHigh), "轨迹点间隔较小且速度、精度正常。");
    assert_eq!(match_reason(MatchStatus::MatchedMedium), "轨迹点间隔或精度信息使结果需要复核。");
    assert_eq!(match_reason(MatchStatus::MatchedLow), "轨迹点间隔较大或存在速度/精度异常，请人工确认。");
}
