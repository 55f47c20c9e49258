use gpx_merge::merge::{merge_traces, sort_files, MergeError};
use gpx_merge::model::{Segment, Trace, TrackCollection, TrackPoint};

fn pt(time: Option<i128>) -> TrackPoint {
    TrackPoint { geo: gpx::Waypoint::default(), time }
}

fn seg(times: &[Option<i128>]) -> Segment {
    Segment { points: times.iter().map(|t| pt(*t)).collect() }
}

fn coll_one_track(creator: Option<&str>, segs: Vec<Segment>) -> TrackCollection {
    TrackCollection {
        creator: creator.map(|s| s.to_string()),
        tracks: vec![Trace { segments: segs }],
    }
}

fn point_count(c: &TrackCollection) -> usize {
    c.tracks
        .iter()
        .map(|t| t.segments.iter().map(|s| s.points.len()).sum::<usize>())
        .sum()
}

#[test]
fn merge_of_nothing_is_empty_default() {
    let r = merge_traces(&Vec::new(), None).unwrap();
    assert!(r.creator.is_none());
    assert_eq!(r.tracks.len(), 0);
}

#[test]
fn merge_of_one_is_exact_copy() {
    let g = coll_one_track(Some("unit"), vec![seg(&[Some(5), None, Some(9)])]);
    let r = merge_traces(&vec![g], Some("ignored".to_string())).unwrap();
    assert_eq!(r.creator.as_deref(), Some("unit"));
    assert_eq!(r.tracks.len(), 1);
    assert_eq!(r.tracks[0].segments.len(), 1);
    let times: Vec<Option<i128>> = r.tracks[0].segments[0].points.iter().map(|p| p.time).collect();
    assert_eq!(times, vec![Some(5), None, Some(9)]);
}

#[test]
fn merge_of_two_has_one_track_and_all_points() {
    let a = coll_one_track(Some("a"), vec![seg(&[Some(10), Some(11)])]);
    let b = coll_one_track(Some("b"), vec![seg(&[Some(20)]), seg(&[Some(21), Some(22)])]);
    let total = point_count(&a) + point_count(&b);
    let r = merge_traces(&vec![a, b], None).unwrap();
    assert_eq!(r.tracks.len(), 1);
    assert_eq!(point_count(&r), total);
    assert_eq!(r.creator.as_deref(), Some("a"));
}

#[test]
fn merge_sorts_by_first_point_time() {
    let x = coll_one_track(Some("x"), vec![seg(&[Some(900)])]);
    let y = coll_one_track(Some("y"), vec![seg(&[Some(1000)])]);
    let r = merge_traces(&vec![y, x], None).unwrap();
    assert_eq!(r.tracks.len(), 1);
    assert_eq!(r.tracks[0].segments.len(), 2);
    assert_eq!(r.tracks[0].segments[0].points[0].time, Some(900));
    assert_eq!(r.tracks[0].segments[1].points[0].time, Some(1000));
    // the base collection is the earliest one
    assert_eq!(r.creator.as_deref(), Some("x"));
}

#[test]
fn merge_stamps_creator_over_base() {
    let x = coll_one_track(Some("x"), vec![seg(&[Some(1)])]);
    let y = coll_one_track(Some("y"), vec![seg(&[Some(2)])]);
    let r = merge_traces(&vec![x, y], Some("stamped".to_string())).unwrap();
    assert_eq!(r.creator.as_deref(), Some("stamped"));
}

#[test]
fn sort_is_stable_on_equal_first_times() {
    // equal first-point keys; the second point's time marks each input
    let first = coll_one_track(None, vec![seg(&[Some(100), Some(1)])]);
    let second = coll_one_track(None, vec![seg(&[Some(100), Some(2)])]);
    let r = merge_traces(&vec![first, second], None).unwrap();
    assert_eq!(r.tracks.len(), 1);
    assert_eq!(r.tracks[0].segments.len(), 2);
    assert_eq!(r.tracks[0].segments[0].points[1].time, Some(1));
    assert_eq!(r.tracks[0].segments[1].points[1].time, Some(2));
}

#[test]
fn sort_files_orders_and_keeps_everything() {
    let a = coll_one_track(Some("late"), vec![seg(&[Some(50)])]);
    let b = coll_one_track(Some("none"), vec![seg(&[None])]);
    let c = coll_one_track(Some("early"), vec![seg(&[Some(7)])]);
    let r = sort_files(&vec![a, b, c]);
    assert_eq!(r.len(), 3);
    // an absent timestamp sorts before every present one
    assert_eq!(r[0].creator.as_deref(), Some("none"));
    assert_eq!(r[1].creator.as_deref(), Some("early"));
    assert_eq!(r[2].creator.as_deref(), Some("late"));
}

#[test]
fn merge_rejects_collection_without_first_point() {
    let good = coll_one_track(None, vec![seg(&[Some(1)])]);
    let no_tracks = TrackCollection { creator: None, tracks: Vec::new() };
    let r = merge_traces(&vec![good, no_tracks], None);
    assert!(matches!(r, Err(MergeError::EmptyTrackData)));

    let good = coll_one_track(None, vec![seg(&[Some(1)])]);
    let empty_segment = coll_one_track(None, vec![Segment { points: Vec::new() }]);
    let r = merge_traces(&vec![empty_segment, good], None);
    assert!(matches!(r, Err(MergeError::EmptyTrackData)));
}

#[test]
fn first_point_time_is_validated() {
    let g = coll_one_track(None, vec![seg(&[Some(42)])]);
    assert_eq!(g.first_point_time(), Ok(Some(42)));
    let no_tracks = TrackCollection { creator: None, tracks: Vec::new() };
    assert_eq!(no_tracks.first_point_time(), Err(MergeError::EmptyTrackData));
    let no_segments = TrackCollection {
        creator: None,
        tracks: vec![Trace { segments: Vec::new() }],
    };
    assert_eq!(no_segments.first_point_time(), Err(MergeError::EmptyTrackData));
}

#[test]
fn multi_track_input_funnels_into_single_track() {
    // a non-empty base, then a file with two tracks of one segment each
    let base = coll_one_track(Some("base"), vec![seg(&[Some(1)])]);
    let two_tracks = TrackCollection {
        creator: Some("later".to_string()),
        tracks: vec![
            Trace { segments: vec![seg(&[Some(10)])] },
            Trace { segments: vec![seg(&[Some(20)])] },
        ],
    };
    let r = merge_traces(&vec![base, two_tracks], None).unwrap();
    assert_eq!(r.tracks.len(), 1);
    assert_eq!(r.tracks[0].segments.len(), 3);
    assert_eq!(r.tracks[0].segments[1].points[0].time, Some(10));
    assert_eq!(r.tracks[0].segments[2].points[0].time, Some(20));
}

#[test]
fn multi_track_base_funnels_into_single_track_too() {
    // the earliest input itself has two tracks: its own second track's
    // segments funnel into the first, before any later collection's
    let base = TrackCollection {
        creator: Some("base".to_string()),
        tracks: vec![
            Trace { segments: vec![seg(&[Some(1)])] },
            Trace { segments: vec![seg(&[Some(2)])] },
        ],
    };
    let later = coll_one_track(Some("later"), vec![seg(&[Some(30)])]);
    let r = merge_traces(&vec![later, base], None).unwrap();
    assert_eq!(r.tracks.len(), 1);
    assert_eq!(r.tracks[0].segments.len(), 3);
    assert_eq!(r.tracks[0].segments[0].points[0].time, Some(1));
    assert_eq!(r.tracks[0].segments[1].points[0].time, Some(2));
    assert_eq!(r.tracks[0].segments[2].points[0].time, Some(30));
    assert_eq!(r.creator.as_deref(), Some("base"));
}
