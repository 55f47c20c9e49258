use gpx_merge::convert::{collection_to_bytes, parse_collection};
use gpx_merge::loader::filter_gpx_names;
use gpx_merge::model::{Segment, Trace, TrackCollection, TrackPoint};

#[test]
fn filter_keeps_track_file_names_in_order() {
    let names = vec![
        "a.gpx".to_string(),
        "notes.txt".to_string(),
        "b.gpx".to_string(),
        "gpx".to_string(),
        ".gpx".to_string(),
        "dir/c.gpx".to_string(),
    ];
    let kept = filter_gpx_names(names);
    assert_eq!(
        kept,
        vec![
            "a.gpx".to_string(),
            "b.gpx".to_string(),
            ".gpx".to_string(),
            "dir/c.gpx".to_string()
        ]
    );
}

#[test]
fn filter_of_nothing_is_nothing() {
    let kept = filter_gpx_names(Vec::new());
    assert!(kept.is_empty());
}

fn gpx_doc(time: &str) -> Vec<u8> {
    format!(
        "<?xml version=\"1.0\" encoding=\"UTF-8\"?><gpx version=\"1.1\" creator=\"unit\" xmlns=\"http://www.topografix.com/GPX/1/1\"><trk><trkseg><trkpt lat=\"1.0\" lon=\"2.0\"><time>{}</time></trkpt></trkseg></trk></gpx>",
        time
    )
    .into_bytes()
}

#[test]
fn parse_lifts_structure_and_timestamp() {
    let c = parse_collection(&gpx_doc("2020-01-01T09:00:00Z")).unwrap();
    assert_eq!(c.creator.as_deref(), Some("unit"));
    assert_eq!(c.tracks.len(), 1);
    assert_eq!(c.tracks[0].segments.len(), 1);
    assert_eq!(c.tracks[0].segments[0].points.len(), 1);
    // 2020-01-01T09:00:00Z as nanoseconds since the Unix epoch
    let expected: i128 = 1_577_869_200 * 1_000_000_000;
    assert_eq!(c.tracks[0].segments[0].points[0].time, Some(expected));
}

#[test]
fn parse_rejects_garbage_with_a_message() {
    let e = parse_collection(&b"<not a track file>".to_vec()).unwrap_err();
    assert!(!e.message.is_empty());
}

#[test]
fn serialize_then_parse_keeps_the_shape() {
    let parsed = parse_collection(&gpx_doc("2021-06-01T12:30:00Z")).unwrap();
    let bytes = collection_to_bytes(&parsed).unwrap();
    let again = parse_collection(&bytes).unwrap();
    assert_eq!(again.tracks.len(), 1);
    assert_eq!(again.tracks[0].segments.len(), 1);
    assert_eq!(again.tracks[0].segments[0].points.len(), 1);
    assert_eq!(
        again.tracks[0].segments[0].points[0].time,
        parsed.tracks[0].segments[0].points[0].time
    );
}

#[test]
fn serialize_accepts_points_without_timestamps() {
    let c = TrackCollection {
        creator: Some("unit".to_string()),
        tracks: vec![Trace {
            segments: vec![Segment {
                points: vec![TrackPoint { geo: gpx::Waypoint::default(), time: None }],
            }],
        }],
    };
    let bytes = collection_to_bytes(&c).unwrap();
    let again = parse_collection(&bytes).unwrap();
    assert_eq!(again.creator.as_deref(), Some("unit"));
    assert_eq!(again.tracks[0].segments[0].points[0].time, None);
}
