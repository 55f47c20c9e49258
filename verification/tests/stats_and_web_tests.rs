use gpx_merge::fragments::{fragment_key, fragment_path};
use gpx_merge::model::{Segment, Trace, TrackCollection, TrackPoint};
use gpx_merge::stats::summarize;
use gpx_merge::web::{
    status_of_error, trigger_merge, upload_decision, validate_trigger, TriggerBody, WebError,
};

fn pt(time: Option<i128>) -> TrackPoint {
    TrackPoint { geo: gpx::Waypoint::default(), time }
}

fn seg(times: &[Option<i128>]) -> Segment {
    Segment { points: times.iter().map(|t| pt(*t)).collect() }
}

#[test]
fn summarize_counts_and_extremes() {
    let a = TrackCollection {
        creator: None,
        tracks: vec![
            Trace { segments: vec![seg(&[Some(30), None]), seg(&[Some(7)])] },
            Trace { segments: vec![seg(&[Some(100)])] },
        ],
    };
    let b = TrackCollection {
        creator: None,
        tracks: vec![Trace { segments: vec![seg(&[None, Some(55)])] }],
    };
    let s = summarize(&vec![a, b]);
    assert_eq!(s.files, 2);
    assert_eq!(s.tracks, 3);
    assert_eq!(s.segments, 4);
    assert_eq!(s.points, 6);
    assert_eq!(s.earliest, Some(7));
    assert_eq!(s.latest, Some(100));
}

#[test]
fn summarize_without_timestamps_has_no_extremes() {
    let a = TrackCollection {
        creator: None,
        tracks: vec![Trace { segments: vec![seg(&[None, None])] }],
    };
    let s = summarize(&vec![a]);
    assert_eq!(s.points, 2);
    assert_eq!(s.earliest, None);
    assert_eq!(s.latest, None);
}

#[test]
fn summarize_of_nothing() {
    let s = summarize(&Vec::new());
    assert_eq!(s.files, 0);
    assert_eq!(s.tracks, 0);
    assert_eq!(s.segments, 0);
    assert_eq!(s.points, 0);
    assert_eq!(s.earliest, None);
    assert_eq!(s.latest, None);
}

#[test]
fn fragment_key_is_name_based_and_deterministic() {
    let k1 = fragment_key("a.gpx");
    let k2 = fragment_key("a.gpx");
    assert_eq!(k1, k2);
    assert_eq!(k1.len(), 64);
    assert!(k1.chars().all(|c| c.is_ascii_hexdigit()));
    // the key really is the blake3 digest of the name, not the name itself
    assert_eq!(k1, blake3::hash("a.gpx".as_bytes()).to_string());
    // a different name gets a different key
    let k3 = fragment_key("b.gpx");
    assert_ne!(k1, k3);
}

#[test]
fn fragment_path_layout() {
    let p = fragment_path("traces_import", "abc123");
    assert_eq!(p, "traces_import/abc123.gpx");
}

#[test]
fn trigger_needs_two_hashes() {
    let none = TriggerBody { hashes: Vec::new() };
    assert_eq!(validate_trigger(&none), Err(WebError::BadRequest));
    let one = TriggerBody { hashes: vec!["h".to_string()] };
    assert_eq!(validate_trigger(&one), Err(WebError::BadRequest));
    let two = TriggerBody { hashes: vec!["h".to_string(), "i".to_string()] };
    assert_eq!(validate_trigger(&two), Ok(()));
}

#[test]
fn failure_statuses() {
    assert_eq!(status_of_error(&WebError::BadRequest), 400);
    assert_eq!(status_of_error(&WebError::FragmentNotFound), 400);
    assert_eq!(status_of_error(&WebError::InternalError), 500);
}

#[test]
fn upload_with_nothing_observed_is_rejected() {
    let r = upload_decision(None, None, None);
    assert!(matches!(r, Err(WebError::BadRequest)));
}

#[test]
fn upload_stores_bytes_under_name_key() {
    let bytes = vec![1u8, 2, 3];
    let plan = upload_decision(
        Some("file".to_string()),
        Some("a.gpx".to_string()),
        Some(bytes.clone()),
    )
    .unwrap();
    assert_eq!(plan.reply.hash, fragment_key("a.gpx"));
    assert_eq!(plan.data, bytes);
}

#[test]
fn same_name_same_key_whatever_the_bytes() {
    let first = upload_decision(None, Some("a.gpx".to_string()), Some(vec![1u8])).unwrap();
    let second = upload_decision(None, Some("a.gpx".to_string()), Some(vec![2u8, 3])).unwrap();
    assert_eq!(first.reply.hash, second.reply.hash);
    assert_ne!(first.data, second.data);
}

#[test]
fn trigger_merge_rejects_unparsable_fragment() {
    let good = gpx_doc("2020-01-01T09:00:00Z");
    let bad = b"this is not a track file".to_vec();
    let r = trigger_merge(&vec![good, bad]);
    assert_eq!(r.unwrap_err(), WebError::BadRequest);
}

fn gpx_doc(time: &str) -> Vec<u8> {
    format!(
        "<?xml version=\"1.0\" encoding=\"UTF-8\"?><gpx version=\"1.1\" creator=\"unit\" xmlns=\"http://www.topografix.com/GPX/1/1\"><trk><trkseg><trkpt lat=\"1.0\" lon=\"2.0\"><time>{}</time></trkpt></trkseg></trk></gpx>",
        time
    )
    .into_bytes()
}

#[test]
fn trigger_merge_end_to_end_orders_by_time() {
    let x = gpx_doc("2020-01-01T09:00:00Z");
    let y = gpx_doc("2020-01-01T10:00:00Z");
    // passed out of chronological order
    let out = trigger_merge(&vec![y, x]).unwrap();
    let merged: gpx::Gpx = gpx::read(out.as_slice()).unwrap();
    assert_eq!(merged.tracks.len(), 1);
    assert_eq!(merged.tracks[0].segments.len(), 2);
    let t0 = time::OffsetDateTime::from(merged.tracks[0].segments[0].points[0].time.unwrap());
    let t1 = time::OffsetDateTime::from(merged.tracks[0].segments[1].points[0].time.unwrap());
    assert_eq!(t0.hour(), 9);
    assert_eq!(t1.hour(), 10);
    assert!(t0 < t1);
}
