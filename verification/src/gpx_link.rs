//! The library's window onto the gpx format crate: type declarations and
//! trusted wrappers for the calls the merge pipeline makes. Parsing and
//! serialization of the format itself are the format crate's business; what
//! they return is a function of their input alone, so the contracts here name
//! those results and state only what the crate's documentation and source
//! plainly give.

use vstd::prelude::*;

use crate::model::{CollView, Segment, Trace, TrackCollection, TrackPoint};

verus! {

/// The format crate's point type, opaque to this library: coordinates,
/// elevation and any per-point attributes ride through merging untouched
/// inside it.
#[verifier::external_type_specification]
#[verifier::external_body]
pub struct ExWaypoint(gpx::Waypoint);

/// The format crate's error type.
#[verifier::external_type_specification]
#[verifier::external_body]
pub struct ExGpxError(gpx::errors::GpxError);

/// Relies on gpx::Waypoint's derived Clone: a field-for-field copy of the
/// same point value.
pub assume_specification[ <gpx::Waypoint as Clone>::clone ](w: &gpx::Waypoint) -> (r: gpx::Waypoint)
    ensures
        r == *w,
;

/// Whether gpx::read accepts this byte sequence as a track file. The parse
/// reads the bytes alone, so its outcome is a function of them.
pub uninterp spec fn parse_ok(bytes: Seq<u8>) -> bool;

/// The collection a byte sequence parses to, when it parses: the creator tag
/// and, per point, the format point beside its timestamp in nanoseconds
/// since the Unix epoch. A function of the bytes alone.
pub uninterp spec fn parsed_coll(bytes: Seq<u8>) -> CollView;

/// Whether the format writer accepts a collection with this view.
pub uninterp spec fn ser_ok(c: CollView) -> bool;

/// The serialized text of a collection with this view, when the writer
/// accepts it. The writer walks the document in order, so the output is a
/// function of the view alone.
pub uninterp spec fn ser_of(c: CollView) -> Seq<u8>;

/// Relies on gpx::read: parses a complete track file from bytes; the result
/// depends on the bytes alone. The body only converts the parsed document
/// into the model, field for field, with gpx's Time turned into nanoseconds
/// by time::OffsetDateTime::unix_timestamp_nanos.
#[verifier::external_body]
pub(crate) fn parse_gpx_collection(bytes: &Vec<u8>) -> (r: Result<
    TrackCollection,
    gpx::errors::GpxError,
>)
    ensures
        r.is_ok() == parse_ok(bytes@),
        r matches Ok(c) ==> c@ == parsed_coll(bytes@),
{
    gpx::read(bytes.as_slice()).map(|doc| TrackCollection {
        creator: doc.creator,
        tracks: doc.tracks.into_iter().map(|t| Trace {
            segments: t.segments.into_iter().map(|s| Segment {
                points: s.points.into_iter().map(|w| TrackPoint {
                    time: w.time.map(|tm| time::OffsetDateTime::from(tm).unix_timestamp_nanos()),
                    geo: w,
                }).collect(),
            }).collect(),
        }).collect(),
    })
}

/// Relies on gpx::write: serializes a document to XML text in a byte buffer,
/// which cannot fail on I/O. The body only rebuilds the document from the
/// model, field for field, reusing each point's format value; the version is
/// set so that gpx::write accepts the document.
#[verifier::external_body]
pub(crate) fn write_collection_bytes(c: &TrackCollection) -> (r: Result<
    Vec<u8>,
    gpx::errors::GpxError,
>)
    ensures
        r.is_ok() == ser_ok(c@),
        r matches Ok(b) ==> b@ == ser_of(c@),
{
    let tracks = c.tracks.iter().map(|t| {
        let mut gt = gpx::Track::new();
        gt.segments = t.segments.iter().map(|s| gpx::TrackSegment {
            points: s.points.iter().map(|p| p.geo.clone()).collect(),
        }).collect();
        gt
    }).collect();
    let doc = gpx::Gpx {
        version: gpx::GpxVersion::Gpx11, creator: c.creator.clone(),
        metadata: None, waypoints: Vec::new(), tracks, routes: Vec::new(),
    };
    let mut out: Vec<u8> = Vec::new();
    gpx::write(&doc, &mut out).map(|_| out)
}

/// Relies on the Display impl of gpx::errors::GpxError: a human-readable
/// description of the failure.
#[verifier::external_body]
pub(crate) fn gpx_error_text(e: &gpx::errors::GpxError) -> (r: String) {
    format!("{}", e)
}

} // verus!
