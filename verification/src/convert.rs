//! Between track-file bytes and the model: parsing a fragment's bytes into a
//! collection, and serializing a collection back to bytes. Both outcomes and
//! values are functions of the input alone, named at the trusted boundary.

use vstd::prelude::*;

use crate::gpx_link;
use crate::gpx_link::{parse_ok, parsed_coll, ser_of, ser_ok};
use crate::model::TrackCollection;

verus! {

/// A track file's bytes could not be parsed; carries the parser's message.
#[derive(Debug)]
pub struct UnreadableSource {
    pub message: String,
}

/// Parses one track file held in memory: succeeds exactly when the bytes
/// parse, and then returns the collection those bytes denote.
pub fn parse_collection(bytes: &Vec<u8>) -> (r: Result<TrackCollection, UnreadableSource>)
    ensures
        r is Ok <==> parse_ok(bytes@),
        r matches Ok(c) ==> c@ == parsed_coll(bytes@),
{
    match gpx_link::parse_gpx_collection(bytes) {
        Ok(c) => Ok(c),
        Err(e) => Err(UnreadableSource { message: gpx_link::gpx_error_text(&e) }),
    }
}

/// Serializes a collection to track-file text: succeeds exactly when the
/// writer accepts the collection, and then returns its serialization. A
/// failure carries the writer's message.
pub fn collection_to_bytes(c: &TrackCollection) -> (r: Result<Vec<u8>, UnreadableSource>)
    ensures
        r is Ok <==> ser_ok(c@),
        r matches Ok(b) ==> b@ == ser_of(c@),
{
    match gpx_link::write_collection_bytes(c) {
        Ok(b) => Ok(b),
        Err(e) => Err(UnreadableSource { message: gpx_link::gpx_error_text(&e) }),
    }
}

} // verus!
