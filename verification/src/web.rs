//! Decisions of the two-phase upload-then-merge web protocol: what an upload
//! stores, when a trigger is rejected, and how failures map to HTTP statuses.
//! The HTTP transport and the fragment store's file reads and writes stay
//! outside; they hand these functions plain values.

use vstd::prelude::*;

use crate::convert::{collection_to_bytes, parse_collection};
use crate::fragments::{fragment_key, name_digest};
use crate::gpx_link::{parse_ok, parsed_coll, ser_of, ser_ok};
use crate::merge::{merge_traces, merged_view};
use crate::model::{sortable, views_of, CollView, TrackCollection};

verus! {

/// The body of a trigger request: the keys of the fragments to merge.
pub struct TriggerBody {
    pub hashes: Vec<String>,
}

/// The body of a successful upload response: the stored fragment's key.
pub struct ReplyCreate {
    pub hash: String,
}

/// A caller-visible failure of the web workflow.
#[derive(Clone, Copy, Debug, PartialEq, Eq, Structural)]
pub enum WebError {
    /// The request itself is at fault: too few fields or hashes, or an
    /// unparsable fragment.
    BadRequest,
    /// A trigger named a key no stored fragment answers to.
    FragmentNotFound,
    /// Storage or serialization failed; not attributable to the caller.
    InternalError,
}

/// What an accepted upload stores: the reply carrying the derived key, and
/// the bytes to keep under it.
pub struct UploadPlan {
    pub reply: ReplyCreate,
    pub data: Vec<u8>,
}

/// The HTTP status of a failure: caller-attributable failures are 400,
/// everything else 500.
pub fn status_of_error(e: &WebError) -> (r: u16)
    ensures
        (*e == WebError::BadRequest || *e == WebError::FragmentNotFound) <==> r == 400,
        *e == WebError::InternalError <==> r == 500,
{
    match e {
        WebError::BadRequest => 400,
        WebError::FragmentNotFound => 400,
        WebError::InternalError => 500,
    }
}

/// The phase-two gate: a trigger must name at least two fragments, else it
/// is rejected before anything is read from the store.
pub fn validate_trigger(body: &TriggerBody) -> (r: Result<(), WebError>)
    ensures
        r is Ok <==> body.hashes@.len() >= 2,
        r is Err ==> r == Err::<(), WebError>(WebError::BadRequest),
{
    if body.hashes.len() < 2 {
        Err(WebError::BadRequest)
    } else {
        Ok(())
    }
}

/// The phase-one decision once the multipart fields have been read: when no
/// field name, no file name and no bytes were observed the upload is
/// rejected; otherwise the bytes are stored under the key derived from the
/// file name, and the reply carries that key. An upload that offers a field
/// name but no file name or no bytes is outside the protocol.
pub fn upload_decision(_name: Option<String>, file_name: Option<String>, data: Option<Vec<u8>>)
    -> (r: Result<UploadPlan, WebError>)
    requires
        (_name is Some || file_name is Some || data is Some) ==> (file_name is Some
            && data is Some),
    ensures
        (_name is None && file_name is None && data is None) ==> r == Err::<
            UploadPlan,
            WebError,
        >(WebError::BadRequest),
        file_name matches Some(f) ==> data matches Some(d) ==> (r matches Ok(p) && p.reply.hash@
            == name_digest(f@) && p.data == d),
{
    match (file_name, data) {
        (Option::Some(f), Option::Some(d)) => {
            let key = fragment_key(f.as_str());
            Ok(UploadPlan { reply: ReplyCreate { hash: key }, data: d })
        },
        _ => Err(WebError::BadRequest),
    }
}

/// The views of the collections the fragments' bytes parse to.
pub open spec fn parsed_views(contents: Seq<Vec<u8>>) -> Seq<CollView> {
    Seq::new(contents.len(), |i: int| parsed_coll(contents[i]@))
}

/// Phase two once the named fragments' bytes are in hand: parse each in
/// order, merge the collections (no creator stamp on this path), and
/// serialize the merged result. The first unparsable fragment aborts with
/// BadRequest and nothing is merged. When every fragment parses, the merge's
/// precondition holds and the writer accepts the merged collection, the
/// response is owed: exactly the serialization of the merged collection.
/// A merge precondition violation or a serialization failure is
/// InternalError.
#[verifier::loop_isolation(false)]
pub fn trigger_merge(contents: &Vec<Vec<u8>>) -> (r: Result<Vec<u8>, WebError>)
    requires
        contents@.len() >= 2,
    ensures
        (forall|i: int| 0 <= i < contents@.len() ==> parse_ok(#[trigger] contents@[i]@)) <==> r
            != Err::<Vec<u8>, WebError>(WebError::BadRequest),
        r != Err::<Vec<u8>, WebError>(WebError::FragmentNotFound),
        (forall|i: int| 0 <= i < contents@.len() ==> parse_ok(#[trigger] contents@[i]@)) ==> {
            let pv = parsed_views(contents@);
            if forall|i: int| 0 <= i < pv.len() ==> sortable(#[trigger] pv[i]) {
                if ser_ok(merged_view(pv)) {
                    r matches Ok(b) && b@ == ser_of(merged_view(pv))
                } else {
                    r == Err::<Vec<u8>, WebError>(WebError::InternalError)
                }
            } else {
                r == Err::<Vec<u8>, WebError>(WebError::InternalError)
            }
        },
{
    let mut colls: Vec<TrackCollection> = Vec::new();
    let n: usize = contents.len();
    for i in 0..n
        invariant
            colls@.len() == i,
            forall|k: int| 0 <= k < i ==> parse_ok(#[trigger] contents@[k]@),
            forall|k: int| 0 <= k < i ==> colls@[k]@ == parsed_coll(#[trigger] contents@[k]@),
    {
        match parse_collection(&contents[i]) {
            Ok(c) => colls.push(c),
            Err(_) => {
                return Err(WebError::BadRequest);
            },
        }
    }
    let ghost pv = parsed_views(contents@);
    proof {
        assert(views_of(colls@) =~= pv);
    }
    let merged = match merge_traces(&colls, Option::None) {
        Ok(m) => m,
        Err(_) => {
            proof {
                assert(!(forall|i: int|
                    0 <= i < colls@.len() ==> sortable(#[trigger] colls@[i]@)));
                assert(exists|i: int| 0 <= i < colls@.len() && !sortable(#[trigger] colls@[i]@));
                let i0 = choose|i: int| 0 <= i < colls@.len() && !sortable(#[trigger] colls@[i]@);
                assert(pv[i0] == colls@[i0]@);
                assert(!(forall|i: int| 0 <= i < pv.len() ==> sortable(#[trigger] pv[i])));
            }
            return Err(WebError::InternalError);
        },
    };
    proof {
        assert forall|i: int| 0 <= i < pv.len() implies sortable(#[trigger] pv[i]) by {
            assert(pv[i] == colls@[i]@);
        }
        assert(merged@.tracks =~= merged_view(pv).tracks);
        assert(merged@ == merged_view(pv));
    }
    match collection_to_bytes(&merged) {
        Ok(b) => Ok(b),
        Err(_) => Err(WebError::InternalError),
    }
}

} // verus!
