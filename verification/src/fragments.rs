//! Fragment keys for the upload store: a key is derived from the uploaded
//! file name alone — name-based hashing, deterministic and content-independent
//! — and addresses the file the fragment's bytes are kept in.

use vstd::prelude::*;
use vstd::string::StringExecFns;

verus! {

/// The 64-character hex digest blake3 assigns to a name; a function of the
/// name's characters alone.
pub uninterp spec fn name_digest(name: Seq<char>) -> Seq<char>;

/// Relies on blake3::hash and on the Display of blake3::Hash: 64 lowercase
/// hex characters over the 32-byte digest of the input bytes, a function of
/// the input alone.
#[verifier::external_body]
fn blake3_hex(name: &str) -> (r: String)
    ensures
        r@ == name_digest(name@),
        r@.len() == 64,
{
    blake3::hash(name.as_bytes()).to_string()
}

/// The key an upload with this file name is stored under: derived from the
/// name, never from the content, so equal names give equal keys and distinct
/// names get the digest's separation.
pub fn fragment_key(file_name: &str) -> (r: String)
    ensures
        r@ == name_digest(file_name@),
        r@.len() == 64,
{
    blake3_hex(file_name)
}

/// The store path of a fragment key: `<base>/<key>.gpx`.
pub open spec fn path_of(base: Seq<char>, key: Seq<char>) -> Seq<char> {
    base + seq!['/'] + key + seq!['.', 'g', 'p', 'x']
}

/// Builds the store path a fragment key resolves to.
pub fn fragment_path(base: &str, key: &str) -> (r: String)
    ensures
        r@ == path_of(base@, key@),
{
    let mut s = String::new();
    s.append(base);
    s.append("/");
    s.append(key);
    s.append(".gpx");
    proof {
        reveal_strlit("/");
        reveal_strlit(".gpx");
        assert("/"@ =~= seq!['/']);
        assert(".gpx"@ =~= seq!['.', 'g', 'p', 'x']);
        assert(s@ =~= path_of(base@, key@));
    }
    s
}

} // verus!
