//! The track loader's pure part: which directory entries name track files.
//! Reading the directory itself stays outside; it hands the names in here.

use vstd::prelude::*;

verus! {

/// The name ends in the track-file extension.
pub open spec fn is_track_name(name: Seq<char>) -> bool {
    name.len() >= 4 && name.skip(name.len() - 4) == seq!['.', 'g', 'p', 'x']
}

/// Relies on str::ends_with: whether the string ends with the extension.
#[verifier::external_body]
fn ends_with_gpx(name: &String) -> (r: bool)
    ensures
        r == is_track_name(name@),
{
    name.ends_with(".gpx")
}

/// The subsequence of names that name track files, in their original order.
pub open spec fn track_names(s: Seq<String>) -> Seq<String>
    decreases s.len(),
{
    if s.len() == 0 {
        Seq::empty()
    } else if is_track_name(s[0]@) {
        seq![s[0]] + track_names(s.drop_first())
    } else {
        track_names(s.drop_first())
    }
}

/// Keeps the names that end in the track-file extension, in their original
/// order; anything else is dropped.
#[verifier::loop_isolation(false)]
pub fn filter_gpx_names(names: Vec<String>) -> (r: Vec<String>)
    ensures
        r@ == track_names(names@),
{
    let ghost all = names@;
    let mut remaining = names;
    let mut out: Vec<String> = Vec::new();
    proof {
        assert(out@ + track_names(remaining@) =~= track_names(all));
    }
    while remaining.len() > 0
        invariant
            track_names(all) == out@ + track_names(remaining@),
        decreases remaining@.len(),
    {
        let ghost before = remaining@;
        let name = remaining.remove(0);
        proof {
            assert(remaining@ =~= before.drop_first());
            assert(before[0] == name);
        }
        if ends_with_gpx(&name) {
            let ghost out_before = out@;
            out.push(name);
            proof {
                assert(track_names(before) == seq![before[0]] + track_names(before.drop_first()));
                assert(out_before + (seq![before[0]] + track_names(remaining@)) =~= out@
                    + track_names(remaining@));
            }
        }
    }
    proof {
        assert(track_names(remaining@) =~= Seq::<String>::empty());
        assert(out@ + track_names(remaining@) =~= out@);
    }
    out
}

} // verus!
