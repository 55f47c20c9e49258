//! Proved laws of the merge engine: the sort is ordered and stable, and
//! merging keeps every point of every input.

use vstd::prelude::*;

use crate::merge::{insert_sorted, sort_spec};
use crate::model::{
    coll_points, coll_segs, colls_points, colls_segs, first_time, key_le, sortable, time_le,
    track_points, tracks_points, tracks_segs, CollView, TrackPoint,
};

verus! {

/// The sequence is ordered by first-point timestamp.
pub open spec fn sorted_by_key(s: Seq<CollView>) -> bool {
    forall|i: int, j: int| 0 <= i < j < s.len() ==> key_le(#[trigger] s[i], #[trigger] s[j])
}

/// The subsequence of collections whose first-point timestamp is `k`, in
/// their original order.
pub open spec fn with_key(s: Seq<CollView>, k: Option<i128>) -> Seq<CollView>
    decreases s.len(),
{
    if s.len() == 0 {
        Seq::empty()
    } else if first_time(s[0]) == k {
        seq![s[0]] + with_key(s.drop_first(), k)
    } else {
        with_key(s.drop_first(), k)
    }
}

proof fn lemma_with_key_concat(a: Seq<CollView>, b: Seq<CollView>, k: Option<i128>)
    ensures
        with_key(a + b, k) == with_key(a, k) + with_key(b, k),
    decreases a.len(),
{
    if a.len() == 0 {
        assert(a + b =~= b);
        assert(with_key(a, k) + with_key(b, k) =~= with_key(b, k));
    } else {
        assert((a + b).drop_first() =~= a.drop_first() + b);
        assert((a + b)[0] == a[0]);
        lemma_with_key_concat(a.drop_first(), b, k);
        if first_time(a[0]) == k {
            assert(seq![a[0]] + (with_key(a.drop_first(), k) + with_key(b, k)) =~= (seq![a[0]]
                + with_key(a.drop_first(), k)) + with_key(b, k));
        }
    }
}

proof fn lemma_with_key_single(c: CollView, k: Option<i128>)
    ensures
        first_time(c) == k ==> with_key(seq![c], k) == seq![c],
        first_time(c) != k ==> with_key(seq![c], k) == Seq::<CollView>::empty(),
{
    assert(seq![c].len() == 1);
    assert(seq![c][0] == c);
    assert(seq![c].drop_first() =~= Seq::<CollView>::empty());
    assert(with_key(Seq::<CollView>::empty(), k) == Seq::<CollView>::empty());
    if first_time(c) == k {
        assert(with_key(seq![c], k) == seq![c] + Seq::<CollView>::empty());
        assert(seq![c] + Seq::<CollView>::empty() =~= seq![c]);
    }
}

/// When every element's key strictly exceeds `k`, none has key `k`.
proof fn lemma_with_key_none(s: Seq<CollView>, k: Option<i128>)
    requires
        forall|i: int| 0 <= i < s.len() ==> !time_le(first_time(#[trigger] s[i]), k),
    ensures
        with_key(s, k) == Seq::<CollView>::empty(),
    decreases s.len(),
{
    if s.len() > 0 {
        assert(first_time(s[0]) != k);
        lemma_with_key_none(s.drop_first(), k);
    }
}

/// Inserting preserves order.
proof fn lemma_insert_keeps_sorted(c: CollView, s: Seq<CollView>)
    requires
        sorted_by_key(s),
    ensures
        sorted_by_key(insert_sorted(c, s)),
    decreases s.len(),
{
    if s.len() == 0 {
    } else if key_le(s[0], c) {
        assert(sorted_by_key(s.drop_first()));
        lemma_insert_keeps_sorted(c, s.drop_first());
        let r = insert_sorted(c, s);
        let t = insert_sorted(c, s.drop_first());
        crate::merge::lemma_insert_elems(c, s.drop_first());
        assert forall|i: int, j: int| 0 <= i < j < r.len() implies key_le(
            #[trigger] r[i],
            #[trigger] r[j],
        ) by {
            if i == 0 {
                let e = r[j];
                assert(e == t[j - 1]);
                if e == c {
                    assert(key_le(s[0], c));
                } else {
                    let l = choose|l: int|
                        0 <= l < s.drop_first().len() && s.drop_first()[l] == e;
                    assert(key_le(s[0], s[l + 1]));
                }
            } else {
                assert(r[i] == t[i - 1] && r[j] == t[j - 1]);
            }
        }
    } else {
        let r = insert_sorted(c, s);
        assert forall|i: int, j: int| 0 <= i < j < r.len() implies key_le(
            #[trigger] r[i],
            #[trigger] r[j],
        ) by {
            if i == 0 {
                assert(r[j] == s[j - 1]);
                assert(!time_le(first_time(s[0]), first_time(c)));
                assert(key_le(s[0], s[j - 1]) || j == 1);
            } else {
                assert(r[i] == s[i - 1] && r[j] == s[j - 1]);
            }
        }
    }
}

/// The sort is ordered: the output ascends by first-point timestamp.
pub proof fn lemma_sort_sorted(s: Seq<CollView>)
    ensures
        sorted_by_key(sort_spec(s)),
    decreases s.len(),
{
    if s.len() > 0 {
        lemma_sort_sorted(s.drop_last());
        lemma_insert_keeps_sorted(s.last(), sort_spec(s.drop_last()));
    }
}

/// Stable insertion into an ordered sequence puts the new element after
/// every element with its key.
proof fn lemma_insert_with_key(c: CollView, s: Seq<CollView>, k: Option<i128>)
    requires
        sorted_by_key(s),
    ensures
        first_time(c) == k ==> with_key(insert_sorted(c, s), k) == with_key(s, k).push(c),
        first_time(c) != k ==> with_key(insert_sorted(c, s), k) == with_key(s, k),
    decreases s.len(),
{
    if s.len() == 0 {
        lemma_with_key_single(c, k);
        if first_time(c) == k {
            assert(with_key(s, k).push(c) =~= seq![c]);
        }
    } else if key_le(s[0], c) {
        assert(sorted_by_key(s.drop_first()));
        lemma_insert_with_key(c, s.drop_first(), k);
        let r = insert_sorted(c, s);
        assert(r == seq![s[0]] + insert_sorted(c, s.drop_first()));
        lemma_with_key_concat(seq![s[0]], insert_sorted(c, s.drop_first()), k);
        lemma_with_key_concat(seq![s[0]], s.drop_first(), k);
        lemma_with_key_single(s[0], k);
        assert(s =~= seq![s[0]] + s.drop_first());
        if first_time(c) == k {
            assert(with_key(seq![s[0]], k) + with_key(s.drop_first(), k).push(c) =~= (with_key(
                seq![s[0]],
                k,
            ) + with_key(s.drop_first(), k)).push(c));
        }
    } else {
        let r = insert_sorted(c, s);
        assert(r == seq![c] + s);
        lemma_with_key_concat(seq![c], s, k);
        lemma_with_key_single(c, k);
        if first_time(c) == k {
            assert(forall|i: int| 0 <= i < s.len() ==> key_le(s[0], #[trigger] s[i]) || i == 0);
            assert forall|i: int| 0 <= i < s.len() implies !time_le(
                first_time(#[trigger] s[i]),
                k,
            ) by {
                if i > 0 {
                    assert(key_le(s[0], s[i]));
                }
            }
            lemma_with_key_none(s, k);
            assert(with_key(r, k) =~= with_key(s, k).push(c));
        }
    }
}

/// The sort is stable: among the collections with any one first-point
/// timestamp, the output keeps their original relative order.
pub proof fn lemma_sort_stable(s: Seq<CollView>, k: Option<i128>)
    ensures
        with_key(sort_spec(s), k) == with_key(s, k),
    decreases s.len(),
{
    if s.len() > 0 {
        let front = s.drop_last();
        lemma_sort_stable(front, k);
        lemma_sort_sorted(front);
        lemma_insert_with_key(s.last(), sort_spec(front), k);
        assert(s =~= front + seq![s.last()]);
        lemma_with_key_concat(front, seq![s.last()], k);
        lemma_with_key_single(s.last(), k);
        if first_time(s.last()) == k {
            assert(with_key(front, k).push(s.last()) =~= with_key(front, k) + seq![s.last()]);
        } else {
            assert(with_key(front, k) =~= with_key(front, k) + Seq::<CollView>::empty());
        }
    } else {
    }
}

proof fn lemma_track_points_concat(a: Seq<Seq<TrackPoint>>, b: Seq<Seq<TrackPoint>>)
    ensures
        track_points(a + b) == track_points(a) + track_points(b),
    decreases a.len(),
{
    if a.len() == 0 {
        assert(a + b =~= b);
    } else {
        assert((a + b).drop_first() =~= a.drop_first() + b);
        assert((a + b)[0] == a[0]);
        lemma_track_points_concat(a.drop_first(), b);
    }
}

proof fn lemma_track_points_tracks_segs(ts: Seq<Seq<Seq<TrackPoint>>>)
    ensures
        track_points(tracks_segs(ts)) == tracks_points(ts),
    decreases ts.len(),
{
    if ts.len() > 0 {
        lemma_track_points_concat(ts[0], tracks_segs(ts.drop_first()));
        lemma_track_points_tracks_segs(ts.drop_first());
    }
}

proof fn lemma_track_points_colls_segs(cs: Seq<CollView>)
    ensures
        track_points(colls_segs(cs)) == colls_points(cs),
    decreases cs.len(),
{
    if cs.len() > 0 {
        lemma_track_points_concat(coll_segs(cs[0]), colls_segs(cs.drop_first()));
        lemma_track_points_tracks_segs(cs[0].tracks);
        lemma_track_points_colls_segs(cs.drop_first());
    }
}

proof fn lemma_insert_points(c: CollView, s: Seq<CollView>)
    ensures
        colls_points(insert_sorted(c, s)) == coll_points(c) + colls_points(s),
    decreases s.len(),
{
    if s.len() == 0 {
        assert(seq![c].drop_first() =~= Seq::<CollView>::empty());
        assert(colls_points(seq![c].drop_first()) == 0);
    } else if key_le(s[0], c) {
        lemma_insert_points(c, s.drop_first());
        let r = insert_sorted(c, s);
        assert(r.drop_first() =~= insert_sorted(c, s.drop_first()));
        assert(r[0] == s[0]);
    } else {
        let r = insert_sorted(c, s);
        assert(r.drop_first() =~= s);
        assert(r[0] == c);
    }
}

proof fn lemma_colls_points_push(s: Seq<CollView>, c: CollView)
    ensures
        colls_points(s.push(c)) == colls_points(s) + coll_points(c),
    decreases s.len(),
{
    if s.len() == 0 {
        assert(s.push(c).drop_first() =~= Seq::<CollView>::empty());
        assert(s.push(c)[0] == c);
        assert(colls_points(Seq::<CollView>::empty()) == 0);
        assert(colls_points(s) == 0);
    } else {
        assert(s.push(c).drop_first() =~= s.drop_first().push(c));
        assert(s.push(c)[0] == s[0]);
        lemma_colls_points_push(s.drop_first(), c);
    }
}

/// Sorting keeps the total point count.
pub proof fn lemma_sort_points(s: Seq<CollView>)
    ensures
        colls_points(sort_spec(s)) == colls_points(s),
    decreases s.len(),
{
    if s.len() > 0 {
        lemma_sort_points(s.drop_last());
        lemma_insert_points(s.last(), sort_spec(s.drop_last()));
        lemma_colls_points_push(s.drop_last(), s.last());
        assert(s.drop_last().push(s.last()) =~= s);
    }
}

/// Merging keeps every point: a result meeting the merge contract for two
/// or more sortable inputs has exactly one track, whose point count is the
/// sum of the inputs' point counts.
pub proof fn lemma_merge_counts(data: Seq<CollView>, m: CollView)
    requires
        data.len() >= 2,
        forall|i: int| 0 <= i < data.len() ==> sortable(#[trigger] data[i]),
        m.tracks.len() == 1,
        m.tracks[0] == colls_segs(sort_spec(data)),
    ensures
        coll_points(m) == colls_points(data),
{
    let sorted = sort_spec(data);
    assert(m.tracks.drop_first() =~= Seq::<Seq<Seq<TrackPoint>>>::empty());
    assert(tracks_points(Seq::<Seq<Seq<TrackPoint>>>::empty()) == 0);
    assert(tracks_points(m.tracks) == track_points(m.tracks[0]));
    lemma_track_points_colls_segs(sorted);
    lemma_sort_points(data);
}

/// With two inputs of equal first-point timestamp the stable sort keeps
/// their order, so a merge's single track lists every segment of the first
/// input before every segment of the second.
pub proof fn lemma_equal_keys_keep_order(a: CollView, b: CollView)
    requires
        first_time(a) == first_time(b),
    ensures
        sort_spec(seq![a, b]) == seq![a, b],
        colls_segs(seq![a, b]) == coll_segs(a) + coll_segs(b),
{
    let s = seq![a, b];
    assert(s.len() == 2);
    assert(s[0] == a && s[1] == b);
    assert(s.drop_last() =~= seq![a]);
    assert(s.last() == b);
    assert(seq![a].drop_last() =~= Seq::<CollView>::empty());
    assert(sort_spec(Seq::<CollView>::empty()) == Seq::<CollView>::empty());
    assert(insert_sorted(a, Seq::<CollView>::empty()) == seq![a]);
    assert(sort_spec(seq![a]) == seq![a]);
    assert(key_le(a, b));
    assert(seq![a].drop_first() =~= Seq::<CollView>::empty());
    assert(insert_sorted(b, Seq::<CollView>::empty()) == seq![b]);
    assert(insert_sorted(b, seq![a]) == seq![a] + seq![b]);
    assert(seq![a] + seq![b] =~= s);
    assert(sort_spec(s) == s);
    assert(s.drop_first() =~= seq![b]);
    assert(seq![b].drop_first() =~= Seq::<CollView>::empty());
    assert(colls_segs(Seq::<CollView>::empty()) == Seq::<Seq<TrackPoint>>::empty());
    assert(colls_segs(seq![b]) == coll_segs(b) + Seq::<Seq<TrackPoint>>::empty());
    assert(colls_segs(s) == coll_segs(a) + (coll_segs(b) + Seq::<Seq<TrackPoint>>::empty()));
    assert(coll_segs(a) + (coll_segs(b) + Seq::<Seq<TrackPoint>>::empty()) =~= coll_segs(a)
        + coll_segs(b));
}

} // verus!

