//! The merge engine: stable ordering of collections by first-point timestamp
//! and single-track accumulation of every later collection's segments into the
//! first track of the earliest one.

use vstd::prelude::*;

use crate::model::{
    coll_segs, colls_segs, empty_coll, first_time, key_le, sortable, tracks_segs, views_of,
    CollView, Trace, TrackCollection, TrackPoint,
};

verus! {

/// The structured failure of the merge engine: a collection offered for
/// sorting has no track, or a first track with no segment, or a first segment
/// with no point, so its sort key does not exist.
#[derive(Clone, Copy, Debug, PartialEq, Eq, Structural)]
pub enum MergeError {
    EmptyTrackData,
}

/// Stable insertion of one collection view into an already ordered sequence:
/// it lands after every element whose key is less than or equal to its own.
pub open spec fn insert_sorted(c: CollView, s: Seq<CollView>) -> Seq<CollView>
    decreases s.len(),
{
    if s.len() == 0 {
        seq![c]
    } else if key_le(s[0], c) {
        seq![s[0]] + insert_sorted(c, s.drop_first())
    } else {
        seq![c] + s
    }
}

/// The stable sort of a sequence of collection views by first-point
/// timestamp: each element is inserted, left to right, into the sorted
/// sequence of those before it.
pub open spec fn sort_spec(s: Seq<CollView>) -> Seq<CollView>
    decreases s.len(),
{
    if s.len() == 0 {
        Seq::empty()
    } else {
        insert_sorted(s.last(), sort_spec(s.drop_last()))
    }
}

impl TrackCollection {
    /// Validated accessor for the sort key: the timestamp of the first point
    /// of the first segment of the first track, or the structured error when
    /// any of the three is missing.
    pub fn first_point_time(&self) -> (r: Result<Option<i128>, MergeError>)
        ensures
            sortable(self@) ==> r == Ok::<Option<i128>, MergeError>(first_time(self@)),
            !sortable(self@) ==> r == Err::<Option<i128>, MergeError>(MergeError::EmptyTrackData),
    {
        if self.tracks.len() == 0 {
            return Err(MergeError::EmptyTrackData);
        }
        let t0 = &self.tracks[0];
        if t0.segments.len() == 0 {
            return Err(MergeError::EmptyTrackData);
        }
        let s0 = &t0.segments[0];
        if s0.points.len() == 0 {
            return Err(MergeError::EmptyTrackData);
        }
        Ok(s0.points[0].time)
    }
}

/// Whether `a` sorts no later than `b` by first-point timestamp.
fn key_le_exec(a: &TrackCollection, b: &TrackCollection) -> (r: bool)
    requires
        sortable(a@),
        sortable(b@),
    ensures
        r == key_le(a@, b@),
{
    let ka = a.first_point_time().unwrap();
    let kb = b.first_point_time().unwrap();
    match (ka, kb) {
        (Option::None, _) => true,
        (Option::Some(x), Option::Some(y)) => x <= y,
        (Option::Some(_), Option::None) => false,
    }
}

/// Inserting into an ordered sequence at the first position whose element's
/// key exceeds the new one is what `insert_sorted` denotes.
proof fn lemma_insert_at(c: CollView, s: Seq<CollView>, j: int)
    requires
        0 <= j <= s.len(),
        forall|k: int| 0 <= k < j ==> key_le(#[trigger] s[k], c),
        j < s.len() ==> !key_le(s[j], c),
    ensures
        insert_sorted(c, s) == s.take(j) + seq![c] + s.skip(j),
    decreases j,
{
    if j == 0 {
        assert(insert_sorted(c, s) =~= s.take(0) + seq![c] + s.skip(0));
    } else {
        assert(key_le(s[0], c));
        let d = s.drop_first();
        assert(forall|k: int| 0 <= k < j - 1 ==> key_le(#[trigger] d[k], c));
        lemma_insert_at(c, d, j - 1);
        assert(insert_sorted(c, s) =~= s.take(j) + seq![c] + s.skip(j));
    }
}

/// Sorts collections ascending by the timestamp of their first point; two
/// collections with equal timestamps keep their original relative order.
#[verifier::loop_isolation(false)]
pub fn sort_files(data: &Vec<TrackCollection>) -> (r: Vec<TrackCollection>)
    requires
        forall|i: int| 0 <= i < data@.len() ==> sortable(#[trigger] data@[i]@),
    ensures
        views_of(r@) == sort_spec(views_of(data@)),
{
    let mut out: Vec<TrackCollection> = Vec::new();
    let n: usize = data.len();
    proof {
        assert(views_of(out@) =~= sort_spec(views_of(data@.take(0))));
    }
    for i in 0..n
        invariant
            views_of(out@) == sort_spec(views_of(data@.take(i as int))),
            forall|k: int| 0 <= k < out@.len() ==> sortable(#[trigger] out@[k]@),
    {
        let c = data[i].duplicate();
        let mut j: usize = 0;
        while j < out.len() && key_le_exec(&out[j], &c)
            invariant
                0 <= j <= out@.len(),
                forall|k: int| 0 <= k < j ==> key_le(#[trigger] out@[k]@, c@),
            decreases out@.len() - j,
        {
            j += 1;
        }
        proof {
            lemma_insert_at(c@, views_of(out@), j as int);
        }
        let ghost prev = views_of(out@);
        out.insert(j, c);
        proof {
            assert(views_of(out@) =~= prev.take(j as int) + seq![c@] + prev.skip(j as int));
            let vs = views_of(data@.take(i as int + 1));
            assert(vs.drop_last() =~= views_of(data@.take(i as int)));
            assert(vs.last() == c@);
            assert(views_of(out@) == insert_sorted(c@, sort_spec(vs.drop_last())));
            assert(views_of(out@) == sort_spec(vs));
        }
    }
    proof {
        assert(data@.take(n as int) =~= data@);
    }
    out
}

/// The view of the merged result of two or more sortable collections when
/// no creator is stamped: the earliest collection's creator, and a single
/// track holding every segment of every collection in sorted order.
pub open spec fn merged_view(cs: Seq<CollView>) -> CollView {
    CollView { creator: sort_spec(cs)[0].creator, tracks: seq![colls_segs(sort_spec(cs))] }
}

/// Merges collections into one, per the single-track accumulation policy:
/// none gives the empty default collection; one gives an exact copy; two or
/// more are sorted (stably) by first-point timestamp, the earliest becomes
/// the base, and every further segment — the base's own later tracks' and
/// every later collection's — is appended, in order, to the base's first
/// track, so the result holds exactly one track. A provided creator
/// overwrites the base's. A collection without a first point has no sort
/// key: with two or more inputs any such collection fails the merge.
#[verifier::loop_isolation(false)]
#[verifier::rlimit(80)]
pub fn merge_traces(data: &Vec<TrackCollection>, creator: Option<String>) -> (r: Result<
    TrackCollection,
    MergeError,
>)
    ensures
        data@.len() == 0 ==> (r matches Ok(m) && m@ == empty_coll()),
        data@.len() == 1 ==> (r matches Ok(m) && m@ == data@[0]@),
        data@.len() >= 2 && (forall|i: int|
            0 <= i < data@.len() ==> sortable(#[trigger] data@[i]@)) ==> (r matches Ok(m) && {
            let sorted = sort_spec(views_of(data@));
            &&& m@.creator == (if creator is Some {
                creator.deep_view()
            } else {
                sorted[0].creator
            })
            &&& m@.tracks.len() == 1
            &&& m@.tracks[0] == colls_segs(sorted)
        }),
        data@.len() >= 2 && !(forall|i: int|
            0 <= i < data@.len() ==> sortable(#[trigger] data@[i]@)) ==> r == Err::<
            TrackCollection,
            MergeError,
        >(MergeError::EmptyTrackData),
{
    if data.len() == 0 {
        return Ok(TrackCollection::empty());
    }
    if data.len() == 1 {
        return Ok(data[0].duplicate());
    }
    let n: usize = data.len();
    for i in 0..n
        invariant
            forall|k: int| 0 <= k < i ==> sortable(#[trigger] data@[k]@),
    {
        match data[i].first_point_time() {
            Ok(_) => {},
            Err(e) => {
                return Err(e);
            },
        }
    }
    let mut rest = sort_files(data);
    let ghost sorted = sort_spec(views_of(data@));
    proof {
        lemma_sort_len(views_of(data@));
        assert(rest@.len() == sorted.len());
    }
    let base = rest.remove(0);
    proof {
        assert(base@ == sorted[0]);
        assert(views_of(rest@) =~= sorted.drop_first());
        lemma_sort_sortable(views_of(data@));
        assert(sortable(base@));
        assert(base.tracks@.len() > 0);
    }
    let TrackCollection { creator: base_creator, tracks: mut base_tracks } = base;
    let ghost bts = base_tracks@;
    let mut track0 = base_tracks.remove(0);
    let ghost base_head = sorted[0].tracks[0];
    let ghost bt = sorted[0].tracks.drop_first();
    proof {
        assert(base_tracks@ =~= bts.drop_first());
        assert(track0@ == base_head);
        assert(base_tracks@.len() == bt.len());
        assert forall|j: int| 0 <= j < base_tracks@.len() implies base_tracks@[j]@ == bt[j] by {
            assert(base_tracks@[j] == bts[j + 1]);
            assert(bts[j + 1]@ == sorted[0].tracks[j + 1]);
        }
        assert(track0@ =~= base_head + tracks_segs(bt.take(0)));
    }
    let bn: usize = base_tracks.len();
    for j in 0..bn
        invariant
            track0@ == base_head + tracks_segs(bt.take(j as int)),
    {
        let sn: usize = base_tracks[j].segments.len();
        let ghost pre = base_head + tracks_segs(bt.take(j as int));
        let ghost tr = bt[j as int];
        proof {
            assert(base_tracks@[j as int]@ == tr);
            assert(track0@ =~= pre + tr.take(0));
        }
        for k in 0..sn
            invariant
                track0@ == pre + tr.take(k as int),
        {
            let d = base_tracks[j].segments[k].duplicate();
            proof {
                assert(tr[k as int] == d@);
            }
            let ghost before = track0@;
            track0.segments.push(d);
            proof {
                assert(track0@ =~= before.push(d@));
                assert(tr.take(k as int + 1) =~= tr.take(k as int).push(tr[k as int]));
                assert((pre + tr.take(k as int)).push(d@) =~= pre + tr.take(k as int + 1));
            }
        }
        proof {
            assert(tr.take(tr.len() as int) =~= tr);
            assert(track0@ == pre + tr);
            lemma_tracks_segs_push(bt.take(j as int), bt[j as int]);
            assert(bt.take(j as int).push(bt[j as int]) =~= bt.take(j as int + 1));
            assert(track0@ =~= base_head + tracks_segs(bt.take(j as int + 1)));
        }
    }
    let ghost base_all = coll_segs(sorted[0]);
    proof {
        assert(bt.take(bt.len() as int) =~= bt);
        assert(track0@ == base_head + tracks_segs(bt));
        assert(tracks_segs(sorted[0].tracks) == sorted[0].tracks[0] + tracks_segs(
            sorted[0].tracks.drop_first(),
        ));
        assert(track0@ == base_all);
        assert(track0@ =~= base_all + colls_segs(views_of(rest@).take(0)));
    }
    let m: usize = rest.len();
    for i in 0..m
        invariant
            views_of(rest@) == sorted.drop_first(),
            track0@ == base_all + colls_segs(views_of(rest@).take(i as int)),
    {
        let tn: usize = rest[i].tracks.len();
        proof {
            assert(track0@ =~= base_all + colls_segs(views_of(rest@).take(i as int)) + tracks_segs(
                rest@[i as int]@.tracks.take(0),
            ));
        }
        for j in 0..tn
            invariant
                track0@ == base_all + colls_segs(views_of(rest@).take(i as int)) + tracks_segs(
                    rest@[i as int]@.tracks.take(j as int),
                ),
        {
            let sn: usize = rest[i].tracks[j].segments.len();
            let ghost pre = base_all + colls_segs(views_of(rest@).take(i as int)) + tracks_segs(
                rest@[i as int]@.tracks.take(j as int),
            );
            let ghost tr = rest@[i as int]@.tracks[j as int];
            proof {
                assert(track0@ =~= pre + tr.take(0));
            }
            for k in 0..sn
                invariant
                    track0@ == pre + tr.take(k as int),
            {
                let d = rest[i].tracks[j].segments[k].duplicate();
                proof {
                    assert(tr[k as int] == d@);
                }
                let ghost before = track0@;
                track0.segments.push(d);
                proof {
                    assert(track0@ =~= before.push(d@));
                    assert(tr.take(k as int + 1) =~= tr.take(k as int).push(tr[k as int]));
                    assert((pre + tr.take(k as int)).push(d@) =~= pre + tr.take(k as int + 1));
                }
            }
            proof {
                let ts = rest@[i as int]@.tracks;
                assert(tr.take(tr.len() as int) =~= tr);
                assert(track0@ == pre + tr);
                lemma_tracks_segs_push(ts.take(j as int), ts[j as int]);
                assert(ts.take(j as int).push(ts[j as int]) =~= ts.take(j as int + 1));
                assert(track0@ =~= base_all + colls_segs(views_of(rest@).take(i as int))
                    + tracks_segs(ts.take(j as int + 1)));
            }
        }
        proof {
            let cv = rest@[i as int]@;
            assert(cv.tracks.take(cv.tracks.len() as int) =~= cv.tracks);
            lemma_colls_segs_push(views_of(rest@).take(i as int), cv);
            assert(views_of(rest@).take(i as int).push(cv) =~= views_of(rest@).take(i as int + 1));
            assert(track0@ =~= base_all + colls_segs(views_of(rest@).take(i as int + 1)));
        }
    }
    proof {
        assert(views_of(rest@).take(m as int) =~= views_of(rest@));
        assert(colls_segs(sorted) == coll_segs(sorted[0]) + colls_segs(sorted.drop_first()));
        assert(track0@ == colls_segs(sorted));
    }
    let mut out_tracks: Vec<Trace> = Vec::new();
    out_tracks.push(track0);
    let out_creator: Option<String> = match creator {
        Option::Some(s) => Option::Some(s),
        Option::None => base_creator,
    };
    let result = TrackCollection { creator: out_creator, tracks: out_tracks };
    proof {
        assert(result@.tracks =~= seq![track0@]);
        assert(result@.tracks.len() == 1);
        assert(result@.tracks[0] == colls_segs(sorted));
    }
    Ok(result)
}

/// Appending one track at the end extends the flattened segment sequence at
/// the end.
proof fn lemma_tracks_segs_push(s: Seq<Seq<Seq<TrackPoint>>>, t: Seq<Seq<TrackPoint>>)
    ensures
        tracks_segs(s.push(t)) == tracks_segs(s) + t,
    decreases s.len(),
{
    if s.len() == 0 {
        assert(s.push(t).drop_first() =~= Seq::<Seq<Seq<TrackPoint>>>::empty());
        assert(s.push(t)[0] == t);
        assert(tracks_segs(Seq::<Seq<Seq<TrackPoint>>>::empty()) == Seq::<Seq<TrackPoint>>::empty());
        assert(tracks_segs(s.push(t)) == t + Seq::<Seq<TrackPoint>>::empty());
        assert(t + Seq::<Seq<TrackPoint>>::empty() =~= tracks_segs(s) + t);
    } else {
        assert(s.push(t).drop_first() =~= s.drop_first().push(t));
        lemma_tracks_segs_push(s.drop_first(), t);
        assert(s.push(t)[0] == s[0]);
        assert(tracks_segs(s.push(t)) == s[0] + (tracks_segs(s.drop_first()) + t));
        assert(tracks_segs(s) == s[0] + tracks_segs(s.drop_first()));
        assert(s[0] + (tracks_segs(s.drop_first()) + t) =~= (s[0] + tracks_segs(s.drop_first()))
            + t);
    }
}

/// Appending one collection at the end extends the flattened segment
/// sequence at the end.
proof fn lemma_colls_segs_push(s: Seq<CollView>, c: CollView)
    ensures
        colls_segs(s.push(c)) == colls_segs(s) + coll_segs(c),
    decreases s.len(),
{
    if s.len() == 0 {
        assert(s.push(c).drop_first() =~= Seq::<CollView>::empty());
        assert(s.push(c)[0] == c);
        assert(colls_segs(Seq::<CollView>::empty()) == Seq::<Seq<TrackPoint>>::empty());
        assert(colls_segs(s.push(c)) == coll_segs(c) + Seq::<Seq<TrackPoint>>::empty());
        assert(coll_segs(c) + Seq::<Seq<TrackPoint>>::empty() =~= colls_segs(s) + coll_segs(c));
    } else {
        assert(s.push(c).drop_first() =~= s.drop_first().push(c));
        lemma_colls_segs_push(s.drop_first(), c);
        assert(s.push(c)[0] == s[0]);
        assert(colls_segs(s.push(c)) == coll_segs(s[0]) + (colls_segs(s.drop_first()) + coll_segs(
            c,
        )));
        assert(colls_segs(s) == coll_segs(s[0]) + colls_segs(s.drop_first()));
        assert(coll_segs(s[0]) + (colls_segs(s.drop_first()) + coll_segs(c)) =~= (coll_segs(s[0])
            + colls_segs(s.drop_first())) + coll_segs(c));
    }
}

/// Insertion keeps the length.
proof fn lemma_insert_len(c: CollView, s: Seq<CollView>)
    ensures
        insert_sorted(c, s).len() == s.len() + 1,
    decreases s.len(),
{
    if s.len() == 0 {
    } else if key_le(s[0], c) {
        lemma_insert_len(c, s.drop_first());
    } else {
    }
}

/// Sorting keeps the length.
pub proof fn lemma_sort_len(s: Seq<CollView>)
    ensures
        sort_spec(s).len() == s.len(),
    decreases s.len(),
{
    if s.len() > 0 {
        lemma_sort_len(s.drop_last());
        lemma_insert_len(s.last(), sort_spec(s.drop_last()));
    }
}

/// Insertion keeps membership: every element of the result is the inserted
/// one or one of the originals.
pub(crate) proof fn lemma_insert_elems(c: CollView, s: Seq<CollView>)
    ensures
        forall|k: int| 0 <= k < insert_sorted(c, s).len() ==> (#[trigger] insert_sorted(c, s)[k]
            == c || exists|l: int| 0 <= l < s.len() && s[l] == insert_sorted(c, s)[k]),
    decreases s.len(),
{
    lemma_insert_len(c, s);
    if s.len() == 0 {
    } else if key_le(s[0], c) {
        lemma_insert_elems(c, s.drop_first());
        assert forall|k: int| 0 <= k < insert_sorted(c, s).len() implies (#[trigger] insert_sorted(
            c,
            s,
        )[k] == c || exists|l: int| 0 <= l < s.len() && s[l] == insert_sorted(c, s)[k]) by {
            if k == 0 {
                assert(s[0] == insert_sorted(c, s)[0]);
            } else {
                let e = insert_sorted(c, s)[k];
                assert(e == insert_sorted(c, s.drop_first())[k - 1]);
                if e != c {
                    let l = choose|l: int|
                        0 <= l < s.drop_first().len() && s.drop_first()[l] == e;
                    assert(s[l + 1] == e);
                }
            }
        }
    } else {
    }
}

/// Every element of the sorted sequence is one of the originals; in
/// particular a sort of sortable collections yields sortable collections.
pub proof fn lemma_sort_sortable(s: Seq<CollView>)
    requires
        forall|i: int| 0 <= i < s.len() ==> sortable(#[trigger] s[i]),
    ensures
        forall|i: int| 0 <= i < sort_spec(s).len() ==> sortable(#[trigger] sort_spec(s)[i]),
    decreases s.len(),
{
    if s.len() > 0 {
        assert(forall|i: int| 0 <= i < s.drop_last().len() ==> sortable(
            #[trigger] s.drop_last()[i],
        ));
        lemma_sort_sortable(s.drop_last());
        lemma_insert_elems(s.last(), sort_spec(s.drop_last()));
        lemma_sort_len(s.drop_last());
        assert forall|i: int| 0 <= i < sort_spec(s).len() implies sortable(
            #[trigger] sort_spec(s)[i],
        ) by {
            let t = sort_spec(s.drop_last());
            let e = sort_spec(s)[i];
            assert(e == insert_sorted(s.last(), t)[i]);
            if e != s.last() {
                let l = choose|l: int| 0 <= l < t.len() && t[l] == e;
                assert(sortable(t[l]));
            } else {
                assert(sortable(s.last()));
            }
        }
    }
}

} // verus!
