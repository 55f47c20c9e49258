//! The statistics aggregator: counts of files, tracks, segments and points,
//! and the earliest and latest timestamp over every point of every collection.

use vstd::prelude::*;

use crate::model::{
    colls_points, track_points, tracks_points, views_of, CollView, TrackCollection, TrackPoint,
};

verus! {

/// Aggregate statistics over a list of collections. Counts saturate at
/// u64::MAX; the timestamps are absent when no point carries one.
#[derive(Clone, Copy, Debug, PartialEq, Eq, Structural)]
pub struct Stats {
    pub files: u64,
    pub tracks: u64,
    pub segments: u64,
    pub points: u64,
    pub earliest: Option<i128>,
    pub latest: Option<i128>,
}

/// A count clipped to what a u64 can hold.
pub open spec fn cap64(n: nat) -> u64 {
    if n > u64::MAX {
        u64::MAX
    } else {
        n as u64
    }
}

/// The smaller of two optional timestamps; an absent one is neutral.
pub open spec fn min_opt(a: Option<i128>, b: Option<i128>) -> Option<i128> {
    match (a, b) {
        (Option::None, y) => y,
        (x, Option::None) => x,
        (Option::Some(x), Option::Some(y)) => Option::Some(
            if x <= y {
                x
            } else {
                y
            },
        ),
    }
}

/// The larger of two optional timestamps; an absent one is neutral.
pub open spec fn max_opt(a: Option<i128>, b: Option<i128>) -> Option<i128> {
    match (a, b) {
        (Option::None, y) => y,
        (x, Option::None) => x,
        (Option::Some(x), Option::Some(y)) => Option::Some(
            if x >= y {
                x
            } else {
                y
            },
        ),
    }
}

/// The least timestamp among a run of points; points without one are skipped.
pub open spec fn points_min(ps: Seq<TrackPoint>) -> Option<i128>
    decreases ps.len(),
{
    if ps.len() == 0 {
        Option::None
    } else {
        min_opt(ps[0].time, points_min(ps.drop_first()))
    }
}

/// The least timestamp in a track (a sequence of segments).
pub open spec fn segs_min(ss: Seq<Seq<TrackPoint>>) -> Option<i128>
    decreases ss.len(),
{
    if ss.len() == 0 {
        Option::None
    } else {
        min_opt(points_min(ss[0]), segs_min(ss.drop_first()))
    }
}

/// The least timestamp in a sequence of tracks.
pub open spec fn tracks_min(ts: Seq<Seq<Seq<TrackPoint>>>) -> Option<i128>
    decreases ts.len(),
{
    if ts.len() == 0 {
        Option::None
    } else {
        min_opt(segs_min(ts[0]), tracks_min(ts.drop_first()))
    }
}

/// The least timestamp in a sequence of collections.
pub open spec fn colls_min(cs: Seq<CollView>) -> Option<i128>
    decreases cs.len(),
{
    if cs.len() == 0 {
        Option::None
    } else {
        min_opt(tracks_min(cs[0].tracks), colls_min(cs.drop_first()))
    }
}

/// The greatest timestamp among a run of points.
pub open spec fn points_max(ps: Seq<TrackPoint>) -> Option<i128>
    decreases ps.len(),
{
    if ps.len() == 0 {
        Option::None
    } else {
        max_opt(ps[0].time, points_max(ps.drop_first()))
    }
}

/// The greatest timestamp in a track.
pub open spec fn segs_max(ss: Seq<Seq<TrackPoint>>) -> Option<i128>
    decreases ss.len(),
{
    if ss.len() == 0 {
        Option::None
    } else {
        max_opt(points_max(ss[0]), segs_max(ss.drop_first()))
    }
}

/// The greatest timestamp in a sequence of tracks.
pub open spec fn tracks_max(ts: Seq<Seq<Seq<TrackPoint>>>) -> Option<i128>
    decreases ts.len(),
{
    if ts.len() == 0 {
        Option::None
    } else {
        max_opt(segs_max(ts[0]), tracks_max(ts.drop_first()))
    }
}

/// The greatest timestamp in a sequence of collections.
pub open spec fn colls_max(cs: Seq<CollView>) -> Option<i128>
    decreases cs.len(),
{
    if cs.len() == 0 {
        Option::None
    } else {
        max_opt(tracks_max(cs[0].tracks), colls_max(cs.drop_first()))
    }
}

/// Tracks in a sequence of collections.
pub open spec fn colls_tracks_count(cs: Seq<CollView>) -> nat
    decreases cs.len(),
{
    if cs.len() == 0 {
        0
    } else {
        cs[0].tracks.len() + colls_tracks_count(cs.drop_first())
    }
}

/// Segments in a sequence of tracks.
pub open spec fn tracks_segments_count(ts: Seq<Seq<Seq<TrackPoint>>>) -> nat
    decreases ts.len(),
{
    if ts.len() == 0 {
        0
    } else {
        ts[0].len() + tracks_segments_count(ts.drop_first())
    }
}

/// Segments in a sequence of collections.
pub open spec fn colls_segments_count(cs: Seq<CollView>) -> nat
    decreases cs.len(),
{
    if cs.len() == 0 {
        0
    } else {
        tracks_segments_count(cs[0].tracks) + colls_segments_count(cs.drop_first())
    }
}

proof fn lemma_points_min_push(ps: Seq<TrackPoint>, p: TrackPoint)
    ensures
        points_min(ps.push(p)) == min_opt(points_min(ps), p.time),
        points_max(ps.push(p)) == max_opt(points_max(ps), p.time),
    decreases ps.len(),
{
    if ps.len() == 0 {
        assert(ps.push(p).drop_first() =~= Seq::<TrackPoint>::empty());
        assert(ps.push(p)[0] == p);
        assert(points_min(Seq::<TrackPoint>::empty()) is None);
        assert(points_max(Seq::<TrackPoint>::empty()) is None);
    } else {
        assert(ps.push(p).drop_first() =~= ps.drop_first().push(p));
        assert(ps.push(p)[0] == ps[0]);
        lemma_points_min_push(ps.drop_first(), p);
    }
}

proof fn lemma_segs_min_push(ss: Seq<Seq<TrackPoint>>, s: Seq<TrackPoint>)
    ensures
        segs_min(ss.push(s)) == min_opt(segs_min(ss), points_min(s)),
        segs_max(ss.push(s)) == max_opt(segs_max(ss), points_max(s)),
    decreases ss.len(),
{
    if ss.len() == 0 {
        assert(ss.push(s).drop_first() =~= Seq::<Seq<TrackPoint>>::empty());
        assert(ss.push(s)[0] == s);
        assert(segs_min(Seq::<Seq<TrackPoint>>::empty()) is None);
        assert(segs_max(Seq::<Seq<TrackPoint>>::empty()) is None);
    } else {
        assert(ss.push(s).drop_first() =~= ss.drop_first().push(s));
        assert(ss.push(s)[0] == ss[0]);
        lemma_segs_min_push(ss.drop_first(), s);
    }
}

proof fn lemma_tracks_min_push(ts: Seq<Seq<Seq<TrackPoint>>>, t: Seq<Seq<TrackPoint>>)
    ensures
        tracks_min(ts.push(t)) == min_opt(tracks_min(ts), segs_min(t)),
        tracks_max(ts.push(t)) == max_opt(tracks_max(ts), segs_max(t)),
    decreases ts.len(),
{
    if ts.len() == 0 {
        assert(ts.push(t).drop_first() =~= Seq::<Seq<Seq<TrackPoint>>>::empty());
        assert(ts.push(t)[0] == t);
        assert(tracks_min(Seq::<Seq<Seq<TrackPoint>>>::empty()) is None);
        assert(tracks_max(Seq::<Seq<Seq<TrackPoint>>>::empty()) is None);
    } else {
        assert(ts.push(t).drop_first() =~= ts.drop_first().push(t));
        assert(ts.push(t)[0] == ts[0]);
        lemma_tracks_min_push(ts.drop_first(), t);
    }
}

proof fn lemma_colls_min_push(cs: Seq<CollView>, c: CollView)
    ensures
        colls_min(cs.push(c)) == min_opt(colls_min(cs), tracks_min(c.tracks)),
        colls_max(cs.push(c)) == max_opt(colls_max(cs), tracks_max(c.tracks)),
    decreases cs.len(),
{
    if cs.len() == 0 {
        assert(cs.push(c).drop_first() =~= Seq::<CollView>::empty());
        assert(cs.push(c)[0] == c);
        assert(colls_min(Seq::<CollView>::empty()) is None);
        assert(colls_max(Seq::<CollView>::empty()) is None);
    } else {
        assert(cs.push(c).drop_first() =~= cs.drop_first().push(c));
        assert(cs.push(c)[0] == cs[0]);
        lemma_colls_min_push(cs.drop_first(), c);
    }
}

proof fn lemma_track_points_push(t: Seq<Seq<TrackPoint>>, s: Seq<TrackPoint>)
    ensures
        track_points(t.push(s)) == track_points(t) + s.len(),
    decreases t.len(),
{
    if t.len() == 0 {
        assert(t.push(s).drop_first() =~= Seq::<Seq<TrackPoint>>::empty());
        assert(t.push(s)[0] == s);
        assert(track_points(Seq::<Seq<TrackPoint>>::empty()) == 0);
    } else {
        assert(t.push(s).drop_first() =~= t.drop_first().push(s));
        assert(t.push(s)[0] == t[0]);
        lemma_track_points_push(t.drop_first(), s);
    }
}

proof fn lemma_tracks_points_push(ts: Seq<Seq<Seq<TrackPoint>>>, t: Seq<Seq<TrackPoint>>)
    ensures
        tracks_points(ts.push(t)) == tracks_points(ts) + track_points(t),
        tracks_segments_count(ts.push(t)) == tracks_segments_count(ts) + t.len(),
    decreases ts.len(),
{
    if ts.len() == 0 {
        assert(ts.push(t).drop_first() =~= Seq::<Seq<Seq<TrackPoint>>>::empty());
        assert(ts.push(t)[0] == t);
        assert(tracks_points(Seq::<Seq<Seq<TrackPoint>>>::empty()) == 0);
        assert(tracks_segments_count(Seq::<Seq<Seq<TrackPoint>>>::empty()) == 0);
    } else {
        assert(ts.push(t).drop_first() =~= ts.drop_first().push(t));
        assert(ts.push(t)[0] == ts[0]);
        lemma_tracks_points_push(ts.drop_first(), t);
    }
}

proof fn lemma_colls_counts_push(cs: Seq<CollView>, c: CollView)
    ensures
        colls_points(cs.push(c)) == colls_points(cs) + tracks_points(c.tracks),
        colls_segments_count(cs.push(c)) == colls_segments_count(cs) + tracks_segments_count(
            c.tracks,
        ),
        colls_tracks_count(cs.push(c)) == colls_tracks_count(cs) + c.tracks.len(),
    decreases cs.len(),
{
    if cs.len() == 0 {
        assert(cs.push(c).drop_first() =~= Seq::<CollView>::empty());
        assert(cs.push(c)[0] == c);
        assert(colls_points(Seq::<CollView>::empty()) == 0);
        assert(colls_segments_count(Seq::<CollView>::empty()) == 0);
        assert(colls_tracks_count(Seq::<CollView>::empty()) == 0);
    } else {
        assert(cs.push(c).drop_first() =~= cs.drop_first().push(c));
        assert(cs.push(c)[0] == cs[0]);
        lemma_colls_counts_push(cs.drop_first(), c);
    }
}

/// Counts files, tracks, segments and points over the unmerged input list,
/// and the earliest and latest timestamp across every point; points without
/// a timestamp do not take part in the two extremes, which are absent when
/// no point has one. Counts clip at u64::MAX.
#[verifier::loop_isolation(false)]
#[verifier::rlimit(60)]
pub fn summarize(data: &Vec<TrackCollection>) -> (r: Stats)
    ensures
        r.files == data@.len(),
        r.tracks == cap64(colls_tracks_count(views_of(data@))),
        r.segments == cap64(colls_segments_count(views_of(data@))),
        r.points == cap64(colls_points(views_of(data@))),
        r.earliest == colls_min(views_of(data@)),
        r.latest == colls_max(views_of(data@)),
{
    let mut tracks: u64 = 0;
    let mut segments: u64 = 0;
    let mut points: u64 = 0;
    let mut earliest: Option<i128> = Option::None;
    let mut latest: Option<i128> = Option::None;
    let n: usize = data.len();
    let ghost vs = views_of(data@);
    for i in 0..n
        invariant
            tracks == cap64(colls_tracks_count(vs.take(i as int))),
            segments == cap64(colls_segments_count(vs.take(i as int))),
            points == cap64(colls_points(vs.take(i as int))),
            earliest == colls_min(vs.take(i as int)),
            latest == colls_max(vs.take(i as int)),
    {
        let ghost done = vs.take(i as int);
        let ghost cv = vs[i as int];
        tracks = tracks.saturating_add(data[i].tracks.len() as u64);
        let tn: usize = data[i].tracks.len();
        for j in 0..tn
            invariant
                segments == cap64(
                    colls_segments_count(done) + tracks_segments_count(cv.tracks.take(j as int)),
                ),
                points == cap64(colls_points(done) + tracks_points(cv.tracks.take(j as int))),
                earliest == min_opt(colls_min(done), tracks_min(cv.tracks.take(j as int))),
                latest == max_opt(colls_max(done), tracks_max(cv.tracks.take(j as int))),
        {
            let ghost tv = cv.tracks[j as int];
            segments = segments.saturating_add(data[i].tracks[j].segments.len() as u64);
            let sn: usize = data[i].tracks[j].segments.len();
            for k in 0..sn
                invariant
                    points == cap64(
                        colls_points(done) + tracks_points(cv.tracks.take(j as int)) + track_points(
                            tv.take(k as int),
                        ),
                    ),
                    earliest == min_opt(
                        min_opt(colls_min(done), tracks_min(cv.tracks.take(j as int))),
                        segs_min(tv.take(k as int)),
                    ),
                    latest == max_opt(
                        max_opt(colls_max(done), tracks_max(cv.tracks.take(j as int))),
                        segs_max(tv.take(k as int)),
                    ),
            {
                let ghost sv = tv[k as int];
                points = points.saturating_add(data[i].tracks[j].segments[k].points.len() as u64);
                let pn: usize = data[i].tracks[j].segments[k].points.len();
                for l in 0..pn
                    invariant
                        earliest == min_opt(
                            min_opt(
                                min_opt(colls_min(done), tracks_min(cv.tracks.take(j as int))),
                                segs_min(tv.take(k as int)),
                            ),
                            points_min(sv.take(l as int)),
                        ),
                        latest == max_opt(
                            max_opt(
                                max_opt(colls_max(done), tracks_max(cv.tracks.take(j as int))),
                                segs_max(tv.take(k as int)),
                            ),
                            points_max(sv.take(l as int)),
                        ),
                {
                    let t = data[i].tracks[j].segments[k].points[l].time;
                    proof {
                        assert(sv[l as int].time == t);
                        assert(sv.take(l as int + 1) =~= sv.take(l as int).push(sv[l as int]));
                        lemma_points_min_push(sv.take(l as int), sv[l as int]);
                    }
                    earliest = match (earliest, t) {
                        (Option::None, y) => y,
                        (x, Option::None) => x,
                        (Option::Some(x), Option::Some(y)) => Option::Some(
                            if x <= y {
                                x
                            } else {
                                y
                            },
                        ),
                    };
                    latest = match (latest, t) {
                        (Option::None, y) => y,
                        (x, Option::None) => x,
                        (Option::Some(x), Option::Some(y)) => Option::Some(
                            if x >= y {
                                x
                            } else {
                                y
                            },
                        ),
                    };
                }
                proof {
                    assert(sv.take(sv.len() as int) =~= sv);
                    assert(tv.take(k as int + 1) =~= tv.take(k as int).push(tv[k as int]));
                    lemma_segs_min_push(tv.take(k as int), tv[k as int]);
                    lemma_track_points_push(tv.take(k as int), tv[k as int]);
                }
            }
            proof {
                assert(tv.take(tv.len() as int) =~= tv);
                assert(cv.tracks.take(j as int + 1) =~= cv.tracks.take(j as int).push(
                    cv.tracks[j as int],
                ));
                lemma_tracks_min_push(cv.tracks.take(j as int), cv.tracks[j as int]);
                lemma_tracks_points_push(cv.tracks.take(j as int), cv.tracks[j as int]);
            }
        }
        proof {
            assert(cv.tracks.take(cv.tracks.len() as int) =~= cv.tracks);
            assert(vs.take(i as int + 1) =~= vs.take(i as int).push(cv));
            lemma_colls_min_push(vs.take(i as int), cv);
            lemma_colls_counts_push(vs.take(i as int), cv);
        }
    }
    proof {
        assert(vs.take(n as int) =~= vs);
    }
    Stats { files: n as u64, tracks, segments, points, earliest, latest }
}

/// All timestamps of a run of points, in order; points without one add none.
pub open spec fn points_times(ps: Seq<TrackPoint>) -> Seq<i128>
    decreases ps.len(),
{
    if ps.len() == 0 {
        Seq::empty()
    } else {
        match ps[0].time {
            Option::Some(t) => seq![t] + points_times(ps.drop_first()),
            Option::None => points_times(ps.drop_first()),
        }
    }
}

/// All timestamps in a track, in order.
pub open spec fn segs_times(ss: Seq<Seq<TrackPoint>>) -> Seq<i128>
    decreases ss.len(),
{
    if ss.len() == 0 {
        Seq::empty()
    } else {
        points_times(ss[0]) + segs_times(ss.drop_first())
    }
}

/// All timestamps in a sequence of tracks, in order.
pub open spec fn tracks_times(ts: Seq<Seq<Seq<TrackPoint>>>) -> Seq<i128>
    decreases ts.len(),
{
    if ts.len() == 0 {
        Seq::empty()
    } else {
        segs_times(ts[0]) + tracks_times(ts.drop_first())
    }
}

/// All timestamps in a sequence of collections, in order.
pub open spec fn colls_times(cs: Seq<CollView>) -> Seq<i128>
    decreases cs.len(),
{
    if cs.len() == 0 {
        Seq::empty()
    } else {
        tracks_times(cs[0].tracks) + colls_times(cs.drop_first())
    }
}

/// `m` is the least of `ts`, absent exactly when `ts` is empty.
pub open spec fn is_min_of(m: Option<i128>, ts: Seq<i128>) -> bool {
    match m {
        Option::None => ts.len() == 0,
        Option::Some(e) => ts.contains(e) && (forall|x: i128| ts.contains(x) ==> e <= x),
    }
}

/// `m` is the greatest of `ts`, absent exactly when `ts` is empty.
pub open spec fn is_max_of(m: Option<i128>, ts: Seq<i128>) -> bool {
    match m {
        Option::None => ts.len() == 0,
        Option::Some(e) => ts.contains(e) && (forall|x: i128| ts.contains(x) ==> e >= x),
    }
}

proof fn lemma_concat_contains(a: Seq<i128>, b: Seq<i128>, x: i128)
    ensures
        (a + b).contains(x) <==> (a.contains(x) || b.contains(x)),
{
    if a.contains(x) {
        let i = choose|i: int| 0 <= i < a.len() && a[i] == x;
        assert((a + b)[i] == x);
    }
    if b.contains(x) {
        let i = choose|i: int| 0 <= i < b.len() && b[i] == x;
        assert((a + b)[a.len() + i] == x);
    }
    if (a + b).contains(x) {
        let i = choose|i: int| 0 <= i < (a + b).len() && (a + b)[i] == x;
        if i < a.len() {
            assert(a[i] == x);
        } else {
            assert(b[i - a.len()] == x);
        }
    }
}

proof fn lemma_min_concat(ma: Option<i128>, mb: Option<i128>, a: Seq<i128>, b: Seq<i128>)
    requires
        is_min_of(ma, a),
        is_min_of(mb, b),
    ensures
        is_min_of(min_opt(ma, mb), a + b),
{
    assert forall|x: i128| (a + b).contains(x) implies (a.contains(x) || b.contains(x)) by {
        lemma_concat_contains(a, b, x);
    }
    match min_opt(ma, mb) {
        Option::None => {
            assert((a + b).len() == 0);
        },
        Option::Some(e) => {
            lemma_concat_contains(a, b, e);
            assert(a.contains(e) || b.contains(e));
            assert((a + b).contains(e));
            assert forall|x: i128| (a + b).contains(x) implies e <= x by {
                lemma_concat_contains(a, b, x);
            }
        },
    }
}

proof fn lemma_max_concat(ma: Option<i128>, mb: Option<i128>, a: Seq<i128>, b: Seq<i128>)
    requires
        is_max_of(ma, a),
        is_max_of(mb, b),
    ensures
        is_max_of(max_opt(ma, mb), a + b),
{
    assert forall|x: i128| (a + b).contains(x) implies (a.contains(x) || b.contains(x)) by {
        lemma_concat_contains(a, b, x);
    }
    match max_opt(ma, mb) {
        Option::None => {
            assert((a + b).len() == 0);
        },
        Option::Some(e) => {
            lemma_concat_contains(a, b, e);
            assert(a.contains(e) || b.contains(e));
            assert((a + b).contains(e));
            assert forall|x: i128| (a + b).contains(x) implies e >= x by {
                lemma_concat_contains(a, b, x);
            }
        },
    }
}

proof fn lemma_points_brute(ps: Seq<TrackPoint>)
    ensures
        is_min_of(points_min(ps), points_times(ps)),
        is_max_of(points_max(ps), points_times(ps)),
    decreases ps.len(),
{
    if ps.len() > 0 {
        lemma_points_brute(ps.drop_first());
        match ps[0].time {
            Option::Some(t) => {
                assert(seq![t].contains(t)) by {
                    assert(seq![t][0] == t);
                }
                assert forall|x: i128| seq![t].contains(x) implies x == t by {
                    let i = choose|i: int| 0 <= i < seq![t].len() && seq![t][i] == x;
                }
                assert(is_min_of(Option::Some(t), seq![t]));
                assert(is_max_of(Option::Some(t), seq![t]));
                lemma_min_concat(
                    Option::Some(t),
                    points_min(ps.drop_first()),
                    seq![t],
                    points_times(ps.drop_first()),
                );
                lemma_max_concat(
                    Option::Some(t),
                    points_max(ps.drop_first()),
                    seq![t],
                    points_times(ps.drop_first()),
                );
            },
            Option::None => {},
        }
    }
}

proof fn lemma_segs_brute(ss: Seq<Seq<TrackPoint>>)
    ensures
        is_min_of(segs_min(ss), segs_times(ss)),
        is_max_of(segs_max(ss), segs_times(ss)),
    decreases ss.len(),
{
    if ss.len() > 0 {
        lemma_points_brute(ss[0]);
        lemma_segs_brute(ss.drop_first());
        lemma_min_concat(
            points_min(ss[0]),
            segs_min(ss.drop_first()),
            points_times(ss[0]),
            segs_times(ss.drop_first()),
        );
        lemma_max_concat(
            points_max(ss[0]),
            segs_max(ss.drop_first()),
            points_times(ss[0]),
            segs_times(ss.drop_first()),
        );
    }
}

proof fn lemma_tracks_brute(ts: Seq<Seq<Seq<TrackPoint>>>)
    ensures
        is_min_of(tracks_min(ts), tracks_times(ts)),
        is_max_of(tracks_max(ts), tracks_times(ts)),
    decreases ts.len(),
{
    if ts.len() > 0 {
        lemma_segs_brute(ts[0]);
        lemma_tracks_brute(ts.drop_first());
        lemma_min_concat(
            segs_min(ts[0]),
            tracks_min(ts.drop_first()),
            segs_times(ts[0]),
            tracks_times(ts.drop_first()),
        );
        lemma_max_concat(
            segs_max(ts[0]),
            tracks_max(ts.drop_first()),
            segs_times(ts[0]),
            tracks_times(ts.drop_first()),
        );
    }
}

/// The aggregator's two extremes are a brute-force least and greatest over
/// every point's timestamp of the whole input, in traversal order, and are
/// absent exactly when no point carries a timestamp.
pub proof fn lemma_extremes_brute_force(cs: Seq<CollView>)
    ensures
        is_min_of(colls_min(cs), colls_times(cs)),
        is_max_of(colls_max(cs), colls_times(cs)),
    decreases cs.len(),
{
    if cs.len() > 0 {
        lemma_tracks_brute(cs[0].tracks);
        lemma_extremes_brute_force(cs.drop_first());
        lemma_min_concat(
            tracks_min(cs[0].tracks),
            colls_min(cs.drop_first()),
            tracks_times(cs[0].tracks),
            colls_times(cs.drop_first()),
        );
        lemma_max_concat(
            tracks_max(cs[0].tracks),
            colls_max(cs.drop_first()),
            tracks_times(cs[0].tracks),
            colls_times(cs.drop_first()),
        );
    }
}

} // verus!
