//! The data model: points, segments, tracks and track collections, their
//! mathematical views, and the spec functions that the merge and statistics
//! contracts are stated over.

use vstd::prelude::*;

verus! {


/// A recorded position. The timestamp (nanoseconds since the Unix epoch) is
/// what merging and statistics read; coordinates, elevation and any other
/// per-point detail stay inside the format library's point value, carried
/// through untouched.
#[derive(Debug)]
pub struct TrackPoint {
    pub geo: gpx::Waypoint,
    pub time: Option<i128>,
}

/// An ordered run of points; merging never reorders the points inside it.
#[derive(Debug)]
pub struct Segment {
    pub points: Vec<TrackPoint>,
}

/// An ordered sequence of segments.
#[derive(Debug)]
pub struct Trace {
    pub segments: Vec<Segment>,
}

/// One loaded track file: its tracks plus the file-level creator tag.
#[derive(Debug)]
pub struct TrackCollection {
    pub creator: Option<String>,
    pub tracks: Vec<Trace>,
}

/// The mathematical value of a collection: the creator as a character
/// sequence, and each track as the sequence of its segments' point sequences.
pub ghost struct CollView {
    pub creator: Option<Seq<char>>,
    pub tracks: Seq<Seq<Seq<TrackPoint>>>,
}

impl View for Segment {
    type V = Seq<TrackPoint>;

    open spec fn view(&self) -> Seq<TrackPoint> {
        self.points@
    }
}

impl View for Trace {
    type V = Seq<Seq<TrackPoint>>;

    open spec fn view(&self) -> Seq<Seq<TrackPoint>> {
        self.segments@.map_values(|s: Segment| s@)
    }
}

impl View for TrackCollection {
    type V = CollView;

    open spec fn view(&self) -> CollView {
        CollView {
            creator: self.creator.deep_view(),
            tracks: self.tracks@.map_values(|t: Trace| t@),
        }
    }
}

/// The views of a sequence of collections.
pub open spec fn views_of(s: Seq<TrackCollection>) -> Seq<CollView> {
    s.map_values(|c: TrackCollection| c@)
}

/// A collection can be ordered only when it has a first track with a first
/// segment with a first point.
pub open spec fn sortable(c: CollView) -> bool {
    &&& c.tracks.len() > 0
    &&& c.tracks[0].len() > 0
    &&& c.tracks[0][0].len() > 0
}

/// The timestamp of the first point of the first segment of the first track:
/// the key a collection is ordered by. Meaningful only for sortable views.
pub open spec fn first_time(c: CollView) -> Option<i128> {
    c.tracks[0][0][0].time
}

/// Ordering on optional timestamps: an absent timestamp sorts before every
/// present one.
pub open spec fn time_le(a: Option<i128>, b: Option<i128>) -> bool {
    match (a, b) {
        (Option::None, _) => true,
        (Option::Some(x), Option::Some(y)) => x <= y,
        (Option::Some(_), Option::None) => false,
    }
}

/// Sort order between two collections: by first-point timestamp.
pub open spec fn key_le(a: CollView, b: CollView) -> bool {
    time_le(first_time(a), first_time(b))
}

/// Points in one track: the summed lengths of its segments.
pub open spec fn track_points(t: Seq<Seq<TrackPoint>>) -> nat
    decreases t.len(),
{
    if t.len() == 0 {
        0
    } else {
        t[0].len() + track_points(t.drop_first())
    }
}

/// Points in a sequence of tracks.
pub open spec fn tracks_points(ts: Seq<Seq<Seq<TrackPoint>>>) -> nat
    decreases ts.len(),
{
    if ts.len() == 0 {
        0
    } else {
        track_points(ts[0]) + tracks_points(ts.drop_first())
    }
}

/// Points in one collection.
pub open spec fn coll_points(c: CollView) -> nat {
    tracks_points(c.tracks)
}

/// Points in a sequence of collections.
pub open spec fn colls_points(cs: Seq<CollView>) -> nat
    decreases cs.len(),
{
    if cs.len() == 0 {
        0
    } else {
        coll_points(cs[0]) + colls_points(cs.drop_first())
    }
}

/// All segments of a sequence of tracks, in track order.
pub open spec fn tracks_segs(ts: Seq<Seq<Seq<TrackPoint>>>) -> Seq<Seq<TrackPoint>>
    decreases ts.len(),
{
    if ts.len() == 0 {
        Seq::empty()
    } else {
        ts[0] + tracks_segs(ts.drop_first())
    }
}

/// All segments of one collection, in track order.
pub open spec fn coll_segs(c: CollView) -> Seq<Seq<TrackPoint>> {
    tracks_segs(c.tracks)
}

/// All segments of a sequence of collections, in collection-then-track order.
pub open spec fn colls_segs(cs: Seq<CollView>) -> Seq<Seq<TrackPoint>>
    decreases cs.len(),
{
    if cs.len() == 0 {
        Seq::empty()
    } else {
        coll_segs(cs[0]) + colls_segs(cs.drop_first())
    }
}

impl TrackPoint {
    /// An exact copy.
    pub fn duplicate(&self) -> (r: TrackPoint)
        ensures
            r == *self,
    {
        TrackPoint { geo: self.geo.clone(), time: self.time }
    }
}

impl Segment {
    /// A copy with the same points.
    #[verifier::loop_isolation(false)]
    pub fn duplicate(&self) -> (r: Segment)
        ensures
            r@ == self@,
    {
        let mut points: Vec<TrackPoint> = Vec::new();
        let n: usize = self.points.len();
        for i in 0..n
            invariant
                points@ == self.points@.take(i as int),
        {
            points.push(self.points[i].duplicate());
            proof {
                assert(points@ =~= self.points@.take(i as int + 1));
            }
        }
        proof {
            assert(points@ =~= self.points@);
        }
        Segment { points }
    }
}

impl Trace {
    /// A copy with the same segments.
    #[verifier::loop_isolation(false)]
    pub fn duplicate(&self) -> (r: Trace)
        ensures
            r@ == self@,
    {
        let mut segments: Vec<Segment> = Vec::new();
        let n: usize = self.segments.len();
        for i in 0..n
            invariant
                segments@.len() == i,
                forall|j: int| 0 <= j < i ==> segments@[j]@ == self.segments@[j]@,
        {
            segments.push(self.segments[i].duplicate());
        }
        let r = Trace { segments };
        proof {
            assert(r@ =~= self@);
        }
        r
    }
}

impl TrackCollection {
    /// A fresh collection with no tracks and no creator.
    pub fn empty() -> (r: TrackCollection)
        ensures
            r@ == empty_coll(),
    {
        let r = TrackCollection { creator: Option::None, tracks: Vec::new() };
        proof {
            assert(r@.tracks =~= empty_coll().tracks);
        }
        r
    }

    /// A copy with the same creator and the same tracks.
    #[verifier::loop_isolation(false)]
    pub fn duplicate(&self) -> (r: TrackCollection)
        ensures
            r@ == self@,
    {
        let creator: Option<String> = match &self.creator {
            Option::Some(s) => Option::Some(s.clone()),
            Option::None => Option::None,
        };
        let mut tracks: Vec<Trace> = Vec::new();
        let n: usize = self.tracks.len();
        for i in 0..n
            invariant
                tracks@.len() == i,
                forall|j: int| 0 <= j < i ==> tracks@[j]@ == self.tracks@[j]@,
        {
            tracks.push(self.tracks[i].duplicate());
        }
        let r = TrackCollection { creator, tracks };
        proof {
            assert(r@.tracks =~= self@.tracks);
            assert(r@.creator == self@.creator);
        }
        r
    }
}

/// The view of the empty default collection.
pub open spec fn empty_coll() -> CollView {
    CollView { creator: Option::None, tracks: Seq::empty() }
}

} // verus!
