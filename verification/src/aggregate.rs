use vstd::prelude::*;
use vstd::map::*;
use crate::coord::Coordinate;

verus! {

// Spatial aggregation: segment endpoints are snapped to a grid of 0.001
// degree (100 units of 1e-5 degree), segments are identified by an
// order-independent key over their snapped endpoints, segment recurrence
// is counted across all tracks, and each track's frequency is the rounded
// mean of its segments' counts.

/// Grid step for snapping segment endpoints, in 1e-5 degree units
/// (0.001 degree, about 100 m).
pub const GRID_TOL_E5: i64 = 100;

/// A value snapped to the nearest multiple of `tol` (ties away from
/// zero).
pub open spec fn spec_snap1(x: int, tol: int) -> int {
    if x >= 0 {
        ((x + tol / 2) / tol) * tol
    } else {
        -(((-x + tol / 2) / tol) * tol)
    }
}

/// A coordinate with both components snapped to the grid.
pub open spec fn spec_snap(p: Coordinate, tol: int) -> Coordinate {
    Coordinate { lat_e5: spec_snap1(p.lat_e5 as int, tol) as i64, lon_e5: spec_snap1(p.lon_e5 as int, tol) as i64 }
}

/// A canonical, order-independent identifier for an undirected edge
/// between two grid-snapped coordinates: the snapped endpoints in
/// lexicographic order.
#[derive(Clone, Copy, PartialEq, Eq, Structural, Debug)]
pub struct SegmentKey {
    pub lat1_e5: i64,
    pub lon1_e5: i64,
    pub lat2_e5: i64,
    pub lon2_e5: i64,
}

/// The key of the segment from `a` to `b`: snap both endpoints, then
/// order them lexicographically so either traversal direction gives the
/// same key.
#[verifier::opaque]
pub open spec fn spec_segment_key(a: Coordinate, b: Coordinate, tol: int) -> SegmentKey {
    let sa = spec_snap(a, tol);
    let sb = spec_snap(b, tol);
    if sa.lat_e5 < sb.lat_e5 || (sa.lat_e5 == sb.lat_e5 && sa.lon_e5 < sb.lon_e5) {
        SegmentKey { lat1_e5: sa.lat_e5, lon1_e5: sa.lon_e5, lat2_e5: sb.lat_e5, lon2_e5: sb.lon_e5 }
    } else {
        SegmentKey { lat1_e5: sb.lat_e5, lon1_e5: sb.lon_e5, lat2_e5: sa.lat_e5, lon2_e5: sa.lon_e5 }
    }
}

/// A segment's key does not depend on the direction of traversal.
pub proof fn lemma_segment_key_symmetric(a: Coordinate, b: Coordinate, tol: int)
    ensures
        spec_segment_key(a, b, tol) == spec_segment_key(b, a, tol),
{
    reveal(spec_segment_key);
}

fn snap1(x: i64, tol: i64) -> (r: i64)
    requires
        -18_000_000 <= x <= 18_000_000,
        1 <= tol <= 1000,
    ensures
        r == spec_snap1(x as int, tol as int),
        -18_001_000 <= r <= 18_001_000,
{
    let tolu: u64 = tol as u64;
    if x >= 0 {
        let n: u64 = (x as u64) + tolu / 2;
        proof {
            vstd::arithmetic::div_mod::lemma_fundamental_div_mod(n as int, tolu as int);
            vstd::arithmetic::div_mod::lemma_mod_bound(n as int, tolu as int);
            vstd::arithmetic::mul::lemma_mul_is_commutative(n as int / tolu as int, tolu as int);
        }
        ((n / tolu) * tolu) as i64
    } else {
        let n: u64 = ((-x) as u64) + tolu / 2;
        proof {
            vstd::arithmetic::div_mod::lemma_fundamental_div_mod(n as int, tolu as int);
            vstd::arithmetic::div_mod::lemma_mod_bound(n as int, tolu as int);
            vstd::arithmetic::mul::lemma_mul_is_commutative(n as int / tolu as int, tolu as int);
        }
        -(((n / tolu) * tolu) as i64)
    }
}

/// Snaps both components of a coordinate to the nearest multiple of the
/// given grid step.
pub fn snap_to_grid(point: Coordinate, tol_e5: i64) -> (r: Coordinate)
    requires
        -18_000_000 <= point.lat_e5 <= 18_000_000,
        -18_000_000 <= point.lon_e5 <= 18_000_000,
        1 <= tol_e5 <= 1000,
    ensures
        r == spec_snap(point, tol_e5 as int),
{
    Coordinate { lat_e5: snap1(point.lat_e5, tol_e5), lon_e5: snap1(point.lon_e5, tol_e5) }
}

/// Builds the canonical key for the segment between two points, on the
/// 0.001-degree grid.
pub fn create_segment_key(start: Coordinate, end: Coordinate) -> (k: SegmentKey)
    requires
        -18_000_000 <= start.lat_e5 <= 18_000_000,
        -18_000_000 <= start.lon_e5 <= 18_000_000,
        -18_000_000 <= end.lat_e5 <= 18_000_000,
        -18_000_000 <= end.lon_e5 <= 18_000_000,
    ensures
        k == spec_segment_key(start, end, GRID_TOL_E5 as int),
{
    proof {
        reveal(spec_segment_key);
    }
    let sa = snap_to_grid(start, GRID_TOL_E5);
    let sb = snap_to_grid(end, GRID_TOL_E5);
    if sa.lat_e5 < sb.lat_e5 || (sa.lat_e5 == sb.lat_e5 && sa.lon_e5 < sb.lon_e5) {
        SegmentKey { lat1_e5: sa.lat_e5, lon1_e5: sa.lon_e5, lat2_e5: sb.lat_e5, lon2_e5: sb.lon_e5 }
    } else {
        SegmentKey { lat1_e5: sb.lat_e5, lon1_e5: sb.lon_e5, lat2_e5: sa.lat_e5, lon2_e5: sa.lon_e5 }
    }
}

pub open spec fn unique_keys(s: Seq<(SegmentKey, u32)>) -> bool {
    forall|i: int, j: int| 0 <= i < j < s.len() ==> (#[trigger] s[i]).0 != (#[trigger] s[j]).0
}

pub open spec fn map_of(s: Seq<(SegmentKey, u32)>) -> Map<SegmentKey, u32>
    decreases s.len(),
{
    if s.len() == 0 {
        Map::empty()
    } else {
        map_of(s.drop_last()).insert(s.last().0, s.last().1)
    }
}

proof fn lemma_map_of_contains(s: Seq<(SegmentKey, u32)>, k: SegmentKey)
    requires
        unique_keys(s),
    ensures
        map_of(s).contains_key(k) <==> exists|i: int| 0 <= i < s.len() && (#[trigger] s[i]).0 == k,
        forall|i: int| 0 <= i < s.len() && (#[trigger] s[i]).0 == k ==> map_of(s)[k] == s[i].1,
    decreases s.len(),
{
    if s.len() > 0 {
        assert(unique_keys(s.drop_last())) by {
            assert forall|i: int, j: int| 0 <= i < j < s.drop_last().len() implies
                (#[trigger] s.drop_last()[i]).0 != (#[trigger] s.drop_last()[j]).0 by {
                assert(s.drop_last()[i] == s[i]);
                assert(s.drop_last()[j] == s[j]);
            }
        }
        lemma_map_of_contains(s.drop_last(), k);
        let m = map_of(s);
        if s.last().0 == k {
            assert(m.contains_key(k));
            assert(s[s.len() - 1].0 == k);
            assert forall|i: int| 0 <= i < s.len() && (#[trigger] s[i]).0 == k implies
                m[k] == s[i].1 by {
                if i < s.len() - 1 {
                    assert(s[i].0 != s[s.len() - 1].0);
                } else {
                    assert(m[k] == s.last().1);
                }
            }
        } else {
            if m.contains_key(k) {
                let i = choose|i: int|
                    0 <= i < s.drop_last().len() && (#[trigger] s.drop_last()[i]).0 == k;
                assert(s.drop_last()[i] == s[i]);
                assert((s[i]).0 == k);
            }
            if exists|i: int| 0 <= i < s.len() && (#[trigger] s[i]).0 == k {
                let i = choose|i: int| 0 <= i < s.len() && (#[trigger] s[i]).0 == k;
                assert(i < s.len() - 1);
                assert(s.drop_last()[i] == s[i]);
                assert(map_of(s.drop_last()).contains_key(k));
            }
            assert forall|i: int| 0 <= i < s.len() && (#[trigger] s[i]).0 == k implies
                m[k] == s[i].1 by {
                assert(i < s.len() - 1);
                assert(s.drop_last()[i] == s[i]);
            }
        }
    }
}

proof fn lemma_map_of_update(s: Seq<(SegmentKey, u32)>, i: int, v: u32)
    requires
        unique_keys(s),
        0 <= i < s.len(),
    ensures
        map_of(s.update(i, (s[i].0, v))) == map_of(s).insert(s[i].0, v),
    decreases s.len(),
{
    let t = s.update(i, (s[i].0, v));
    if i == s.len() - 1 {
        assert(t.drop_last() =~= s.drop_last());
        assert(map_of(s).insert(s[i].0, v) =~= map_of(s.drop_last()).insert(s[i].0, v));
        assert(map_of(t) == map_of(t.drop_last()).insert(t.last().0, t.last().1));
        assert(t.last() == (s[i].0, v));
    } else {
        assert(unique_keys(s.drop_last()));
        assert(s.drop_last()[i] == s[i]);
        lemma_map_of_update(s.drop_last(), i, v);
        assert(t.drop_last() =~= s.drop_last().update(i, (s[i].0, v)));
        assert(t.last() == s.last());
        // the two inserted keys differ, so the inserts commute
        assert(s[i].0 != s.last().0);
        assert(map_of(t) == map_of(s.drop_last()).insert(s[i].0, v).insert(s.last().0, s.last().1));
        assert(map_of(s.drop_last()).insert(s[i].0, v).insert(s.last().0, s.last().1)
            =~= map_of(s.drop_last()).insert(s.last().0, s.last().1).insert(s[i].0, v));
    }
}

/// Mapping from segment keys to recurrence counts: keys unique, insertion
/// order irrelevant. Counts saturate at the largest 32-bit value.
pub struct SegmentUsage {
    entries: Vec<(SegmentKey, u32)>,
}

impl View for SegmentUsage {
    type V = Map<SegmentKey, u32>;

    closed spec fn view(&self) -> Map<SegmentKey, u32> {
        map_of(self.entries@)
    }
}

impl SegmentUsage {
    pub closed spec fn wf(self) -> bool {
        unique_keys(self.entries@)
    }

    pub fn new() -> (u: Self)
        ensures
            u.wf(),
            u@ == Map::<SegmentKey, u32>::empty(),
    {
        SegmentUsage { entries: Vec::new() }
    }

    /// Adds one use of the segment: a new key gets count 1, an existing
    /// key's count grows by one (saturating).
    pub fn increment(&mut self, key: SegmentKey)
        requires
            old(self).wf(),
        ensures
            final(self).wf(),
            final(self)@ == old(self)@.insert(
                key,
                if old(self)@.contains_key(key) {
                    if old(self)@[key] == 0xFFFF_FFFFu32 {
                        0xFFFF_FFFFu32
                    } else {
                        (old(self)@[key] + 1) as u32
                    }
                } else {
                    1u32
                },
            ),
    {
        proof {
            lemma_map_of_contains(self.entries@, key);
        }
        let n = self.entries.len();
        let mut i: usize = 0;
        while i < n
            invariant
                n == self.entries@.len(),
                i <= n,
                self == old(self),
                unique_keys(self.entries@),
                forall|j: int| 0 <= j < i ==> (#[trigger] self.entries@[j]).0 != key,
            decreases n - i,
        {
            if self.entries[i].0 == key {
                let c = self.entries[i].1;
                let c2: u32 = if c == 0xFFFF_FFFF {
                    c
                } else {
                    c + 1
                };
                proof {
                    lemma_map_of_contains(self.entries@, key);
                    lemma_map_of_update(self.entries@, i as int, c2);
                }
                self.entries.set(i, (key, c2));
                assert(unique_keys(self.entries@)) by {
                    assert(forall|j: int|
                        0 <= j < self.entries@.len() && j != i ==> self.entries@[j]
                            == old(self).entries@[j]);
                }
                return;
            }
            i += 1;
        }
        proof {
            lemma_map_of_contains(self.entries@, key);
        }
        self.entries.push((key, 1));
        proof {
            assert(self.entries@.drop_last() =~= old(self).entries@);
            assert(forall|j: int|
                0 <= j < old(self).entries@.len() ==> self.entries@[j] == old(
                    self,
                ).entries@[j]);
        }
    }

    /// The recurrence count recorded for a key, if any.
    pub fn get(&self, key: SegmentKey) -> (r: Option<u32>)
        requires
            self.wf(),
        ensures
            r == if self@.contains_key(key) {
                Some(self@[key])
            } else {
                None::<u32>
            },
    {
        proof {
            lemma_map_of_contains(self.entries@, key);
        }
        let n = self.entries.len();
        let mut i: usize = 0;
        while i < n
            invariant
                n == self.entries@.len(),
                self.wf(),
                i <= n,
                forall|j: int| 0 <= j < i ==> (#[trigger] self.entries@[j]).0 != key,
            decreases n - i,
        {
            if self.entries[i].0 == key {
                proof {
                    lemma_map_of_contains(self.entries@, key);
                }
                return Some(self.entries[i].1);
            }
            i += 1;
        }
        None
    }
}

/// Saturation at the largest 32-bit value, matching the counter type.
pub open spec fn spec_sat(c: int) -> int {
    if c > 0xFFFF_FFFF {
        0xFFFF_FFFF
    } else {
        c
    }
}

/// The views of a collection of tracks.
pub open spec fn views_of(tracks: Seq<Vec<Coordinate>>) -> Seq<Seq<Coordinate>> {
    Seq::new(tracks.len(), |i: int| tracks[i]@)
}

/// Number of segments among the first `upto` of `track` whose key is `k`.
pub open spec fn spec_count_in_track(track: Seq<Coordinate>, k: SegmentKey, upto: int) -> int
    decreases upto,
{
    if upto <= 0 {
        0
    } else {
        spec_count_in_track(track, k, upto - 1) + if spec_segment_key(
            track[upto - 1],
            track[upto],
            GRID_TOL_E5 as int,
        ) == k {
            1int
        } else {
            0int
        }
    }
}

/// Number of segments with key `k` in the first `upto_t` tracks.
pub open spec fn spec_count_tracks(tracks: Seq<Seq<Coordinate>>, k: SegmentKey, upto_t: int) -> int
    decreases upto_t,
{
    if upto_t <= 0 {
        0
    } else {
        spec_count_tracks(tracks, k, upto_t - 1) + spec_count_in_track(
            tracks[upto_t - 1],
            k,
            tracks[upto_t - 1].len() - 1,
        )
    }
}

/// Recurrence count of segment key `k` across all tracks.
pub open spec fn spec_usage_count(tracks: Seq<Seq<Coordinate>>, k: SegmentKey) -> int {
    spec_count_tracks(tracks, k, tracks.len() as int)
}

/// Sum, over the first `upto` segments of `track`, of the saturated
/// recurrence counts of their keys across all tracks.
pub open spec fn spec_sum_usage(
    tracks: Seq<Seq<Coordinate>>,
    track: Seq<Coordinate>,
    upto: int,
) -> int
    decreases upto,
{
    if upto <= 0 {
        0
    } else {
        spec_sum_usage(tracks, track, upto - 1) + spec_sat(
            spec_usage_count(
                tracks,
                spec_segment_key(track[upto - 1], track[upto], GRID_TOL_E5 as int),
            ),
        )
    }
}

/// A track's heatmap frequency: the arithmetic mean of its segments'
/// recurrence counts, rounded to the nearest integer (ties upward), or 1
/// for a track without segments.
pub open spec fn spec_track_frequency(tracks: Seq<Seq<Coordinate>>, track: Seq<Coordinate>) -> int {
    let sc = track.len() - 1;
    if track.len() >= 2 {
        (2 * spec_sum_usage(tracks, track, sc) + sc) / (2 * sc)
    } else {
        1
    }
}

proof fn lemma_count_in_track_nonneg(track: Seq<Coordinate>, k: SegmentKey, upto: int)
    ensures
        spec_count_in_track(track, k, upto) >= 0,
    decreases upto,
{
    if upto > 0 {
        lemma_count_in_track_nonneg(track, k, upto - 1);
    }
}

proof fn lemma_count_tracks_nonneg(tracks: Seq<Seq<Coordinate>>, k: SegmentKey, upto_t: int)
    ensures
        spec_count_tracks(tracks, k, upto_t) >= 0,
    decreases upto_t,
{
    if upto_t > 0 {
        lemma_count_tracks_nonneg(tracks, k, upto_t - 1);
        lemma_count_in_track_nonneg(tracks[upto_t - 1], k, tracks[upto_t - 1].len() - 1);
    }
}

proof fn lemma_window_in_count(track: Seq<Coordinate>, w: int, upto: int)
    requires
        0 <= w,
        w < upto,
    ensures
        spec_count_in_track(track, spec_segment_key(track[w], track[w + 1], GRID_TOL_E5 as int), upto) >= 1,
    decreases upto,
{
    let k = spec_segment_key(track[w], track[w + 1], GRID_TOL_E5 as int);
    lemma_count_in_track_nonneg(track, k, upto - 1);
    if w < upto - 1 {
        lemma_window_in_count(track, w, upto - 1);
    }
}

proof fn lemma_track_in_total(tracks: Seq<Seq<Coordinate>>, k: SegmentKey, ti: int, upto_t: int)
    requires
        0 <= ti < upto_t,
    ensures
        spec_count_tracks(tracks, k, upto_t) >= spec_count_in_track(
            tracks[ti],
            k,
            tracks[ti].len() - 1,
        ),
    decreases upto_t,
{
    if ti == upto_t - 1 {
        lemma_count_tracks_nonneg(tracks, k, upto_t - 1);
    } else {
        lemma_track_in_total(tracks, k, ti, upto_t - 1);
        lemma_count_in_track_nonneg(tracks[upto_t - 1], k, tracks[upto_t - 1].len() - 1);
    }
}

/// The segment at window `w` of track `ti` is counted at least once
/// across all tracks (by itself).
proof fn lemma_segment_counted(tracks: Seq<Seq<Coordinate>>, ti: int, w: int)
    requires
        0 <= ti < tracks.len(),
        0 <= w < tracks[ti].len() - 1,
    ensures
        spec_usage_count(
            tracks,
            spec_segment_key(tracks[ti][w], tracks[ti][w + 1], GRID_TOL_E5 as int),
        ) >= 1,
{
    let k = spec_segment_key(tracks[ti][w], tracks[ti][w + 1], GRID_TOL_E5 as int);
    lemma_window_in_count(tracks[ti], w, tracks[ti].len() - 1);
    lemma_track_in_total(tracks, k, ti, tracks.len() as int);
}

/// The count that the usage map should record for key `k` while the
/// usage pass stands at track `ti`, segment `wi`: all segments of earlier
/// tracks plus the first `wi` segments of track `ti`.
pub open spec fn partial_count(tracks: Seq<Seq<Coordinate>>, ti: int, wi: int, k: SegmentKey) -> int {
    spec_count_tracks(tracks, k, ti) + spec_count_in_track(tracks[ti], k, wi)
}

/// The usage map records exactly the saturated partial counts: a key is
/// present if and only if its partial count is positive.
pub open spec fn usage_models(
    m: Map<SegmentKey, u32>,
    tracks: Seq<Seq<Coordinate>>,
    ti: int,
    wi: int,
) -> bool {
    forall|k: SegmentKey|
        (m.contains_key(k) <==> #[trigger] partial_count(tracks, ti, wi, k) > 0) && (
        m.contains_key(k) ==> m[k] == spec_sat(partial_count(tracks, ti, wi, k)))
}

/// A simplified track paired with its heatmap frequency.
pub struct HeatmapTrack {
    pub coordinates: Vec<Coordinate>,
    pub frequency: u32,
}

/// The final heatmap dataset: all tracks with their frequencies, plus the
/// maximum frequency observed (0 when no track qualified).
pub struct HeatmapResult {
    pub tracks: Vec<HeatmapTrack>,
    pub max_frequency: u32,
}

fn copy_track(track: &Vec<Coordinate>) -> (r: Vec<Coordinate>)
    ensures
        r@ == track@,
{
    let mut copy: Vec<Coordinate> = Vec::new();
    let mut i: usize = 0;
    while i < track.len()
        invariant
            i <= track@.len(),
            copy@ == track@.subrange(0, i as int),
        decreases track@.len() - i,
    {
        copy.push(track[i]);
        assert(copy@ =~= track@.subrange(0, i + 1));
        i += 1;
    }
    assert(copy@ =~= track@);
    copy
}

/// Counts how often every segment recurs across all tracks, then assigns
/// each track the rounded mean of its segments' counts (at least 1) and
/// reports the maximum frequency over all tracks. `max_frequency` is
/// exactly the largest track frequency, or 0 when there are no tracks.
pub fn aggregate_heatmap(all_tracks: &Vec<Vec<Coordinate>>) -> (result: HeatmapResult)
    requires
        forall|t: int| 0 <= t < all_tracks@.len() ==> (#[trigger] all_tracks@[t])@.len() >= 2,
        forall|t: int, i: int|
            0 <= t < all_tracks@.len() && 0 <= i < all_tracks@[t]@.len() ==> (
            #[trigger] all_tracks@[t]@[i]).wf(),
    ensures
        result.tracks@.len() == all_tracks@.len(),
        forall|t: int|
            0 <= t < result.tracks@.len() ==> {
                &&& (#[trigger] result.tracks@[t]).coordinates@ == all_tracks@[t]@
                &&& result.tracks@[t].frequency == spec_track_frequency(
                    views_of(all_tracks@),
                    all_tracks@[t]@,
                )
                &&& result.tracks@[t].frequency >= 1
                &&& result.tracks@[t].frequency <= result.max_frequency
            },
        result.tracks@.len() == 0 ==> result.max_frequency == 0,
        result.tracks@.len() > 0 ==> exists|t: int|
            0 <= t < result.tracks@.len() && (#[trigger] result.tracks@[t]).frequency
                == result.max_frequency,
{
    let ghost tview = views_of(all_tracks@);

    // usage pass: count every segment of every track
    let mut usage = SegmentUsage::new();
    proof {
        assert forall|k: SegmentKey| !(#[trigger] partial_count(tview, 0, 0, k) > 0) by {
            assert(partial_count(tview, 0, 0, k) == 0);
        }
    }
    let mut ti: usize = 0;
    while ti < all_tracks.len()
        invariant
            usage.wf(),
            tview == views_of(all_tracks@),
            ti <= all_tracks@.len(),
            usage_models(usage@, tview, ti as int, 0),
            forall|t: int| 0 <= t < all_tracks@.len() ==> (#[trigger] all_tracks@[t])@.len() >= 2,
            forall|t: int, i: int|
                0 <= t < all_tracks@.len() && 0 <= i < all_tracks@[t]@.len() ==> (
                #[trigger] all_tracks@[t]@[i]).wf(),
        decreases all_tracks@.len() - ti,
    {
        let track = &all_tracks[ti];
        let n = track.len();
        let mut wi: usize = 0;
        while wi < n - 1
            invariant
                usage.wf(),
                tview == views_of(all_tracks@),
                ti < all_tracks@.len(),
                track@ == all_tracks@[ti as int]@,
                track@ == tview[ti as int],
                n == track@.len(),
                n >= 2,
                wi <= n - 1,
                usage_models(usage@, tview, ti as int, wi as int),
                forall|i: int| 0 <= i < track@.len() ==> (#[trigger] track@[i]).wf(),
            decreases n - 1 - wi,
        {
            let key = create_segment_key(track[wi], track[wi + 1]);
            let ghost m0 = usage@;
            usage.increment(key);
            proof {
                assert forall|k: SegmentKey|
                    (usage@.contains_key(k) <==> #[trigger] partial_count(
                        tview,
                        ti as int,
                        wi + 1,
                        k,
                    ) > 0) && (usage@.contains_key(k) ==> usage@[k] == spec_sat(
                        partial_count(tview, ti as int, wi + 1, k),
                    )) by {
                    lemma_count_in_track_nonneg(tview[ti as int], k, wi as int);
                    lemma_count_tracks_nonneg(tview, k, ti as int);
                    assert(m0.contains_key(k) <==> partial_count(tview, ti as int, wi as int, k)
                        > 0);
                    assert(spec_count_in_track(tview[ti as int], k, wi + 1)
                        == spec_count_in_track(tview[ti as int], k, wi as int) + if
                        spec_segment_key(
                        tview[ti as int][wi as int],
                        tview[ti as int][wi + 1],
                        GRID_TOL_E5 as int,
                    ) == k {
                        1int
                    } else {
                        0int
                    });
                    assert(partial_count(tview, ti as int, wi + 1, k) == partial_count(
                        tview,
                        ti as int,
                        wi as int,
                        k,
                    ) + if key == k {
                        1int
                    } else {
                        0int
                    });
                }
            }
            wi += 1;
        }
        proof {
            assert forall|k: SegmentKey|
                (usage@.contains_key(k) <==> #[trigger] partial_count(tview, ti + 1, 0, k) > 0)
                    && (usage@.contains_key(k) ==> usage@[k] == spec_sat(
                    partial_count(tview, ti + 1, 0, k),
                )) by {
                assert(usage@.contains_key(k) <==> partial_count(
                    tview,
                    ti as int,
                    (n - 1) as int,
                    k,
                ) > 0);
                assert(spec_count_tracks(tview, k, ti + 1) == spec_count_tracks(
                    tview,
                    k,
                    ti as int,
                ) + spec_count_in_track(tview[ti as int], k, tview[ti as int].len() - 1));
                assert(partial_count(tview, ti + 1, 0, k) == partial_count(
                    tview,
                    ti as int,
                    (n - 1) as int,
                    k,
                ));
            }
        }
        ti += 1;
    }

    // frequency pass: each track gets the rounded mean of its segments'
    // counts, and the running maximum is tracked
    let ghost total_tracks = all_tracks@.len() as int;
    let mut heatmap_tracks: Vec<HeatmapTrack> = Vec::new();
    let mut max_frequency: u32 = 0;
    let mut fi: usize = 0;
    while fi < all_tracks.len()
        invariant
            usage.wf(),
            tview == views_of(all_tracks@),
            total_tracks == all_tracks@.len() as int,
            fi <= all_tracks@.len(),
            usage_models(usage@, tview, total_tracks, 0),
            heatmap_tracks@.len() == fi,
            forall|t: int|
                0 <= t < fi as int ==> {
                    &&& (#[trigger] heatmap_tracks@[t]).coordinates@ == all_tracks@[t]@
                    &&& heatmap_tracks@[t].frequency == spec_track_frequency(
                        tview,
                        all_tracks@[t]@,
                    )
                    &&& heatmap_tracks@[t].frequency >= 1
                    &&& heatmap_tracks@[t].frequency <= max_frequency
                },
            fi == 0 ==> max_frequency == 0,
            fi > 0 ==> exists|t: int|
                0 <= t < fi as int && (#[trigger] heatmap_tracks@[t]).frequency == max_frequency,
            forall|t: int| 0 <= t < all_tracks@.len() ==> (#[trigger] all_tracks@[t])@.len() >= 2,
            forall|t: int, i: int|
                0 <= t < all_tracks@.len() && 0 <= i < all_tracks@[t]@.len() ==> (
                #[trigger] all_tracks@[t]@[i]).wf(),
        decreases all_tracks@.len() - fi,
    {
        let track = &all_tracks[fi];
        let n = track.len();
        let mut total: u128 = 0;
        let mut segment_count: usize = 0;
        let mut wi: usize = 0;
        while wi < n - 1
            invariant
                usage.wf(),
                tview == views_of(all_tracks@),
                total_tracks == all_tracks@.len() as int,
                fi < all_tracks@.len(),
                track@ == all_tracks@[fi as int]@,
                track@ == tview[fi as int],
                n == track@.len(),
                n >= 2,
                wi <= n - 1,
                usage_models(usage@, tview, total_tracks, 0),
                total == spec_sum_usage(tview, tview[fi as int], wi as int),
                segment_count == wi,
                total <= (wi as int) * 0xFFFF_FFFF,
                total >= wi,
                forall|i: int| 0 <= i < track@.len() ==> (#[trigger] track@[i]).wf(),
            decreases n - 1 - wi,
        {
            let key = create_segment_key(track[wi], track[wi + 1]);
            proof {
                lemma_segment_counted(tview, fi as int, wi as int);
                assert(partial_count(tview, total_tracks, 0, key) == spec_usage_count(
                    tview,
                    key,
                ));
                assert(usage@.contains_key(key));
            }
            let u: u32 = match usage.get(key) {
                Some(u) => u,
                None => 0,
            };
            proof {
                assert(u == spec_sat(spec_usage_count(tview, key)));
                assert(u >= 1);
                assert(spec_sum_usage(tview, tview[fi as int], wi + 1) == spec_sum_usage(
                    tview,
                    tview[fi as int],
                    wi as int,
                ) + spec_sat(
                    spec_usage_count(
                        tview,
                        spec_segment_key(
                            tview[fi as int][wi as int],
                            tview[fi as int][wi + 1],
                            GRID_TOL_E5 as int,
                        ),
                    ),
                ));
                assert((wi + 1) as int * 0xFFFF_FFFF == (wi as int) * 0xFFFF_FFFF
                    + 0xFFFF_FFFF) by (nonlinear_arith);
            }
            total = total + u as u128;
            segment_count = segment_count + 1;
            wi += 1;
        }
        let frequency: u32 = if segment_count > 0 {
            let sc: u128 = segment_count as u128;
            proof {
                vstd::arithmetic::mul::lemma_mul_upper_bound(
                    segment_count as int,
                    0xFFFF_FFFF_FFFF_FFFFint,
                    0xFFFF_FFFF,
                    0xFFFF_FFFF,
                );
            }
            let num: u128 = 2 * total + sc;
            let q: u128 = num / (2 * sc);
            proof {
                let m: int = 0xFFFF_FFFF;
                assert(sc * (2 * m + 1) == 2 * (sc as int) * m + sc) by (nonlinear_arith);
                assert(num as int <= sc * (2 * m + 1)) by (nonlinear_arith)
                    requires
                        total as int <= (sc as int) * m,
                        num == 2 * total + sc,
                        sc * (2 * m + 1) == 2 * (sc as int) * m + sc,
                        sc >= 1,
                ;
                vstd::arithmetic::div_mod::lemma_fundamental_div_mod_converse(
                    sc * (2 * m + 1),
                    2 * (sc as int),
                    m,
                    sc as int,
                );
                vstd::arithmetic::div_mod::lemma_div_is_ordered(
                    num as int,
                    sc * (2 * m + 1),
                    2 * (sc as int),
                );
                assert(3 * (sc as int) == (2 * (sc as int)) * 1 + sc) by (nonlinear_arith);
                vstd::arithmetic::div_mod::lemma_fundamental_div_mod_converse(
                    3 * (sc as int),
                    2 * (sc as int),
                    1,
                    sc as int,
                );
                vstd::arithmetic::div_mod::lemma_div_is_ordered(
                    3 * (sc as int),
                    num as int,
                    2 * (sc as int),
                );
            }
            q as u32
        } else {
            1
        };
        if frequency > max_frequency {
            max_frequency = frequency;
        }
        let coords_copy = copy_track(track);
        let ghost prev = heatmap_tracks@;
        heatmap_tracks.push(HeatmapTrack { coordinates: coords_copy, frequency });
        proof {
            if max_frequency == frequency {
                assert(heatmap_tracks@[fi as int].frequency == max_frequency);
            } else {
                let t0 = choose|t: int|
                    0 <= t < fi as int && (#[trigger] prev[t]).frequency == max_frequency;
                assert(heatmap_tracks@[t0] == prev[t0]);
                assert(heatmap_tracks@[t0].frequency == max_frequency);
            }
        }
        fi += 1;
    }
    HeatmapResult { tracks: heatmap_tracks, max_frequency }
}

} // verus!
