use vstd::prelude::*;
use crate::coord::{Coordinate, is_valid_coordinate, valid_coordinate};
use crate::decoder::{FitParser, spec_decode};
use crate::cleaner::{filter_unrealistic_jumps, spec_clean};
use crate::simplify::{simplify_track, spec_simplify, lemma_simplify_props};
use crate::aggregate::{aggregate_heatmap, spec_track_frequency, views_of, HeatmapResult};

verus! {

// The per-batch pipeline: detect each file's format, extract raw
// coordinate tracks (the host's tag-format parser or the binary telemetry
// decoder), validate, clean and simplify them, and aggregate segment
// recurrence over everything that survived.

/// Simplification tolerance, in 1e-5 degree units (0.00005 degree).
pub const SIMPLIFY_TOL_E5: i64 = 5;

/// A raw latitude/longitude pair in 1e-5 degree units, before validation.
#[derive(Clone, Copy, PartialEq, Eq, Structural, Debug)]
pub struct RawPoint {
    pub lat_e5: i64,
    pub lon_e5: i64,
}

/// One input file: its raw bytes and, when the host's tag-based track
/// format parser recognized them, the raw points it extracted, one
/// sequence per track segment. Files that neither parser recognizes
/// contribute nothing.
pub struct FileInput {
    pub bytes: Vec<u8>,
    pub tag_tracks: Option<Vec<Vec<RawPoint>>>,
}

/// Whether a buffer is the binary telemetry format: at least 12 bytes
/// long, with the 4-byte signature ".FIT" at offsets 8-11.
pub open spec fn spec_is_fit(data: Seq<u8>) -> bool {
    data.len() >= 12 && data[8] == 0x2E && data[9] == 0x46 && data[10] == 0x49 && data[11]
        == 0x54
}

/// Detects the binary telemetry format, exactly `spec_is_fit`.
pub fn is_fit_file(data: &Vec<u8>) -> (r: bool)
    ensures
        r == spec_is_fit(data@),
{
    if data.len() < 12 {
        return false;
    }
    data[8] == 0x2E && data[9] == 0x46 && data[10] == 0x49 && data[11] == 0x54
}

/// The raw points of one track segment that pass coordinate validation,
/// in order.
pub open spec fn spec_validated(s: Seq<RawPoint>, upto: int) -> Seq<Coordinate>
    decreases upto,
{
    if upto <= 0 {
        Seq::empty()
    } else {
        let prefix = spec_validated(s, upto - 1);
        let p = s[upto - 1];
        if valid_coordinate(p.lat_e5 as int, p.lon_e5 as int) {
            prefix.push(Coordinate { lat_e5: p.lat_e5, lon_e5: p.lon_e5 })
        } else {
            prefix
        }
    }
}

/// Keeps the valid coordinates of one raw track, in order.
fn validate_points(points: &Vec<RawPoint>) -> (r: Vec<Coordinate>)
    ensures
        r@ == spec_validated(points@, points@.len() as int),
        forall|k: int| 0 <= k < r@.len() ==> (#[trigger] r@[k]).wf(),
{
    let mut r: Vec<Coordinate> = Vec::new();
    let mut i: usize = 0;
    while i < points.len()
        invariant
            i <= points@.len(),
            r@ == spec_validated(points@, i as int),
            forall|k: int| 0 <= k < r@.len() ==> (#[trigger] r@[k]).wf(),
        decreases points@.len() - i,
    {
        let p = points[i];
        if is_valid_coordinate(p.lat_e5, p.lon_e5) {
            r.push(Coordinate { lat_e5: p.lat_e5, lon_e5: p.lon_e5 });
        }
        i += 1;
    }
    r
}

fn copy_bytes(data: &Vec<u8>) -> (r: Vec<u8>)
    ensures
        r@ == data@,
{
    let mut copy: Vec<u8> = Vec::new();
    let mut i: usize = 0;
    while i < data.len()
        invariant
            i <= data@.len(),
            copy@ == data@.subrange(0, i as int),
        decreases data@.len() - i,
    {
        copy.push(data[i]);
        assert(copy@ =~= data@.subrange(0, i + 1));
        i += 1;
    }
    assert(copy@ =~= data@);
    copy
}

/// What one validated track contributes to the aggregation: the cleaned,
/// simplified polyline, or nothing when fewer than two points survive a
/// stage.
pub open spec fn spec_pipeline_track(s: Seq<Coordinate>) -> Option<Seq<Coordinate>> {
    if s.len() <= 1 {
        None
    } else {
        let cleaned = spec_clean(s);
        if cleaned.len() <= 1 {
            None
        } else {
            let simplified = spec_simplify(cleaned, SIMPLIFY_TOL_E5 as int);
            if simplified.len() <= 1 {
                None
            } else {
                Some(simplified)
            }
        }
    }
}

/// The track sequences a pipeline track contributes to the collection:
/// one, or none.
pub open spec fn opt_track_seq(o: Option<Seq<Coordinate>>) -> Seq<Seq<Coordinate>> {
    match o {
        Some(t) => seq![t],
        None => Seq::empty(),
    }
}

/// What the first `si` segments of a tag-format parse contribute: each
/// segment's points are validated, cleaned and simplified.
pub open spec fn spec_tag_tracks(segments: Seq<Vec<RawPoint>>, si: int) -> Seq<Seq<Coordinate>>
    decreases si,
{
    if si <= 0 {
        Seq::empty()
    } else {
        spec_tag_tracks(segments, si - 1) + opt_track_seq(
            spec_pipeline_track(
                spec_validated(segments[si - 1]@, segments[si - 1]@.len() as int),
            ),
        )
    }
}

/// What one input file contributes: its tag-format tracks when the host
/// parsed them, else the decoded telemetry coordinates as a single track
/// when the signature matches, else nothing.
pub open spec fn spec_file_tracks(file: FileInput) -> Seq<Seq<Coordinate>> {
    match file.tag_tracks {
        Some(segments) => spec_tag_tracks(segments@, segments@.len() as int),
        None => if spec_is_fit(file.bytes@) {
            opt_track_seq(spec_pipeline_track(spec_decode(file.bytes@)))
        } else {
            Seq::empty()
        },
    }
}

/// All tracks collected from the first `fi` input files, in order.
pub open spec fn spec_collected(files: Seq<FileInput>, fi: int) -> Seq<Seq<Coordinate>>
    decreases fi,
{
    if fi <= 0 {
        Seq::empty()
    } else {
        spec_collected(files, fi - 1) + spec_file_tracks(files[fi - 1])
    }
}

/// Runs one raw track through cleaning and simplification and collects it
/// when at least two points survive each stage: appends exactly
/// `spec_pipeline_track` of the input, or nothing.
fn clean_and_collect(track_coords: &Vec<Coordinate>, all_tracks: &mut Vec<Vec<Coordinate>>)
    requires
        forall|k: int| 0 <= k < track_coords@.len() ==> (#[trigger] track_coords@[k]).wf(),
        forall|t: int|
            0 <= t < old(all_tracks)@.len() ==> (#[trigger] old(all_tracks)@[t])@.len() >= 2,
        forall|t: int, i: int|
            0 <= t < old(all_tracks)@.len() && 0 <= i < old(all_tracks)@[t]@.len() ==> (
            #[trigger] old(all_tracks)@[t]@[i]).wf(),
    ensures
        forall|t: int|
            0 <= t < final(all_tracks)@.len() ==> (#[trigger] final(all_tracks)@[t])@.len() >= 2,
        forall|t: int, i: int|
            0 <= t < final(all_tracks)@.len() && 0 <= i < final(all_tracks)@[t]@.len() ==> (
            #[trigger] final(all_tracks)@[t]@[i]).wf(),
        spec_pipeline_track(track_coords@) is None ==> final(all_tracks)@ == old(all_tracks)@,
        spec_pipeline_track(track_coords@) matches Some(out) ==> {
            &&& final(all_tracks)@.len() == old(all_tracks)@.len() + 1
            &&& final(all_tracks)@.last()@ == out
            &&& forall|t: int|
                0 <= t < old(all_tracks)@.len() ==> final(all_tracks)@[t] == old(all_tracks)@[t]
        },
{
    if track_coords.len() > 1 {
        let filtered = filter_unrealistic_jumps(track_coords);
        if filtered.len() > 1 {
            let simplified = simplify_track(&filtered, SIMPLIFY_TOL_E5);
            proof {
                lemma_simplify_props(filtered@, SIMPLIFY_TOL_E5 as int);
            }
            assert forall|k: int| 0 <= k < simplified@.len() implies (
            #[trigger] simplified@[k]).wf() by {
                assert(filtered@.contains(simplified@[k]));
            }
            if simplified.len() > 1 {
                all_tracks.push(simplified);
            }
        }
    }
}

/// Processes one batch of input files into the heatmap dataset: each
/// file's tracks (from the host's tag-format parse if it succeeded, else
/// from the binary telemetry decoder if the signature matches, else
/// nothing) are validated, cleaned of GPS jumps and simplified; tracks
/// with at least two surviving points are aggregated. The collected
/// tracks and their frequencies are computed exactly as `spec_collected`
/// and `spec_track_frequency` state. Every coordinate in the result is
/// valid, every track has at least two points, every frequency is at
/// least 1, and `max_frequency` is exactly the largest track frequency
/// (0 when no track qualified).
pub fn process_gpx_files(files: &Vec<FileInput>) -> (result: HeatmapResult)
    ensures
        forall|t: int|
            0 <= t < result.tracks@.len() ==> {
                &&& (#[trigger] result.tracks@[t]).coordinates@.len() >= 2
                &&& forall|i: int|
                    0 <= i < result.tracks@[t].coordinates@.len() ==> (
                    #[trigger] result.tracks@[t].coordinates@[i]).wf()
                &&& result.tracks@[t].frequency >= 1
                &&& result.tracks@[t].frequency <= result.max_frequency
            },
        result.tracks@.len() == 0 ==> result.max_frequency == 0,
        result.tracks@.len() > 0 ==> exists|t: int|
            0 <= t < result.tracks@.len() && (#[trigger] result.tracks@[t]).frequency
                == result.max_frequency,
        ({
            let collected = spec_collected(files@, files@.len() as int);
            &&& result.tracks@.len() == collected.len()
            &&& forall|t: int|
                0 <= t < collected.len() ==> {
                    &&& (#[trigger] result.tracks@[t]).coordinates@ == collected[t]
                    &&& result.tracks@[t].frequency == spec_track_frequency(
                        collected,
                        collected[t],
                    )
                }
        }),
{
    let mut all_tracks: Vec<Vec<Coordinate>> = Vec::new();
    let mut fi: usize = 0;
    while fi < files.len()
        invariant
            fi <= files@.len(),
            forall|t: int|
                0 <= t < all_tracks@.len() ==> (#[trigger] all_tracks@[t])@.len() >= 2,
            forall|t: int, i: int|
                0 <= t < all_tracks@.len() && 0 <= i < all_tracks@[t]@.len() ==> (
                #[trigger] all_tracks@[t]@[i]).wf(),
            views_of(all_tracks@) == spec_collected(files@, fi as int),
        decreases files@.len() - fi,
    {
        let file = &files[fi];
        match &file.tag_tracks {
            Some(tag_tracks) => {
                // the host's tag-format parser recognized this file
                let ghost gts = tag_tracks@;
                proof {
                    assert(views_of(all_tracks@) =~~= spec_collected(files@, fi as int)
                        + spec_tag_tracks(gts, 0));
                }
                let mut si: usize = 0;
                while si < tag_tracks.len()
                    invariant
                        si <= tag_tracks@.len(),
                        gts == tag_tracks@,
                        fi < files@.len(),
                        files@[fi as int].tag_tracks matches Some(v) && v@ == gts,
                        forall|t: int|
                            0 <= t < all_tracks@.len() ==> (#[trigger] all_tracks@[t])@.len()
                                >= 2,
                        forall|t: int, i: int|
                            0 <= t < all_tracks@.len() && 0 <= i < all_tracks@[t]@.len() ==> (
                            #[trigger] all_tracks@[t]@[i]).wf(),
                        views_of(all_tracks@) == spec_collected(files@, fi as int)
                            + spec_tag_tracks(gts, si as int),
                    decreases tag_tracks@.len() - si,
                {
                    let track_coords = validate_points(&tag_tracks[si]);
                    let ghost prev_tracks = all_tracks@;
                    clean_and_collect(&track_coords, &mut all_tracks);
                    proof {
                        assert(track_coords@ == spec_validated(gts[si as int]@, gts[si as int]@.len() as int));
                        match spec_pipeline_track(track_coords@) {
                            Some(out) => {
                                assert(views_of(all_tracks@) =~~= views_of(prev_tracks).push(
                                    out,
                                ));
                            },
                            None => {
                                assert(views_of(all_tracks@) =~~= views_of(prev_tracks));
                            },
                        }
                        assert(views_of(all_tracks@) =~~= spec_collected(files@, fi as int)
                            + spec_tag_tracks(gts, si + 1));
                    }
                    si += 1;
                }
                proof {
                    assert(spec_file_tracks(files@[fi as int]) == spec_tag_tracks(
                        gts,
                        gts.len() as int,
                    ));
                    assert(views_of(all_tracks@) =~~= spec_collected(files@, fi + 1));
                }
            },
            None => {
                // fall back to the binary telemetry format, or skip
                proof {
                    assert(files@[fi as int].tag_tracks is None);
                }
                if is_fit_file(&file.bytes) {
                    let mut fit_parser = FitParser::new(copy_bytes(&file.bytes));
                    let fit_coordinates = fit_parser.parse_gps_coordinates();
                    proof {
                        assert(fit_coordinates@ == spec_decode(files@[fi as int].bytes@));
                    }
                    let ghost prev_tracks = all_tracks@;
                    if fit_coordinates.len() > 1 {
                        clean_and_collect(&fit_coordinates, &mut all_tracks);
                        proof {
                            match spec_pipeline_track(fit_coordinates@) {
                                Some(out) => {
                                    assert(views_of(all_tracks@) =~~= views_of(
                                        prev_tracks,
                                    ).push(out));
                                },
                                None => {
                                    assert(views_of(all_tracks@) =~~= views_of(prev_tracks));
                                },
                            }
                            assert(views_of(all_tracks@) =~~= spec_collected(files@, fi + 1));
                        }
                    } else {
                        proof {
                            assert(spec_pipeline_track(fit_coordinates@) is None);
                            assert(views_of(all_tracks@) =~~= spec_collected(files@, fi + 1));
                        }
                    }
                } else {
                    proof {
                        assert(spec_file_tracks(files@[fi as int]) =~~= Seq::<
                            Seq<Coordinate>,
                        >::empty());
                        assert(views_of(all_tracks@) =~~= spec_collected(files@, fi + 1));
                    }
                }
            },
        }
        fi += 1;
    }
    let result = aggregate_heatmap(&all_tracks);
    proof {
        let collected = spec_collected(files@, files@.len() as int);
        assert(views_of(all_tracks@) == collected);
        assert forall|t: int| 0 <= t < collected.len() implies {
            &&& (#[trigger] result.tracks@[t]).coordinates@ == collected[t]
            &&& result.tracks@[t].frequency == spec_track_frequency(collected, collected[t])
        } by {
            assert(all_tracks@[t]@ == views_of(all_tracks@)[t]);
        }
    }
    result
}

} // verus!
