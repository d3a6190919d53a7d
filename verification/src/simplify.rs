use vstd::prelude::*;
use crate::coord::Coordinate;

verus! {

/// Squared Euclidean distance between two points in degree-space, in units
/// of (1e-5 degree) squared. The simplifier works on this squared form so
/// that the tolerance comparison is exact integer arithmetic.
pub open spec fn spec_distance_sq(p: Coordinate, q: Coordinate) -> int {
    let dx = p.lat_e5 - q.lat_e5;
    let dy = p.lon_e5 - q.lon_e5;
    dx * dx + dy * dy
}

/// Squared degree-space distance between two valid coordinates.
pub fn distance_sq(p: Coordinate, q: Coordinate) -> (r: i64)
    requires
        p.wf(),
        q.wf(),
    ensures
        r == spec_distance_sq(p, q),
{
    let dx = p.lat_e5 - q.lat_e5;
    let dy = p.lon_e5 - q.lon_e5;
    assert(dx * dx <= 36_000_000i64 * 36_000_000i64 && dx * dx >= 0) by (nonlinear_arith)
        requires -36_000_000 <= dx <= 36_000_000;
    assert(dy * dy <= 36_000_000i64 * 36_000_000i64 && dy * dy >= 0) by (nonlinear_arith)
        requires -36_000_000 <= dy <= 36_000_000;
    dx * dx + dy * dy
}

/// One step of the greedy reduction: starting at index `i` with `last` the
/// index of the most recently retained point, the points that are retained
/// from `i` onward. A point is retained when it is farther than the
/// tolerance from the last retained point, or when it is the final point.
pub open spec fn spec_simplify_rec(s: Seq<Coordinate>, last: int, i: int, tol: int) -> Seq<Coordinate>
    decreases s.len() - i when 0 <= i
{
    if i < 0 || i >= s.len() {
        Seq::empty()
    } else if spec_distance_sq(s[last], s[i]) > tol * tol || i == s.len() - 1 {
        seq![s[i]] + spec_simplify_rec(s, i, i + 1, tol)
    } else {
        spec_simplify_rec(s, last, i + 1, tol)
    }
}

/// Greedy tolerance-based polyline reduction: tracks of two or fewer points
/// are kept as they are; otherwise the first point is always retained and
/// each later point is retained when it is farther than the tolerance from
/// the last retained point or is the final point.
pub open spec fn spec_simplify(s: Seq<Coordinate>, tol: int) -> Seq<Coordinate> {
    if s.len() <= 2 {
        s
    } else {
        seq![s[0]] + spec_simplify_rec(s, 0, 1, tol)
    }
}

/// Greedy polyline simplification preserving shape above the tolerance
/// (given in 1e-5 degree units, compared in degree-space, not geographic).
pub fn simplify_track(points: &Vec<Coordinate>, tol_e5: i64) -> (result: Vec<Coordinate>)
    requires
        forall|k: int| 0 <= k < points@.len() ==> (#[trigger] points@[k]).wf(),
        0 <= tol_e5 <= 3_000_000_000,
    ensures
        result@ == spec_simplify(points@, tol_e5 as int),
{
    assert(tol_e5 * tol_e5 <= 3_000_000_000i64 * 3_000_000_000i64 && tol_e5 * tol_e5 >= 0)
        by (nonlinear_arith)
        requires 0 <= tol_e5 <= 3_000_000_000;
    let tol_sq: i64 = tol_e5 * tol_e5;
    if points.len() <= 2 {
        let mut copy: Vec<Coordinate> = Vec::new();
        let mut j: usize = 0;
        while j < points.len()
            invariant
                0 <= j <= points@.len(),
                copy@ == points@.subrange(0, j as int),
            decreases points@.len() - j,
        {
            copy.push(points[j]);
            assert(copy@ == points@.subrange(0, j + 1 as int));
            j += 1;
        }
        assert(copy@ == points@);
        return copy;
    }

    let ghost s = points@;
    let ghost tol: int = tol_e5 as int;
    let mut result: Vec<Coordinate> = Vec::new();
    result.push(points[0]);
    let mut last_added: usize = 0;
    let mut i: usize = 1;
    while i < points.len()
        invariant
            3 <= s.len(),
            s == points@,
            tol == tol_e5 as int,
            0 <= tol_e5 <= 3_000_000_000,
            tol_sq == tol * tol,
            forall|k: int| 0 <= k < s.len() ==> (#[trigger] s[k]).wf(),
            1 <= i <= s.len(),
            0 <= last_added < i,
            result@ + spec_simplify_rec(s, last_added as int, i as int, tol)
                == spec_simplify(s, tol),
        decreases s.len() - i,
    {
        let d = distance_sq(points[last_added], points[i]);
        if d > tol_sq || i == points.len() - 1 {
            result.push(points[i]);
            last_added = i;
        }
        i += 1;
    }
    assert(spec_simplify_rec(s, last_added as int, i as int, tol) == Seq::<Coordinate>::empty());
    assert(result@ =~= result@ + Seq::<Coordinate>::empty());
    result
}

proof fn lemma_rec_props(s: Seq<Coordinate>, last: int, i: int, tol: int)
    requires
        0 <= last < i <= s.len(),
    ensures
        ({
            let r = spec_simplify_rec(s, last, i, tol);
            let c = seq![s[last]] + r;
            &&& forall|k: int| 0 <= k < r.len() ==> s.contains(#[trigger] r[k])
            &&& i <= s.len() - 1 ==> r.len() >= 1 && r[r.len() - 1] == s[s.len() - 1]
            &&& forall|k: int| 0 <= k < c.len() - 2 ==>
                spec_distance_sq(#[trigger] c[k], c[k + 1]) > tol * tol
        }),
    decreases s.len() - i,
{
    let r = spec_simplify_rec(s, last, i, tol);
    let c = seq![s[last]] + r;
    if i >= s.len() {
        assert(r =~= Seq::<Coordinate>::empty());
    } else if spec_distance_sq(s[last], s[i]) > tol * tol || i == s.len() - 1 {
        let r2 = spec_simplify_rec(s, i, i + 1, tol);
        let c2 = seq![s[i]] + r2;
        lemma_rec_props(s, i, i + 1, tol);
        assert(r =~= seq![s[i]] + r2);
        assert(c =~= seq![s[last]] + c2);
        assert(s.contains(s[i])) by {
            assert(s[i] == s[i]);
        }
        assert forall|k: int| 0 <= k < r.len() implies s.contains(#[trigger] r[k]) by {
            if k >= 1 {
                assert(r[k] == r2[k - 1]);
            }
        }
        if i <= s.len() - 1 {
            if i == s.len() - 1 {
                assert(r2 =~= Seq::<Coordinate>::empty());
                assert(r[r.len() - 1] == s[i]);
            } else {
                assert(r2[r2.len() - 1] == s[s.len() - 1]);
                assert(r[r.len() - 1] == r2[r2.len() - 1]);
            }
        }
        assert forall|k: int| 0 <= k < c.len() - 2 implies
            spec_distance_sq(#[trigger] c[k], c[k + 1]) > tol * tol by {
            if k == 0 {
                // a later point follows, so the retention here was by distance
                assert(r2.len() > 0);
                assert(i < s.len() - 1);
                assert(c[0] == s[last] && c[1] == s[i]);
            } else {
                assert(c[k] == c2[k - 1] && c[k + 1] == c2[k]);
            }
        }
    } else {
        lemma_rec_props(s, last, i + 1, tol);
        assert(r == spec_simplify_rec(s, last, i + 1, tol));
    }
}

/// What the greedy reduction guarantees of its output: points come from the
/// input, the first and last points are always retained, a track of at
/// least two points stays at least two points long, and every pair of
/// consecutive retained points, except possibly the final pair, is farther
/// apart than the tolerance.
pub proof fn lemma_simplify_props(s: Seq<Coordinate>, tol: int)
    ensures
        ({
            let r = spec_simplify(s, tol);
            &&& s.len() <= 2 ==> r == s
            &&& forall|k: int| 0 <= k < r.len() ==> s.contains(#[trigger] r[k])
            &&& s.len() >= 1 ==> r.len() >= 1 && r[0] == s[0] && r[r.len() - 1] == s[s.len() - 1]
            &&& s.len() >= 2 ==> r.len() >= 2
            &&& forall|k: int| 0 <= k < r.len() - 2 ==>
                spec_distance_sq(#[trigger] r[k], r[k + 1]) > tol * tol
        }),
{
    let r = spec_simplify(s, tol);
    if s.len() <= 2 {
        assert forall|k: int| 0 <= k < r.len() implies s.contains(#[trigger] r[k]) by {
            assert(r[k] == s[k]);
        }
    } else {
        lemma_rec_props(s, 0, 1, tol);
        let r2 = spec_simplify_rec(s, 0, 1, tol);
        assert(r =~= seq![s[0]] + r2);
        assert(s.contains(s[0])) by {
            assert(s[0] == s[0]);
        }
        assert forall|k: int| 0 <= k < r.len() implies s.contains(#[trigger] r[k]) by {
            if k >= 1 {
                assert(r[k] == r2[k - 1]);
            }
        }
        assert(r[r.len() - 1] == r2[r2.len() - 1]);
    }
}

proof fn lemma_rec_identity(s: Seq<Coordinate>, i: int, tol: int)
    requires
        1 <= i <= s.len() - 1,
        forall|k: int| 0 <= k < s.len() - 2 ==>
            spec_distance_sq(#[trigger] s[k], s[k + 1]) > tol * tol,
    ensures
        spec_simplify_rec(s, i - 1, i, tol) == s.subrange(i, s.len() as int),
    decreases s.len() - i,
{
    if i == s.len() - 1 {
        assert(spec_simplify_rec(s, i, i + 1, tol) =~= Seq::<Coordinate>::empty());
        assert(spec_simplify_rec(s, i - 1, i, tol) =~= s.subrange(i, s.len() as int));
    } else {
        assert(spec_distance_sq(s[i - 1], s[i]) > tol * tol);
        lemma_rec_identity(s, i + 1, tol);
        assert(spec_simplify_rec(s, i - 1, i, tol) =~= s.subrange(i, s.len() as int));
    }
}

/// Simplification is idempotent: running the greedy reduction on its own
/// output, with the same tolerance, returns that output unchanged.
pub proof fn lemma_simplify_idempotent(s: Seq<Coordinate>, tol: int)
    ensures
        spec_simplify(spec_simplify(s, tol), tol) == spec_simplify(s, tol),
{
    let r = spec_simplify(s, tol);
    if r.len() <= 2 {
    } else {
        lemma_simplify_props(s, tol);
        lemma_rec_identity(r, 1, tol);
        assert(spec_simplify(r, tol) =~= r);
    }
}

} // verus!
