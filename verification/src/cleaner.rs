use vstd::prelude::*;
use crate::coord::Coordinate;
use crate::geo::{hav_e24, spec_hav_e24, HAV_100KM_E24, HAV_150KM_E24};

verus! {

// GPS-jump filtering: a forward-only, single-pass filter that keeps the
// first point, drops points that jump more than 100 km (great-circle) from
// the last kept point, bridges over short glitches when a plausible
// continuation lies within a 20-point lookahead, and otherwise salvages
// the remainder of the track from the first point that reconnects.

/// The mode of the cleaning pass. Bridging over a transient glitch happens
/// while `Clean`, by skipping the current point when the lookahead finds a
/// continuation within 1.5 times the jump threshold.
#[derive(Clone, Copy, PartialEq, Eq, Structural, Debug)]
pub enum CleanState {
    /// Normal filtering with a bad-streak counter and lookahead bridging.
    Clean,
    /// No continuation was found in the lookahead window: searching the
    /// remainder of the track for the first point that reconnects.
    Salvaging,
    /// Reconnected after salvaging: plain threshold filtering, with no
    /// further bridging.
    Tail,
    /// Too many consecutive violations: the track is truncated here.
    Terminated,
}

/// Whether some point in the lookahead window `i + 1 .. i + 21` lies
/// within 150 km (1.5 times the jump threshold) of `prev`, which would
/// mark the point at `i` as a transient glitch.
pub open spec fn spec_has_bridge(s: Seq<Coordinate>, prev: Coordinate, i: int) -> bool {
    exists|j: int|
        i + 1 <= j < i + 21 && j < s.len() && spec_hav_e24(prev, #[trigger] s[j])
            <= HAV_150KM_E24
}

/// What the cleaning pass keeps from index `i` onward, given the last
/// kept point, the current bad-streak count and the current mode; in the
/// `Terminated` mode nothing more is kept.
pub open spec fn spec_clean_rec(
    s: Seq<Coordinate>,
    prev: Coordinate,
    bad: int,
    state: CleanState,
    i: int,
) -> Seq<Coordinate>
    decreases s.len() - i when 0 <= i
{
    if i < 0 || i >= s.len() {
        Seq::empty()
    } else {
        match state {
            CleanState::Clean => {
                if spec_hav_e24(prev, s[i]) <= HAV_100KM_E24 {
                    seq![s[i]] + spec_clean_rec(s, s[i], 0, CleanState::Clean, i + 1)
                } else if bad + 1 <= 10 {
                    if spec_has_bridge(s, prev, i) {
                        spec_clean_rec(s, prev, bad + 1, CleanState::Clean, i + 1)
                    } else {
                        spec_clean_rec(s, prev, bad + 1, CleanState::Salvaging, i + 1)
                    }
                } else {
                    Seq::empty()
                }
            },
            CleanState::Salvaging => {
                if spec_hav_e24(prev, s[i]) <= HAV_100KM_E24 {
                    seq![s[i]] + spec_clean_rec(s, s[i], bad, CleanState::Tail, i + 1)
                } else {
                    spec_clean_rec(s, prev, bad, CleanState::Salvaging, i + 1)
                }
            },
            CleanState::Tail => {
                if spec_hav_e24(prev, s[i]) <= HAV_100KM_E24 {
                    seq![s[i]] + spec_clean_rec(s, s[i], bad, CleanState::Tail, i + 1)
                } else {
                    spec_clean_rec(s, prev, bad, CleanState::Tail, i + 1)
                }
            },
            CleanState::Terminated => Seq::empty(),
        }
    }
}

/// What the cleaning pass keeps of a whole track: tracks of at most one
/// point are returned as they are; otherwise the first point is kept
/// unconditionally and the rest go through the state machine.
pub open spec fn spec_clean(s: Seq<Coordinate>) -> Seq<Coordinate> {
    if s.len() <= 1 {
        s
    } else {
        seq![s[0]] + spec_clean_rec(s, s[0], 0, CleanState::Clean, 1)
    }
}

/// Scans the lookahead window for a plausible continuation.
fn has_bridge(coords: &Vec<Coordinate>, prev: Coordinate, i: usize) -> (r: bool)
    requires
        prev.wf(),
        forall|k: int| 0 <= k < coords@.len() ==> (#[trigger] coords@[k]).wf(),
        i < coords@.len(),
    ensures
        r == spec_has_bridge(coords@, prev, i as int),
{
    let end: usize = if coords.len() - i - 1 > 20 {
        i + 21
    } else {
        coords.len()
    };
    let mut j: usize = i + 1;
    while j < end
        invariant
            i + 1 <= j <= end,
            end <= coords@.len(),
            end == if i + 21 <= coords@.len() { (i + 21) as int } else { coords@.len() as int },
            prev.wf(),
            forall|k: int| 0 <= k < coords@.len() ==> (#[trigger] coords@[k]).wf(),
            forall|k: int| i + 1 <= k < j ==>
                spec_hav_e24(prev, #[trigger] coords@[k]) > HAV_150KM_E24,
        decreases end - j,
    {
        if hav_e24(prev, coords[j]) <= HAV_150KM_E24 {
            return true;
        }
        j += 1;
    }
    false
}

/// Removes GPS jumps, computing exactly `spec_clean`: the first point is
/// kept unconditionally, and every kept point after it lies within 100 km
/// (great-circle distance, as measured by `spec_hav_e24`) of the point
/// kept before it — a jump never makes it into the output; at worst the
/// track is truncated. All output points come from the input, in order of
/// appearance.
pub fn filter_unrealistic_jumps(coords: &Vec<Coordinate>) -> (result: Vec<Coordinate>)
    requires
        forall|k: int| 0 <= k < coords@.len() ==> (#[trigger] coords@[k]).wf(),
    ensures
        result@ == spec_clean(coords@),
        coords@.len() <= 1 ==> result@ == coords@,
        coords@.len() >= 1 ==> result@.len() >= 1 && result@[0] == coords@[0],
        result@.len() <= coords@.len(),
        forall|k: int| 0 <= k < result@.len() ==> coords@.contains(#[trigger] result@[k]),
        forall|k: int| 0 <= k < result@.len() ==> (#[trigger] result@[k]).wf(),
        forall|k: int| 0 <= k < result@.len() - 1 ==>
            spec_hav_e24(#[trigger] result@[k], result@[k + 1]) <= HAV_100KM_E24,
{
    if coords.len() <= 1 {
        let mut copy: Vec<Coordinate> = Vec::new();
        if coords.len() == 1 {
            copy.push(coords[0]);
        }
        assert(copy@ =~= coords@);
        return copy;
    }

    let mut filtered: Vec<Coordinate> = Vec::new();
    filtered.push(coords[0]);
    assert(coords@.contains(coords@[0]));
    let mut bad: usize = 0;
    let mut state = CleanState::Clean;
    let mut i: usize = 1;
    while i < coords.len() && state != CleanState::Terminated
        invariant
            2 <= coords@.len(),
            forall|k: int| 0 <= k < coords@.len() ==> (#[trigger] coords@[k]).wf(),
            1 <= i <= coords@.len(),
            1 <= filtered@.len() <= i,
            filtered@[0] == coords@[0],
            bad <= 11,
            state != CleanState::Terminated ==> bad <= 10,
            filtered@ + spec_clean_rec(
                coords@,
                filtered@.last(),
                bad as int,
                state,
                i as int,
            ) == spec_clean(coords@),
            forall|k: int| 0 <= k < filtered@.len() ==>
                coords@.contains(#[trigger] filtered@[k]),
            forall|k: int| 0 <= k < filtered@.len() ==> (#[trigger] filtered@[k]).wf(),
            forall|k: int| 0 <= k < filtered@.len() - 1 ==>
                spec_hav_e24(#[trigger] filtered@[k], filtered@[k + 1]) <= HAV_100KM_E24,
        decreases coords@.len() - i,
    {
        let prev = filtered[filtered.len() - 1];
        let curr = coords[i];
        assert(coords@.contains(coords@[i as int]));
        match state {
            CleanState::Clean => {
                let d = hav_e24(prev, curr);
                if d <= HAV_100KM_E24 {
                    filtered.push(curr);
                    bad = 0;
                } else {
                    bad = bad + 1;
                    if bad <= 10 {
                        if !has_bridge(coords, prev, i) {
                            state = CleanState::Salvaging;
                        }
                    } else {
                        state = CleanState::Terminated;
                    }
                }
            },
            CleanState::Salvaging => {
                let d = hav_e24(prev, curr);
                if d <= HAV_100KM_E24 {
                    filtered.push(curr);
                    state = CleanState::Tail;
                }
            },
            CleanState::Tail => {
                let d = hav_e24(prev, curr);
                if d <= HAV_100KM_E24 {
                    filtered.push(curr);
                }
            },
            CleanState::Terminated => {
            },
        }
        i += 1;
    }
    assert(spec_clean_rec(coords@, filtered@.last(), bad as int, state, i as int)
        =~= Seq::<Coordinate>::empty());
    assert(filtered@ =~= filtered@ + Seq::<Coordinate>::empty());
    filtered
}

} // verus!
