use vstd::prelude::*;
use crate::domain::MatchStatus;
use crate::error::{AppError, ErrorCode, error_is, error_of};
use crate::timeline::{is_capture_instant, is_plausible_instant, millis_between, millis_toward_zero, shift_by_millis};

verus! {

/// The point times of one track segment, in nanoseconds since the epoch.
#[derive(Debug)]
pub struct SegmentTimes {
    pub id: u128,
    pub source_index: usize,
    pub times: Vec<i128>,
}

/// The time structure of one track: its overall range and its segments.
#[derive(Debug)]
pub struct TrackTimes {
    pub id: u128,
    pub start_utc: i128,
    pub end_utc: i128,
    pub segments: Vec<SegmentTimes>,
}

/// Every time of every segment is a plausible instant.
pub open spec fn tracks_plausible(tracks: Seq<TrackTimes>) -> bool {
    forall|t: int, s: int, i: int|
        0 <= t < tracks.len() && 0 <= s < tracks[t].segments.len() && 0 <= i < tracks[t].segments[s].times.len()
            ==> is_plausible_instant(#[trigger] tracks[t].segments[s].times[i] as int)
}

/// Binary search for the first position whose time is not before `target`
/// (between `lo` and `hi`); on sorted times this is the lower bound.
pub open spec fn lower_bound_between(times: Seq<i128>, target: i128, lo: int, hi: int) -> int
    decreases hi - lo,
{
    if lo < hi {
        let mid = lo + (hi - lo) / 2;
        if times[mid] < target {
            lower_bound_between(times, target, mid + 1, hi)
        } else {
            lower_bound_between(times, target, lo, mid)
        }
    } else {
        lo
    }
}

pub open spec fn sorted_times(times: Seq<i128>) -> bool {
    forall|i: int, j: int| 0 <= i <= j < times.len() ==> #[trigger] times[i] <= #[trigger] times[j]
}

proof fn lemma_lower_bound(times: Seq<i128>, target: i128, lo: int, hi: int)
    requires
        0 <= lo <= hi <= times.len(),
    ensures
        lo <= lower_bound_between(times, target, lo, hi) <= hi,
        sorted_times(times) && (forall|i: int| 0 <= i < lo ==> #[trigger] times[i] < target)
            && (forall|i: int| hi <= i < times.len() ==> #[trigger] times[i] >= target)
            ==> {
            let r = lower_bound_between(times, target, lo, hi);
            &&& forall|i: int| 0 <= i < r ==> #[trigger] times[i] < target
            &&& forall|i: int| r <= i < times.len() ==> #[trigger] times[i] >= target
        },
    decreases hi - lo,
{
    if lo < hi {
        let mid = lo + (hi - lo) / 2;
        if times[mid] < target {
            lemma_lower_bound(times, target, mid + 1, hi);
        } else {
            lemma_lower_bound(times, target, lo, mid);
        }
    }
}

/// First position whose time is not before `target` (binary search over the times).
pub fn lower_bound(times: &Vec<i128>, target: i128) -> (index: usize)
    ensures
        index as int == lower_bound_between(times@, target, 0, times.len() as int),
        index <= times.len(),
        sorted_times(times@) ==> (forall|i: int| 0 <= i < index ==> #[trigger] times@[i] < target)
            && (forall|i: int| index <= i < times.len() ==> #[trigger] times@[i] >= target),
{
    proof { lemma_lower_bound(times@, target, 0, times.len() as int); }
    let mut left: usize = 0;
    let mut right: usize = times.len();
    while left < right
        invariant
            left <= right <= times.len(),
            lower_bound_between(times@, target, left as int, right as int)
                == lower_bound_between(times@, target, 0, times.len() as int),
        decreases right - left,
    {
        let middle = left + (right - left) / 2;
        if times[middle] < target {
            left = middle + 1;
        } else {
            right = middle;
        }
    }
    left
}

/// Where a time falls inside one segment: on a point, or strictly between two neighbouring
/// points that are at least a millisecond apart.
#[derive(Debug)]
pub struct SegmentHit {
    pub previous_index: usize,
    pub next_index: usize,
    /// Milliseconds from the previous point to the time.
    pub offset_ms: i128,
    /// Milliseconds from the previous point to the next; 0 for a hit on a point.
    pub interval_ms: i128,
}

pub open spec fn segment_hit_spec(times: Seq<i128>, capture: i128) -> Option<SegmentHit> {
    if times.len() == 0 {
        None
    } else {
        let index = lower_bound_between(times, capture, 0, times.len() as int);
        if index < times.len() && times[index] == capture {
            Some(SegmentHit { previous_index: index as usize, next_index: index as usize, offset_ms: 0, interval_ms: 0 })
        } else if index == 0 || index >= times.len() {
            None
        } else {
            let interval = millis_toward_zero(times[index] - times[index - 1]);
            if interval <= 0 {
                None
            } else {
                Some(SegmentHit {
                    previous_index: (index - 1) as usize,
                    next_index: index as usize,
                    offset_ms: millis_toward_zero(capture - times[index - 1]) as i128,
                    interval_ms: interval as i128,
                })
            }
        }
    }
}

/// Locates `capture` inside one segment without ever looking outside it.
pub fn segment_hit(times: &Vec<i128>, capture: i128) -> (hit: Option<SegmentHit>)
    requires
        is_plausible_instant(capture as int),
        forall|i: int| 0 <= i < times.len() ==> is_plausible_instant(#[trigger] times@[i] as int),
    ensures
        hit == segment_hit_spec(times@, capture),
        sorted_times(times@) && hit is Some ==> {
            let h = hit->Some_0;
            &&& h.previous_index <= h.next_index < times.len()
            &&& h.next_index <= h.previous_index + 1
            &&& times@[h.previous_index as int] <= capture <= times@[h.next_index as int]
        },
{
    if times.len() == 0 {
        return None;
    }
    let index = lower_bound(times, capture);
    if index < times.len() && times[index] == capture {
        return Some(SegmentHit { previous_index: index, next_index: index, offset_ms: 0, interval_ms: 0 });
    }
    if index == 0 || index >= times.len() {
        return None;
    }
    let interval = millis_between(times[index], times[index - 1]);
    if interval <= 0 {
        return None;
    }
    let offset = millis_between(capture, times[index - 1]);
    Some(SegmentHit { previous_index: index - 1, next_index: index, offset_ms: offset, interval_ms: interval })
}

/// The chosen place of a photo's time: which selected track (by position in the selection
/// and by index), which segment, and where in it.
#[derive(Debug)]
pub struct TimeCandidate {
    pub order_position: usize,
    pub track_index: usize,
    pub segment_index: usize,
    pub hit: SegmentHit,
}

/// The outcome of placing a photo's time on the selected tracks.
#[derive(Debug)]
pub enum TimePlacement {
    Found(TimeCandidate),
    /// Inside some selected track's overall time range, but in no segment.
    SegmentGap,
    /// Outside every selected track's time range.
    OutOfRange,
}

/// The hit in segment `s` of the `o`-th selected track, if any.
pub open spec fn hit_at(tracks: Seq<TrackTimes>, order: Seq<usize>, capture: i128, o: int, s: int) -> Option<SegmentHit> {
    segment_hit_spec(tracks[order[o] as int].segments[s].times@, capture)
}

pub open spec fn valid_position(tracks: Seq<TrackTimes>, order: Seq<usize>, o: int, s: int) -> bool {
    0 <= o < order.len() && 0 <= s < tracks[order[o] as int].segments.len()
}

/// Candidates are ranked by interval, then track id, then segment source index.
pub open spec fn ranks_below(tracks: Seq<TrackTimes>, order: Seq<usize>, o1: int, s1: int, h1: SegmentHit, o2: int, s2: int, h2: SegmentHit) -> bool {
    let t1 = tracks[order[o1] as int];
    let t2 = tracks[order[o2] as int];
    ||| h1.interval_ms < h2.interval_ms
    ||| h1.interval_ms == h2.interval_ms && t1.id < t2.id
    ||| h1.interval_ms == h2.interval_ms && t1.id == t2.id && t1.segments[s1].source_index < t2.segments[s2].source_index
}

pub open spec fn ranks_equal(tracks: Seq<TrackTimes>, order: Seq<usize>, o1: int, s1: int, h1: SegmentHit, o2: int, s2: int, h2: SegmentHit) -> bool {
    let t1 = tracks[order[o1] as int];
    let t2 = tracks[order[o2] as int];
    h1.interval_ms == h2.interval_ms && t1.id == t2.id && t1.segments[s1].source_index == t2.segments[s2].source_index
}

/// Position (o1, s1) is visited before (o2, s2).
pub open spec fn visited_before(o1: int, s1: int, o2: int, s2: int) -> bool {
    o1 < o2 || (o1 == o2 && s1 < s2)
}

/// The hit at (o, s) is the best: it ranks below every other hit, and among equally ranked
/// hits it is the first visited.
pub open spec fn is_best_hit(tracks: Seq<TrackTimes>, order: Seq<usize>, capture: i128, o: int, s: int, h: SegmentHit) -> bool {
    forall|o2: int, s2: int| #![trigger hit_at(tracks, order, capture, o2, s2)]
        valid_position(tracks, order, o2, s2) && hit_at(tracks, order, capture, o2, s2) is Some && (o2 != o || s2 != s)
        ==> ranks_below(tracks, order, o, s, h, o2, s2, hit_at(tracks, order, capture, o2, s2)->Some_0)
            || (ranks_equal(tracks, order, o, s, h, o2, s2, hit_at(tracks, order, capture, o2, s2)->Some_0) && visited_before(o, s, o2, s2))
}

pub open spec fn any_hit(tracks: Seq<TrackTimes>, order: Seq<usize>, capture: i128) -> bool {
    exists|o: int, s: int| #![trigger hit_at(tracks, order, capture, o, s)]
        valid_position(tracks, order, o, s) && hit_at(tracks, order, capture, o, s) is Some
}

pub open spec fn in_some_range(tracks: Seq<TrackTimes>, order: Seq<usize>, capture: i128) -> bool {
    exists|o: int| 0 <= o < order.len()
        && #[trigger] tracks[order[o] as int].start_utc <= capture && capture <= tracks[order[o] as int].end_utc
}

/// Places a (corrected) capture time on the selected tracks, visited in `order`. Each
/// segment is searched on its own, so a time is never placed across a segment boundary.
#[verifier::loop_isolation(false)]
pub fn place_time(tracks: &Vec<TrackTimes>, order: &Vec<usize>, capture: i128) -> (placement: TimePlacement)
    requires
        is_plausible_instant(capture as int),
        tracks_plausible(tracks@),
        forall|o: int| 0 <= o < order.len() ==> (#[trigger] order@[o]) < tracks.len(),
    ensures
        match placement {
            TimePlacement::Found(c) => {
                &&& valid_position(tracks@, order@, c.order_position as int, c.segment_index as int)
                &&& c.track_index == order@[c.order_position as int]
                &&& hit_at(tracks@, order@, capture, c.order_position as int, c.segment_index as int) == Some(c.hit)
                &&& is_best_hit(tracks@, order@, capture, c.order_position as int, c.segment_index as int, c.hit)
            },
            TimePlacement::SegmentGap => !any_hit(tracks@, order@, capture) && in_some_range(tracks@, order@, capture),
            TimePlacement::OutOfRange => !any_hit(tracks@, order@, capture) && !in_some_range(tracks@, order@, capture),
        },
{
    let mut best: Option<TimeCandidate> = None;
    let mut inside = false;
    let mut o: usize = 0;
    while o < order.len()
        invariant
            o <= order.len(),
            inside == exists|o2: int| 0 <= o2 < o
                && #[trigger] tracks@[order@[o2] as int].start_utc <= capture && capture <= tracks@[order@[o2] as int].end_utc,
            best_so_far(tracks@, order@, capture, best, o as int, 0),
        decreases order.len() - o,
    {
        let track = &tracks[order[o]];
        if capture >= track.start_utc && capture <= track.end_utc {
            inside = true;
        }
        let mut s: usize = 0;
        while s < track.segments.len()
            invariant
                o < order.len(),
                s <= track.segments.len(),
                *track == tracks@[order@[o as int] as int],
                best_so_far(tracks@, order@, capture, best, o as int, s as int),
            decreases track.segments.len() - s,
        {
            proof {
                assert forall|i: int| 0 <= i < track.segments[s as int].times.len()
                    implies is_plausible_instant(#[trigger] track.segments[s as int].times@[i] as int) by {
                    assert(tracks@[order@[o as int] as int].segments[s as int].times[i] == track.segments[s as int].times@[i]);
                }
            }
            let hit = segment_hit(&track.segments[s].times, capture);
            let ghost old_best = best;
            match hit {
                Some(h) => {
                    let better = match &best {
                        None => true,
                        Some(b) => {
                            let bt = &tracks[b.track_index];
                            h.interval_ms < b.hit.interval_ms
                                || (h.interval_ms == b.hit.interval_ms && track.id < bt.id)
                                || (h.interval_ms == b.hit.interval_ms && track.id == bt.id
                                    && track.segments[s].source_index < bt.segments[b.segment_index].source_index)
                        },
                    };
                    if better {
                        best = Some(TimeCandidate { order_position: o, track_index: order[o], segment_index: s, hit: h });
                    }
                },
                None => {},
            }
            proof { lemma_best_step(tracks@, order@, capture, old_best, best, o as int, s as int); }
            s = s + 1;
        }
        proof { lemma_best_next_track(tracks@, order@, capture, best, o as int, s as int); }
        o = o + 1;
    }
    match best {
        Some(c) => {
            proof { lemma_best_final(tracks@, order@, capture, best, o as int); }
            TimePlacement::Found(c)
        },
        None => {
            proof { lemma_best_final(tracks@, order@, capture, best, o as int); }
            if inside {
                TimePlacement::SegmentGap
            } else {
                TimePlacement::OutOfRange
            }
        },
    }
}

/// After visiting every position before (o, s), `best` holds the best hit so far.
pub open spec fn best_so_far(tracks: Seq<TrackTimes>, order: Seq<usize>, capture: i128, best: Option<TimeCandidate>, o: int, s: int) -> bool {
    match best {
        None => forall|o2: int, s2: int| #![trigger hit_at(tracks, order, capture, o2, s2)]
            valid_position(tracks, order, o2, s2) && visited_before(o2, s2, o, s)
            ==> hit_at(tracks, order, capture, o2, s2) is None,
        Some(c) => {
            &&& valid_position(tracks, order, c.order_position as int, c.segment_index as int)
            &&& visited_before(c.order_position as int, c.segment_index as int, o, s)
            &&& c.track_index == order[c.order_position as int]
            &&& hit_at(tracks, order, capture, c.order_position as int, c.segment_index as int) == Some(c.hit)
            &&& forall|o2: int, s2: int| #![trigger hit_at(tracks, order, capture, o2, s2)]
                valid_position(tracks, order, o2, s2) && visited_before(o2, s2, o, s)
                && hit_at(tracks, order, capture, o2, s2) is Some
                && (o2 != c.order_position || s2 != c.segment_index)
                ==> ranks_below(tracks, order, c.order_position as int, c.segment_index as int, c.hit, o2, s2, hit_at(tracks, order, capture, o2, s2)->Some_0)
                    || (ranks_equal(tracks, order, c.order_position as int, c.segment_index as int, c.hit, o2, s2, hit_at(tracks, order, capture, o2, s2)->Some_0)
                        && visited_before(c.order_position as int, c.segment_index as int, o2, s2))
        },
    }
}

proof fn lemma_best_step(
    tracks: Seq<TrackTimes>,
    order: Seq<usize>,
    capture: i128,
    old_best: Option<TimeCandidate>,
    best: Option<TimeCandidate>,
    o: int,
    s: int,
)
    requires
        valid_position(tracks, order, o, s),
        o <= usize::MAX,
        s <= usize::MAX,
        best_so_far(tracks, order, capture, old_best, o, s),
        match hit_at(tracks, order, capture, o, s) {
            None => best == old_best,
            Some(h) => {
                let better = match old_best {
                    None => true,
                    Some(b) => ranks_below(tracks, order, o, s, h, b.order_position as int, b.segment_index as int, b.hit),
                };
                if better {
                    best == Some(TimeCandidate { order_position: o as usize, track_index: order[o], segment_index: s as usize, hit: h })
                } else {
                    best == old_best
                }
            },
        },
    ensures
        best_so_far(tracks, order, capture, best, o, s + 1),
{
    match best {
        None => {
            assert(hit_at(tracks, order, capture, o, s) is None);
            assert forall|o2: int, s2: int| #![trigger hit_at(tracks, order, capture, o2, s2)]
                valid_position(tracks, order, o2, s2) && visited_before(o2, s2, o, s + 1)
                implies hit_at(tracks, order, capture, o2, s2) is None by {
                if !(o2 == o && s2 == s) {
                    assert(visited_before(o2, s2, o, s));
                }
            }
        },
        Some(c) => {
            let co = c.order_position as int;
            let cs = c.segment_index as int;
            if old_best == best {
                // The earlier best stays; the hit here (if any) does not rank below it.
                assert forall|o2: int, s2: int| #![trigger hit_at(tracks, order, capture, o2, s2)]
                    valid_position(tracks, order, o2, s2) && visited_before(o2, s2, o, s + 1)
                    && hit_at(tracks, order, capture, o2, s2) is Some
                    && (o2 != co || s2 != cs)
                    implies ranks_below(tracks, order, co, cs, c.hit, o2, s2, hit_at(tracks, order, capture, o2, s2)->Some_0)
                        || (ranks_equal(tracks, order, co, cs, c.hit, o2, s2, hit_at(tracks, order, capture, o2, s2)->Some_0)
                            && visited_before(co, cs, o2, s2)) by {
                    if o2 == o && s2 == s {
                        let h = hit_at(tracks, order, capture, o, s)->Some_0;
                        assert(!ranks_below(tracks, order, o, s, h, co, cs, c.hit));
                    } else {
                        assert(visited_before(o2, s2, o, s));
                    }
                }
            } else {
                // The hit here is the new best: it ranks below the earlier best, which ranked
                // below or equal to every earlier hit.
                let h = hit_at(tracks, order, capture, o, s)->Some_0;
                assert(co == o && cs == s && c.hit == h);
                assert forall|o2: int, s2: int| #![trigger hit_at(tracks, order, capture, o2, s2)]
                    valid_position(tracks, order, o2, s2) && visited_before(o2, s2, o, s + 1)
                    && hit_at(tracks, order, capture, o2, s2) is Some
                    && (o2 != co || s2 != cs)
                    implies ranks_below(tracks, order, co, cs, c.hit, o2, s2, hit_at(tracks, order, capture, o2, s2)->Some_0)
                        || (ranks_equal(tracks, order, co, cs, c.hit, o2, s2, hit_at(tracks, order, capture, o2, s2)->Some_0)
                            && visited_before(co, cs, o2, s2)) by {
                    assert(visited_before(o2, s2, o, s));
                    let b = old_best->Some_0;
                    let bo = b.order_position as int;
                    let bs = b.segment_index as int;
                    let h2 = hit_at(tracks, order, capture, o2, s2)->Some_0;
                    assert(ranks_below(tracks, order, o, s, h, bo, bs, b.hit));
                    if o2 != bo || s2 != bs {
                        assert(ranks_below(tracks, order, bo, bs, b.hit, o2, s2, h2)
                            || ranks_equal(tracks, order, bo, bs, b.hit, o2, s2, h2));
                    } else {
                        assert(h2 == b.hit);
                    }
                }
            }
        },
    }
}

proof fn lemma_best_next_track(tracks: Seq<TrackTimes>, order: Seq<usize>, capture: i128, best: Option<TimeCandidate>, o: int, s: int)
    requires
        0 <= o < order.len(),
        s == tracks[order[o] as int].segments.len(),
        best_so_far(tracks, order, capture, best, o, s),
    ensures
        best_so_far(tracks, order, capture, best, o + 1, 0),
{
}

proof fn lemma_best_final(tracks: Seq<TrackTimes>, order: Seq<usize>, capture: i128, best: Option<TimeCandidate>, o: int)
    requires
        o == order.len(),
        best_so_far(tracks, order, capture, best, o, 0),
    ensures
        match best {
            None => !any_hit(tracks, order, capture),
            Some(c) => is_best_hit(tracks, order, capture, c.order_position as int, c.segment_index as int, c.hit),
        },
{
}

/// Sorted by id, ties kept in their original order: the (id, index) pairs strictly increase.
pub open spec fn sorted_by_id(ids: Seq<u128>, order: Seq<usize>) -> bool {
    forall|a: int, b: int| 0 <= a < b < order.len() ==>
        ids[#[trigger] order[a] as int] < ids[#[trigger] order[b] as int]
        || (ids[order[a] as int] == ids[order[b] as int] && order[a] < order[b])
}

/// Whether an id is picked by an optional selection (no selection picks everything).
pub open spec fn is_picked(selection: Option<Seq<u128>>, id: u128) -> bool {
    match selection {
        None => true,
        Some(ids) => ids.contains(id),
    }
}

pub open spec fn selection_view(selection: Option<Vec<u128>>) -> Option<Seq<u128>> {
    match selection {
        None => None,
        Some(v) => Some(v@),
    }
}

fn contains_id(ids: &Vec<u128>, id: u128) -> (b: bool)
    ensures
        b == ids@.contains(id),
{
    let mut i: usize = 0;
    while i < ids.len()
        invariant
            i <= ids.len(),
            forall|j: int| 0 <= j < i ==> ids@[j] != id,
        decreases ids.len() - i,
    {
        if ids[i] == id {
            return true;
        }
        i = i + 1;
    }
    false
}

/// Positions of the picked ids, sorted by id with ties in their original order.
pub fn select_sorted(ids: &Vec<u128>, selection: &Option<Vec<u128>>) -> (order: Vec<usize>)
    ensures
        sorted_by_id(ids@, order@),
        forall|i: usize| #[trigger] order@.contains(i) <==> (i < ids.len() && is_picked(selection_view(*selection), ids@[i as int])),
{
    let mut order: Vec<usize> = Vec::new();
    let mut i: usize = 0;
    while i < ids.len()
        invariant
            i <= ids.len(),
            sorted_by_id(ids@, order@),
            forall|k: int| 0 <= k < order.len() ==> (#[trigger] order@[k]) < i,
            forall|x: usize| #[trigger] order@.contains(x) <==> (x < i && is_picked(selection_view(*selection), ids@[x as int])),
        decreases ids.len() - i,
    {
        let picked = match selection {
            None => true,
            Some(sel) => contains_id(sel, ids[i]),
        };
        if picked {
            let id = ids[i];
            let mut pos: usize = 0;
            while pos < order.len() && ids[order[pos]] <= id
                invariant
                    pos <= order.len(),
                    i < ids.len(),
                    forall|k: int| 0 <= k < order.len() ==> (#[trigger] order@[k]) < i,
                    forall|k: int| 0 <= k < pos ==> ids@[#[trigger] order@[k] as int] <= id,
                decreases order.len() - pos,
            {
                pos = pos + 1;
            }
            let ghost before = order@;
            proof {
                // entries from `pos` on have larger ids (the list is sorted by id)
                assert forall|k: int| pos <= k < before.len() implies ids@[#[trigger] before[k] as int] > id by {
                    if k > pos {
                        assert(ids@[before[pos as int] as int] <= ids@[before[k] as int]);
                    }
                }
            }
            order.insert(pos, i);
            assert forall|a: int, b: int| 0 <= a < b < order.len() implies
                ids@[#[trigger] order@[a] as int] < ids@[#[trigger] order@[b] as int]
                || (ids@[order@[a] as int] == ids@[order@[b] as int] && order@[a] < order@[b]) by {
                if b < pos {
                    assert(order@[a] == before[a] && order@[b] == before[b]);
                } else if b == pos {
                    assert(order@[a] == before[a]);
                } else if a < pos {
                    assert(order@[a] == before[a] && order@[b] == before[b - 1]);
                } else if a == pos {
                    assert(order@[b] == before[b - 1]);
                } else {
                    assert(order@[a] == before[a - 1] && order@[b] == before[b - 1]);
                }
            }
            assert forall|x: usize| #[trigger] order@.contains(x) <==> (x < i + 1 && is_picked(selection_view(*selection), ids@[x as int])) by {
                if order@.contains(x) {
                    let k = choose|k: int| 0 <= k < order@.len() && order@[k] == x;
                    if k < pos {
                        assert(before[k] == x);
                        assert(before.contains(x));
                    } else if k > pos {
                        assert(before[k - 1] == x);
                        assert(before.contains(x));
                    }
                }
                if x < i + 1 && is_picked(selection_view(*selection), ids@[x as int]) {
                    if x < i {
                        assert(before.contains(x));
                        let k = choose|k: int| 0 <= k < before.len() && before[k] == x;
                        if k < pos {
                            assert(order@[k] == x);
                        } else {
                            assert(order@[k + 1] == x);
                        }
                    } else {
                        assert(order@[pos as int] == x);
                    }
                }
            }
        } else {
            assert forall|x: usize| #[trigger] order@.contains(x) <==> (x < i + 1 && is_picked(selection_view(*selection), ids@[x as int])) by {
                if order@.contains(x) {
                    let k = choose|k: int| 0 <= k < order@.len() && order@[k] == x;
                    assert(order@[k] < i);
                }
            }
        }
        i = i + 1;
    }
    order
}

/// The tracks and photos taking part in a match run, each in id order.
#[derive(Debug)]
pub struct MatchSelection {
    pub photo_order: Vec<usize>,
    pub track_order: Vec<usize>,
}

/// The error for a match run without any track.
pub open spec fn is_no_track_error(e: AppError) -> bool {
    error_is(e, ErrorCode::MatchNotFound, "没有可用于匹配的轨迹。"@, "请先导入并选择至少一条含时间的轨迹。"@, true)
}

/// Chooses the tracks and photos of a match run (all of them when no selection is given),
/// each sorted by id; fails when no track is chosen.
pub fn prepare_matching(
    photo_ids: &Vec<u128>,
    track_ids: &Vec<u128>,
    selected_photo_ids: &Option<Vec<u128>>,
    selected_track_ids: &Option<Vec<u128>>,
) -> (result: Result<MatchSelection, AppError>)
    ensures
        match result {
            Err(e) => is_no_track_error(e)
                && forall|i: int| 0 <= i < track_ids.len() ==> !is_picked(selection_view(*selected_track_ids), #[trigger] track_ids@[i]),
            Ok(sel) => {
                &&& sel.track_order.len() > 0
                &&& sorted_by_id(track_ids@, sel.track_order@)
                &&& forall|i: usize| #[trigger] sel.track_order@.contains(i) <==> (i < track_ids.len() && is_picked(selection_view(*selected_track_ids), track_ids@[i as int]))
                &&& sorted_by_id(photo_ids@, sel.photo_order@)
                &&& forall|i: usize| #[trigger] sel.photo_order@.contains(i) <==> (i < photo_ids.len() && is_picked(selection_view(*selected_photo_ids), photo_ids@[i as int]))
            },
        },
{
    let track_order = select_sorted(track_ids, selected_track_ids);
    if track_order.len() == 0 {
        assert forall|i: int| 0 <= i < track_ids.len() implies !is_picked(selection_view(*selected_track_ids), #[trigger] track_ids@[i]) by {
            assert(!track_order@.contains(i as usize));
        }
        return Err(error_of(
            ErrorCode::MatchNotFound,
            "没有可用于匹配的轨迹。",
            "请先导入并选择至少一条含时间的轨迹。",
            true,
        ));
    }
    let photo_order = select_sorted(photo_ids, selected_photo_ids);
    Ok(MatchSelection { photo_order, track_order })
}

/// The time part of matching one photo.
#[derive(Debug)]
pub enum PhotoTimeMatch {
    /// The photo has no capture time.
    NoCaptureTime,
    /// The capture time shifted by the fixed camera offset, and where it falls.
    Placed { corrected_utc: i128, placement: TimePlacement },
}

/// Shifts a photo's capture time by the camera offset and places it on the selected tracks.
pub fn match_photo_time(
    capture_utc: Option<i128>,
    fixed_offset_ms: i64,
    tracks: &Vec<TrackTimes>,
    track_order: &Vec<usize>,
) -> (result: PhotoTimeMatch)
    requires
        capture_utc is Some ==> is_capture_instant(capture_utc->Some_0 as int),
        tracks_plausible(tracks@),
        forall|o: int| 0 <= o < track_order.len() ==> (#[trigger] track_order@[o]) < tracks.len(),
    ensures
        match capture_utc {
            None => result is NoCaptureTime,
            Some(c) => result matches PhotoTimeMatch::Placed { corrected_utc, placement }
                && corrected_utc == c + fixed_offset_ms * 1_000_000
                && placement_is(tracks@, track_order@, corrected_utc, placement),
        },
{
    match capture_utc {
        None => PhotoTimeMatch::NoCaptureTime,
        Some(c) => {
            let corrected = shift_by_millis(c, fixed_offset_ms);
            let placement = place_time(tracks, track_order, corrected);
            PhotoTimeMatch::Placed { corrected_utc: corrected, placement }
        },
    }
}

/// What [`place_time`] promises about a placement.
pub open spec fn placement_is(tracks: Seq<TrackTimes>, order: Seq<usize>, capture: i128, placement: TimePlacement) -> bool {
    match placement {
        TimePlacement::Found(c) => {
            &&& valid_position(tracks, order, c.order_position as int, c.segment_index as int)
            &&& c.track_index == order[c.order_position as int]
            &&& hit_at(tracks, order, capture, c.order_position as int, c.segment_index as int) == Some(c.hit)
            &&& is_best_hit(tracks, order, capture, c.order_position as int, c.segment_index as int, c.hit)
        },
        TimePlacement::SegmentGap => !any_hit(tracks, order, capture) && in_some_range(tracks, order, capture),
        TimePlacement::OutOfRange => !any_hit(tracks, order, capture) && !in_some_range(tracks, order, capture),
    }
}

/// A time is placed only inside one segment: on one of its points, or strictly between two
/// neighbouring points of that segment that enclose it (on sorted times).
pub proof fn law_hit_stays_between_neighbours(times: Seq<i128>, capture: i128)
    requires
        times.len() <= usize::MAX,
        sorted_times(times),
        segment_hit_spec(times, capture) is Some,
    ensures
        ({
            let h = segment_hit_spec(times, capture)->Some_0;
            &&& h.next_index < times.len()
            &&& h.previous_index <= h.next_index <= h.previous_index + 1
            &&& times[h.previous_index as int] <= capture <= times[h.next_index as int]
            &&& h.previous_index == h.next_index ==> times[h.previous_index as int] == capture
            &&& h.previous_index < h.next_index ==> times[h.previous_index as int] < capture < times[h.next_index as int]
        }),
{
    lemma_lower_bound(times, capture, 0, times.len() as int);
    let r = lower_bound_between(times, capture, 0, times.len() as int);
    if r < times.len() {
        assert(times[r] >= capture);
    }
    if r > 0 {
        assert(times[r - 1] < capture);
    }
}

/// A placed photo that already has GPS is reported as such; otherwise its status is the
/// quality of the placement.
pub open spec fn settled_status(has_existing_gps: bool, quality_status: MatchStatus) -> MatchStatus {
    if has_existing_gps { MatchStatus::AlreadyHasGps } else { quality_status }
}

/// The status of a placed photo (see `settled_status`).
pub fn matched_status(has_existing_gps: bool, quality_status: MatchStatus) -> (s: MatchStatus)
    ensures
        s == settled_status(has_existing_gps, quality_status),
{
    if has_existing_gps { MatchStatus::AlreadyHasGps } else { quality_status }
}

/// How a placed photo got its position: on a track point when it fell exactly on one,
/// otherwise by interpolating between its two neighbours in time.
pub fn match_method(interval_ms: i128) -> (m: &'static str)
    ensures
        m@ == if interval_ms == 0 { "EXACT_TRACK_POINT"@ } else { "LINEAR_TIME_INTERPOLATION"@ },
{
    if interval_ms == 0 { "EXACT_TRACK_POINT" } else { "LINEAR_TIME_INTERPOLATION" }
}

/// Why a placement has its quality.
pub fn match_reason(quality_status: MatchStatus) -> (r: &'static str)
    ensures
        r@ == match quality_status {
            MatchStatus::MatchedHigh => "轨迹点间隔较小且速度、精度正常。"@,
            MatchStatus::MatchedMedium => "轨迹点间隔或精度信息使结果需要复核。"@,
            _ => "轨迹点间隔较大或存在速度/精度异常，请人工确认。"@,
        },
{
    match quality_status {
        MatchStatus::MatchedHigh => "轨迹点间隔较小且速度、精度正常。",
        MatchStatus::MatchedMedium => "轨迹点间隔或精度信息使结果需要复核。",
        _ => "轨迹点间隔较大或存在速度/精度异常，请人工确认。",
    }
}

/// Where a placed time lies, measured from the previous point: the offset is the whole
/// milliseconds elapsed from the previous point to the time (0 at the previous point, growing
/// with the time), the interval the whole milliseconds between the two points, and the offset
/// never exceeds the interval.
pub proof fn law_hit_offset_counts_from_previous_point(times: Seq<i128>, capture: i128)
    requires
        times.len() <= usize::MAX,
        sorted_times(times),
        segment_hit_spec(times, capture) is Some,
    ensures
        ({
            let h = segment_hit_spec(times, capture)->Some_0;
            let since = capture - times[h.previous_index as int];
            let span = times[h.next_index as int] - times[h.previous_index as int];
            &&& h.offset_ms * 1_000_000 <= since < (h.offset_ms + 1) * 1_000_000
            &&& h.interval_ms * 1_000_000 <= span < (h.interval_ms + 1) * 1_000_000
            &&& 0 <= h.offset_ms <= h.interval_ms
        }),
{
    law_hit_stays_between_neighbours(times, capture);
    lemma_lower_bound(times, capture, 0, times.len() as int);
    let h = segment_hit_spec(times, capture)->Some_0;
    let since: int = capture - times[h.previous_index as int];
    let span: int = times[h.next_index as int] - times[h.previous_index as int];
    assert(0 <= since <= span);
    if h.previous_index < h.next_index {
        let index = lower_bound_between(times, capture, 0, times.len() as int);
        assert(h.next_index == index && h.previous_index == index - 1);
        assert(since / 1_000_000 <= since) by (nonlinear_arith)
            requires since >= 0;
        assert(span / 1_000_000 <= span) by (nonlinear_arith)
            requires span >= 0;
        assert(h.offset_ms == since / 1_000_000);
        assert(h.interval_ms == span / 1_000_000);
        assert(since / 1_000_000 * 1_000_000 <= since < (since / 1_000_000 + 1) * 1_000_000) by (nonlinear_arith)
            requires since >= 0;
        assert(span / 1_000_000 * 1_000_000 <= span < (span / 1_000_000 + 1) * 1_000_000) by (nonlinear_arith)
            requires span >= 0;
        assert(since / 1_000_000 <= span / 1_000_000) by (nonlinear_arith)
            requires 0 <= since <= span;
    }
}

} // verus!
