//! The toolpath trimmer: a windowed heuristic that discards leading
//! non-representative motion (priming, homing, positioning) and trailing
//! non-depositing motion from a segment sequence.
//!
//! The start boundary is the first index where a window of `WINDOW_SIZE`
//! consecutive segments holds at least `MIN_DEPOSITING_IN_WINDOW` depositing
//! segments, all of them away from the working-area edges and none a long
//! traversal; with no such window the start stays at zero. The end boundary is
//! one past the last depositing segment, or the full length when none
//! deposits. The thresholds are heuristic constants, not physical ones.
use vstd::prelude::*;

use crate::geometry::LineSegment;

verus! {

/// Number of consecutive segments one window holds.
pub const WINDOW_SIZE: usize = 5;

/// Depositing segments a window must hold to qualify.
pub const MIN_DEPOSITING_IN_WINDOW: usize = 3;

/// A segment with an endpoint whose x lies below this is near an edge
/// (10 model units, in fixed-point coordinates).
pub const EDGE_MIN_X: i64 = 10_000;

/// A segment with an endpoint whose y lies below this is near an edge
/// (20 model units, in fixed-point coordinates).
pub const EDGE_MIN_Y: i64 = 20_000;

/// A segment whose x- or y-extent exceeds this is a long traversal
/// (100 model units, in fixed-point coordinates).
pub const LONG_MOVE_LIMIT: i64 = 100_000;

pub open spec fn abs_int(v: int) -> int {
    if v < 0 {
        -v
    } else {
        v
    }
}

/// Away from the working-area edges and not a long traversal.
pub open spec fn qualifies(s: LineSegment) -> bool {
    let at_edge = s.start.x < EDGE_MIN_X || s.end.x < EDGE_MIN_X || s.start.y < EDGE_MIN_Y
        || s.end.y < EDGE_MIN_Y;
    let long_move = abs_int(s.end.x - s.start.x) > LONG_MOVE_LIMIT as int || abs_int(
        s.end.y - s.start.y,
    ) > LONG_MOVE_LIMIT as int;
    !at_edge && !long_move
}

/// How many segments with index in `[i, j)` are depositing.
pub open spec fn count_depositing(s: Seq<LineSegment>, i: int, j: int) -> int
    decreases j - i,
{
    if i < j {
        count_depositing(s, i, j - 1) + if s[j - 1].is_depositing {
            1int
        } else {
            0int
        }
    } else {
        0
    }
}

/// Whether the window starting at `i` selects the start of the real print.
pub open spec fn window_ok(s: Seq<LineSegment>, i: int) -> bool {
    &&& count_depositing(s, i, i + WINDOW_SIZE as int) >= MIN_DEPOSITING_IN_WINDOW as int
    &&& forall|k: int| i <= k < i + WINDOW_SIZE as int ==> qualifies(#[trigger] s[k])
}

/// The first window index, scanning from `i`, that qualifies.
pub open spec fn find_start(s: Seq<LineSegment>, i: int) -> Option<int>
    decreases s.len() - i,
{
    if i + WINDOW_SIZE as int > s.len() {
        None
    } else if window_ok(s, i) {
        Some(i)
    } else {
        find_start(s, i + 1)
    }
}

/// The start boundary of the trimmed range.
pub open spec fn trim_start(s: Seq<LineSegment>) -> int {
    match find_start(s, 0) {
        None => 0,
        Some(i) => i,
    }
}

/// One past the last depositing index strictly below `i`, if any.
pub open spec fn find_last_depositing(s: Seq<LineSegment>, i: int) -> Option<int>
    decreases i,
{
    if i <= 0 {
        None
    } else if s[i - 1].is_depositing {
        Some(i)
    } else {
        find_last_depositing(s, i - 1)
    }
}

/// The end boundary of the trimmed range (exclusive).
pub open spec fn trim_end(s: Seq<LineSegment>) -> int {
    match find_last_depositing(s, s.len() as int) {
        None => s.len() as int,
        Some(e) => e,
    }
}

proof fn lemma_find_start_props(s: Seq<LineSegment>, i: int)
    requires
        0 <= i,
    ensures
        find_start(s, i) matches Some(j) ==> i <= j && j + WINDOW_SIZE as int <= s.len()
            && window_ok(s, j),
    decreases s.len() - i,
{
    if i + WINDOW_SIZE as int <= s.len() && !window_ok(s, i) {
        lemma_find_start_props(s, i + 1);
    }
}

proof fn lemma_find_last_props(s: Seq<LineSegment>, i: int)
    requires
        i <= s.len(),
    ensures
        find_last_depositing(s, i) matches Some(e) ==> 0 < e <= i && s[e - 1].is_depositing,
    decreases i,
{
    if i > 0 && !s[i - 1].is_depositing {
        lemma_find_last_props(s, i - 1);
    }
}

proof fn lemma_count_positive_exists(s: Seq<LineSegment>, i: int, j: int)
    requires
        0 <= i <= j <= s.len(),
        count_depositing(s, i, j) > 0,
    ensures
        exists|k: int| i <= k < j && (#[trigger] s[k]).is_depositing,
    decreases j - i,
{
    if i < j {
        if s[j - 1].is_depositing {
            assert(i <= j - 1 < j && s[j - 1].is_depositing);
        } else {
            lemma_count_positive_exists(s, i, j - 1);
        }
    }
}

proof fn lemma_last_dep_at_least(s: Seq<LineSegment>, i: int, k: int)
    requires
        0 <= k < i <= s.len(),
        s[k].is_depositing,
    ensures
        find_last_depositing(s, i) matches Some(e) && e >= k + 1,
    decreases i,
{
    if !s[i - 1].is_depositing {
        lemma_last_dep_at_least(s, i - 1, k);
    }
}

/// The trimmed range never leaves `[0, len]`, and its start never passes its
/// end: a qualifying window holds a depositing segment, so the last
/// depositing segment lies at or after the window's first index.
pub proof fn lemma_trim_range(s: Seq<LineSegment>)
    ensures
        0 <= trim_start(s) <= trim_end(s) <= s.len(),
{
    lemma_find_start_props(s, 0);
    lemma_find_last_props(s, s.len() as int);
    match find_start(s, 0) {
        None => {
        },
        Some(j) => {
            lemma_count_positive_exists(s, j, j + WINDOW_SIZE as int);
            let k = choose|k: int|
                j <= k < j + WINDOW_SIZE as int && (#[trigger] s[k]).is_depositing;
            lemma_last_dep_at_least(s, s.len() as int, k);
        },
    }
}

/// With fewer segments than one window and a depositing final segment, the
/// trimmer keeps the whole sequence: the window heuristic cannot fire, so the
/// start stays at zero, and the end boundary is one past the final segment.
pub proof fn lemma_trim_small_input(s: Seq<LineSegment>)
    requires
        0 < s.len() < WINDOW_SIZE as int,
        s[s.len() - 1].is_depositing,
    ensures
        trim_start(s) == 0,
        trim_end(s) == s.len(),
{
}

/// Whether one segment is away from the edges and not a long traversal.
fn segment_qualifies(s: &LineSegment) -> (r: bool)
    ensures
        r == qualifies(*s),
{
    let at_edge = s.start.x < EDGE_MIN_X || s.end.x < EDGE_MIN_X || s.start.y < EDGE_MIN_Y
        || s.end.y < EDGE_MIN_Y;
    let dx = (s.end.x as i128) - (s.start.x as i128);
    let adx = if dx < 0 {
        -dx
    } else {
        dx
    };
    let dy = (s.end.y as i128) - (s.start.y as i128);
    let ady = if dy < 0 {
        -dy
    } else {
        dy
    };
    let long_move = adx > LONG_MOVE_LIMIT as i128 || ady > LONG_MOVE_LIMIT as i128;
    !at_edge && !long_move
}

/// Whether the window of `WINDOW_SIZE` segments starting at `i` qualifies.
fn window_qualifies(segments: &Vec<LineSegment>, i: usize) -> (r: bool)
    requires
        i + WINDOW_SIZE <= segments@.len(),
    ensures
        r == window_ok(segments@, i as int),
{
    let ghost s = segments@;
    let n = segments.len();
    let mut count: usize = 0;
    let mut all_ok: bool = true;
    let mut j: usize = i;
    while j < i + WINDOW_SIZE
        invariant
            n == s.len(),
            i + WINDOW_SIZE <= n,
            i <= j <= i + WINDOW_SIZE,
            count as int <= j - i,
            count as int == count_depositing(s, i as int, j as int),
            all_ok == forall|k: int| i <= k < j ==> qualifies(#[trigger] s[k]),
        decreases i + WINDOW_SIZE - j,
    {
        let seg = segments[j];
        if seg.is_depositing {
            count = count + 1;
        }
        let q = segment_qualifies(&seg);
        proof {
            if all_ok && q {
                assert(forall|k: int| i <= k < j + 1 ==> qualifies(#[trigger] s[k]));
            }
        }
        all_ok = all_ok && q;
        j = j + 1;
    }
    count >= MIN_DEPOSITING_IN_WINDOW && all_ok
}

/// Returns the sub-sequence of `segments` that best represents the actual
/// print: leading motion before the first qualifying window and trailing
/// non-depositing motion are discarded. With no qualifying window the start
/// stays at zero; with no depositing segment the end stays at the full
/// length.
pub fn filter_priming_lines(segments: &Vec<LineSegment>) -> (trimmed: Vec<LineSegment>)
    ensures
        trimmed@ == segments@.subrange(trim_start(segments@), trim_end(segments@)),
        0 <= trim_start(segments@) <= trim_end(segments@) <= segments@.len(),
{
    proof {
        lemma_trim_range(segments@);
    }
    let ghost s = segments@;
    let len = segments.len();
    // start boundary: the first qualifying window
    let mut start: usize = 0;
    let mut found: bool = false;
    if len >= WINDOW_SIZE {
        let mut i: usize = 0;
        while !found && i <= len - WINDOW_SIZE
            invariant
                len == s.len(),
                len >= WINDOW_SIZE,
                i <= len - WINDOW_SIZE + 1,
                !found ==> start == 0 && find_start(s, 0) == find_start(s, i as int),
                found ==> find_start(s, 0) == Some(start as int),
            decreases len - i,
        {
            if window_qualifies(segments, i) {
                start = i;
                found = true;
            }
            i = i + 1;
        }
    }
    assert(start as int == trim_start(s));
    // end boundary: one past the last depositing segment
    let mut end: usize = len;
    let mut found_end: bool = false;
    let mut k: usize = len;
    while !found_end && k > 0
        invariant
            k <= len == s.len(),
            !found_end ==> end == len && find_last_depositing(s, len as int)
                == find_last_depositing(s, k as int),
            found_end ==> find_last_depositing(s, len as int) == Some(end as int),
        decreases k,
    {
        if segments[k - 1].is_depositing {
            end = k;
            found_end = true;
        }
        k = k - 1;
    }
    assert(end as int == trim_end(s));
    // copy the selected range
    let mut trimmed: Vec<LineSegment> = Vec::new();
    let mut m: usize = start;
    while m < end
        invariant
            start <= m <= end <= len == s.len(),
            start as int == trim_start(s),
            end as int == trim_end(s),
            trimmed@ == s.subrange(start as int, m as int),
        decreases end - m,
    {
        let seg = segments[m];
        trimmed.push(seg);
        proof {
            assert(s.subrange(start as int, m as int).push(s[m as int]) =~= s.subrange(
                start as int,
                m as int + 1,
            ));
        }
        m = m + 1;
    }
    trimmed
}

} // verus!
