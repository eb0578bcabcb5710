use vstd::prelude::*;
use crate::model::{is_placeable, TimeBlock, DAY_COUNT, END_HOUR, FIRST_HOUR};

verus! {

/// The number of hour slots in a day of the grid.
pub const HOUR_SLOTS: usize = 14;

/// The hour of the grid's hour slot `index`.
pub fn map_idx_to_time(index: usize) -> (r: usize)
    requires
        index <= usize::MAX - FIRST_HOUR,
    ensures
        r == FIRST_HOUR + index,
{
    index + FIRST_HOUR
}

/// The entry is placed in the grid at day `d`, starting at hour `h`.
pub open spec fn starts_at(b: TimeBlock, d: int, h: int) -> bool {
    is_placeable(b) && b.day == d && b.time == h
}

/// The indices, in increasing order, of the entries among the first `n` of `s`
/// that start at day `d` and hour `h`.
pub open spec fn members_upto(s: Seq<TimeBlock>, n: int, d: int, h: int) -> Seq<usize>
    decreases n,
{
    if n <= 0 {
        Seq::empty()
    } else if starts_at(s[n - 1], d, h) {
        members_upto(s, n - 1, d, h).push((n - 1) as usize)
    } else {
        members_upto(s, n - 1, d, h)
    }
}

/// The hour group of day `d` and hour `h`: the indices of the entries of `s`
/// that start there, in the order in which they appear in `s`.
pub open spec fn group(s: Seq<TimeBlock>, d: int, h: int) -> Seq<usize> {
    members_upto(s, s.len() as int, d, h)
}

/// An hour group holds, in strictly increasing order, exactly the indices of
/// the entries that start at its day and hour.
pub proof fn lemma_members(s: Seq<TimeBlock>, n: int, d: int, h: int)
    requires
        0 <= n <= s.len() <= usize::MAX,
    ensures
        forall|k: int|
            0 <= k < members_upto(s, n, d, h).len() ==> #[trigger] members_upto(s, n, d, h)[k]
                < n && starts_at(s[members_upto(s, n, d, h)[k] as int], d, h),
        forall|k1: int, k2: int|
            0 <= k1 < k2 < members_upto(s, n, d, h).len() ==> #[trigger] members_upto(
                s,
                n,
                d,
                h,
            )[k1] < #[trigger] members_upto(s, n, d, h)[k2],
        forall|i: int|
            0 <= i < n && #[trigger] starts_at(s[i], d, h) ==> members_upto(
                s,
                n,
                d,
                h,
            ).contains(i as usize),
        members_upto(s, n, d, h).len() <= n,
    decreases n,
{
    if n > 0 {
        lemma_members(s, n - 1, d, h);
        let m = members_upto(s, n - 1, d, h);
        if starts_at(s[n - 1], d, h) {
            let m2 = m.push((n - 1) as usize);
            assert forall|i: int| 0 <= i < n && #[trigger] starts_at(s[i], d, h) implies m2.contains(
                i as usize,
            ) by {
                if i < n - 1 {
                    let k = choose|k: int| 0 <= k < m.len() && m[k] == i as usize;
                    assert(m2[k] == i as usize);
                } else {
                    assert(m2[m.len() as int] == i as usize);
                }
            }
        } else {
            assert forall|i: int| 0 <= i < n && #[trigger] starts_at(s[i], d, h) implies m.contains(
                i as usize,
            ) by {
                assert(i < n - 1);
            }
        }
    }
}

/// Collects the hour group of day `d` and hour `h`.
pub fn group_indices(blocks: &Vec<TimeBlock>, d: usize, h: usize) -> (r: Vec<usize>)
    ensures
        r@ == group(blocks@, d as int, h as int),
{
    let mut out: Vec<usize> = Vec::new();
    let mut i: usize = 0;
    while i < blocks.len()
        invariant
            i <= blocks.len(),
            out@ == members_upto(blocks@, i as int, d as int, h as int),
        decreases blocks.len() - i,
    {
        let b = &blocks[i];
        if b.is_placeable() && b.day == d && b.time == h {
            out.push(i);
        }
        i += 1;
    }
    out
}

/// Groups the entries by day and starting hour: the result has one list per
/// weekday, each with one group per hour slot of the grid (slot `k` for hour
/// `FIRST_HOUR + k`), and each group holds the indices of the placeable
/// entries that start there, in input order. Empty groups are kept.
pub fn group_by_time(blocks: &Vec<TimeBlock>) -> (r: Vec<Vec<Vec<usize>>>)
    ensures
        r@.len() == DAY_COUNT,
        forall|d: int| 0 <= d < DAY_COUNT ==> #[trigger] r@[d]@.len() == HOUR_SLOTS,
        forall|d: int, k: int|
            0 <= d < DAY_COUNT && 0 <= k < HOUR_SLOTS ==> #[trigger] r@[d]@[k]@ == group(
                blocks@,
                d,
                FIRST_HOUR + k,
            ),
{
    let mut out: Vec<Vec<Vec<usize>>> = Vec::new();
    let mut d: usize = 0;
    while d < DAY_COUNT
        invariant
            d <= DAY_COUNT,
            out@.len() == d,
            forall|e: int| 0 <= e < d ==> #[trigger] out@[e]@.len() == HOUR_SLOTS,
            forall|e: int, k: int|
                0 <= e < d && 0 <= k < HOUR_SLOTS ==> #[trigger] out@[e]@[k]@ == group(
                    blocks@,
                    e,
                    FIRST_HOUR + k,
                ),
        decreases DAY_COUNT - d,
    {
        let mut day: Vec<Vec<usize>> = Vec::new();
        let mut h: usize = FIRST_HOUR;
        while h < END_HOUR
            invariant
                FIRST_HOUR <= h <= END_HOUR,
                d < DAY_COUNT,
                day@.len() == h - FIRST_HOUR,
                forall|k: int|
                    0 <= k < h - FIRST_HOUR ==> #[trigger] day@[k]@ == group(
                        blocks@,
                        d as int,
                        FIRST_HOUR + k,
                    ),
            decreases END_HOUR - h,
        {
            let g = group_indices(blocks, d, h);
            day.push(g);
            h += 1;
        }
        out.push(day);
        d += 1;
    }
    out
}

} // verus!
