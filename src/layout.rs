use vstd::prelude::*;
use crate::grouping::{group, group_by_time, lemma_members, map_idx_to_time, starts_at, HOUR_SLOTS};
use crate::model::{is_placeable, TimeBlock, DAY_COUNT, END_HOUR, FIRST_HOUR};

verus! {

/// Where one entry is drawn: on day `day`, over the rows of hours
/// `row_start .. row_start + row_span`, in sub-column `column_index` of the
/// `column_count` equal sub-columns of its starting hour. `entry_ref` is the
/// index of the entry in the list that was laid out.
#[derive(Clone, Copy, Debug, PartialEq, Eq, Structural)]
pub struct PlacementRegion {
    pub day: usize,
    pub row_start: usize,
    pub row_span: usize,
    pub column_index: usize,
    pub column_count: usize,
    pub entry_ref: usize,
}

impl PlacementRegion {
    /// The number of the region's rows that the grid shows: its span, cut
    /// off at the grid's last hour.
    pub fn visible_rows(&self) -> (r: usize)
        ensures
            r == if self.row_start >= END_HOUR {
                0
            } else if self.row_span <= END_HOUR - self.row_start {
                self.row_span as int
            } else {
                END_HOUR - self.row_start
            },
    {
        if self.row_start >= END_HOUR {
            0
        } else if self.row_span <= END_HOUR - self.row_start {
            self.row_span
        } else {
            END_HOUR - self.row_start
        }
    }
}

/// The regions of the hour group of day `d` and hour `h`: the `k`-th member
/// of the group gets sub-column `k` of as many as the group has members, and
/// spans as many rows as it lasts hours.
pub open spec fn slot_regions(s: Seq<TimeBlock>, d: int, h: int) -> Seq<PlacementRegion> {
    let g = group(s, d, h);
    Seq::new(
        g.len(),
        |k: int|
            PlacementRegion {
                day: d as usize,
                row_start: h as usize,
                row_span: s[g[k] as int].duration,
                column_index: k as usize,
                column_count: g.len() as usize,
                entry_ref: g[k],
            },
    )
}

/// The regions of the first `n` hour slots of day `d`, in hour order.
pub open spec fn day_regions(s: Seq<TimeBlock>, d: int, n: int) -> Seq<PlacementRegion>
    decreases n,
{
    if n <= 0 {
        Seq::empty()
    } else {
        day_regions(s, d, n - 1) + slot_regions(s, d, FIRST_HOUR + n - 1)
    }
}

/// The regions of the first `n` days, in day order.
pub open spec fn week_regions(s: Seq<TimeBlock>, n: int) -> Seq<PlacementRegion>
    decreases n,
{
    if n <= 0 {
        Seq::empty()
    } else {
        week_regions(s, n - 1) + day_regions(s, n - 1, HOUR_SLOTS as int)
    }
}

/// The layout of an entry list: for each day, for each starting hour, the
/// regions of that hour's group.
pub open spec fn layout_of(s: Seq<TimeBlock>) -> Seq<PlacementRegion> {
    week_regions(s, DAY_COUNT as int)
}

/// Computes the placement of every placeable entry in the grid.
pub fn layout(entries: &Vec<TimeBlock>) -> (r: Vec<PlacementRegion>)
    ensures
        r@ == layout_of(entries@),
{
    let groups = group_by_time(entries);
    let mut out: Vec<PlacementRegion> = Vec::new();
    let mut d: usize = 0;
    while d < DAY_COUNT
        invariant
            d <= DAY_COUNT,
            out@ == week_regions(entries@, d as int),
            groups@.len() == DAY_COUNT,
            forall|e: int| 0 <= e < DAY_COUNT ==> #[trigger] groups@[e]@.len() == HOUR_SLOTS,
            forall|e: int, k: int|
                0 <= e < DAY_COUNT && 0 <= k < HOUR_SLOTS ==> #[trigger] groups@[e]@[k]@ == group(
                    entries@,
                    e,
                    FIRST_HOUR + k,
                ),
        decreases DAY_COUNT - d,
    {
        let mut slot: usize = 0;
        while slot < HOUR_SLOTS
            invariant
                d < DAY_COUNT,
                slot <= HOUR_SLOTS,
                out@ == week_regions(entries@, d as int) + day_regions(
                    entries@,
                    d as int,
                    slot as int,
                ),
                groups@.len() == DAY_COUNT,
                forall|e: int| 0 <= e < DAY_COUNT ==> #[trigger] groups@[e]@.len() == HOUR_SLOTS,
                forall|e: int, k: int|
                    0 <= e < DAY_COUNT && 0 <= k < HOUR_SLOTS ==> #[trigger] groups@[e]@[k]@
                        == group(entries@, e, FIRST_HOUR + k),
            decreases HOUR_SLOTS - slot,
        {
            let g = &groups[d][slot];
            let h: usize = map_idx_to_time(slot);
            let n = g.len();
            let total = entries.len();
            proof {
                assert(total == entries@.len());
                lemma_members(entries@, entries@.len() as int, d as int, h as int);
            }
            let ghost before = out@;
            let mut k: usize = 0;
            while k < n
                invariant
                    k <= n,
                    n == g@.len(),
                    g@ == group(entries@, d as int, h as int),
                    h == FIRST_HOUR + slot,
                    d < DAY_COUNT,
                    forall|j: int|
                        0 <= j < g@.len() ==> #[trigger] g@[j] < entries@.len(),
                    out@ == before + slot_regions(entries@, d as int, h as int).take(k as int),
                decreases n - k,
            {
                let i = g[k];
                out.push(
                    PlacementRegion {
                        day: d,
                        row_start: h,
                        row_span: entries[i].duration,
                        column_index: k,
                        column_count: n,
                        entry_ref: i,
                    },
                );
                proof {
                    assert(slot_regions(entries@, d as int, h as int).take(k + 1) =~= slot_regions(
                        entries@,
                        d as int,
                        h as int,
                    ).take(k as int).push(out@.last()));
                }
                k += 1;
            }
            proof {
                assert(slot_regions(entries@, d as int, h as int).take(n as int) =~= slot_regions(
                    entries@,
                    d as int,
                    h as int,
                ));
                assert(out@ =~= week_regions(entries@, d as int) + day_regions(
                    entries@,
                    d as int,
                    slot + 1,
                ));
            }
            slot += 1;
        }
        proof {
            assert(out@ =~= week_regions(entries@, d + 1));
        }
        d += 1;
    }
    out
}

/// The region is the one owed to the entry it refers to: the entry is
/// placeable, the region starts at its day and hour and spans its duration,
/// and the region's sub-column is the entry's position in its hour group.
pub open spec fn region_fits(s: Seq<TimeBlock>, r: PlacementRegion) -> bool {
    let e = r.entry_ref as int;
    let g = group(s, r.day as int, r.row_start as int);
    &&& 0 <= e < s.len()
    &&& is_placeable(s[e])
    &&& r.day == s[e].day
    &&& r.row_start == s[e].time
    &&& r.row_span == s[e].duration
    &&& r.column_count == g.len()
    &&& r.column_index < r.column_count
    &&& g[r.column_index as int] == r.entry_ref
}

/// No two regions of `rs` refer to the same entry.
pub open spec fn refs_distinct(rs: Seq<PlacementRegion>) -> bool {
    forall|j1: int, j2: int|
        0 <= j1 < rs.len() && 0 <= j2 < rs.len() && #[trigger] rs[j1].entry_ref
            == #[trigger] rs[j2].entry_ref ==> j1 == j2
}

/// Some region of `rs` refers to entry `i`.
pub open spec fn placed(rs: Seq<PlacementRegion>, i: int) -> bool {
    exists|j: int| 0 <= j < rs.len() && rs[j].entry_ref == i
}

proof fn lemma_slot(s: Seq<TimeBlock>, d: int, h: int)
    requires
        s.len() <= usize::MAX,
        0 <= d < DAY_COUNT,
        FIRST_HOUR <= h < END_HOUR,
    ensures
        forall|j: int|
            0 <= j < slot_regions(s, d, h).len() ==> region_fits(
                s,
                #[trigger] slot_regions(s, d, h)[j],
            ) && slot_regions(s, d, h)[j].day == d && slot_regions(s, d, h)[j].row_start == h,
        refs_distinct(slot_regions(s, d, h)),
        forall|i: int|
            0 <= i < s.len() && #[trigger] starts_at(s[i], d, h) ==> placed(
                slot_regions(s, d, h),
                i,
            ),
{
    let n = s.len() as int;
    lemma_members(s, n, d, h);
    let g = group(s, d, h);
    let rs = slot_regions(s, d, h);
    assert forall|j1: int, j2: int|
        0 <= j1 < rs.len() && 0 <= j2 < rs.len() && #[trigger] rs[j1].entry_ref
            == #[trigger] rs[j2].entry_ref implies j1 == j2 by {
        if j1 < j2 {
            assert(g[j1] < g[j2]);
        } else if j2 < j1 {
            assert(g[j2] < g[j1]);
        }
    }
    assert forall|i: int| 0 <= i < s.len() && #[trigger] starts_at(s[i], d, h) implies placed(
        rs,
        i,
    ) by {
        assert(g.contains(i as usize));
        let k = choose|k: int| 0 <= k < g.len() && g[k] == i as usize;
        assert(rs[k].entry_ref == i);
    }
}

proof fn lemma_day(s: Seq<TimeBlock>, d: int, n: int)
    requires
        s.len() <= usize::MAX,
        0 <= d < DAY_COUNT,
        0 <= n <= HOUR_SLOTS,
    ensures
        forall|j: int|
            0 <= j < day_regions(s, d, n).len() ==> region_fits(
                s,
                #[trigger] day_regions(s, d, n)[j],
            ) && day_regions(s, d, n)[j].day == d && day_regions(s, d, n)[j].row_start
                < FIRST_HOUR + n,
        refs_distinct(day_regions(s, d, n)),
        forall|i: int|
            0 <= i < s.len() && is_placeable(s[i]) && s[i].day == d && #[trigger] s[i].time
                < FIRST_HOUR + n ==> placed(day_regions(s, d, n), i),
    decreases n,
{
    if n > 0 {
        let h = FIRST_HOUR + n - 1;
        lemma_day(s, d, n - 1);
        lemma_slot(s, d, h);
        let a = day_regions(s, d, n - 1);
        let b = slot_regions(s, d, h);
        let rs = day_regions(s, d, n);
        assert(rs == a + b);
        assert forall|j: int| 0 <= j < rs.len() implies region_fits(s, #[trigger] rs[j])
            && rs[j].day == d && rs[j].row_start < FIRST_HOUR + n by {
            if j >= a.len() {
                assert(rs[j] == b[j - a.len()]);
            }
        }
        assert forall|j1: int, j2: int|
            0 <= j1 < rs.len() && 0 <= j2 < rs.len() && #[trigger] rs[j1].entry_ref
                == #[trigger] rs[j2].entry_ref implies j1 == j2 by {
            if j1 < a.len() && j2 >= a.len() {
                assert(rs[j2] == b[j2 - a.len()]);
            } else if j2 < a.len() && j1 >= a.len() {
                assert(rs[j1] == b[j1 - a.len()]);
            } else if j1 >= a.len() && j2 >= a.len() {
                assert(rs[j1] == b[j1 - a.len()]);
                assert(rs[j2] == b[j2 - a.len()]);
            }
        }
        assert forall|i: int|
            0 <= i < s.len() && is_placeable(s[i]) && s[i].day == d && #[trigger] s[i].time
                < FIRST_HOUR + n implies placed(rs, i) by {
            if s[i].time < h {
                let j = choose|j: int| 0 <= j < a.len() && a[j].entry_ref == i;
                assert(rs[j] == a[j]);
            } else {
                assert(starts_at(s[i], d, h));
                let j = choose|j: int| 0 <= j < b.len() && b[j].entry_ref == i;
                assert(rs[a.len() + j] == b[j]);
            }
        }
    }
}

proof fn lemma_week(s: Seq<TimeBlock>, n: int)
    requires
        s.len() <= usize::MAX,
        0 <= n <= DAY_COUNT,
    ensures
        forall|j: int|
            0 <= j < week_regions(s, n).len() ==> region_fits(s, #[trigger] week_regions(s, n)[j])
                && week_regions(s, n)[j].day < n,
        refs_distinct(week_regions(s, n)),
        forall|i: int|
            0 <= i < s.len() && is_placeable(s[i]) && #[trigger] s[i].day < n ==> placed(
                week_regions(s, n),
                i,
            ),
    decreases n,
{
    if n > 0 {
        let d = n - 1;
        lemma_week(s, n - 1);
        lemma_day(s, d, HOUR_SLOTS as int);
        let a = week_regions(s, n - 1);
        let b = day_regions(s, d, HOUR_SLOTS as int);
        let rs = week_regions(s, n);
        assert(rs == a + b);
        assert forall|j: int| 0 <= j < rs.len() implies region_fits(s, #[trigger] rs[j])
            && rs[j].day < n by {
            if j >= a.len() {
                assert(rs[j] == b[j - a.len()]);
            }
        }
        assert forall|j1: int, j2: int|
            0 <= j1 < rs.len() && 0 <= j2 < rs.len() && #[trigger] rs[j1].entry_ref
                == #[trigger] rs[j2].entry_ref implies j1 == j2 by {
            if j1 < a.len() && j2 >= a.len() {
                assert(rs[j2] == b[j2 - a.len()]);
            } else if j2 < a.len() && j1 >= a.len() {
                assert(rs[j1] == b[j1 - a.len()]);
            } else if j1 >= a.len() && j2 >= a.len() {
                assert(rs[j1] == b[j1 - a.len()]);
                assert(rs[j2] == b[j2 - a.len()]);
            }
        }
        assert forall|i: int|
            0 <= i < s.len() && is_placeable(s[i]) && #[trigger] s[i].day < n implies placed(
                rs,
                i,
            ) by {
            if s[i].day < d {
                let j = choose|j: int| 0 <= j < a.len() && a[j].entry_ref == i;
                assert(rs[j] == a[j]);
            } else {
                assert(s[i].time < FIRST_HOUR + HOUR_SLOTS);
                let j = choose|j: int| 0 <= j < b.len() && b[j].entry_ref == i;
                assert(rs[a.len() + j] == b[j]);
            }
        }
    }
}

/// Every entry with a weekday, a starting hour that the grid shows and a
/// duration of at least one hour is placed in exactly one region, and every
/// other entry in none.
pub proof fn lemma_placed_exactly_once(s: Seq<TimeBlock>, i: int)
    requires
        s.len() <= usize::MAX,
        0 <= i < s.len(),
    ensures
        is_placeable(s[i]) ==> placed(layout_of(s), i),
        !is_placeable(s[i]) ==> !placed(layout_of(s), i),
        forall|j1: int, j2: int|
            0 <= j1 < layout_of(s).len() && 0 <= j2 < layout_of(s).len() && layout_of(s)[j1].entry_ref
                == i && layout_of(s)[j2].entry_ref == i ==> j1 == j2,
{
    lemma_week(s, DAY_COUNT as int);
    let rs = layout_of(s);
    if !is_placeable(s[i]) && placed(rs, i) {
        let j = choose|j: int| 0 <= j < rs.len() && rs[j].entry_ref == i;
        assert(region_fits(s, rs[j]));
    }
    assert forall|j1: int, j2: int|
        0 <= j1 < rs.len() && 0 <= j2 < rs.len() && rs[j1].entry_ref == i && rs[j2].entry_ref
            == i implies j1 == j2 by {
        assert(rs[j1].entry_ref == rs[j2].entry_ref);
    }
}

/// Within the hour group of each day and starting hour, which has `n`
/// members, every region has a column count of `n` and a column index below
/// it, and no two regions anchored there share a column index.
pub proof fn lemma_anchor_columns(s: Seq<TimeBlock>)
    requires
        s.len() <= usize::MAX,
    ensures
        forall|j: int|
            0 <= j < layout_of(s).len() ==> (#[trigger] layout_of(s)[j]).column_count == group(
                s,
                layout_of(s)[j].day as int,
                layout_of(s)[j].row_start as int,
            ).len() && layout_of(s)[j].column_index < layout_of(s)[j].column_count,
        forall|j1: int, j2: int|
            0 <= j1 < layout_of(s).len() && 0 <= j2 < layout_of(s).len() && j1 != j2
                && #[trigger] layout_of(s)[j1].day == #[trigger] layout_of(s)[j2].day
                && layout_of(s)[j1].row_start == layout_of(s)[j2].row_start ==> layout_of(
                s,
            )[j1].column_index != layout_of(s)[j2].column_index,
{
    lemma_week(s, DAY_COUNT as int);
    let rs = layout_of(s);
    assert forall|j: int| 0 <= j < rs.len() implies (#[trigger] rs[j]).column_count == group(
        s,
        rs[j].day as int,
        rs[j].row_start as int,
    ).len() && rs[j].column_index < rs[j].column_count by {
        assert(region_fits(s, rs[j]));
    }
    assert forall|j1: int, j2: int|
        0 <= j1 < rs.len() && 0 <= j2 < rs.len() && j1 != j2 && #[trigger] rs[j1].day
            == #[trigger] rs[j2].day && rs[j1].row_start == rs[j2].row_start implies rs[j1].column_index
        != rs[j2].column_index by {
        assert(region_fits(s, rs[j1]));
        assert(region_fits(s, rs[j2]));
        if rs[j1].entry_ref == rs[j2].entry_ref {
            assert(refs_distinct(rs));
        }
    }
}

/// The two entry lists agree, index by index, on day, starting hour,
/// duration and whether the subject has a name; they may differ in
/// everything else (the name itself, professor, room).
pub open spec fn same_timing(a: Seq<TimeBlock>, b: Seq<TimeBlock>) -> bool {
    &&& a.len() == b.len()
    &&& forall|i: int|
        0 <= i < a.len() ==> #[trigger] a[i].day == b[i].day && a[i].time == b[i].time
            && a[i].duration == b[i].duration && (a[i].subject.name@.len() > 0) == (
            b[i].subject.name@.len() > 0)
}

proof fn lemma_members_same_timing(a: Seq<TimeBlock>, b: Seq<TimeBlock>, n: int, d: int, h: int)
    requires
        same_timing(a, b),
        0 <= n <= a.len(),
    ensures
        crate::grouping::members_upto(a, n, d, h) == crate::grouping::members_upto(b, n, d, h),
    decreases n,
{
    if n > 0 {
        assert(a[n - 1].day == b[n - 1].day);
        lemma_members_same_timing(a, b, n - 1, d, h);
    }
}

proof fn lemma_day_same_timing(a: Seq<TimeBlock>, b: Seq<TimeBlock>, d: int, n: int)
    requires
        same_timing(a, b),
        a.len() <= usize::MAX,
    ensures
        day_regions(a, d, n) == day_regions(b, d, n),
    decreases n,
{
    if n > 0 {
        let h = FIRST_HOUR + n - 1;
        lemma_day_same_timing(a, b, d, n - 1);
        lemma_members(a, a.len() as int, d, h);
        lemma_members_same_timing(a, b, a.len() as int, d, h);
        let g = group(a, d, h);
        assert forall|k: int| 0 <= k < g.len() implies #[trigger] a[g[k] as int].duration
            == b[g[k] as int].duration by {
            assert(a[g[k] as int].day == b[g[k] as int].day);
        }
        assert(slot_regions(a, d, h) =~= slot_regions(b, d, h));
    }
}

/// Laying out the same entries again gives the same regions, and the layout
/// reads nothing of an entry but its day, starting hour, duration and whether
/// its subject has a name: two lists that agree on those are laid out alike,
/// whatever the names are.
pub proof fn lemma_layout_repeatable(a: Seq<TimeBlock>, b: Seq<TimeBlock>)
    requires
        same_timing(a, b),
        a.len() <= usize::MAX,
    ensures
        layout_of(a) == layout_of(b),
{
    lemma_week_same_timing(a, b, DAY_COUNT as int);
}

proof fn lemma_week_same_timing(a: Seq<TimeBlock>, b: Seq<TimeBlock>, n: int)
    requires
        same_timing(a, b),
        a.len() <= usize::MAX,
    ensures
        week_regions(a, n) == week_regions(b, n),
    decreases n,
{
    if n > 0 {
        lemma_week_same_timing(a, b, n - 1);
        lemma_day_same_timing(a, b, n - 1, HOUR_SLOTS as int);
    }
}

} // verus!
