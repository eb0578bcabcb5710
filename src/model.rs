use vstd::prelude::*;

verus! {

/// The first hour shown in the grid.
pub const FIRST_HOUR: usize = 7;

/// The hour after the last one shown in the grid.
pub const END_HOUR: usize = 21;

/// The number of days in a week's grid, Monday to Friday.
pub const DAY_COUNT: usize = 5;

/// A display color.
#[derive(Clone, Copy, Debug, PartialEq, Eq, Structural)]
pub enum Color {
    Red,
    Yellow,
    White,
    DarkGray,
    Rgb(u8, u8, u8),
}

/// What is taught in a session.
#[derive(Clone, Debug)]
pub struct Subject {
    pub name: String,
    pub abbreviation: String,
    pub location: String,
    pub kind: String,
}

/// One scheduled session: `day` counts from Monday (0), `time` is the
/// starting hour and `duration` the number of hours it lasts.
#[derive(Clone, Debug)]
pub struct TimeBlock {
    pub day: usize,
    pub time: usize,
    pub duration: usize,
    pub professor: String,
    pub classroom: String,
    pub subject: Subject,
}

/// An entry is valid, and so has a place in the grid: a weekday, a starting
/// hour that the grid shows, a duration of at least one hour, and a subject
/// with a name.
pub open spec fn is_placeable(b: TimeBlock) -> bool {
    b.day < DAY_COUNT && FIRST_HOUR <= b.time < END_HOUR && b.duration >= 1
        && b.subject.name@.len() > 0
}

/// The valid entries of `s`, in their order.
pub open spec fn valid_entries(s: Seq<TimeBlock>) -> Seq<TimeBlock> {
    s.filter(|b: TimeBlock| is_placeable(b))
}

proof fn lemma_valid_entries_step(s: Seq<TimeBlock>, n: int)
    requires
        0 <= n < s.len(),
    ensures
        valid_entries(s.take(n + 1)) == if is_placeable(s[n]) {
            valid_entries(s.take(n)).push(s[n])
        } else {
            valid_entries(s.take(n))
        },
{
    reveal(Seq::filter);
    assert(s.take(n + 1).drop_last() =~= s.take(n));
    assert(s.take(n + 1).last() == s[n]);
}

/// Keeps the valid entries of `v`, in their order, and drops the others.
pub fn keep_placeable(v: Vec<TimeBlock>) -> (r: Vec<TimeBlock>)
    ensures
        r@ == valid_entries(v@),
{
    let mut v = v;
    let ghost orig = v@;
    let ghost mut j: int = 0;
    let mut i: usize = 0;
    proof {
        reveal(Seq::filter);
        assert(orig.take(0) =~= Seq::<TimeBlock>::empty());
        assert(orig.skip(0) =~= orig);
        assert(valid_entries(orig.take(0)) =~= Seq::<TimeBlock>::empty());
        assert(v@ =~= valid_entries(orig.take(0)) + orig.skip(0));
    }
    while i < v.len()
        invariant
            0 <= j <= orig.len(),
            i == valid_entries(orig.take(j)).len(),
            v@ == valid_entries(orig.take(j)) + orig.skip(j),
        decreases v.len() - i,
    {
        proof {
            assert(v@[i as int] == orig.skip(j)[0]);
            lemma_valid_entries_step(orig, j);
        }
        if v[i].is_placeable() {
            i += 1;
        } else {
            v.remove(i);
        }
        proof {
            j = j + 1;
            assert(v@ =~= valid_entries(orig.take(j)) + orig.skip(j));
        }
    }
    proof {
        assert(orig.skip(j).len() == 0);
        assert(orig.take(j) =~= orig);
        assert(v@ =~= valid_entries(orig));
    }
    v
}

impl TimeBlock {
    /// Whether the entry has a place in the grid; the others are left out of it.
    pub fn is_placeable(&self) -> (r: bool)
        ensures
            r == is_placeable(*self),
    {
        self.day < DAY_COUNT && FIRST_HOUR <= self.time && self.time < END_HOUR && self.duration
            >= 1 && !self.subject.name.as_str().is_empty()
    }
}

} // verus!
