use vstd::prelude::*;
use crate::model::{Color, Subject, TimeBlock};

verus! {

/// `a` comes before `b`, or equals it, in the order of their characters'
/// code points, compared one by one, a prefix first.
pub open spec fn lex_le(a: Seq<char>, b: Seq<char>) -> bool
    decreases a.len(),
{
    if a.len() == 0 {
        true
    } else if b.len() == 0 {
        false
    } else if a[0] != b[0] {
        (a[0] as u32) < (b[0] as u32)
    } else {
        lex_le(a.drop_first(), b.drop_first())
    }
}

/// The subject names of the entries.
pub open spec fn subject_names(s: Seq<TimeBlock>) -> Set<Seq<char>> {
    Set::new(|x: Seq<char>| exists|i: int| 0 <= i < s.len() && s[i].subject.name@ == x)
}

/// The names that a color table gives colors to, in table order.
pub open spec fn table_keys(t: Seq<(String, Color)>) -> Seq<Seq<char>> {
    t.map_values(|p: (String, Color)| p.0@)
}

/// A color table made for the entries `s`: one entry per distinct subject
/// name of `s`, no other, in sorted order, each with an RGB color.
pub open spec fn is_color_table_for(s: Seq<TimeBlock>, t: Seq<(String, Color)>) -> bool {
    &&& table_keys(t).to_set() == subject_names(s)
    &&& table_keys(t).no_duplicates()
    &&& forall|i: int, j: int|
        0 <= i < j < t.len() ==> lex_le(#[trigger] t[i].0@, #[trigger] t[j].0@)
    &&& forall|i: int| 0 <= i < t.len() ==> (#[trigger] t[i].1 is Rgb)
}

/// Relies on rand::random for a uniformly random byte; nothing is known of
/// its value.
#[verifier::external_body]
fn random_byte() -> (r: u8) {
    rand::random::<u8>()
}

/// Relies on slice::sort over `String`: a stable sort that keeps the same
/// strings and orders them by their UTF-8 bytes, which is the order of their
/// code points.
#[verifier::external_body]
fn sort_strings(v: &mut Vec<String>)
    ensures
        final(v)@.to_multiset() == old(v)@.to_multiset(),
        forall|i: int, j: int|
            0 <= i < j < final(v)@.len() ==> lex_le(#[trigger] final(v)@[i]@, #[trigger] final(v)@[j]@),
{
    v.sort();
}

/// Whether the table already gives a color to the name `x`.
fn has_key(t: &Vec<(String, Color)>, x: &String) -> (r: bool)
    ensures
        r == table_keys(t@).contains(x@),
{
    let mut i: usize = 0;
    while i < t.len()
        invariant
            i <= t.len(),
            forall|j: int| 0 <= j < i ==> t@[j].0@ != x@,
        decreases t.len() - i,
    {
        if t[i].0 == *x {
            proof {
                assert(table_keys(t@)[i as int] == x@);
            }
            return true;
        }
        i += 1;
    }
    false
}

/// Every name of `names` belongs to `s`, every subject name of `s` is in
/// `names`, and `names` is sorted.
spec fn names_of(s: Seq<TimeBlock>, names: Seq<String>) -> bool {
    &&& forall|j: int| 0 <= j < names.len() ==> subject_names(s).contains(#[trigger] names[j]@)
    &&& forall|x: Seq<char>|
        #[trigger] subject_names(s).contains(x) ==> exists|m: int|
            0 <= m < names.len() && names[m]@ == x
    &&& forall|i1: int, i2: int|
        0 <= i1 < i2 < names.len() ==> lex_le(#[trigger] names[i1]@, #[trigger] names[i2]@)
}

/// The table holds each distinct name among the first `k` of `names`, once,
/// in their order, each with an RGB color.
spec fn table_of_prefix(t: Seq<(String, Color)>, names: Seq<String>, k: int) -> bool {
    &&& forall|j: int| 0 <= j < t.len() ==> (#[trigger] t[j].1 is Rgb)
    &&& table_keys(t).no_duplicates()
    &&& forall|j: int| 0 <= j < t.len() ==> exists|m: int| 0 <= m < k && #[trigger] t[j].0@ == names[m]@
    &&& forall|m: int| 0 <= m < k ==> table_keys(t).contains(#[trigger] names[m]@)
    &&& forall|i1: int, i2: int|
        0 <= i1 < i2 < t.len() ==> lex_le(#[trigger] t[i1].0@, #[trigger] t[i2].0@)
}

proof fn lemma_extend_table(
    t: Seq<(String, Color)>,
    names: Seq<String>,
    k: int,
    c: Color,
)
    requires
        0 <= k < names.len(),
        table_of_prefix(t, names, k),
        !table_keys(t).contains(names[k]@),
        c is Rgb,
        forall|i1: int, i2: int|
            0 <= i1 < i2 < names.len() ==> lex_le(#[trigger] names[i1]@, #[trigger] names[i2]@),
    ensures
        table_of_prefix(t.push((names[k], c)), names, k + 1),
{
    let t2 = t.push((names[k], c));
    assert(table_keys(t2) =~= table_keys(t).push(names[k]@));
    assert forall|j1: int, j2: int|
        0 <= j1 < table_keys(t2).len() && 0 <= j2 < table_keys(t2).len() && j1 != j2 implies table_keys(
        t2,
    )[j1] != table_keys(t2)[j2] by {
        if j1 < t.len() && j2 == t.len() {
            assert(table_keys(t).contains(table_keys(t)[j1]));
        } else if j2 < t.len() && j1 == t.len() {
            assert(table_keys(t).contains(table_keys(t)[j2]));
        }
    }
    assert forall|i1: int, i2: int| 0 <= i1 < i2 < t2.len() implies lex_le(
        #[trigger] t2[i1].0@,
        #[trigger] t2[i2].0@,
    ) by {
        if i2 == t.len() {
            let m = choose|m: int| 0 <= m < k && #[trigger] t[i1].0@ == names[m]@;
            assert(lex_le(names[m]@, names[k]@));
        } else {
            assert(t2[i1] == t[i1]);
        }
    }
    assert forall|j: int| 0 <= j < t2.len() implies exists|m: int|
        0 <= m < k + 1 && #[trigger] t2[j].0@ == names[m]@ by {
        if j < t.len() {
            assert(t2[j] == t[j]);
        } else {
            assert(t2[j].0@ == names[k]@);
        }
    }
    assert forall|m: int| 0 <= m < k + 1 implies table_keys(t2).contains(#[trigger] names[m]@) by {
        if m < k {
            let j = choose|j: int| 0 <= j < table_keys(t).len() && table_keys(t)[j] == names[m]@;
            assert(table_keys(t2)[j] == names[m]@);
        } else {
            assert(table_keys(t2)[t.len() as int] == names[m]@);
        }
    }
}

/// Builds a fresh color table for the entries: their distinct subject names,
/// in sorted order, each with a random RGB color.
pub fn assign_colors(entries: &Vec<TimeBlock>) -> (r: Vec<(String, Color)>)
    ensures
        is_color_table_for(entries@, r@),
{
    let mut names: Vec<String> = Vec::new();
    let mut i: usize = 0;
    while i < entries.len()
        invariant
            i <= entries.len(),
            names@.len() == i,
            forall|j: int| 0 <= j < i ==> #[trigger] names@[j] == entries@[j].subject.name,
        decreases entries.len() - i,
    {
        names.push(entries[i].subject.name.clone());
        i += 1;
    }
    let ghost unsorted = names@;
    sort_strings(&mut names);
    proof {
        broadcast use vstd::seq_lib::to_multiset_contains;

        assert forall|j: int| 0 <= j < names@.len() implies subject_names(entries@).contains(
            #[trigger] names@[j]@,
        ) by {
            assert(names@.to_multiset().count(names@[j]) > 0);
            assert(unsorted.contains(names@[j]));
        }
        assert forall|x: Seq<char>| #[trigger] subject_names(entries@).contains(x) implies exists|
            m: int,
        | 0 <= m < names@.len() && names@[m]@ == x by {
            let i = choose|i: int| 0 <= i < entries@.len() && entries@[i].subject.name@ == x;
            assert(unsorted[i]@ == x);
            assert(unsorted.to_multiset().count(unsorted[i]) > 0);
            assert(names@.contains(unsorted[i]));
        }
    }
    let mut out: Vec<(String, Color)> = Vec::new();
    let mut k: usize = 0;
    proof {
        assert(table_keys(out@) =~= Seq::empty());
    }
    while k < names.len()
        invariant
            k <= names.len(),
            names_of(entries@, names@),
            table_of_prefix(out@, names@, k as int),
        decreases names.len() - k,
    {
        let name = &names[k];
        if !has_key(&out, name) {
            let c = Color::Rgb(random_byte(), random_byte(), random_byte());
            proof {
                lemma_extend_table(out@, names@, k as int, c);
            }
            out.push((name.clone(), c));
        } else {
            proof {
                let t = out@;
                assert forall|j: int| 0 <= j < t.len() implies exists|m: int|
                    0 <= m < k + 1 && #[trigger] t[j].0@ == names@[m]@ by {
                    let m = choose|m: int| 0 <= m < k && #[trigger] t[j].0@ == names@[m]@;
                }
            }
        }
        k += 1;
    }
    proof {
        assert forall|x: Seq<char>| subject_names(entries@).contains(x) implies table_keys(
            out@,
        ).to_set().contains(x) by {
            let m = choose|m: int| 0 <= m < names@.len() && names@[m]@ == x;
        }
        assert forall|x: Seq<char>| table_keys(out@).to_set().contains(x) implies subject_names(
            entries@,
        ).contains(x) by {
            let j = choose|j: int| 0 <= j < table_keys(out@).len() && table_keys(out@)[j] == x;
            let m = choose|m: int| 0 <= m < k && #[trigger] out@[j].0@ == names@[m]@;
        }
        assert(table_keys(out@).to_set() =~= subject_names(entries@));
    }
    out
}

proof fn lemma_lex_le_antisymmetric(a: Seq<char>, b: Seq<char>)
    requires
        lex_le(a, b),
        lex_le(b, a),
    ensures
        a == b,
    decreases a.len(),
{
    if a.len() > 0 && b.len() > 0 {
        lemma_lex_le_antisymmetric(a.drop_first(), b.drop_first());
        assert(a =~= seq![a[0]] + a.drop_first());
        assert(b =~= seq![b[0]] + b.drop_first());
    }
}

/// The names are in sorted order, each once.
spec fn strictly_sorted(a: Seq<Seq<char>>) -> bool {
    &&& a.no_duplicates()
    &&& forall|i: int, j: int| 0 <= i < j < a.len() ==> lex_le(#[trigger] a[i], #[trigger] a[j])
}

proof fn lemma_sorted_keys_unique(a: Seq<Seq<char>>, b: Seq<Seq<char>>)
    requires
        strictly_sorted(a),
        strictly_sorted(b),
        a.to_set() == b.to_set(),
    ensures
        a == b,
    decreases a.len(),
{
    if a.len() == 0 || b.len() == 0 {
        if a.len() > 0 {
            assert(a.to_set().contains(a[0]));
        }
        if b.len() > 0 {
            assert(b.to_set().contains(b[0]));
        }
        assert(a =~= b);
    } else {
        assert(a.to_set().contains(a[0]));
        assert(b.to_set().contains(b[0]));
        let j = choose|j: int| 0 <= j < b.len() && b[j] == a[0];
        let i = choose|i: int| 0 <= i < a.len() && a[i] == b[0];
        if j > 0 {
            assert(lex_le(b[0], b[j]));
        }
        if i > 0 {
            assert(lex_le(a[0], a[i]));
        }
        if j > 0 && i > 0 {
            lemma_lex_le_antisymmetric(a[0], b[0]);
        }
        let a1 = a.drop_first();
        let b1 = b.drop_first();
        assert forall|x: Seq<char>| a1.to_set().contains(x) <==> b1.to_set().contains(x) by {
            if a1.to_set().contains(x) {
                let k = choose|k: int| 0 <= k < a1.len() && a1[k] == x;
                assert(a[k + 1] == x);
                assert(a.to_set().contains(x));
                let m = choose|m: int| 0 <= m < b.len() && b[m] == x;
                assert(m != 0);
                assert(b1[m - 1] == x);
            }
            if b1.to_set().contains(x) {
                let k = choose|k: int| 0 <= k < b1.len() && b1[k] == x;
                assert(b[k + 1] == x);
                assert(b.to_set().contains(x));
                let m = choose|m: int| 0 <= m < a.len() && a[m] == x;
                assert(m != 0);
                assert(a1[m - 1] == x);
            }
        }
        assert(a1.to_set() =~= b1.to_set());
        assert forall|p: int, q: int| 0 <= p < q < a1.len() implies lex_le(
            #[trigger] a1[p],
            #[trigger] a1[q],
        ) by {
            assert(lex_le(a[p + 1], a[q + 1]));
        }
        assert forall|p: int, q: int| 0 <= p < q < b1.len() implies lex_le(
            #[trigger] b1[p],
            #[trigger] b1[q],
        ) by {
            assert(lex_le(b[p + 1], b[q + 1]));
        }
        assert(a1.no_duplicates()) by {
            assert forall|p: int, q: int| 0 <= p < a1.len() && 0 <= q < a1.len() && p != q implies a1[p]
                != a1[q] by {
                assert(a[p + 1] != a[q + 1]);
            }
        }
        assert(b1.no_duplicates()) by {
            assert forall|p: int, q: int| 0 <= p < b1.len() && 0 <= q < b1.len() && p != q implies b1[p]
                != b1[q] by {
                assert(b[p + 1] != b[q + 1]);
            }
        }
        lemma_sorted_keys_unique(a1, b1);
        assert(a =~= seq![a[0]] + a1);
        assert(b =~= seq![b[0]] + b1);
    }
}

/// Color tables made for the same entries give colors to the same names, in
/// the same order: the keys depend on the set of subject names alone, while
/// the colors may differ from one table to the next.
pub proof fn lemma_color_keys_stable(
    s: Seq<TimeBlock>,
    a: Seq<(String, Color)>,
    b: Seq<(String, Color)>,
)
    requires
        is_color_table_for(s, a),
        is_color_table_for(s, b),
    ensures
        table_keys(a) == table_keys(b),
        table_keys(a).to_set() == subject_names(s),
{
    assert forall|i: int, j: int| 0 <= i < j < table_keys(a).len() implies lex_le(
        #[trigger] table_keys(a)[i],
        #[trigger] table_keys(a)[j],
    ) by {
        assert(lex_le(a[i].0@, a[j].0@));
    }
    assert forall|i: int, j: int| 0 <= i < j < table_keys(b).len() implies lex_le(
        #[trigger] table_keys(b)[i],
        #[trigger] table_keys(b)[j],
    ) by {
        assert(lex_le(b[i].0@, b[j].0@));
    }
    lemma_sorted_keys_unique(table_keys(a), table_keys(b));
}

/// The color that table `t` gives to `name`: that of its first entry with
/// this name, or red where it has none.
pub open spec fn color_in(t: Seq<(String, Color)>, name: Seq<char>) -> Color
    decreases t.len(),
{
    if t.len() == 0 {
        Color::Red
    } else if t[0].0@ == name {
        t[0].1
    } else {
        color_in(t.drop_first(), name)
    }
}

/// The color of a subject in the table, or red where the table has no color
/// for its name.
pub fn get_color(sub: &Subject, c_list: &Vec<(String, Color)>) -> (r: Color)
    ensures
        r == color_in(c_list@, sub.name@),
{
    let mut i: usize = 0;
    proof {
        assert(c_list@.skip(0) =~= c_list@);
    }
    while i < c_list.len()
        invariant
            i <= c_list.len(),
            color_in(c_list@, sub.name@) == color_in(c_list@.skip(i as int), sub.name@),
        decreases c_list.len() - i,
    {
        let ghost rest = c_list@.skip(i as int);
        if c_list[i].0 == sub.name {
            proof {
                assert(rest[0] == c_list@[i as int]);
            }
            return c_list[i].1;
        }
        proof {
            assert(rest.drop_first() =~= c_list@.skip(i + 1));
        }
        i += 1;
    }
    proof {
        assert(c_list@.skip(i as int).len() == 0);
    }
    Color::Red
}

} // verus!
