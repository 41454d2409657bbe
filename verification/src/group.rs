//! Grouping rows into sections ordered by name, the way a `BTreeMap` keyed
//! by the section name orders them.
use vstd::prelude::*;
use crate::model::{Bind, Section};
use crate::text::chars_of;

verus! {

/// `a` comes before `b` in the order of `String`: lexicographic by
/// character (UTF-8 preserves code point order), a proper prefix first.
pub open spec fn str_lt(a: Seq<char>, b: Seq<char>) -> bool
    decreases a.len(),
{
    if b.len() == 0 {
        false
    } else if a.len() == 0 {
        true
    } else if a[0] != b[0] {
        a[0] < b[0]
    } else {
        str_lt(a.drop_first(), b.drop_first())
    }
}

/// `str_lt` never holds both ways and never for equal strings.
pub proof fn lemma_str_lt_asym(a: Seq<char>, b: Seq<char>)
    ensures
        str_lt(a, b) ==> !str_lt(b, a),
        !str_lt(a, a),
    decreases a.len(),
{
    if a.len() > 0 && b.len() > 0 && a[0] == b[0] {
        lemma_str_lt_asym(a.drop_first(), b.drop_first());
    }
    if a.len() > 0 {
        lemma_str_lt_asym(a.drop_first(), a.drop_first());
    }
}

/// Two different strings are ordered one way or the other.
pub proof fn lemma_str_lt_total(a: Seq<char>, b: Seq<char>)
    requires
        a != b,
    ensures
        str_lt(a, b) || str_lt(b, a),
    decreases a.len(),
{
    if a.len() > 0 && b.len() > 0 {
        if a[0] == b[0] {
            if a.drop_first() == b.drop_first() {
                assert(a == seq![a[0]] + a.drop_first());
                assert(b == seq![b[0]] + b.drop_first());
            }
            lemma_str_lt_total(a.drop_first(), b.drop_first());
        }
    } else if a.len() == 0 && b.len() == 0 {
        assert(a == b);
    }
}

/// `str_lt` is transitive.
pub proof fn lemma_str_lt_trans(a: Seq<char>, b: Seq<char>, c: Seq<char>)
    requires
        str_lt(a, b),
        str_lt(b, c),
    ensures
        str_lt(a, c),
    decreases a.len(),
{
    if a.len() > 0 && a[0] == b[0] && b[0] == c[0] {
        lemma_str_lt_trans(a.drop_first(), b.drop_first(), c.drop_first());
    }
}

/// Whether `a` comes before `b` in the order of `String`.
pub fn lt_chars(a: &Vec<char>, b: &Vec<char>) -> (r: bool)
    ensures
        r == str_lt(a@, b@),
{
    let mut i: usize = 0;
    assert(a@.skip(0) == a@);
    assert(b@.skip(0) == b@);
    while i < a.len() && i < b.len() && a[i] == b[i]
        invariant
            i <= a@.len(),
            i <= b@.len(),
            str_lt(a@.skip(i as int), b@.skip(i as int)) == str_lt(a@, b@),
        decreases a.len() - i,
    {
        assert(a@.skip(i as int).drop_first() == a@.skip(i + 1));
        assert(b@.skip(i as int).drop_first() == b@.skip(i + 1));
        i += 1;
    }
    if i == b.len() {
        false
    } else if i == a.len() {
        true
    } else {
        a[i] < b[i]
    }
}

/// The binds of the rows named `name`, in order.
pub open spec fn binds_named(rows: Seq<(Seq<char>, (Seq<char>, Seq<char>))>, name: Seq<char>) -> Seq<
    (Seq<char>, Seq<char>),
>
    decreases rows.len(),
{
    if rows.len() == 0 {
        Seq::empty()
    } else if rows.last().0 == name {
        binds_named(rows.drop_last(), name).push(rows.last().1)
    } else {
        binds_named(rows.drop_last(), name)
    }
}

/// Section names strictly increase.
#[verifier::opaque]
pub open spec fn names_sorted(secs: Seq<(Seq<char>, Seq<(Seq<char>, Seq<char>)>)>) -> bool {
    forall|i: int, j: int| 0 <= i < j < secs.len() ==> str_lt(#[trigger] secs[i].0, #[trigger] secs[j].0)
}

/// The names of the sections.
pub open spec fn section_names(secs: Seq<(Seq<char>, Seq<(Seq<char>, Seq<char>)>)>) -> Set<Seq<char>> {
    Set::new(|n: Seq<char>| exists|i: int| 0 <= i < secs.len() && secs[i].0 == n)
}

/// The section names that the rows carry.
pub open spec fn row_names(rows: Seq<(Seq<char>, (Seq<char>, Seq<char>))>) -> Set<Seq<char>> {
    Set::new(|n: Seq<char>| exists|q: int| 0 <= q < rows.len() && rows[q].0 == n)
}

/// Every section holds exactly the binds of its name, in row order.
#[verifier::opaque]
pub open spec fn binds_kept(
    rows: Seq<(Seq<char>, (Seq<char>, Seq<char>))>,
    secs: Seq<(Seq<char>, Seq<(Seq<char>, Seq<char>)>)>,
) -> bool {
    forall|i: int| 0 <= i < secs.len() ==> #[trigger] secs[i].1 == binds_named(rows, secs[i].0)
}

/// `secs` is what grouping `rows` by section name gives: sections ordered
/// by name without repeats, one for each name that occurs, each holding the
/// binds of that name in row order.
pub open spec fn grouped(
    rows: Seq<(Seq<char>, (Seq<char>, Seq<char>))>,
    secs: Seq<(Seq<char>, Seq<(Seq<char>, Seq<char>)>)>,
) -> bool {
    &&& names_sorted(secs)
    &&& section_names(secs) == row_names(rows)
    &&& binds_kept(rows, secs)
}

/// The view of a row to be grouped: (section name, bind).
pub open spec fn named_view(r: (String, Bind)) -> (Seq<char>, (Seq<char>, Seq<char>)) {
    (r.0@, r.1@)
}

/// No row carries `name`, so no binds are named `name`.
proof fn lemma_binds_named_absent(rows: Seq<(Seq<char>, (Seq<char>, Seq<char>))>, name: Seq<char>)
    requires
        forall|q: int| 0 <= q < rows.len() ==> #[trigger] rows[q].0 != name,
    ensures
        binds_named(rows, name) == Seq::<(Seq<char>, Seq<char>)>::empty(),
    decreases rows.len(),
{
    if rows.len() > 0 {
        let t = rows.drop_last();
        assert forall|q: int| 0 <= q < t.len() implies #[trigger] t[q].0 != name by {
            assert(t[q] == rows[q]);
        }
        lemma_binds_named_absent(t, name);
        assert(rows.last() == rows[rows.len() - 1]);
    }
}

/// A new row whose section already exists joins that section.
proof fn lemma_group_add_existing(
    rows: Seq<(Seq<char>, (Seq<char>, Seq<char>))>,
    secs: Seq<(Seq<char>, Seq<(Seq<char>, Seq<char>)>)>,
    p: int,
    r: (Seq<char>, (Seq<char>, Seq<char>)),
)
    requires
        grouped(rows, secs),
        0 <= p < secs.len(),
        secs[p].0 == r.0,
    ensures
        grouped(rows.push(r), secs.update(p, (secs[p].0, secs[p].1.push(r.1)))),
{
    let rows2 = rows.push(r);
    let secs2 = secs.update(p, (secs[p].0, secs[p].1.push(r.1)));
    assert(rows2.drop_last() == rows);
    assert(section_names(secs2) =~= row_names(rows2)) by {
        assert forall|n: Seq<char>| #[trigger] section_names(secs2).contains(n) <==> row_names(
            rows2,
        ).contains(n) by {
            assert(section_names(secs).contains(n) == row_names(rows).contains(n));
            if section_names(secs2).contains(n) {
                let i = choose|i: int| 0 <= i < secs2.len() && secs2[i].0 == n;
                assert(secs[i].0 == n);
                let q = choose|q: int| 0 <= q < rows.len() && rows[q].0 == n;
                assert(rows2[q] == rows[q]);
            }
            if row_names(rows2).contains(n) {
                let q = choose|q: int| 0 <= q < rows2.len() && rows2[q].0 == n;
                if q < rows.len() {
                    assert(rows2[q] == rows[q]);
                    let i = choose|i: int| 0 <= i < secs.len() && secs[i].0 == n;
                    assert(secs2[i].0 == n);
                } else {
                    assert(rows2[q] == r);
                    assert(secs2[p].0 == n);
                }
            }
        }
    }
    assert(names_sorted(secs2)) by {
        reveal(names_sorted);
        assert forall|i: int, j: int| 0 <= i < j < secs2.len() implies str_lt(
            #[trigger] secs2[i].0,
            #[trigger] secs2[j].0,
        ) by {
            assert(secs2[i].0 == secs[i].0);
            assert(secs2[j].0 == secs[j].0);
        }
    }
    assert(binds_kept(rows2, secs2)) by {
        reveal(binds_kept);
        reveal(names_sorted);
        assert forall|i: int| 0 <= i < secs2.len() implies #[trigger] secs2[i].1 == binds_named(
            rows2,
            secs2[i].0,
        ) by {
            assert(secs[i].1 == binds_named(rows, secs[i].0));
            if i != p {
                if i < p {
                    assert(str_lt(secs[i].0, secs[p].0));
                } else {
                    assert(str_lt(secs[p].0, secs[i].0));
                }
                lemma_str_lt_asym(secs[i].0, secs[i].0);
                lemma_str_lt_asym(secs[p].0, secs[p].0);
            }
        }
    }
}

/// A new row whose section does not exist yet opens it at position `p`,
/// between the names before and after it.
proof fn lemma_group_add_new(
    rows: Seq<(Seq<char>, (Seq<char>, Seq<char>))>,
    secs: Seq<(Seq<char>, Seq<(Seq<char>, Seq<char>)>)>,
    p: int,
    r: (Seq<char>, (Seq<char>, Seq<char>)),
)
    requires
        grouped(rows, secs),
        0 <= p <= secs.len(),
        forall|i: int| 0 <= i < p ==> str_lt(#[trigger] secs[i].0, r.0),
        p == secs.len() || str_lt(r.0, secs[p].0),
    ensures
        grouped(rows.push(r), secs.insert(p, (r.0, seq![r.1]))),
{
    let rows2 = rows.push(r);
    let secs2 = secs.insert(p, (r.0, seq![r.1]));
    assert(rows2.drop_last() == rows);
    // No existing section carries the new name.
    assert forall|i: int| 0 <= i < secs.len() implies #[trigger] secs[i].0 != r.0 by {
        reveal(names_sorted);
        lemma_str_lt_asym(r.0, r.0);
        if i > p {
            lemma_str_lt_trans(r.0, secs[p].0, secs[i].0);
        }
    }
    assert forall|q: int| 0 <= q < rows.len() implies #[trigger] rows[q].0 != r.0 by {
        assert(row_names(rows).contains(rows[q].0));
        assert(section_names(secs).contains(rows[q].0));
        let i = choose|i: int| 0 <= i < secs.len() && secs[i].0 == rows[q].0;
        assert(secs[i].0 != r.0);
    }
    lemma_binds_named_absent(rows, r.0);
    assert(names_sorted(secs2)) by {
        reveal(names_sorted);
        assert forall|i: int, j: int| 0 <= i < j < secs2.len() implies str_lt(
            #[trigger] secs2[i].0,
            #[trigger] secs2[j].0,
        ) by {
            if i < p && j == p {
            } else if i < p && j > p {
                assert(secs2[j] == secs[j - 1]);
                assert(secs2[i] == secs[i]);
            } else if i == p {
                assert(secs2[j] == secs[j - 1]);
                if j - 1 > p {
                    lemma_str_lt_trans(r.0, secs[p].0, secs[j - 1].0);
                }
            } else if i > p {
                assert(secs2[i] == secs[i - 1]);
                assert(secs2[j] == secs[j - 1]);
            } else {
                assert(secs2[i] == secs[i]);
                assert(secs2[j] == secs[j]);
            }
        }
    }
    assert(binds_kept(rows2, secs2)) by {
        reveal(binds_kept);
        assert forall|i: int| 0 <= i < secs2.len() implies #[trigger] secs2[i].1 == binds_named(
            rows2,
            secs2[i].0,
        ) by {
            if i < p {
                assert(secs2[i] == secs[i]);
                assert(secs[i].1 == binds_named(rows, secs[i].0));
            } else if i > p {
                assert(secs2[i] == secs[i - 1]);
                assert(secs[i - 1].1 == binds_named(rows, secs[i - 1].0));
            }
        }
    }
    assert(section_names(secs2) =~= row_names(rows2)) by {
        assert forall|n: Seq<char>| #[trigger] section_names(secs2).contains(n) <==> row_names(
            rows2,
        ).contains(n) by {
            assert(section_names(secs).contains(n) == row_names(rows).contains(n));
            if section_names(secs2).contains(n) {
                let i = choose|i: int| 0 <= i < secs2.len() && secs2[i].0 == n;
                if i == p {
                    assert(rows2[rows.len() as int].0 == n);
                } else {
                    let k = if i < p {
                        i
                    } else {
                        i - 1
                    };
                    assert(secs2[i] == secs[k]);
                    let q = choose|q: int| 0 <= q < rows.len() && rows[q].0 == n;
                    assert(rows2[q] == rows[q]);
                }
            }
            if row_names(rows2).contains(n) {
                let q = choose|q: int| 0 <= q < rows2.len() && rows2[q].0 == n;
                if q < rows.len() {
                    assert(rows2[q] == rows[q]);
                    let i = choose|i: int| 0 <= i < secs.len() && secs[i].0 == n;
                    if i < p {
                        assert(secs2[i] == secs[i]);
                    } else {
                        assert(secs2[i + 1] == secs[i]);
                    }
                } else {
                    assert(rows2[q] == r);
                    assert(secs2[p].0 == n);
                }
            }
        }
    }
}

/// Groups `(section name, bind)` rows into sections ordered by name, each
/// keeping its binds in row order.
pub fn group_rows(rows: Vec<(String, Bind)>) -> (secs: Vec<Section>)
    ensures
        grouped(
            rows@.map_values(|r: (String, Bind)| named_view(r)),
            secs@.map_values(|s: Section| s@),
        ),
{
    let ghost orig = rows@;
    let ghost rv = orig.map_values(|r: (String, Bind)| named_view(r));
    let n = rows.len();
    // Reverse the rows so that each can be moved out in order with `pop`.
    let mut rows = rows;
    let mut pending: Vec<(String, Bind)> = Vec::new();
    while rows.len() > 0
        invariant
            pending@.len() + rows@.len() == orig.len(),
            rows@ == orig.take(rows@.len() as int),
            forall|k: int| 0 <= k < pending@.len() ==> #[trigger] pending@[k] == orig[orig.len() - 1 - k],
        decreases rows.len(),
    {
        let r = rows.pop().unwrap();
        assert(orig.take(rows@.len() as int + 1).drop_last() == orig.take(rows@.len() as int));
        pending.push(r);
    }
    let mut secs: Vec<Section> = Vec::new();
    let mut names: Vec<Vec<char>> = Vec::new();
    let mut t: usize = 0;
    assert(rv.take(0) == Seq::<(Seq<char>, (Seq<char>, Seq<char>))>::empty());
    assert(grouped(rv.take(0), secs@.map_values(|s: Section| s@))) by {
        reveal(names_sorted);
        reveal(binds_kept);
        assert(section_names(secs@.map_values(|s: Section| s@)) =~= row_names(rv.take(0)));
    }
    while t < n
        invariant
            t <= n == orig.len(),
            pending@.len() == n - t,
            forall|k: int| 0 <= k < pending@.len() ==> #[trigger] pending@[k] == orig[orig.len() - 1 - k],
            rv == orig.map_values(|r: (String, Bind)| named_view(r)),
            names@.len() == secs@.len(),
            forall|i: int| 0 <= i < names@.len() ==> #[trigger] names@[i]@ == secs@[i].name@,
            grouped(rv.take(t as int), secs@.map_values(|s: Section| s@)),
        decreases n - t,
    {
        let (name, bind) = pending.pop().unwrap();
        assert((name, bind) == orig[t as int]);
        let nc = chars_of(name.as_str());
        let ghost sv = secs@.map_values(|s: Section| s@);
        let ghost rows_t = rv.take(t as int);
        assert(rv.take(t as int + 1) == rows_t.push((name@, bind@)));
        // Look for the section of this name, or the place to open it.
        let mut p: usize = 0;
        let mut found = false;
        while p < names.len()
            invariant_except_break
                !found,
            invariant
                p <= names@.len(),
                names@.len() == secs@.len(),
                sv == secs@.map_values(|s: Section| s@),
                forall|i: int| 0 <= i < names@.len() ==> #[trigger] names@[i]@ == secs@[i].name@,
                forall|i: int| 0 <= i < p ==> str_lt(#[trigger] sv[i].0, nc@),
                found ==> p < names@.len() && sv[p as int].0 == nc@,
            ensures
                p <= names@.len(),
                found ==> p < names@.len() && sv[p as int].0 == nc@,
                !found ==> p == names@.len() || str_lt(nc@, sv[p as int].0),
            decreases names.len() - p,
        {
            assert(names@[p as int]@ == sv[p as int].0);
            if lt_chars(&names[p], &nc) {
                p += 1;
            } else {
                if !lt_chars(&nc, &names[p]) {
                    proof {
                        if names@[p as int]@ != nc@ {
                            lemma_str_lt_total(names@[p as int]@, nc@);
                        }
                    }
                    found = true;
                }
                break;
            }
        }
        if found {
            let ghost before = secs@;
            let mut sec = secs.remove(p);
            let ghost old_binds = sec.binds@;
            sec.binds.push(bind);
            assert(sec@ == (sv[p as int].0, sv[p as int].1.push(bind@))) by {
                assert(sec.binds@.map_values(|b: Bind| b@) =~= old_binds.map_values(|b: Bind| b@).push(bind@));
            }
            secs.insert(p, sec);
            assert(secs@ == before.update(p as int, sec));
            proof {
                lemma_group_add_existing(rows_t, sv, p as int, (name@, bind@));
                assert(secs@.map_values(|s: Section| s@) =~= sv.update(
                    p as int,
                    (sv[p as int].0, sv[p as int].1.push(bind@)),
                ));
            }
        } else {
            let mut binds: Vec<Bind> = Vec::new();
            binds.push(bind);
            let sec = Section { name, binds };
            assert(sec@ == (name@, seq![bind@])) by {
                assert(sec.binds@.map_values(|b: Bind| b@) =~= seq![bind@]);
            }
            let ghost before = secs@;
            secs.insert(p, sec);
            names.insert(p, nc);
            proof {
                lemma_group_add_new(rows_t, sv, p as int, (name@, bind@));
                assert(secs@.map_values(|s: Section| s@) =~= sv.insert(
                    p as int,
                    (name@, seq![bind@]),
                ));
            }
        }
        t += 1;
    }
    assert(rv.take(n as int) == rv);
    secs
}

/// What grouping says of one section: it holds the binds of its name.
pub proof fn lemma_grouped_binds(
    rows: Seq<(Seq<char>, (Seq<char>, Seq<char>))>,
    secs: Seq<(Seq<char>, Seq<(Seq<char>, Seq<char>)>)>,
    i: int,
)
    requires
        grouped(rows, secs),
        0 <= i < secs.len(),
    ensures
        secs[i].1 == binds_named(rows, secs[i].0),
{
    reveal(binds_kept);
}

/// `v` in reverse order, so that `pop` hands its items out front to back.
pub fn reversed<T>(v: Vec<T>) -> (r: Vec<T>)
    ensures
        r@ == v@.reverse(),
{
    let ghost orig = v@;
    let mut v = v;
    let mut r: Vec<T> = Vec::new();
    while v.len() > 0
        invariant
            v@ == orig.take(v@.len() as int),
            r@ == orig.reverse().take(r@.len() as int),
            r@.len() + v@.len() == orig.len(),
        decreases v.len(),
    {
        let x = v.pop().unwrap();
        assert(orig.take(v@.len() as int + 1).drop_last() == orig.take(v@.len() as int));
        r.push(x);
        assert(r@ == orig.reverse().take(r@.len() as int));
    }
    assert(r@ == orig.reverse());
    r
}

/// Strictly increasing names.
pub open spec fn strictly_sorted(x: Seq<Seq<char>>) -> bool {
    forall|i: int, j: int| 0 <= i < j < x.len() ==> str_lt(#[trigger] x[i], #[trigger] x[j])
}

/// Two strictly increasing lists of the same names are the same list.
proof fn lemma_sorted_unique(x: Seq<Seq<char>>, y: Seq<Seq<char>>)
    requires
        strictly_sorted(x),
        strictly_sorted(y),
        forall|n: Seq<char>| x.contains(n) <==> y.contains(n),
    ensures
        x == y,
    decreases x.len(),
{
    if x.len() == 0 {
        if y.len() > 0 {
            assert(y.contains(y[0]));
        }
        assert(x =~= y);
    } else {
        assert(x.contains(x[0]));
        assert(y.len() > 0);
        assert(y.contains(y[0]));
        // Both lists start with the least name.
        let jy = choose|j: int| 0 <= j < y.len() && y[j] == x[0];
        let jx = choose|j: int| 0 <= j < x.len() && x[j] == y[0];
        if x[0] != y[0] {
            assert(jy > 0 && jx > 0);
            assert(str_lt(y[0], y[jy]));
            assert(str_lt(x[0], x[jx]));
            lemma_str_lt_asym(x[0], y[0]);
        }
        let x1 = x.drop_first();
        let y1 = y.drop_first();
        assert forall|n: Seq<char>| x1.contains(n) <==> y1.contains(n) by {
            if x1.contains(n) {
                let i = choose|i: int| 0 <= i < x1.len() && x1[i] == n;
                assert(x.contains(n) && x[i + 1] == n);
                assert(str_lt(x[0], x[i + 1]));
                lemma_str_lt_asym(x[0], x[0]);
                let j = choose|j: int| 0 <= j < y.len() && y[j] == n;
                assert(j != 0);
                assert(y1[j - 1] == n);
            }
            if y1.contains(n) {
                let i = choose|i: int| 0 <= i < y1.len() && y1[i] == n;
                assert(y.contains(n) && y[i + 1] == n);
                assert(str_lt(y[0], y[i + 1]));
                lemma_str_lt_asym(y[0], y[0]);
                let j = choose|j: int| 0 <= j < x.len() && x[j] == n;
                assert(j != 0);
                assert(x1[j - 1] == n);
            }
        }
        assert forall|i: int, j: int| 0 <= i < j < x1.len() implies str_lt(
            #[trigger] x1[i],
            #[trigger] x1[j],
        ) by {
            assert(x[i + 1] == x1[i] && x[j + 1] == x1[j]);
        }
        assert forall|i: int, j: int| 0 <= i < j < y1.len() implies str_lt(
            #[trigger] y1[i],
            #[trigger] y1[j],
        ) by {
            assert(y[i + 1] == y1[i] && y[j + 1] == y1[j]);
        }
        lemma_sorted_unique(x1, y1);
        assert(x =~= y) by {
            assert(x == seq![x[0]] + x1);
            assert(y == seq![y[0]] + y1);
        }
    }
}

/// Grouping is a function of the rows: two groupings of the same rows are
/// the same sections, so a contract that says `grouped(rows, secs)` pins
/// `secs` down.
pub proof fn lemma_grouped_unique(
    rows: Seq<(Seq<char>, (Seq<char>, Seq<char>))>,
    a: Seq<(Seq<char>, Seq<(Seq<char>, Seq<char>)>)>,
    b: Seq<(Seq<char>, Seq<(Seq<char>, Seq<char>)>)>,
)
    requires
        grouped(rows, a),
        grouped(rows, b),
    ensures
        a == b,
{
    reveal(names_sorted);
    reveal(binds_kept);
    let x = a.map_values(|s: (Seq<char>, Seq<(Seq<char>, Seq<char>)>)| s.0);
    let y = b.map_values(|s: (Seq<char>, Seq<(Seq<char>, Seq<char>)>)| s.0);
    assert forall|i: int, j: int| 0 <= i < j < x.len() implies str_lt(#[trigger] x[i], #[trigger] x[j]) by {
        assert(str_lt(a[i].0, a[j].0));
    }
    assert forall|i: int, j: int| 0 <= i < j < y.len() implies str_lt(#[trigger] y[i], #[trigger] y[j]) by {
        assert(str_lt(b[i].0, b[j].0));
    }
    assert forall|n: Seq<char>| x.contains(n) <==> y.contains(n) by {
        assert(section_names(a).contains(n) == section_names(b).contains(n));
        if x.contains(n) {
            let i = choose|i: int| 0 <= i < x.len() && x[i] == n;
            assert(a[i].0 == n);
            assert(section_names(a).contains(n));
            let j = choose|j: int| 0 <= j < b.len() && b[j].0 == n;
            assert(y[j] == n);
        }
        if y.contains(n) {
            let i = choose|i: int| 0 <= i < y.len() && y[i] == n;
            assert(b[i].0 == n);
            assert(section_names(b).contains(n));
            let j = choose|j: int| 0 <= j < a.len() && a[j].0 == n;
            assert(x[j] == n);
        }
    }
    lemma_sorted_unique(x, y);
    assert forall|i: int| 0 <= i < a.len() implies a[i] == b[i] by {
        assert(x[i] == y[i]);
        assert(a[i].1 == binds_named(rows, a[i].0));
        assert(b[i].1 == binds_named(rows, b[i].0));
    }
    assert(a =~= b);
}

} // verus!
