//! Rows of two reporting periods matched by their key: the key text of a
//! row, its label, and which rows of one period have a partner in the other.
use crate::text::{join, push_str, str_eq};
use vstd::prelude::*;

verus! {

/// Views of optional strings.
pub open spec fn opt_views(v: Seq<Option<String>>) -> Seq<Option<Seq<char>>> {
    v.map_values(|o: Option<String>| match o {
        Some(s) => Some(s@),
        None => None,
    })
}

/// The parts of a row's key as text: a part that is not a string counts as
/// empty.
pub open spec fn key_part_texts(parts: Seq<Option<Seq<char>>>) -> Seq<Seq<char>> {
    parts.map_values(|o: Option<Seq<char>>| match o {
        Some(s) => s,
        None => Seq::<char>::empty(),
    })
}

/// The key of a row: its parts joined by `|`.
pub fn key_text(parts: &[Option<String>]) -> (r: String)
    ensures
        r@ == join(key_part_texts(opt_views(parts@)), "|"@),
{
    let mut out = String::new();
    let mut i: usize = 0;
    while i < parts.len()
        invariant
            i <= parts@.len(),
            out@ == join(key_part_texts(opt_views(parts@.take(i as int))), "|"@),
        decreases parts@.len() - i,
    {
        if i > 0 {
            push_str(&mut out, "|");
        }
        match &parts[i] {
            Some(s) => push_str(&mut out, s.as_str()),
            None => {},
        }
        proof {
            let t = key_part_texts(opt_views(parts@.take(i as int + 1)));
            assert(t.drop_last() =~= key_part_texts(opt_views(parts@.take(i as int))));
        }
        i = i + 1;
        assert(out@ =~= join(key_part_texts(opt_views(parts@.take(i as int))), "|"@));
    }
    assert(parts@.take(parts@.len() as int) =~= parts@);
    out
}

/// The label of a row: for each part of its key, the dimension's name (or
/// `dim` past the named ones), a colon and the part (or `?` when it is not a
/// string), followed by two spaces.
pub open spec fn label_text(parts: Seq<Option<Seq<char>>>, dims: Seq<Seq<char>>) -> Seq<char>
    decreases parts.len(),
{
    if parts.len() == 0 {
        seq![]
    } else {
        let i = parts.len() - 1;
        label_text(parts.drop_last(), dims) + (if i < dims.len() { dims[i] } else { "dim"@ }) + ": "@
            + (match parts[i] {
            Some(k) => k,
            None => "?"@,
        }) + "  "@
    }
}

/// The label of a row with these key parts, the dimensions named by `dims`.
pub fn key_label(parts: &[Option<String>], dims: &[String]) -> (r: String)
    ensures
        r@ == label_text(opt_views(parts@), dims@.map_values(|d: String| d@)),
{
    let ghost dv = dims@.map_values(|d: String| d@);
    let mut out = String::new();
    let mut i: usize = 0;
    while i < parts.len()
        invariant
            i <= parts@.len(),
            dv == dims@.map_values(|d: String| d@),
            out@ == label_text(opt_views(parts@.take(i as int)), dv),
        decreases parts@.len() - i,
    {
        let ghost before = out@;
        if i < dims.len() {
            push_str(&mut out, dims[i].as_str());
        } else {
            push_str(&mut out, "dim");
        }
        push_str(&mut out, ": ");
        match &parts[i] {
            Some(s) => push_str(&mut out, s.as_str()),
            None => push_str(&mut out, "?"),
        }
        push_str(&mut out, "  ");
        proof {
            let t = opt_views(parts@.take(i as int + 1));
            assert(t.drop_last() =~= opt_views(parts@.take(i as int)));
        }
        i = i + 1;
    }
    assert(parts@.take(parts@.len() as int) =~= parts@);
    out
}

/// The last row whose key is `k`.
pub open spec fn last_with_key(keys: Seq<Option<Seq<char>>>, k: Seq<char>) -> Option<int>
    decreases keys.len(),
{
    if keys.len() == 0 {
        None
    } else if keys.last() == Some(k) {
        Some(keys.len() - 1)
    } else {
        last_with_key(keys.drop_last(), k)
    }
}

/// Whether some row has the key `k`.
pub open spec fn has_key(keys: Seq<Option<Seq<char>>>, k: Seq<char>) -> bool {
    exists|i: int| 0 <= i < keys.len() && keys[i] == Some(k)
}

/// The row of the other period that a row with this key is matched with.
pub open spec fn partner(key: Option<Seq<char>>, other: Seq<Option<Seq<char>>>) -> Option<int> {
    match key {
        Some(k) => last_with_key(other, k),
        None => None,
    }
}

proof fn lemma_last_with_key_bounds(keys: Seq<Option<Seq<char>>>, k: Seq<char>)
    ensures
        last_with_key(keys, k) matches Some(j) ==> 0 <= j < keys.len() && keys[j] == Some(k),
        last_with_key(keys, k) is None ==> !has_key(keys, k),
    decreases keys.len(),
{
    if keys.len() > 0 {
        lemma_last_with_key_bounds(keys.drop_last(), k);
        if keys.last() != Some(k) && last_with_key(keys.drop_last(), k) is None {
            assert forall|i: int| 0 <= i < keys.len() implies keys[i] != Some(k) by {
                if i < keys.len() - 1 {
                    assert(keys.drop_last()[i] == keys[i]);
                }
            }
        }
    }
}

/// The last row of `keys` whose key is `k`.
fn last_index_with_key(keys: &[Option<String>], k: &str) -> (r: Option<usize>)
    ensures
        match r {
            Some(j) => last_with_key(opt_views(keys@), k@) == Some(j as int),
            None => last_with_key(opt_views(keys@), k@) is None,
        },
{
    let mut found: Option<usize> = None;
    let mut j: usize = 0;
    while j < keys.len()
        invariant
            j <= keys@.len(),
            match found {
                Some(t) => last_with_key(opt_views(keys@.take(j as int)), k@) == Some(t as int),
                None => last_with_key(opt_views(keys@.take(j as int)), k@) is None,
            },
        decreases keys@.len() - j,
    {
        let hit = match &keys[j] {
            Some(s) => str_eq(s.as_str(), k),
            None => false,
        };
        if hit {
            found = Some(j);
        }
        proof {
            let t = opt_views(keys@.take(j as int + 1));
            assert(t.drop_last() =~= opt_views(keys@.take(j as int)));
        }
        j = j + 1;
    }
    assert(keys@.take(keys@.len() as int) =~= keys@);
    found
}

/// Whether some row of `keys` has the key `k`.
fn contains_key(keys: &[Option<String>], k: &str) -> (r: bool)
    ensures
        r == has_key(opt_views(keys@), k@),
{
    proof {
        lemma_last_with_key_bounds(opt_views(keys@), k@);
    }
    last_index_with_key(keys, k).is_some()
}

/// For each row of `rows`, the last row of `other` with the same key (none
/// for a row without a key).
pub fn partners(rows: &[Option<String>], other: &[Option<String>]) -> (r: Vec<Option<usize>>)
    ensures
        r@.len() == rows@.len(),
        forall|i: int| 0 <= i < rows@.len() ==> match #[trigger] r@[i] {
            Some(j) => partner(opt_views(rows@)[i], opt_views(other@)) == Some(j as int),
            None => partner(opt_views(rows@)[i], opt_views(other@)) is None,
        },
{
    let mut out: Vec<Option<usize>> = Vec::new();
    let mut i: usize = 0;
    while i < rows.len()
        invariant
            i <= rows@.len(),
            out@.len() == i,
            forall|t: int| 0 <= t < i ==> match #[trigger] out@[t] {
                Some(j) => partner(opt_views(rows@)[t], opt_views(other@)) == Some(j as int),
                None => partner(opt_views(rows@)[t], opt_views(other@)) is None,
            },
        decreases rows@.len() - i,
    {
        let p = match &rows[i] {
            Some(k) => last_index_with_key(other, k.as_str()),
            None => None,
        };
        out.push(p);
        i = i + 1;
    }
    out
}

/// The rows of `other` (up to `n`) that no row of `rows` shares a key with;
/// with `distinct`, only the last row of each such key.
pub open spec fn unpartnered(
    rows: Seq<Option<Seq<char>>>,
    other: Seq<Option<Seq<char>>>,
    distinct: bool,
    n: int,
) -> Seq<int>
    decreases n,
{
    if n <= 0 {
        seq![]
    } else {
        let rest = unpartnered(rows, other, distinct, n - 1);
        match other[n - 1] {
            Some(k) => if !has_key(rows, k) && (!distinct || last_with_key(other, k) == Some(n - 1)) {
                rest.push(n - 1)
            } else {
                rest
            },
            None => rest,
        }
    }
}

/// The rows of `other`, in order, whose key no row of `rows` has; with
/// `distinct`, only the last row of each such key.
pub fn unpartnered_rows(rows: &[Option<String>], other: &[Option<String>], distinct: bool) -> (r: Vec<usize>)
    ensures
        r@.map_values(|j: usize| j as int) == unpartnered(opt_views(rows@), opt_views(other@), distinct, other@.len() as int),
{
    let mut out: Vec<usize> = Vec::new();
    let mut j: usize = 0;
    while j < other.len()
        invariant
            j <= other@.len(),
            out@.map_values(|t: usize| t as int) == unpartnered(opt_views(rows@), opt_views(other@), distinct, j as int),
        decreases other@.len() - j,
    {
        let ghost before = out@;
        let keep = match &other[j] {
            Some(k) => {
                if contains_key(rows, k.as_str()) {
                    false
                } else if distinct {
                    match last_index_with_key(other, k.as_str()) {
                        Some(last) => last == j,
                        None => false,
                    }
                } else {
                    true
                }
            },
            None => false,
        };
        if keep {
            out.push(j);
        }
        assert(out@.map_values(|t: usize| t as int) =~= unpartnered(opt_views(rows@), opt_views(other@), distinct, j + 1)) by {
            assert(before.map_values(|t: usize| t as int) == unpartnered(opt_views(rows@), opt_views(other@), distinct, j as int));
            if keep {
                assert(out@ =~= before.push(j));
            }
        }
        j = j + 1;
    }
    out
}

/// One line of a comparison of two periods.
#[derive(Clone, Copy, Debug, PartialEq, Eq, Structural)]
pub enum PeriodLine {
    /// A current row and the previous row with its key.
    Both(usize, usize),
    /// A current row whose key the previous period lacks.
    New(usize),
    /// A previous row whose key the current period lacks.
    Gone(usize),
}

/// The lines of the first `n` current rows: each row with a key is matched
/// with the last previous row of that key, if there is one.
pub open spec fn current_lines(cur: Seq<Option<Seq<char>>>, prev: Seq<Option<Seq<char>>>, n: int) -> Seq<PeriodLine>
    decreases n,
{
    if n <= 0 {
        seq![]
    } else {
        let rest = current_lines(cur, prev, n - 1);
        match cur[n - 1] {
            Some(k) => match last_with_key(prev, k) {
                Some(j) => rest.push(PeriodLine::Both((n - 1) as usize, j as usize)),
                None => rest.push(PeriodLine::New((n - 1) as usize)),
            },
            None => rest,
        }
    }
}

/// A comparison of two periods: the current rows in order, then the
/// previous rows whose key the current period lacks.
pub open spec fn comparison_plan(cur: Seq<Option<Seq<char>>>, prev: Seq<Option<Seq<char>>>) -> Seq<PeriodLine> {
    current_lines(cur, prev, cur.len() as int) + unpartnered(cur, prev, false, prev.len() as int).map_values(
        |j: int| PeriodLine::Gone(j as usize),
    )
}

/// The lines of a comparison of the current rows with the previous ones, by
/// the rows' keys (none for a row without keys).
pub fn comparison_lines(current: &[Option<String>], previous: &[Option<String>]) -> (r: Vec<PeriodLine>)
    ensures
        r@ == comparison_plan(opt_views(current@), opt_views(previous@)),
{
    let ghost cur = opt_views(current@);
    let ghost prev = opt_views(previous@);
    let mut out: Vec<PeriodLine> = Vec::new();
    let mut i: usize = 0;
    while i < current.len()
        invariant
            i <= current@.len(),
            cur == opt_views(current@),
            prev == opt_views(previous@),
            out@ == current_lines(cur, prev, i as int),
        decreases current@.len() - i,
    {
        match &current[i] {
            Some(k) => {
                match last_index_with_key(previous, k.as_str()) {
                    Some(j) => out.push(PeriodLine::Both(i, j)),
                    None => out.push(PeriodLine::New(i)),
                }
            },
            None => {},
        }
        i = i + 1;
    }
    let gone = unpartnered_rows(current, previous, false);
    let ghost head = out@;
    let mut t: usize = 0;
    while t < gone.len()
        invariant
            t <= gone@.len(),
            out@ == head + gone@.take(t as int).map_values(|j: usize| PeriodLine::Gone(j)),
        decreases gone@.len() - t,
    {
        out.push(PeriodLine::Gone(gone[t]));
        assert(gone@.take(t + 1).map_values(|j: usize| PeriodLine::Gone(j)) =~= gone@.take(t as int).map_values(
            |j: usize| PeriodLine::Gone(j),
        ).push(PeriodLine::Gone(gone@[t as int])));
        t = t + 1;
    }
    proof {
        let g = unpartnered(cur, prev, false, prev.len() as int);
        assert(gone@.map_values(|j: usize| j as int) == g);
        assert(gone@.take(t as int) =~= gone@);
        assert forall|x: int| 0 <= x < g.len() implies (g[x] as usize) == gone@[x] by {
            assert(gone@.map_values(|j: usize| j as int)[x] == g[x]);
        }
        assert(gone@.map_values(|j: usize| PeriodLine::Gone(j)) =~= g.map_values(|j: int| PeriodLine::Gone(j as usize)));
    }
    out
}

proof fn lemma_unpartnered_has(
    rows: Seq<Option<Seq<char>>>,
    other: Seq<Option<Seq<char>>>,
    n: int,
    j: int,
    k: Seq<char>,
)
    requires
        0 <= j < n <= other.len(),
        other[j] == Some(k),
        !has_key(rows, k),
    ensures
        unpartnered(rows, other, false, n).contains(j),
    decreases n,
{
    let all = unpartnered(rows, other, false, n);
    if j == n - 1 {
        assert(all.last() == j);
    } else {
        lemma_unpartnered_has(rows, other, n - 1, j, k);
        let rest = unpartnered(rows, other, false, n - 1);
        let x = choose|x: int| 0 <= x < rest.len() && rest[x] == j;
        assert(all[x] == j);
    }
}

/// A comparison leaves out no row of the previous period: a previous row
/// whose key no current row has comes as a line of its own.
pub proof fn lemma_comparison_keeps_previous_only_rows(
    cur: Seq<Option<Seq<char>>>,
    prev: Seq<Option<Seq<char>>>,
    j: int,
    k: Seq<char>,
)
    requires
        0 <= j < prev.len(),
        prev[j] == Some(k),
        !has_key(cur, k),
    ensures
        comparison_plan(cur, prev).contains(PeriodLine::Gone(j as usize)),
{
    lemma_unpartnered_has(cur, prev, prev.len() as int, j, k);
    let g = unpartnered(cur, prev, false, prev.len() as int);
    let x = choose|x: int| 0 <= x < g.len() && g[x] == j;
    let c = current_lines(cur, prev, cur.len() as int);
    assert(comparison_plan(cur, prev)[c.len() + x] == PeriodLine::Gone(j as usize));
}

/// The queries of two periods, each once: those of the current period (at
/// the last row of each), then those only the previous period has (at their
/// last row there), each with the last row of the other period that shares
/// its key.
pub open spec fn union_plan(cur: Seq<Option<Seq<char>>>, prev: Seq<Option<Seq<char>>>) -> Seq<(Option<int>, Option<int>)> {
    unpartnered(Seq::empty(), cur, true, cur.len() as int).map_values(|j: int| (Some(j), partner(cur[j], prev)))
        + unpartnered(cur, prev, true, prev.len() as int).map_values(|j: int| (None::<int>, Some(j)))
}

/// A pair of optional row indices as integers.
pub open spec fn pair_view(p: (Option<usize>, Option<usize>)) -> (Option<int>, Option<int>) {
    (
        match p.0 {
            Some(a) => Some(a as int),
            None => None,
        },
        match p.1 {
            Some(b) => Some(b as int),
            None => None,
        },
    )
}

/// Each distinct key of the two periods once, with its row in each period.
pub fn query_union(current: &[Option<String>], previous: &[Option<String>]) -> (r: Vec<(Option<usize>, Option<usize>)>)
    ensures
        r@.map_values(|p: (Option<usize>, Option<usize>)| pair_view(p)) == union_plan(
            opt_views(current@),
            opt_views(previous@),
        ),
{
    let ghost cur = opt_views(current@);
    let ghost prev = opt_views(previous@);
    let none: Vec<Option<String>> = Vec::new();
    assert(opt_views(none@) =~= Seq::<Option<Seq<char>>>::empty());
    let firsts = unpartnered_rows(none.as_slice(), current, true);
    let matched = partners(current, previous);
    let others = unpartnered_rows(current, previous, true);
    let ghost f = unpartnered(Seq::empty(), cur, true, cur.len() as int);
    let ghost o = unpartnered(cur, prev, true, prev.len() as int);
    let ghost target = union_plan(cur, prev);
    proof {
        lemma_unpartnered_bounds(Seq::empty(), cur, true, cur.len() as int);
        lemma_unpartnered_bounds(cur, prev, true, prev.len() as int);
        assert(firsts@.map_values(|j: usize| j as int) == f);
        assert(others@.map_values(|j: usize| j as int) == o);
    }
    let mut out: Vec<(Option<usize>, Option<usize>)> = Vec::new();
    let mut t: usize = 0;
    while t < firsts.len()
        invariant
            t <= firsts@.len(),
            firsts@.map_values(|j: usize| j as int) == f,
            forall|x: int| 0 <= x < f.len() ==> 0 <= #[trigger] f[x] < cur.len(),
            matched@.len() == current@.len(),
            cur == opt_views(current@),
            prev == opt_views(previous@),
            forall|i: int| 0 <= i < current@.len() ==> match #[trigger] matched@[i] {
                Some(j) => partner(cur[i], prev) == Some(j as int),
                None => partner(cur[i], prev) is None,
            },
            out@.len() == t,
            forall|x: int| 0 <= x < t ==> #[trigger] pair_view(out@[x]) == target[x],
            target == union_plan(cur, prev),
            f == unpartnered(Seq::empty(), cur, true, cur.len() as int),
        decreases firsts@.len() - t,
    {
        let j = firsts[t];
        assert(firsts@.map_values(|j: usize| j as int)[t as int] == f[t as int]);
        let ghost old_out = out@;
        out.push((Some(j), matched[j]));
        proof {
            assert(target[t as int] == (Some(f[t as int]), partner(cur[f[t as int]], prev)));
            assert(0 <= f[t as int] < cur.len());
            assert(j as int == f[t as int]);
            let m = matched@[j as int];
            assert(pair_view(out@[t as int]) == target[t as int]) by {
                assert(out@[t as int] == (Some(j), m));
                match m {
                    Some(q) => {
                        assert(partner(cur[j as int], prev) == Some(q as int));
                    },
                    None => {
                        assert(partner(cur[j as int], prev) is None);
                    },
                }
            }
            assert forall|x: int| 0 <= x < t + 1 implies #[trigger] pair_view(out@[x]) == target[x] by {
                if x < t {
                    assert(out@[x] == old_out[x]);
                }
            }
        }
        t = t + 1;
    }
    let mut u: usize = 0;
    while u < others.len()
        invariant
            u <= others@.len(),
            firsts@.len() == f.len(),
            others@.map_values(|j: usize| j as int) == o,
            out@.len() == f.len() + u,
            forall|x: int| 0 <= x < out@.len() ==> #[trigger] pair_view(out@[x]) == target[x],
            target == union_plan(cur, prev),
            f == unpartnered(Seq::empty(), cur, true, cur.len() as int),
            o == unpartnered(cur, prev, true, prev.len() as int),
        decreases others@.len() - u,
    {
        let j = others[u];
        assert(others@.map_values(|j: usize| j as int)[u as int] == o[u as int]);
        let ghost old_out = out@;
        out.push((None, Some(j)));
        proof {
            assert(target[f.len() + u] == (None::<int>, Some(o[u as int])));
            assert(pair_view(out@[f.len() + u]) == target[f.len() + u]) by {
                assert(out@[f.len() + u] == (None::<usize>, Some(j)));
            }
            assert forall|x: int| 0 <= x < out@.len() implies #[trigger] pair_view(out@[x]) == target[x] by {
                if x < out@.len() - 1 {
                    assert(out@[x] == old_out[x]);
                }
            }
        }
        u = u + 1;
    }
    assert(out@.map_values(|p: (Option<usize>, Option<usize>)| pair_view(p)) =~= target);
    out
}

proof fn lemma_unpartnered_bounds(rows: Seq<Option<Seq<char>>>, other: Seq<Option<Seq<char>>>, distinct: bool, n: int)
    requires
        n <= other.len(),
    ensures
        forall|x: int| 0 <= x < unpartnered(rows, other, distinct, n).len() ==> 0 <= #[trigger] unpartnered(rows, other, distinct, n)[x] < n,
    decreases n,
{
    if n > 0 {
        lemma_unpartnered_bounds(rows, other, distinct, n - 1);
        let rest = unpartnered(rows, other, distinct, n - 1);
        let all = unpartnered(rows, other, distinct, n);
        assert forall|x: int| 0 <= x < all.len() implies 0 <= #[trigger] all[x] < n by {
            if x < rest.len() {
                assert(all[x] == rest[x]);
            }
        }
    }
}

/// The rows among the first `n` whose key is `k`, in order.
pub open spec fn rows_with(keys: Seq<Seq<char>>, k: Seq<char>, n: int) -> Seq<int>
    decreases n,
{
    if n <= 0 {
        seq![]
    } else if keys[n - 1] == k {
        rows_with(keys, k, n - 1).push(n - 1)
    } else {
        rows_with(keys, k, n - 1)
    }
}

/// Whether row `j` is the first with its key.
pub open spec fn first_of_key(keys: Seq<Seq<char>>, j: int) -> bool {
    forall|i: int| 0 <= i < j ==> keys[i] != keys[j]
}

/// The groups of rows that share a non-empty key with at least one other
/// row, among the keys first seen in the first `n` rows, in order of first
/// appearance.
pub open spec fn shared_groups(keys: Seq<Seq<char>>, n: int) -> Seq<Seq<int>>
    decreases n,
{
    if n <= 0 {
        seq![]
    } else {
        let j = n - 1;
        let rest = shared_groups(keys, j);
        let g = rows_with(keys, keys[j], keys.len() as int);
        if keys[j].len() > 0 && first_of_key(keys, j) && g.len() >= 2 {
            rest.push(g)
        } else {
            rest
        }
    }
}

/// The rows among the first `n` with key `k` are exactly those rows, in
/// strictly increasing order.
proof fn lemma_rows_with_members(keys: Seq<Seq<char>>, k: Seq<char>, n: int)
    requires
        0 <= n <= keys.len(),
    ensures
        forall|t: int| #[trigger] rows_with(keys, k, n).contains(t) <==> (0 <= t < n && keys[t] == k),
        forall|a: int, b: int|
            0 <= a < b < rows_with(keys, k, n).len() ==> #[trigger] rows_with(keys, k, n)[a] < #[trigger] rows_with(keys, k, n)[b],
        forall|a: int| 0 <= a < rows_with(keys, k, n).len() ==> 0 <= #[trigger] rows_with(keys, k, n)[a] < n,
    decreases n,
{
    if n > 0 {
        lemma_rows_with_members(keys, k, n - 1);
        let r = rows_with(keys, k, n - 1);
        if keys[n - 1] == k {
            let s = r.push(n - 1);
            assert(rows_with(keys, k, n) == s);
            assert forall|t: int| #[trigger] s.contains(t) <==> (0 <= t < n && keys[t] == k) by {
                if s.contains(t) {
                    let i = choose|i: int| 0 <= i < s.len() && s[i] == t;
                    if i < r.len() {
                        assert(r.contains(t));
                    }
                }
                if 0 <= t < n && keys[t] == k {
                    if t < n - 1 {
                        assert(r.contains(t));
                        let i = choose|i: int| 0 <= i < r.len() && r[i] == t;
                        assert(s[i] == t);
                    } else {
                        assert(s[r.len() as int] == t);
                    }
                }
            }
        } else {
            assert(rows_with(keys, k, n) == r);
        }
    }
}

/// Every row has a first row with its key, at or before it.
proof fn lemma_first_occurrence(keys: Seq<Seq<char>>, i: int)
    requires
        0 <= i < keys.len(),
    ensures
        exists|j: int| 0 <= j <= i && keys[j] == keys[i] && #[trigger] first_of_key(keys, j),
    decreases i,
{
    if first_of_key(keys, i) {
        assert(first_of_key(keys, i));
    } else {
        let t = choose|t: int| 0 <= t < i && keys[t] != keys[i] == false;
        lemma_first_occurrence(keys, t);
    }
}

/// `g` is the group of row `j`: all the rows of its non-empty key, at least
/// two of them, `j` being the first of them.
spec fn group_of_row(keys: Seq<Seq<char>>, j: int, g: Seq<int>) -> bool {
    &&& 0 <= j < keys.len()
    &&& keys[j].len() > 0
    &&& first_of_key(keys, j)
    &&& rows_with(keys, keys[j], keys.len() as int) == g
    &&& g.len() >= 2
}

/// `g` is the group of some row among the first `n`.
spec fn grouped_before(keys: Seq<Seq<char>>, n: int, g: Seq<int>) -> bool {
    exists|j: int| j < n && #[trigger] group_of_row(keys, j, g)
}

/// What the groups among the first `n` rows are: each is all the rows of
/// the non-empty key of a row that is first with its key, at least two of
/// them; each such key with two or more rows has its group; and no row is in
/// two groups.
proof fn lemma_shared_groups_shape(keys: Seq<Seq<char>>, n: int)
    requires
        0 <= n <= keys.len(),
    ensures
        forall|gi: int|
            0 <= gi < shared_groups(keys, n).len() ==> grouped_before(keys, n, #[trigger] shared_groups(keys, n)[gi]),
        forall|j: int|
            0 <= j < n && keys[j].len() > 0 && first_of_key(keys, j) && rows_with(keys, keys[j], keys.len() as int).len() >= 2
                ==> shared_groups(keys, n).contains(#[trigger] rows_with(keys, keys[j], keys.len() as int)),
        forall|a: int, b: int, t: int|
            0 <= a < b < shared_groups(keys, n).len() ==> !(#[trigger] shared_groups(keys, n)[a].contains(t)
                && #[trigger] shared_groups(keys, n)[b].contains(t)),
    decreases n,
{
    let len = keys.len() as int;
    if n > 0 {
        lemma_shared_groups_shape(keys, n - 1);
        let j = n - 1;
        let rest = shared_groups(keys, j);
        let g = rows_with(keys, keys[j], len);
        let s = shared_groups(keys, n);
        if first_of_key(keys, j) && keys[j].len() > 0 && g.len() >= 2 {
            assert(s == rest.push(g));
            assert forall|gi: int| 0 <= gi < shared_groups(keys, n).len() implies grouped_before(keys, n, #[trigger] shared_groups(keys, n)[gi]) by {
                if gi < rest.len() {
                    assert(s[gi] == rest[gi]);
                    let j2 = choose|j2: int| j2 < j && #[trigger] group_of_row(keys, j2, rest[gi]);
                    assert(group_of_row(keys, j2, s[gi]));
                } else {
                    assert(s[gi] == g);
                    assert(group_of_row(keys, j, s[gi]));
                }
            }
            assert forall|j2: int|
                0 <= j2 < n && keys[j2].len() > 0 && first_of_key(keys, j2) && rows_with(keys, keys[j2], len).len() >= 2
                    implies s.contains(#[trigger] rows_with(keys, keys[j2], len)) by {
                if j2 < j {
                    let x = rows_with(keys, keys[j2], len);
                    assert(rest.contains(x));
                    let i = choose|i: int| 0 <= i < rest.len() && rest[i] == x;
                    assert(s[i] == x);
                } else {
                    assert(s[rest.len() as int] == g);
                }
            }
            assert forall|a: int, b: int, t: int| 0 <= a < b < s.len() implies !(#[trigger] s[a].contains(t)
                && #[trigger] s[b].contains(t)) by {
                if b < rest.len() {
                    assert(s[a] == rest[a] && s[b] == rest[b]);
                } else {
                    assert(s[a] == rest[a] && s[b] == g);
                    let ja = choose|ja: int| ja < j && #[trigger] group_of_row(keys, ja, rest[a]);
                    lemma_rows_with_members(keys, keys[ja], len);
                    lemma_rows_with_members(keys, keys[j], len);
                    if s[a].contains(t) && s[b].contains(t) {
                        assert(keys[t] == keys[ja] && keys[t] == keys[j]);
                        assert(keys[ja] != keys[j]);
                    }
                }
            }
        } else {
            assert(s == rest);
            assert forall|gi: int| 0 <= gi < shared_groups(keys, n).len() implies grouped_before(keys, n, #[trigger] shared_groups(keys, n)[gi]) by {
                let j2 = choose|j2: int| j2 < j && #[trigger] group_of_row(keys, j2, rest[gi]);
                assert(group_of_row(keys, j2, s[gi]));
            }
        }
    } else {
        assert(shared_groups(keys, n).len() == 0);
    }
}

/// Rows grouped by a shared key: a row with a non-empty key is in a group
/// exactly when another row has the same key; each group holds all the
/// rows of one non-empty key and no other row, at least two of them; and no
/// row is in two groups.
pub proof fn lemma_shared_groups_law(keys: Seq<Seq<char>>)
    ensures
        forall|i: int|
            0 <= i < keys.len() && (#[trigger] keys[i]).len() > 0 ==> ((exists|g: Seq<int>|
                #[trigger] shared_groups(keys, keys.len() as int).contains(g) && g.contains(i)) <==> (exists|t: int|
                0 <= t < keys.len() && t != i && #[trigger] keys[t] == keys[i])),
        forall|gi: int|
            0 <= gi < shared_groups(keys, keys.len() as int).len() ==> (#[trigger] shared_groups(keys, keys.len() as int)[gi]).len() >= 2
                && exists|k: Seq<char>| k.len() > 0 && forall|t: int|
                    #[trigger] shared_groups(keys, keys.len() as int)[gi].contains(t) <==> (0 <= t < keys.len() && keys[t] == k),
        forall|a: int, b: int, t: int|
            0 <= a < b < shared_groups(keys, keys.len() as int).len() ==> !(
            #[trigger] shared_groups(keys, keys.len() as int)[a].contains(t)
                && #[trigger] shared_groups(keys, keys.len() as int)[b].contains(t)),
{
    let len = keys.len() as int;
    let s = shared_groups(keys, len);
    lemma_shared_groups_shape(keys, len);
    assert forall|i: int| 0 <= i < len && (#[trigger] keys[i]).len() > 0 implies ((exists|g: Seq<int>|
        #[trigger] s.contains(g) && g.contains(i)) <==> (exists|t: int| 0 <= t < len && t != i && #[trigger] keys[t] == keys[i])) by {
        if exists|g: Seq<int>| #[trigger] s.contains(g) && g.contains(i) {
            let g = choose|g: Seq<int>| #[trigger] s.contains(g) && g.contains(i);
            let gi = choose|gi: int| 0 <= gi < s.len() && s[gi] == g;
            let j = choose|j: int| j < len && #[trigger] group_of_row(keys, j, s[gi]);
            lemma_rows_with_members(keys, keys[j], len);
            assert(g[0] < g[1]);
            let t = if g[0] != i { g[0] } else { g[1] };
            assert(g.contains(t));
            assert(0 <= t < len && t != i && keys[t] == keys[i]);
        }
        if exists|t: int| 0 <= t < len && t != i && #[trigger] keys[t] == keys[i] {
            let t = choose|t: int| 0 <= t < len && t != i && #[trigger] keys[t] == keys[i];
            lemma_first_occurrence(keys, i);
            let j = choose|j: int| 0 <= j <= i && keys[j] == keys[i] && #[trigger] first_of_key(keys, j);
            let g = rows_with(keys, keys[j], len);
            lemma_rows_with_members(keys, keys[j], len);
            assert(g.contains(i) && g.contains(t));
            if g.len() < 2 {
                let a = choose|a: int| 0 <= a < g.len() && g[a] == i;
                let b = choose|b: int| 0 <= b < g.len() && g[b] == t;
                assert(a == b);
            }
            assert(s.contains(g));
        }
    }
    assert forall|gi: int| 0 <= gi < s.len() implies (#[trigger] s[gi]).len() >= 2 && exists|k: Seq<char>|
        k.len() > 0 && forall|t: int| #[trigger] s[gi].contains(t) <==> (0 <= t < len && keys[t] == k) by {
        let j = choose|j: int| j < len && #[trigger] group_of_row(keys, j, s[gi]);
        lemma_rows_with_members(keys, keys[j], len);
        assert(forall|t: int| #[trigger] s[gi].contains(t) <==> (0 <= t < len && keys[t] == keys[j]));
    }
}

/// The views of a sequence of strings.
pub open spec fn views(v: Seq<String>) -> Seq<Seq<char>> {
    v.map_values(|s: String| s@)
}

/// Indices as integers.
pub open spec fn index_view(v: Seq<usize>) -> Seq<int> {
    v.map_values(|j: usize| j as int)
}

/// The rows whose key is `keys[j]`, in order.
fn rows_with_key_of(keys: &[String], j: usize) -> (r: Vec<usize>)
    requires
        j < keys@.len(),
    ensures
        index_view(r@) == rows_with(views(keys@), views(keys@)[j as int], keys@.len() as int),
{
    let ghost ks = views(keys@);
    let mut out: Vec<usize> = Vec::new();
    let mut i: usize = 0;
    while i < keys.len()
        invariant
            j < keys@.len(),
            i <= keys@.len(),
            ks == views(keys@),
            index_view(out@) == rows_with(ks, ks[j as int], i as int),
        decreases keys@.len() - i,
    {
        let ghost before = out@;
        if str_eq(keys[i].as_str(), keys[j].as_str()) {
            out.push(i);
            assert(index_view(out@) =~= index_view(before).push(i as int));
        }
        i = i + 1;
    }
    out
}

/// Whether row `j` is the first with its key.
fn is_first_of_key(keys: &[String], j: usize) -> (r: bool)
    requires
        j < keys@.len(),
    ensures
        r == first_of_key(views(keys@), j as int),
{
    let ghost ks = views(keys@);
    let mut i: usize = 0;
    while i < j
        invariant
            j < keys@.len(),
            i <= j,
            ks == views(keys@),
            forall|t: int| 0 <= t < i ==> ks[t] != ks[j as int],
        decreases j - i,
    {
        if str_eq(keys[i].as_str(), keys[j].as_str()) {
            assert(ks[i as int] == ks[j as int]);
            return false;
        }
        i = i + 1;
    }
    true
}

/// The rows grouped by key: each non-empty key that two or more rows share,
/// in order of its first row, with all its rows in order.
pub fn shared_key_groups(keys: &[String]) -> (r: Vec<Vec<usize>>)
    ensures
        r@.map_values(|g: Vec<usize>| index_view(g@)) == shared_groups(views(keys@), keys@.len() as int),
{
    let ghost ks = views(keys@);
    let mut out: Vec<Vec<usize>> = Vec::new();
    let mut j: usize = 0;
    while j < keys.len()
        invariant
            j <= keys@.len(),
            ks == views(keys@),
            out@.map_values(|g: Vec<usize>| index_view(g@)) == shared_groups(ks, j as int),
        decreases keys@.len() - j,
    {
        let ghost before = out@;
        if !keys[j].as_str().is_empty() {
            if is_first_of_key(keys, j) {
                let g = rows_with_key_of(keys, j);
                if g.len() >= 2 {
                    let ghost gv = g@;
                    out.push(g);
                    assert(out@.map_values(|g: Vec<usize>| index_view(g@)) =~= before.map_values(
                        |g: Vec<usize>| index_view(g@),
                    ).push(index_view(gv)));
                }
            }
        }
        j = j + 1;
    }
    out
}

} // verus!
