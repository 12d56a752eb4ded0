//! Stable ordering of records by a chosen column and direction.
use vstd::prelude::*;
use crate::record::{ProcessRecord, RecordView, SortColumn, SortDirection, views};
use crate::text::{lower_of, lex_lt, lowercase_chars, chars_lt};
use vstd::set_lib::{lemma_int_range, lemma_subset_equality, set_int_range};
use vstd::utf8::char_u32_cast;

verus! {

/// Strict order of two records on one column: numeric for pid, CPU and
/// memory, case-insensitive lexicographic for the name.
pub open spec fn key_lt(col: SortColumn, a: RecordView, b: RecordView) -> bool {
    match col {
        SortColumn::Pid => a.pid < b.pid,
        SortColumn::Name => lex_lt(lower_of(a.name), lower_of(b.name)),
        SortColumn::Cpu => a.cpu < b.cpu,
        SortColumn::Memory => a.memory < b.memory,
    }
}

/// `a` must come strictly before `b` when ordering by `col` in `dir`.
pub open spec fn before(col: SortColumn, dir: SortDirection, a: RecordView, b: RecordView) -> bool {
    match dir {
        SortDirection::Ascending => key_lt(col, a, b),
        SortDirection::Descending => key_lt(col, b, a),
    }
}

/// In a stable sort, `a` (input position `ia`) is placed before `b` (input
/// position `ib`): it sorts strictly first, or the two tie and `a` came first.
pub open spec fn precedes(
    col: SortColumn,
    dir: SortDirection,
    a: RecordView,
    ia: int,
    b: RecordView,
    ib: int,
) -> bool {
    before(col, dir, a, b) || (!before(col, dir, b, a) && ia < ib)
}

/// `p` lists every input position of `s` once, and in it each neighbour
/// pair is in stable-sort order.
pub open spec fn is_stable_order(
    s: Seq<RecordView>,
    col: SortColumn,
    dir: SortDirection,
    p: Seq<usize>,
) -> bool {
    &&& p.len() == s.len()
    &&& forall|i: int| 0 <= i < p.len() ==> #[trigger] p[i] < s.len()
    &&& forall|i: int, j: int| 0 <= i < j < p.len() ==> p[i] != p[j]
    &&& forall|i: int|
        0 <= i < p.len() - 1 ==> precedes(
            col,
            dir,
            s[#[trigger] p[i] as int],
            p[i] as int,
            s[p[i + 1] as int],
            p[i + 1] as int,
        )
}

/// The records of `s` taken in the order of positions `p`.
pub open spec fn arranged(s: Seq<RecordView>, p: Seq<usize>) -> Seq<RecordView> {
    p.map_values(|i: usize| s[i as int])
}

/// No record of `s` sorts strictly before its predecessor: the sequence is
/// non-decreasing (ascending) or non-increasing (descending) on `col`.
pub open spec fn is_sorted_by(s: Seq<RecordView>, col: SortColumn, dir: SortDirection) -> bool {
    forall|i: int| 0 <= i < s.len() - 1 ==> !before(col, dir, #[trigger] s[i + 1], s[i])
}

fn key_less(
    col: SortColumn,
    a: &ProcessRecord,
    la: &Vec<char>,
    b: &ProcessRecord,
    lb: &Vec<char>,
) -> (r: bool)
    requires
        la@ == lower_of(a.name@),
        lb@ == lower_of(b.name@),
    ensures
        r == key_lt(col, a@, b@),
{
    match col {
        SortColumn::Pid => a.pid < b.pid,
        SortColumn::Name => chars_lt(la, lb),
        SortColumn::Cpu => a.cpu < b.cpu,
        SortColumn::Memory => a.memory < b.memory,
    }
}

fn sorts_before(
    col: SortColumn,
    dir: SortDirection,
    a: &ProcessRecord,
    la: &Vec<char>,
    b: &ProcessRecord,
    lb: &Vec<char>,
) -> (r: bool)
    requires
        la@ == lower_of(a.name@),
        lb@ == lower_of(b.name@),
    ensures
        r == before(col, dir, a@, b@),
{
    match dir {
        SortDirection::Ascending => key_less(col, a, la, b, lb),
        SortDirection::Descending => key_less(col, b, lb, a, la),
    }
}

/// The positions of `records` in stable sorted order by `col` and `dir`.
#[verifier::rlimit(40)]
pub fn sort_order(records: &Vec<ProcessRecord>, col: SortColumn, dir: SortDirection) -> (order: Vec<
    usize,
>)
    ensures
        is_stable_order(views(records@), col, dir, order@),
{
    let ghost s = views(records@);
    let n = records.len();
    let mut lowered: Vec<Vec<char>> = Vec::new();
    let mut i: usize = 0;
    while i < n
        invariant
            n == records@.len(),
            i <= n,
            lowered@.len() == i,
            forall|k: int| 0 <= k < i ==> (#[trigger] lowered@[k])@ == lower_of(records@[k].name@),
        decreases n - i,
    {
        lowered.push(lowercase_chars(records[i].name.as_str()));
        i = i + 1;
    }
    let mut order: Vec<usize> = Vec::new();
    let mut i: usize = 0;
    while i < n
        invariant
            n == records@.len(),
            s == views(records@),
            i <= n,
            lowered@.len() == n,
            forall|k: int| 0 <= k < n ==> (#[trigger] lowered@[k])@ == lower_of(records@[k].name@),
            order@.len() == i,
            forall|a: int| 0 <= a < order@.len() ==> #[trigger] order@[a] < i,
            forall|a: int, b: int| 0 <= a < b < order@.len() ==> order@[a] != order@[b],
            forall|a: int|
                0 <= a < order@.len() - 1 ==> precedes(
                    col,
                    dir,
                    s[#[trigger] order@[a] as int],
                    order@[a] as int,
                    s[order@[a + 1] as int],
                    order@[a + 1] as int,
                ),
        decreases n - i,
    {
        let mut k: usize = order.len();
        while k > 0 && sorts_before(
            col,
            dir,
            &records[i],
            &lowered[i],
            &records[order[k - 1]],
            &lowered[order[k - 1]],
        )
            invariant
                n == records@.len(),
                s == views(records@),
                i < n,
                lowered@.len() == n,
                forall|t: int|
                    0 <= t < n ==> (#[trigger] lowered@[t])@ == lower_of(records@[t].name@),
                order@.len() == i,
                forall|a: int| 0 <= a < order@.len() ==> #[trigger] order@[a] < i,
                k <= order@.len(),
                k < order@.len() ==> before(col, dir, s[i as int], s[order@[k as int] as int]),
            decreases k,
        {
            k = k - 1;
        }
        let ghost old_order = order@;
        order.insert(k, i);
        proof {
            assert(order@ == old_order.subrange(0, k as int).push(i).add(
                old_order.subrange(k as int, old_order.len() as int),
            ));
            assert forall|a: int| 0 <= a < order@.len() - 1 implies precedes(
                col,
                dir,
                s[#[trigger] order@[a] as int],
                order@[a] as int,
                s[order@[a + 1] as int],
                order@[a + 1] as int,
            ) by {
                if a < k as int - 1 {
                    assert(order@[a] == old_order[a]);
                    assert(order@[a + 1] == old_order[a + 1]);
                } else if a == k as int - 1 {
                    assert(order@[a] == old_order[a]);
                    assert(order@[a + 1] == i);
                } else if a == k as int {
                    assert(order@[a] == i);
                    assert(order@[a + 1] == old_order[a]);
                } else {
                    assert(order@[a] == old_order[a - 1]);
                    assert(order@[a + 1] == old_order[a]);
                }
            }
            assert forall|a: int, b: int| 0 <= a < b < order@.len() implies order@[a]
                != order@[b] by {
                if a < k && b < k {
                    assert(order@[a] == old_order[a] && order@[b] == old_order[b]);
                } else if a < k && b > k {
                    assert(order@[a] == old_order[a] && order@[b] == old_order[b - 1]);
                } else if a > k && b > k {
                    assert(order@[a] == old_order[a - 1] && order@[b] == old_order[b - 1]);
                } else if a == k {
                    assert(order@[b] == old_order[b - 1]);
                } else {
                    assert(order@[a] == old_order[a]);
                }
            }
        }
        i = i + 1;
    }
    order
}

/// The records of `records` in stable sorted order by `col` and `dir`.
pub fn sort_records(records: &Vec<ProcessRecord>, col: SortColumn, dir: SortDirection) -> (r: Vec<
    ProcessRecord,
>)
    ensures
        is_sorted_by(views(r@), col, dir),
        exists|p: Seq<usize>|
            is_stable_order(views(records@), col, dir, p) && views(r@) == arranged(
                views(records@),
                p,
            ),
{
    let order = sort_order(records, col, dir);
    let mut r: Vec<ProcessRecord> = Vec::new();
    let mut j: usize = 0;
    while j < order.len()
        invariant
            is_stable_order(views(records@), col, dir, order@),
            j <= order@.len(),
            r@.len() == j,
            forall|t: int| 0 <= t < j ==> (#[trigger] r@[t])@ == records@[order@[t] as int]@,
        decreases order@.len() - j,
    {
        r.push(records[order[j]].duplicate());
        j = j + 1;
    }
    let ghost s = views(records@);
    assert(views(r@) =~= arranged(s, order@));
    assert forall|i: int| 0 <= i < views(r@).len() - 1 implies !before(
        col,
        dir,
        #[trigger] views(r@)[i + 1],
        views(r@)[i],
    ) by {
        assert(precedes(
            col,
            dir,
            s[order@[i] as int],
            order@[i] as int,
            s[order@[i + 1] as int],
            order@[i + 1] as int,
        ));
        lemma_before_asymmetric(col, dir, s[order@[i] as int], s[order@[i + 1] as int]);
    }
    r
}

/// No record sorts strictly before a record that sorts strictly before it.
pub proof fn lemma_before_asymmetric(
    col: SortColumn,
    dir: SortDirection,
    a: RecordView,
    b: RecordView,
)
    ensures
        !(before(col, dir, a, b) && before(col, dir, b, a)),
{
    if col == SortColumn::Name {
        lemma_lex_lt_asymmetric(lower_of(a.name), lower_of(b.name));
    }
}

/// Lexicographic order is asymmetric.
pub proof fn lemma_lex_lt_asymmetric(a: Seq<char>, b: Seq<char>)
    ensures
        !(lex_lt(a, b) && lex_lt(b, a)),
    decreases a.len(),
{
    if a.len() > 0 && b.len() > 0 && a[0] == b[0] {
        lemma_lex_lt_asymmetric(a.drop_first(), b.drop_first());
    }
}

/// Lexicographic order is transitive.
pub proof fn lemma_lex_lt_transitive(a: Seq<char>, b: Seq<char>, c: Seq<char>)
    requires
        lex_lt(a, b),
        lex_lt(b, c),
    ensures
        lex_lt(a, c),
    decreases a.len(),
{
    if a.len() > 0 && b.len() > 0 && c.len() > 0 && a[0] == b[0] && b[0] == c[0] {
        lemma_lex_lt_transitive(a.drop_first(), b.drop_first(), c.drop_first());
    }
}

/// The strict order on a column is transitive.
pub proof fn lemma_key_lt_transitive(col: SortColumn, a: RecordView, b: RecordView, c: RecordView)
    requires
        key_lt(col, a, b),
        key_lt(col, b, c),
    ensures
        key_lt(col, a, c),
{
    if col == SortColumn::Name {
        lemma_lex_lt_transitive(lower_of(a.name), lower_of(b.name), lower_of(c.name));
    }
}

/// Two records have the same key on `col`.
pub open spec fn key_eq(col: SortColumn, a: RecordView, b: RecordView) -> bool {
    match col {
        SortColumn::Pid => a.pid == b.pid,
        SortColumn::Name => lower_of(a.name) == lower_of(b.name),
        SortColumn::Cpu => a.cpu == b.cpu,
        SortColumn::Memory => a.memory == b.memory,
    }
}

/// Lexicographic order is total: of two different sequences one comes first.
pub proof fn lemma_lex_lt_total(a: Seq<char>, b: Seq<char>)
    ensures
        lex_lt(a, b) || lex_lt(b, a) || a == b,
    decreases a.len(),
{
    if a.len() == 0 && b.len() == 0 {
        assert(a =~= b);
    } else if a.len() > 0 && b.len() > 0 && a[0] == b[0] {
        lemma_lex_lt_total(a.drop_first(), b.drop_first());
        if a.drop_first() == b.drop_first() {
            assert(a.len() == b.drop_first().len() + 1);
            assert forall|i: int| 0 <= i < a.len() implies a[i] == b[i] by {
                if i > 0 {
                    assert(a[i] == a.drop_first()[i - 1]);
                    assert(b[i] == b.drop_first()[i - 1]);
                }
            }
            assert(a =~= b);
        }
    } else if a.len() > 0 && b.len() > 0 {
        char_u32_cast(a[0], a[0] as u32);
        char_u32_cast(b[0], b[0] as u32);
    }
}

/// Records that neither sort before the other have the same key.
pub proof fn lemma_key_tie(col: SortColumn, a: RecordView, b: RecordView)
    ensures
        !key_lt(col, a, b) && !key_lt(col, b, a) ==> key_eq(col, a, b),
{
    if col == SortColumn::Name {
        lemma_lex_lt_total(lower_of(a.name), lower_of(b.name));
    }
}

/// The stable-sort placement is transitive.
pub proof fn lemma_precedes_transitive(
    col: SortColumn,
    dir: SortDirection,
    a: RecordView,
    ia: int,
    b: RecordView,
    ib: int,
    c: RecordView,
    ic: int,
)
    requires
        precedes(col, dir, a, ia, b, ib),
        precedes(col, dir, b, ib, c, ic),
    ensures
        precedes(col, dir, a, ia, c, ic),
{
    lemma_key_tie(col, a, b);
    lemma_key_tie(col, b, c);
    lemma_key_tie(col, a, c);
    lemma_before_asymmetric(col, dir, a, b);
    lemma_before_asymmetric(col, dir, b, c);
    lemma_before_asymmetric(col, dir, a, c);
    if key_lt(col, a, b) && key_lt(col, b, c) {
        lemma_key_lt_transitive(col, a, b, c);
    }
    if key_lt(col, c, b) && key_lt(col, b, a) {
        lemma_key_lt_transitive(col, c, b, a);
    }
}

/// In a stable order every earlier position is placed before every later
/// one: the records are sorted, and records with equal keys keep their
/// input order.
pub proof fn lemma_stable_order_pairwise(
    s: Seq<RecordView>,
    col: SortColumn,
    dir: SortDirection,
    p: Seq<usize>,
    i: int,
    j: int,
)
    requires
        is_stable_order(s, col, dir, p),
        0 <= i < j < p.len(),
    ensures
        precedes(col, dir, s[p[i] as int], p[i] as int, s[p[j] as int], p[j] as int),
    decreases j - i,
{
    assert(precedes(
        col,
        dir,
        s[p[i] as int],
        p[i] as int,
        s[p[i + 1] as int],
        p[i + 1] as int,
    ));
    if j > i + 1 {
        lemma_stable_order_pairwise(s, col, dir, p, i + 1, j);
        lemma_precedes_transitive(
            col,
            dir,
            s[p[i] as int],
            p[i] as int,
            s[p[i + 1] as int],
            p[i + 1] as int,
            s[p[j] as int],
            p[j] as int,
        );
    }
}

/// No two records of `s` tie on `col`.
pub open spec fn distinct_keys(s: Seq<RecordView>, col: SortColumn) -> bool {
    forall|i: int, j: int|
        0 <= i < s.len() && 0 <= j < s.len() && i != j ==> key_lt(col, s[i], s[j]) || key_lt(
            col,
            s[j],
            s[i],
        )
}

/// Every position on `col` is strictly below every later one.
pub open spec fn strictly_ascending(s: Seq<RecordView>, col: SortColumn, p: Seq<usize>) -> bool {
    forall|i: int, j: int|
        0 <= i < j < p.len() ==> key_lt(col, s[#[trigger] p[i] as int], s[#[trigger] p[j] as int])
}

proof fn lemma_order_strict(
    s: Seq<RecordView>,
    col: SortColumn,
    dir: SortDirection,
    p: Seq<usize>,
    i: int,
    j: int,
)
    requires
        distinct_keys(s, col),
        is_stable_order(s, col, dir, p),
        0 <= i < j < p.len(),
    ensures
        before(col, dir, s[p[i] as int], s[p[j] as int]),
    decreases j - i,
{
    let a = s[p[i] as int];
    let b = s[p[i + 1] as int];
    assert(precedes(col, dir, a, p[i] as int, b, p[i + 1] as int));
    assert(p[i] != p[i + 1]);
    lemma_before_asymmetric(col, dir, a, b);
    if j > i + 1 {
        lemma_order_strict(s, col, dir, p, i + 1, j);
        let c = s[p[j] as int];
        if dir == SortDirection::Ascending {
            lemma_key_lt_transitive(col, a, b, c);
        } else {
            lemma_key_lt_transitive(col, c, b, a);
        }
    }
}

/// An order lists every input position.
proof fn lemma_order_covers(p: Seq<usize>, n: nat, v: usize) -> (k: int)
    requires
        p.len() == n,
        forall|i: int| 0 <= i < p.len() ==> #[trigger] p[i] < n,
        forall|i: int, j: int| 0 <= i < j < p.len() ==> p[i] != p[j],
        v < n,
    ensures
        0 <= k < n,
        p[k] == v,
{
    let pi = p.map_values(|x: usize| x as int);
    assert(pi.no_duplicates()) by {
        assert forall|i: int, j: int| 0 <= i < pi.len() && 0 <= j < pi.len() && i != j implies pi[i]
            != pi[j] by {
            if i < j {
                assert(p[i] != p[j]);
            } else {
                assert(p[j] != p[i]);
            }
        }
    }
    pi.unique_seq_to_set();
    lemma_int_range(0, n as int);
    assert(pi.to_set().subset_of(set_int_range(0, n as int))) by {
        assert forall|x: int| pi.to_set().contains(x) implies set_int_range(0, n as int).contains(
            x,
        ) by {
            let t = choose|t: int| 0 <= t < pi.len() && pi[t] == x;
            assert(p[t] < n);
        }
    }
    lemma_subset_equality(pi.to_set(), set_int_range(0, n as int));
    assert(set_int_range(0, n as int).contains(v as int));
    assert(pi.to_set().contains(v as int));
    let k = choose|k: int| 0 <= k < pi.len() && pi[k] == v as int;
    k
}

proof fn lemma_prefix_agrees(s: Seq<RecordView>, col: SortColumn, p: Seq<usize>, r: Seq<usize>, i: int)
    requires
        p.len() == s.len() && r.len() == s.len(),
        forall|k: int| 0 <= k < p.len() ==> #[trigger] p[k] < s.len(),
        forall|k: int| 0 <= k < r.len() ==> #[trigger] r[k] < s.len(),
        forall|a: int, b: int| 0 <= a < b < p.len() ==> p[a] != p[b],
        forall|a: int, b: int| 0 <= a < b < r.len() ==> r[a] != r[b],
        strictly_ascending(s, col, p),
        strictly_ascending(s, col, r),
        0 <= i <= s.len(),
    ensures
        forall|k: int| 0 <= k < i ==> p[k] == r[k],
    decreases i,
{
    if i > 0 {
        let m = i - 1;
        lemma_prefix_agrees(s, col, p, r, m);
        if p[m] != r[m] {
            let j = lemma_order_covers(r, s.len(), p[m]);
            let t = lemma_order_covers(p, s.len(), r[m]);
            if j < m {
                assert(p[j] == r[j]);
            }
            if t < m {
                assert(p[t] == r[t]);
            }
            assert(j > m && t > m);
            assert(key_lt(col, s[r[m] as int], s[r[j] as int]));
            assert(key_lt(col, s[p[m] as int], s[p[t] as int]));
            lemma_before_asymmetric(col, SortDirection::Ascending, s[p[m] as int], s[r[m] as int]);
        }
    }
}

/// When no two records tie on `col`, the stable order in one direction is
/// the stable order in the other direction read backwards: sorting again by
/// the active column, which flips the direction, reverses the view.
pub proof fn lemma_opposite_directions_reverse(
    s: Seq<RecordView>,
    col: SortColumn,
    p: Seq<usize>,
    q: Seq<usize>,
)
    requires
        distinct_keys(s, col),
        is_stable_order(s, col, SortDirection::Ascending, p),
        is_stable_order(s, col, SortDirection::Descending, q),
    ensures
        q == p.reverse(),
        arranged(s, q) == arranged(s, p).reverse(),
{
    let n = s.len();
    let r = q.reverse();
    assert forall|i: int, j: int| 0 <= i < j < p.len() implies key_lt(
        col,
        s[#[trigger] p[i] as int],
        s[#[trigger] p[j] as int],
    ) by {
        lemma_order_strict(s, col, SortDirection::Ascending, p, i, j);
    }
    assert forall|i: int, j: int| 0 <= i < j < r.len() implies key_lt(
        col,
        s[#[trigger] r[i] as int],
        s[#[trigger] r[j] as int],
    ) by {
        lemma_order_strict(s, col, SortDirection::Descending, q, n - 1 - j, n - 1 - i);
    }
    assert forall|a: int, b: int| 0 <= a < b < r.len() implies r[a] != r[b] by {
        assert(q[n - 1 - b] != q[n - 1 - a]);
    }
    assert forall|k: int| 0 <= k < r.len() implies #[trigger] r[k] < s.len() by {
        assert(q[n - 1 - k] < s.len());
    }
    lemma_prefix_agrees(s, col, p, r, n as int);
    assert(r =~= p);
    assert(q =~= p.reverse());
    assert(arranged(s, q) =~= arranged(s, p).reverse());
}

} // verus!
