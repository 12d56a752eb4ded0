//! Slicing an ordered sequence into fixed-size pages.
use vstd::prelude::*;
use vstd::arithmetic::div_mod::{lemma_fundamental_div_mod, lemma_fundamental_div_mod_converse};
use crate::record::{ProcessRecord, views};

verus! {

/// The number of pages needed for `n` items at `page_size` items per page:
/// the ceiling of `n / page_size`, which is zero for zero items.
pub open spec fn page_count(n: nat, page_size: nat) -> nat
    recommends
        page_size > 0,
{
    ((n + page_size - 1) as nat / page_size) as nat
}

/// Start (inclusive) of page `i` within a sequence of `n` items.
pub open spec fn page_start(n: nat, i: int, page_size: nat) -> int {
    if i * page_size <= n {
        i * page_size
    } else {
        n as int
    }
}

/// End (exclusive) of page `i` within a sequence of `n` items.
pub open spec fn page_end(n: nat, i: int, page_size: nat) -> int {
    if (i + 1) * page_size <= n {
        (i + 1) * page_size
    } else {
        n as int
    }
}

/// The items of page `i`: `s[i*page_size .. min((i+1)*page_size, len)]`,
/// empty when the page lies past the end.
pub open spec fn page_of<T>(s: Seq<T>, i: int, page_size: nat) -> Seq<T> {
    s.subrange(page_start(s.len(), i, page_size), page_end(s.len(), i, page_size))
}

/// `k` is the ceiling of `n / page_size` exactly when `k` pages hold `n`
/// items and `k - 1` pages do not.
pub proof fn lemma_page_count(n: nat, page_size: nat, k: nat)
    requires
        page_size > 0,
        n <= k * page_size,
        k * page_size < n + page_size,
    ensures
        page_count(n, page_size) == k,
{
    lemma_fundamental_div_mod_converse(
        n + page_size - 1,
        page_size as int,
        k as int,
        n + page_size - 1 - k * page_size,
    );
}

/// `i` pages fit within `n` items exactly when `i` is at most `n / page_size`.
proof fn lemma_mul_le_iff(i: nat, page_size: nat, n: nat)
    requires
        page_size > 0,
    ensures
        (i * page_size <= n) == (i <= n / page_size),
{
    lemma_fundamental_div_mod(n as int, page_size as int);
    let q = n / page_size;
    let r = n % page_size;
    if i <= q {
        assert(i * page_size <= q * page_size) by (nonlinear_arith)
            requires
                i <= q,
        ;
    } else {
        assert(i * page_size >= q * page_size + page_size) by (nonlinear_arith)
            requires
                i >= q + 1,
        ;
    }
    assert(page_size * q == q * page_size) by (nonlinear_arith);
}

/// Splits `vec` into consecutive pages of `page_size` items; the last page
/// holds the remainder. A page size of zero gives no pages.
pub fn list_pagination<T>(vec: Vec<T>, page_size: usize) -> (pages: Vec<Vec<T>>)
    ensures
        page_size == 0 ==> pages@.len() == 0,
        page_size > 0 ==> pages@.len() == page_count(vec@.len(), page_size as nat),
        page_size > 0 ==> forall|i: int|
            0 <= i < pages@.len() ==> (#[trigger] pages@[i])@ == page_of(
                vec@,
                i,
                page_size as nat,
            ),
{
    let mut pages: Vec<Vec<T>> = Vec::new();
    if page_size == 0 {
        return pages;
    }
    let ghost orig = vec@;
    let ghost ps = page_size as nat;
    let total = vec.len();
    let mut rest = vec;
    let mut done: usize = 0;
    assert(pages@.len() * ps == 0) by (nonlinear_arith)
        requires pages@.len() == 0;
    while rest.len() > 0
        invariant
            page_size > 0,
            ps == page_size as nat,
            done <= orig.len(),
            orig.len() == total,
            rest@ == orig.subrange(done as int, orig.len() as int),
            done <= pages@.len() * ps,
            rest@.len() > 0 ==> done == pages@.len() * ps,
            pages@.len() > 0 ==> (pages@.len() - 1) * ps < done,
            forall|i: int|
                0 <= i < pages@.len() ==> (#[trigger] pages@[i])@ == page_of(orig, i, ps),
        decreases rest@.len(),
    {
        let take: usize = if rest.len() < page_size {
            rest.len()
        } else {
            page_size
        };
        assert(done + take <= orig.len());
        let tail = rest.split_off(take);
        let ghost k = pages@.len() as int;
        proof {
            assert((k + 1) * ps == k * ps + ps) by (nonlinear_arith);
            assert(page_start(orig.len(), k, ps) == done);
            assert(page_end(orig.len(), k, ps) == done + take);
            assert(rest@ =~= page_of(orig, k, ps));
        }
        pages.push(rest);
        rest = tail;
        done = done + take;
        proof {
            assert(rest@ =~= orig.subrange(done as int, orig.len() as int));
        }
    }
    proof {
        let k = pages@.len();
        if k > 0 {
            assert((k - 1) * ps + ps == k * ps) by (nonlinear_arith)
                requires k > 0;
        } else {
            assert(k * ps == 0) by (nonlinear_arith)
                requires k == 0;
        }
        lemma_page_count(orig.len(), ps, k);
    }
    pages
}

/// The number of pages for `n` items at `page_size` items per page.
pub fn total_pages(n: usize, page_size: usize) -> (r: usize)
    requires
        page_size > 0,
    ensures
        r == page_count(n as nat, page_size as nat),
{
    let q = n / page_size;
    let extra: usize = if n % page_size != 0 {
        1
    } else {
        0
    };
    proof {
        lemma_fundamental_div_mod(n as int, page_size as int);
        let k = q + extra;
        assert(k * page_size == q * page_size + extra * page_size) by (nonlinear_arith)
            requires
                k == q + extra,
        ;
        assert(page_size * q == q * page_size) by (nonlinear_arith);
        assert(q + extra <= n) by (nonlinear_arith)
            requires
                n == q * page_size + n % page_size,
                page_size > 0,
                extra == 1 ==> n % page_size > 0,
                extra <= 1,
                q >= 0,
        ;
        lemma_page_count(n as nat, page_size as nat, k as nat);
    }
    q + extra
}

/// A page index is valid for `n` items: below the page count, or zero
/// when there are no pages.
pub open spec fn page_in_range(index: nat, n: nat, page_size: nat) -> bool {
    if page_count(n, page_size) == 0 {
        index == 0
    } else {
        index < page_count(n, page_size)
    }
}

/// The index clamped into range for `n` items: unchanged when valid, the
/// last page when past the end, zero when there are no pages.
pub fn clamp_page_index(index: usize, n: usize, page_size: usize) -> (r: usize)
    requires
        page_size > 0,
    ensures
        page_in_range(r as nat, n as nat, page_size as nat),
        page_in_range(index as nat, n as nat, page_size as nat) ==> r == index,
        page_count(n as nat, page_size as nat) > 0 && index >= page_count(
            n as nat,
            page_size as nat,
        ) ==> r == page_count(n as nat, page_size as nat) - 1,
{
    let count = total_pages(n, page_size);
    if count == 0 {
        0
    } else if index < count {
        index
    } else {
        count - 1
    }
}

/// The index of the following page; unchanged on the last page.
pub fn next_page_index(index: usize, n: usize, page_size: usize) -> (r: usize)
    requires
        page_size > 0,
    ensures
        index + 1 < page_count(n as nat, page_size as nat) ==> r == index + 1,
        index + 1 >= page_count(n as nat, page_size as nat) ==> r == index,
{
    let count = total_pages(n, page_size);
    if index < count && index + 1 < count {
        index + 1
    } else {
        index
    }
}

/// The index of the preceding page; unchanged on the first page.
pub fn prev_page_index(index: usize) -> (r: usize)
    ensures
        index > 0 ==> r == index - 1,
        index == 0 ==> r == 0,
{
    if index > 0 {
        index - 1
    } else {
        0
    }
}

/// Copies of the records on page `index`.
pub fn page_slice(records: &Vec<ProcessRecord>, index: usize, page_size: usize) -> (r: Vec<
    ProcessRecord,
>)
    ensures
        views(r@) == page_of(views(records@), index as int, page_size as nat),
{
    let n = records.len();
    let ghost ps = page_size as nat;
    let mut start: usize = 0;
    let mut end: usize = 0;
    if page_size > 0 {
        let full = n / page_size;
        proof {
            lemma_mul_le_iff(index as nat, ps, n as nat);
            lemma_mul_le_iff(index as nat + 1, ps, n as nat);
            assert(index * ps <= (index + 1) * ps) by (nonlinear_arith);
        }
        start = if index <= full {
            index * page_size
        } else {
            n
        };
        end = if index < full {
            (index + 1) * page_size
        } else {
            n
        };
    }
    let mut r: Vec<ProcessRecord> = Vec::new();
    let mut j: usize = start;
    while j < end
        invariant
            n == records@.len(),
            start <= end <= n,
            start <= j <= end,
            r@.len() == j - start,
            forall|t: int| 0 <= t < r@.len() ==> (#[trigger] r@[t])@ == records@[start + t]@,
        decreases end - j,
    {
        r.push(records[j].duplicate());
        j = j + 1;
    }
    assert(views(r@) =~= page_of(views(records@), index as int, page_size as nat));
    r
}

} // verus!
