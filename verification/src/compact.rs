//! Selecting entries of a list and renumbering the indices that refer to
//! them.
use vstd::prelude::*;

verus! {

/// The number of entries among the first `n` that are kept.
pub open spec fn count(keep: Seq<bool>, n: int) -> nat
    decreases n,
{
    if n <= 0 || n > keep.len() {
        0
    } else if keep[n - 1] {
        count(keep, n - 1) + 1
    } else {
        count(keep, n - 1)
    }
}

/// The number of entries that are kept.
pub open spec fn kept_len(keep: Seq<bool>) -> nat {
    count(keep, keep.len() as int)
}

/// Those of the first `n` entries of `list` that are kept, in their order.
pub open spec fn select<T>(list: Seq<T>, keep: Seq<bool>, n: int) -> Seq<T>
    decreases n,
{
    if n <= 0 || n > list.len() || n > keep.len() {
        Seq::empty()
    } else if keep[n - 1] {
        select(list, keep, n - 1).push(list[n - 1])
    } else {
        select(list, keep, n - 1)
    }
}

/// The entries of `list` that are kept, in their order.
pub open spec fn selected<T>(list: Seq<T>, keep: Seq<bool>) -> Seq<T> {
    select(list, keep, list.len() as int)
}

/// Whether `table` gives every entry the number of kept entries before it:
/// the place of a kept entry among the kept.
pub open spec fn ranks(table: Seq<usize>, keep: Seq<bool>) -> bool {
    table.len() == keep.len() && forall|i: int| 0 <= i < keep.len() ==> #[trigger] table[i] == count(keep, i)
}

/// The indices of `list`, renumbered by `table`.
pub open spec fn remap(list: Seq<usize>, table: Seq<usize>) -> Seq<usize> {
    Seq::new(list.len(), |i: int| table[list[i] as int])
}

/// The index, if there is one, renumbered by `table`.
pub open spec fn remap_opt(i: Option<usize>, table: Seq<usize>) -> Option<usize> {
    match i {
        Some(k) => Some(table[k as int]),
        None => None,
    }
}

/// Whether every entry is kept.
pub open spec fn all_kept(keep: Seq<bool>) -> bool {
    forall|i: int| 0 <= i < keep.len() ==> #[trigger] keep[i]
}

/// No more entries are kept than there are.
pub proof fn lemma_count_bound(keep: Seq<bool>, n: int)
    requires
        0 <= n <= keep.len(),
    ensures
        count(keep, n) <= n,
    decreases n,
{
    if n > 0 {
        lemma_count_bound(keep, n - 1);
    }
}

/// The count does not fall as more entries are counted.
pub proof fn lemma_count_grows(keep: Seq<bool>, n: int, m: int)
    requires
        0 <= n <= m <= keep.len(),
    ensures
        count(keep, n) <= count(keep, m),
    decreases m - n,
{
    if n < m {
        lemma_count_grows(keep, n, m - 1);
    }
}

/// A kept entry has a place among the kept.
pub proof fn lemma_rank_below(keep: Seq<bool>, i: int)
    requires
        0 <= i < keep.len(),
        keep[i],
    ensures
        count(keep, i) < kept_len(keep),
{
    lemma_count_grows(keep, i + 1, keep.len() as int);
}

/// Where an entry is not kept, fewer are kept than there are.
pub proof fn lemma_count_drops(keep: Seq<bool>, i: int)
    requires
        0 <= i < keep.len(),
        !keep[i],
    ensures
        kept_len(keep) < keep.len(),
{
    lemma_count_bound(keep, i);
    lemma_count_suffix(keep, i + 1, keep.len() as int);
}

/// Counting more entries adds at most their number.
proof fn lemma_count_suffix(keep: Seq<bool>, n: int, m: int)
    requires
        0 <= n <= m <= keep.len(),
    ensures
        count(keep, m) <= count(keep, n) + (m - n),
    decreases m - n,
{
    if n < m {
        lemma_count_suffix(keep, n, m - 1);
    }
}

/// Where every entry is kept, each has its own index as its place.
pub proof fn lemma_count_all(keep: Seq<bool>, n: int)
    requires
        0 <= n <= keep.len(),
        all_kept(keep),
    ensures
        count(keep, n) == n,
    decreases n,
{
    if n > 0 {
        lemma_count_all(keep, n - 1);
    }
}

/// As many entries are selected as are kept.
pub proof fn lemma_select_len<T>(list: Seq<T>, keep: Seq<bool>, n: int)
    requires
        0 <= n <= list.len(),
        list.len() == keep.len(),
    ensures
        select(list, keep, n).len() == count(keep, n),
    decreases n,
{
    if n > 0 {
        lemma_select_len(list, keep, n - 1);
    }
}

/// A kept entry stands at its place among the selected.
pub proof fn lemma_select_at<T>(list: Seq<T>, keep: Seq<bool>, n: int, i: int)
    requires
        0 <= i < n <= list.len(),
        list.len() == keep.len(),
        keep[i],
    ensures
        count(keep, i) < select(list, keep, n).len(),
        select(list, keep, n)[count(keep, i) as int] == list[i],
    decreases n,
{
    lemma_select_len(list, keep, n - 1);
    lemma_select_len(list, keep, n);
    if i < n - 1 {
        lemma_select_at(list, keep, n - 1, i);
    }
}

/// Every selected entry is a kept entry of the list.
pub proof fn lemma_select_from<T>(list: Seq<T>, keep: Seq<bool>, n: int, k: int) -> (i: int)
    requires
        0 <= n <= list.len(),
        list.len() == keep.len(),
        0 <= k < select(list, keep, n).len(),
    ensures
        0 <= i < n,
        keep[i],
        count(keep, i) == k,
        select(list, keep, n)[k] == list[i],
    decreases n,
{
    lemma_select_len(list, keep, n - 1);
    if keep[n - 1] && k == count(keep, n - 1) {
        n - 1
    } else {
        lemma_select_from(list, keep, n - 1, k)
    }
}

/// Where every entry is kept, the selection is the list.
pub proof fn lemma_select_all<T>(list: Seq<T>, keep: Seq<bool>, n: int)
    requires
        0 <= n <= list.len(),
        list.len() == keep.len(),
        all_kept(keep),
    ensures
        select(list, keep, n) == list.subrange(0, n),
    decreases n,
{
    if n > 0 {
        lemma_select_all(list, keep, n - 1);
        assert(list.subrange(0, n) =~= list.subrange(0, n - 1).push(list[n - 1]));
    } else {
        assert(list.subrange(0, 0) =~= Seq::<T>::empty());
    }
}

/// Computes the place of every entry among the kept.
pub fn rank_table(keep: &Vec<bool>) -> (r: Vec<usize>)
    ensures
        ranks(r@, keep@),
{
    let mut table: Vec<usize> = Vec::new();
    let mut seen: usize = 0;
    let mut i: usize = 0;
    while i < keep.len()
        invariant
            i <= keep.len(),
            table.len() == i,
            seen == count(keep@, i as int),
            forall|j: int| 0 <= j < i ==> #[trigger] table@[j] == count(keep@, j),
        decreases keep.len() - i,
    {
        proof {
            lemma_count_bound(keep@, i as int);
        }
        table.push(seen);
        if keep[i] {
            seen += 1;
        }
        i += 1;
    }
    table
}

/// Decides whether every entry is kept.
pub fn keeps_all(keep: &Vec<bool>) -> (r: bool)
    ensures
        r == all_kept(keep@),
{
    let mut i: usize = 0;
    while i < keep.len()
        invariant
            i <= keep.len(),
            forall|j: int| 0 <= j < i ==> #[trigger] keep@[j],
        decreases keep.len() - i,
    {
        if !keep[i] {
            return false;
        }
        i += 1;
    }
    true
}

/// Renumbers the indices of `list` by `table`.
pub fn renumber(list: &Vec<usize>, table: &Vec<usize>) -> (r: Vec<usize>)
    requires
        forall|i: int| 0 <= i < list.len() ==> (#[trigger] list@[i]) < table.len(),
    ensures
        r@ == remap(list@, table@),
{
    let mut out: Vec<usize> = Vec::new();
    let mut i: usize = 0;
    while i < list.len()
        invariant
            i <= list.len(),
            out.len() == i,
            forall|j: int| 0 <= j < list.len() ==> (#[trigger] list@[j]) < table.len(),
            forall|j: int| 0 <= j < i ==> #[trigger] out@[j] == table@[list@[j] as int],
        decreases list.len() - i,
    {
        out.push(table[list[i]]);
        i += 1;
    }
    assert(out@ =~= remap(list@, table@));
    out
}

/// Renumbers the index, if there is one, by `table`.
pub fn renumber_opt(i: Option<usize>, table: &Vec<usize>) -> (r: Option<usize>)
    requires
        i matches Some(k) ==> k < table.len(),
    ensures
        r == remap_opt(i, table@),
{
    match i {
        Some(k) => Some(table[k]),
        None => None,
    }
}

} // verus!
