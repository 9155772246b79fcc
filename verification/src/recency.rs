//! Ordering rows by timestamp, latest first.
//!
//! Rows are handled as pairs of a timestamp and a payload. Among rows with
//! the same timestamp the one stored later counts as the later one.

use vstd::prelude::*;

verus! {

/// The position of the latest row: the greatest timestamp, and among equal
/// timestamps the last position. Zero for an empty sequence.
pub open spec fn latest_index<T>(rows: Seq<(i64, T)>) -> int
    decreases rows.len(),
{
    if rows.len() <= 1 {
        0
    } else {
        let k = latest_index(rows.drop_last());
        if rows.last().0 >= rows[k].0 {
            rows.len() - 1
        } else {
            k
        }
    }
}

/// The rows latest first: the latest row, then the latest of the remaining
/// rows, and so on.
pub open spec fn latest_first<T>(rows: Seq<(i64, T)>) -> Seq<(i64, T)>
    decreases rows.len(),
{
    if rows.len() == 0 {
        Seq::empty()
    } else {
        proof {
            lemma_latest_index(rows);
        }
        let i = latest_index(rows);
        seq![rows[i]] + latest_first(rows.remove(i))
    }
}

/// `rows` with each payload replaced by its view.
pub open spec fn viewed<T: View>(rows: Seq<(i64, T)>) -> Seq<(i64, T::V)> {
    Seq::new(rows.len(), |i: int| (rows[i].0, rows[i].1@))
}

/// The latest position is a position of the sequence, no row has a greater
/// timestamp, and every row after it has a smaller one.
pub proof fn lemma_latest_index<T>(rows: Seq<(i64, T)>)
    requires
        rows.len() > 0,
    ensures
        0 <= latest_index(rows) < rows.len(),
        forall|j: int| 0 <= j < rows.len() ==> (#[trigger] rows[j]).0 <= rows[latest_index(rows)].0,
        forall|j: int|
            latest_index(rows) < j < rows.len() ==> (#[trigger] rows[j]).0 < rows[latest_index(
                rows,
            )].0,
    decreases rows.len(),
{
    if rows.len() > 1 {
        let head = rows.drop_last();
        lemma_latest_index(head);
        let k = latest_index(head);
        assert(head[k] == rows[k]);
        let latest = latest_index(rows);
        assert forall|j: int| 0 <= j < rows.len() implies (#[trigger] rows[j]).0
            <= rows[latest].0 by {
            if j < head.len() {
                assert(head[j] == rows[j]);
            }
        }
        assert forall|j: int| latest_index(rows) < j < rows.len() implies (#[trigger] rows[j]).0
            < rows[latest_index(rows)].0 by {
            if j < head.len() {
                assert(head[j] == rows[j]);
            }
        }
    }
}

/// The latest position depends on the timestamps alone.
pub proof fn lemma_latest_index_viewed<T: View>(rows: Seq<(i64, T)>)
    ensures
        latest_index(viewed(rows)) == latest_index(rows),
    decreases rows.len(),
{
    if rows.len() > 1 {
        lemma_latest_index_viewed(rows.drop_last());
        assert(viewed(rows).drop_last() =~= viewed(rows.drop_last()));
        lemma_latest_index(rows.drop_last());
    }
}

/// Ordering commutes with taking views of the payloads.
pub proof fn lemma_latest_first_viewed<T: View>(rows: Seq<(i64, T)>)
    ensures
        latest_first(viewed(rows)) == viewed(latest_first(rows)),
    decreases rows.len(),
{
    lemma_latest_first_len(rows);
    if rows.len() > 0 {
        lemma_latest_index_viewed(rows);
        lemma_latest_index(rows);
        let i = latest_index(rows);
        lemma_latest_first_viewed(rows.remove(i));
        lemma_latest_first_len(rows.remove(i));
        assert(viewed(rows).remove(i) =~= viewed(rows.remove(i)));
        assert(latest_first(viewed(rows)) =~= viewed(latest_first(rows)));
    } else {
        assert(latest_first(viewed(rows)) =~= viewed(latest_first(rows)));
    }
}

/// Ordering keeps every row: the result has the length of the input.
pub proof fn lemma_latest_first_len<T>(rows: Seq<(i64, T)>)
    ensures
        latest_first(rows).len() == rows.len(),
    decreases rows.len(),
{
    if rows.len() > 0 {
        lemma_latest_index(rows);
        lemma_latest_first_len(rows.remove(latest_index(rows)));
    }
}

/// Ordering only rearranges: the result holds the same rows, each as often
/// as the input does.
pub proof fn lemma_latest_first_permutes<T>(rows: Seq<(i64, T)>)
    ensures
        latest_first(rows).to_multiset() == rows.to_multiset(),
    decreases rows.len(),
{
    broadcast use vstd::multiset::group_multiset_axioms;

    if rows.len() > 0 {
        lemma_latest_index(rows);
        let i = latest_index(rows);
        let rest = rows.remove(i);
        lemma_latest_first_permutes(rest);
        lemma_latest_first_len(rest);
        vstd::seq_lib::to_multiset_remove(rows, i);
        let tail = latest_first(rest);
        assert(latest_first(rows) =~= tail.insert(0, rows[i]));
        vstd::seq_lib::to_multiset_insert(tail, 0, rows[i]);
        rows.to_multiset_ensures();
        assert(rows.to_multiset().count(rows[i]) > 0);
        assert(latest_first(rows).to_multiset() =~= rows.to_multiset());
    } else {
        assert(latest_first(rows) =~= rows);
    }
}

/// Every row that comes out went in.
pub proof fn lemma_latest_first_members<T>(rows: Seq<(i64, T)>, a: int)
    requires
        0 <= a < rows.len(),
    ensures
        latest_first(rows).len() == rows.len(),
        rows.contains(latest_first(rows)[a]),
    decreases rows.len(),
{
    lemma_latest_first_len(rows);
    lemma_latest_index(rows);
    let i = latest_index(rows);
    let rest = rows.remove(i);
    lemma_latest_first_len(rest);
    if a == 0 {
        assert(rows[i] == latest_first(rows)[0]);
    } else {
        lemma_latest_first_members(rest, a - 1);
        let x = latest_first(rest)[a - 1];
        assert(latest_first(rows)[a] == x);
        let j = choose|j: int| 0 <= j < rest.len() && rest[j] == x;
        if j < i {
            assert(rows[j] == x);
        } else {
            assert(rows[j + 1] == x);
        }
    }
}

/// The timestamps come out in descending order.
pub proof fn lemma_latest_first_descends<T>(rows: Seq<(i64, T)>)
    ensures
        latest_first(rows).len() == rows.len(),
        forall|a: int, b: int|
            0 <= a <= b < rows.len() ==> (#[trigger] latest_first(rows)[a]).0 >= (
            #[trigger] latest_first(rows)[b]).0,
    decreases rows.len(),
{
    lemma_latest_first_len(rows);
    if rows.len() > 0 {
        lemma_latest_index(rows);
        let i = latest_index(rows);
        let rest = rows.remove(i);
        lemma_latest_first_descends(rest);
        let out = latest_first(rows);
        let tail = latest_first(rest);
        assert forall|a: int, b: int| 0 <= a <= b < rows.len() implies (#[trigger] out[a]).0 >= (
        #[trigger] out[b]).0 by {
            if a > 0 {
                assert(out[a] == tail[a - 1]);
                assert(out[b] == tail[b - 1]);
            } else if b > 0 {
                lemma_latest_first_members(rows, b);
                let j = choose|j: int| 0 <= j < rows.len() && rows[j] == out[b];
                assert(rows[j].0 <= rows[i].0);
            }
        }
    }
}

/// Finds the position of the latest row.
pub fn find_latest<T>(rows: &Vec<(i64, T)>) -> (i: usize)
    requires
        rows.len() > 0,
    ensures
        i == latest_index(rows@),
        i < rows.len(),
{
    let mut best: usize = 0;
    let mut j: usize = 1;
    assert(rows@.take(1).len() == 1);
    while j < rows.len()
        invariant
            1 <= j <= rows.len(),
            best < j,
            best == latest_index(rows@.take(j as int)),
        decreases rows.len() - j,
    {
        proof {
            assert(rows@.take(j + 1).drop_last() =~= rows@.take(j as int));
        }
        if rows[j].0 >= rows[best].0 {
            best = j;
        }
        j += 1;
    }
    assert(rows@.take(j as int) =~= rows@);
    best
}

/// Puts the rows in order, latest first.
pub fn sort_latest_first<T>(rows: Vec<(i64, T)>) -> (out: Vec<(i64, T)>)
    ensures
        out@ == latest_first(rows@),
{
    let ghost all = rows@;
    let mut rest = rows;
    let mut out: Vec<(i64, T)> = Vec::new();
    while rest.len() > 0
        invariant
            out@ + latest_first(rest@) == latest_first(all),
        decreases rest.len(),
    {
        let ghost before = rest@;
        let i = find_latest(&rest);
        let row = rest.remove(i);
        out.push(row);
        proof {
            assert(rest@ =~= before.remove(i as int));
            assert(out@ + latest_first(rest@) =~= out@.drop_last() + latest_first(before));
        }
    }
    assert(out@ + latest_first(rest@) =~= out@);
    out
}

} // verus!
