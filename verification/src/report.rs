//! The duplicate report: keep the cards held more than once, sort them by
//! descending count, and render one line per card.

use vstd::prelude::*;
use vstd::seq_lib::group_to_multiset_ensures;

use crate::deck::Card;
use crate::tally::{count_occurrences, distinct_keys, occ};
use crate::text::{report_line, spec_report_line};

verus! {

/// A row survives the filter when its card was seen more than once.
pub open spec fn is_dup(p: (Card, usize)) -> bool {
    p.1 > 1
}

/// The rows of `t` whose count is above one, in order.
pub open spec fn dup_rows(t: Seq<(Card, usize)>) -> Seq<(Card, usize)>
    decreases t.len(),
{
    if t.len() == 0 {
        Seq::empty()
    } else if is_dup(t.last()) {
        dup_rows(t.drop_last()).push(t.last())
    } else {
        dup_rows(t.drop_last())
    }
}

/// A row is kept exactly when it stood in the table with a count above one.
pub proof fn lemma_dup_rows_contains(t: Seq<(Card, usize)>, p: (Card, usize))
    ensures
        dup_rows(t).contains(p) <==> t.contains(p) && is_dup(p),
    decreases t.len(),
{
    if t.len() > 0 {
        lemma_dup_rows_contains(t.drop_last(), p);
        assert(t.last() == t[t.len() - 1]);
        assert forall|j: int| 0 <= j < t.len() - 1 implies t.drop_last()[j] == t[j] by {}
        if t.drop_last().contains(p) {
            let j = choose|j: int| 0 <= j < t.len() - 1 && t.drop_last()[j] == p;
            assert(t[j] == p);
        }
        if t.contains(p) && p != t.last() {
            let j = choose|j: int| 0 <= j < t.len() && t[j] == p;
            assert(t.drop_last()[j] == p);
        }
        if is_dup(t.last()) {
            let kept = dup_rows(t.drop_last()).push(t.last());
            assert(kept[kept.len() - 1] == t.last());
            if dup_rows(t.drop_last()).contains(p) {
                let j = choose|j: int|
                    0 <= j < dup_rows(t.drop_last()).len() && dup_rows(t.drop_last())[j] == p;
                assert(kept[j] == p);
            }
            if kept.contains(p) {
                let j = choose|j: int| 0 <= j < kept.len() && kept[j] == p;
                if j < kept.len() - 1 {
                    assert(dup_rows(t.drop_last())[j] == p);
                }
            }
        }
    }
}

/// Filtering keeps the keys pairwise distinct.
proof fn lemma_dup_rows_distinct(t: Seq<(Card, usize)>)
    requires
        distinct_keys(t),
    ensures
        distinct_keys(dup_rows(t)),
    decreases t.len(),
{
    if t.len() > 0 {
        assert forall|j: int| 0 <= j < t.len() - 1 implies t.drop_last()[j] == t[j] by {}
        assert(distinct_keys(t.drop_last()));
        lemma_dup_rows_distinct(t.drop_last());
        if is_dup(t.last()) {
            let prev = dup_rows(t.drop_last());
            let kept = prev.push(t.last());
            assert forall|i: int, j: int| 0 <= i < j < kept.len() implies (#[trigger] kept[i]).0
                != (#[trigger] kept[j]).0 by {
                if j == kept.len() - 1 {
                    assert(prev.contains(prev[i]));
                    lemma_dup_rows_contains(t.drop_last(), prev[i]);
                    let w = choose|w: int| 0 <= w < t.len() - 1 && t.drop_last()[w] == prev[i];
                    assert(t[w] == prev[i]);
                    assert(t.last() == t[t.len() - 1]);
                    assert(t[w].0 != t[t.len() - 1].0);
                } else {
                    assert(kept[i] == prev[i] && kept[j] == prev[j]);
                }
            }
        }
    }
}

/// Keeps the rows with a count above one, in table order.
pub fn filter_duplicates(table: &Vec<(Card, usize)>) -> (dupes: Vec<(Card, usize)>)
    ensures
        dupes@ == dup_rows(table@),
{
    let mut out: Vec<(Card, usize)> = Vec::new();
    let n = table.len();
    let mut i: usize = 0;
    while i < n
        invariant
            n == table.len(),
            i <= n,
            out@ == dup_rows(table@.take(i as int)),
        decreases n - i,
    {
        let p = table[i];
        proof {
            assert(table@.take(i as int + 1).drop_last() =~= table@.take(i as int));
            assert(table@.take(i as int + 1).last() == p);
        }
        if p.1 > 1 {
            out.push(p);
        }
        i = i + 1;
    }
    proof {
        assert(table@.take(n as int) =~= table@);
    }
    out
}

/// The report order: larger counts first; among equal counts, smaller card
/// id first, then smaller season.  A total order, so the sorted report is
/// unique.
pub open spec fn row_le(a: (Card, usize), b: (Card, usize)) -> bool {
    ||| a.1 > b.1
    ||| (a.1 == b.1 && (a.0.id < b.0.id || (a.0.id == b.0.id && a.0.season <= b.0.season)))
}

/// The rows stand in report order.
pub open spec fn sorted_rows(s: Seq<(Card, usize)>) -> bool {
    forall|i: int, j: int| 0 <= i < j < s.len() ==> row_le(#[trigger] s[i], #[trigger] s[j])
}

fn row_le_exec(a: (Card, usize), b: (Card, usize)) -> (r: bool)
    ensures
        r == row_le(a, b),
{
    a.1 > b.1 || (a.1 == b.1 && (a.0.id < b.0.id || (a.0.id == b.0.id && a.0.season <= b.0.season)))
}

/// Sorts the rows into report order.  The result holds exactly the rows that
/// went in.
pub fn sort_rows(rows: Vec<(Card, usize)>) -> (sorted: Vec<(Card, usize)>)
    ensures
        sorted_rows(sorted@),
        sorted@.to_multiset() == rows@.to_multiset(),
{
    broadcast use group_to_multiset_ensures;

    let ghost orig = rows@;
    let mut rem = rows;
    let mut out: Vec<(Card, usize)> = Vec::new();
    while rem.len() > 0
        invariant
            out@.to_multiset().add(rem@.to_multiset()) == orig.to_multiset(),
            sorted_rows(out@),
            forall|i: int, j: int|
                0 <= i < out@.len() && 0 <= j < rem@.len() ==> row_le(
                    #[trigger] out@[i],
                    #[trigger] rem@[j],
                ),
        decreases rem.len(),
    {
        let mut m: usize = 0;
        let mut k: usize = 1;
        while k < rem.len()
            invariant
                m < k <= rem.len(),
                forall|t: int| 0 <= t < k ==> row_le(rem@[m as int], #[trigger] rem@[t]),
            decreases rem.len() - k,
        {
            if !row_le_exec(rem[m], rem[k]) {
                assert forall|t: int| 0 <= t < k + 1 implies row_le(
                    rem@[k as int],
                    #[trigger] rem@[t],
                ) by {
                    assert(row_le(rem@[m as int], rem@[t]) || t == k);
                }
                m = k;
            }
            k = k + 1;
        }
        let ghost rem_old = rem@;
        let x = rem.remove(m);
        proof {
            broadcast use vstd::multiset::group_multiset_axioms;

            assert(rem_old[m as int] == x);
            vstd::seq_lib::to_multiset_remove(rem_old, m as int);
            vstd::seq_lib::to_multiset_build(out@, x);
            vstd::seq_lib::to_multiset_contains(rem_old, x);
            assert(rem@.to_multiset() == rem_old.to_multiset().remove(x));
            assert(rem_old.contains(x));
            assert(rem_old.to_multiset().count(x) >= 1);
            assert(out@.push(x).to_multiset().add(rem@.to_multiset()) =~= orig.to_multiset());
            assert forall|i: int, j: int|
                0 <= i < out@.push(x).len() && 0 <= j < rem@.len() implies row_le(
                    #[trigger] out@.push(x)[i],
                    #[trigger] rem@[j],
                ) by {
                vstd::seq_lib::to_multiset_contains(rem@, rem@[j]);
                vstd::seq_lib::to_multiset_contains(rem_old, rem@[j]);
                assert(rem@.contains(rem@[j]));
                assert(rem@.to_multiset().count(rem@[j]) >= 1);
                assert(rem_old.to_multiset().count(rem@[j]) >= 1);
                assert(rem_old.contains(rem@[j]));
                let w = choose|w: int| 0 <= w < rem_old.len() && rem_old[w] == rem@[j];
                if i < out@.len() {
                    assert(out@.push(x)[i] == out@[i]);
                    assert(row_le(out@[i], rem_old[w]));
                } else {
                    assert(out@.push(x)[i] == x);
                    assert(row_le(x, rem_old[w]));
                }
            }
            assert(sorted_rows(out@.push(x))) by {
                assert forall|i: int, j: int| 0 <= i < j < out@.push(x).len() implies row_le(
                    #[trigger] out@.push(x)[i],
                    #[trigger] out@.push(x)[j],
                ) by {
                    if j < out@.len() {
                        assert(out@.push(x)[i] == out@[i] && out@.push(x)[j] == out@[j]);
                    } else {
                        assert(out@.push(x)[j] == x);
                        assert(rem_old.contains(x));
                    }
                }
            }
        }
        out.push(x);
    }
    proof {
        broadcast use vstd::multiset::group_multiset_axioms;

        assert(rem@ =~= Seq::<(Card, usize)>::empty());
        assert forall|p: (Card, usize)| #[trigger] rem@.to_multiset().count(p) == 0 by {
            vstd::seq_lib::to_multiset_contains(rem@, p);
        }
        assert(out@.to_multiset().add(rem@.to_multiset()) =~= out@.to_multiset());
    }
    out
}

/// Builds the duplicate report for a deck: one row per card that occurs more
/// than once, carrying that card's occurrence count, in report order.
pub fn build_report(cards: &Vec<Card>) -> (rows: Vec<(Card, usize)>)
    ensures
        sorted_rows(rows@),
        distinct_keys(rows@),
        forall|p: (Card, usize)| #[trigger]
            rows@.contains(p) <==> occ(cards@, p.0) == p.1 && p.1 >= 2,
{
    let table = count_occurrences(cards);
    let dupes = filter_duplicates(&table);
    let rows = sort_rows(dupes);
    proof {
        assert forall|p: (Card, usize)| #[trigger]
            rows@.contains(p) <==> occ(cards@, p.0) == p.1 && p.1 >= 2 by {
            vstd::seq_lib::to_multiset_contains(rows@, p);
            vstd::seq_lib::to_multiset_contains(dupes@, p);
            lemma_dup_rows_contains(table@, p);
        }
        lemma_dup_rows_distinct(table@);
        assert(dupes@.no_duplicates());
        dupes@.lemma_multiset_has_no_duplicates();
        rows@.lemma_multiset_has_no_duplicates_conv();
        assert forall|i: int, j: int| 0 <= i < j < rows@.len() implies (#[trigger] rows@[i]).0
            != (#[trigger] rows@[j]).0 by {
            if rows@[i].0 == rows@[j].0 {
                assert(rows@.contains(rows@[i]));
                assert(rows@.contains(rows@[j]));
                assert(occ(cards@, rows@[i].0) == rows@[i].1);
                assert(occ(cards@, rows@[j].0) == rows@[j].1);
                assert(rows@[i] == rows@[j]);
            }
        }
    }
    rows
}

/// Renders the report rows, one line per row, in order.
pub fn report_lines(rows: &Vec<(Card, usize)>) -> (lines: Vec<String>)
    ensures
        lines@.len() == rows@.len(),
        forall|i: int|
            0 <= i < rows@.len() ==> (#[trigger] lines@[i])@ == spec_report_line(
                rows@[i].0,
                rows@[i].1 as int,
            ),
{
    let mut lines: Vec<String> = Vec::new();
    let n = rows.len();
    let mut i: usize = 0;
    while i < n
        invariant
            n == rows.len(),
            i <= n,
            lines@.len() == i,
            forall|j: int|
                0 <= j < i ==> (#[trigger] lines@[j])@ == spec_report_line(
                    rows@[j].0,
                    rows@[j].1 as int,
                ),
        decreases n - i,
    {
        let p = rows[i];
        let line = report_line(&p.0, p.1);
        lines.push(line);
        i = i + 1;
    }
    lines
}

} // verus!
