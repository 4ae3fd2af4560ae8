//! Counting how often each card occurs in a deck.
//!
//! The occurrence table is an association list with pairwise-distinct card
//! keys; `lookup` is its mathematical reading, and `occ` counts a card's
//! occurrences in the deck sequence.

use vstd::prelude::*;

use crate::deck::Card;

verus! {

/// How often `c` occurs in `s`.
pub open spec fn occ(s: Seq<Card>, c: Card) -> nat
    decreases s.len(),
{
    if s.len() == 0 {
        0
    } else {
        occ(s.drop_last(), c) + if s.last() == c {
            1nat
        } else {
            0nat
        }
    }
}

/// The keys of the table are pairwise distinct.
pub open spec fn distinct_keys(t: Seq<(Card, usize)>) -> bool {
    forall|i: int, j: int| 0 <= i < j < t.len() ==> (#[trigger] t[i]).0 != (#[trigger] t[j]).0
}

/// Some entry of `t` has key `c`.
pub open spec fn has_key(t: Seq<(Card, usize)>, c: Card) -> bool {
    exists|j: int| 0 <= j < t.len() && (#[trigger] t[j]).0 == c
}

/// The count stored for `c`, or zero when `c` has no entry.
pub open spec fn lookup(t: Seq<(Card, usize)>, c: Card) -> nat
    decreases t.len(),
{
    if t.len() == 0 {
        0
    } else if t.last().0 == c {
        t.last().1 as nat
    } else {
        lookup(t.drop_last(), c)
    }
}

/// A card without an entry looks up to zero.
proof fn lemma_lookup_absent(t: Seq<(Card, usize)>, c: Card)
    requires
        !has_key(t, c),
    ensures
        lookup(t, c) == 0,
    decreases t.len(),
{
    if t.len() > 0 {
        assert(t.last() == t[t.len() - 1]);
        assert(forall|j: int| 0 <= j < t.len() - 1 ==> t.drop_last()[j] == t[j]);
        lemma_lookup_absent(t.drop_last(), c);
    }
}

/// With distinct keys, the entry holding `c` stores exactly `lookup(t, c)`.
proof fn lemma_lookup_present(t: Seq<(Card, usize)>, j: int)
    requires
        distinct_keys(t),
        0 <= j < t.len(),
    ensures
        lookup(t, t[j].0) == t[j].1,
    decreases t.len(),
{
    assert(t.last() == t[t.len() - 1]);
    if j == t.len() - 1 {
    } else {
        assert(t[j].0 != t[t.len() - 1].0);
        assert(forall|k: int| 0 <= k < t.len() - 1 ==> t.drop_last()[k] == t[k]);
        lemma_lookup_present(t.drop_last(), j);
    }
}

/// Updating the count of the entry at `j` changes only the lookup of its key.
proof fn lemma_lookup_update(t: Seq<(Card, usize)>, j: int, v: usize, c: Card)
    requires
        0 <= j < t.len(),
    ensures
        lookup(t.update(j, (t[j].0, v)), c) == if c == t[j].0 && (forall|k: int|
            j < k < t.len() ==> (#[trigger] t[k]).0 != c) {
            v as nat
        } else {
            lookup(t, c)
        },
    decreases t.len(),
{
    let u = t.update(j, (t[j].0, v));
    assert(u.len() == t.len());
    assert(u.last() == u[t.len() - 1]);
    assert(t.last() == t[t.len() - 1]);
    if j == t.len() - 1 {
        assert(u.drop_last() =~= t.drop_last());
    } else {
        assert(u.drop_last() =~= t.drop_last().update(j, (t[j].0, v)));
        assert(t.drop_last()[j] == t[j]);
        lemma_lookup_update(t.drop_last(), j, v, c);
        assert(forall|k: int| 0 <= k < t.len() - 1 ==> t.drop_last()[k] == t[k]);
    }
}

/// One more occurrence at the end of the deck raises exactly one count.
proof fn lemma_occ_push(s: Seq<Card>, x: Card, c: Card)
    ensures
        occ(s.push(x), c) == occ(s, c) + if x == c {
            1nat
        } else {
            0nat
        },
{
    assert(s.push(x).drop_last() =~= s);
    assert(s.push(x).last() == x);
}

/// A card cannot occur more often than the deck is long.
proof fn lemma_occ_le_len(s: Seq<Card>, c: Card)
    ensures
        occ(s, c) <= s.len(),
    decreases s.len(),
{
    if s.len() > 0 {
        lemma_occ_le_len(s.drop_last(), c);
    }
}

/// The counts stored in the table, summed in order.
pub open spec fn sum_counts(t: Seq<(Card, usize)>) -> int
    decreases t.len(),
{
    if t.len() == 0 {
        0
    } else {
        sum_counts(t.drop_last()) + t.last().1
    }
}

/// The deck with every occurrence of `k` removed, keeping the order of the
/// other cards.
pub open spec fn without(s: Seq<Card>, k: Card) -> Seq<Card>
    decreases s.len(),
{
    if s.len() == 0 {
        s
    } else if s.last() == k {
        without(s.drop_last(), k)
    } else {
        without(s.drop_last(), k).push(s.last())
    }
}

proof fn lemma_without_len(s: Seq<Card>, k: Card)
    ensures
        without(s, k).len() == s.len() - occ(s, k),
    decreases s.len(),
{
    lemma_occ_le_len(s, k);
    if s.len() > 0 {
        lemma_without_len(s.drop_last(), k);
    }
}

proof fn lemma_without_occ(s: Seq<Card>, k: Card, c: Card)
    ensures
        occ(without(s, k), c) == if c == k {
            0nat
        } else {
            occ(s, c)
        },
    decreases s.len(),
{
    if s.len() > 0 {
        lemma_without_occ(s.drop_last(), k, c);
        if s.last() != k {
            lemma_occ_push(without(s.drop_last(), k), s.last(), c);
        }
    }
}

/// The counts of an occurrence table cover the deck exactly: summed over the
/// table, they give the deck's length.
pub proof fn lemma_counts_sum_to_len(cards: Seq<Card>, table: Seq<(Card, usize)>)
    requires
        distinct_keys(table),
        forall|c: Card| #[trigger] lookup(table, c) == occ(cards, c),
    ensures
        sum_counts(table) == cards.len(),
    decreases table.len(),
{
    if table.len() == 0 {
        if cards.len() > 0 {
            let c = cards.last();
            assert(occ(cards, c) >= 1);
            assert(lookup(table, c) == 0);
        }
    } else {
        let k = table.last().0;
        let v = table.last().1;
        let rest = table.drop_last();
        let smaller = without(cards, k);
        assert(lookup(table, k) == v);
        assert(forall|j: int| 0 <= j < rest.len() ==> rest[j] == table[j]);
        assert(!has_key(rest, k)) by {
            assert(table.last() == table[table.len() - 1]);
            assert(forall|j: int| 0 <= j < rest.len() ==> (#[trigger] table[j]).0 != k);
        }
        lemma_lookup_absent(rest, k);
        assert forall|c: Card| #[trigger] lookup(rest, c) == occ(smaller, c) by {
            lemma_without_occ(cards, k, c);
            if c != k {
                assert(lookup(rest, c) == lookup(table, c));
            }
        }
        lemma_counts_sum_to_len(smaller, rest);
        lemma_without_len(cards, k);
    }
}

/// Builds the occurrence table of `cards`: one entry per distinct card, whose
/// stored count is that card's number of occurrences.
pub fn count_occurrences(cards: &Vec<Card>) -> (table: Vec<(Card, usize)>)
    ensures
        distinct_keys(table@),
        forall|c: Card| #[trigger] lookup(table@, c) == occ(cards@, c),
        forall|p: (Card, usize)| #[trigger]
            table@.contains(p) <==> occ(cards@, p.0) == p.1 && p.1 >= 1,
{
    let mut table: Vec<(Card, usize)> = Vec::new();
    let n = cards.len();
    let mut i: usize = 0;
    while i < n
        invariant
            n == cards.len(),
            i <= n,
            distinct_keys(table@),
            forall|c: Card| #[trigger] lookup(table@, c) == occ(cards@.take(i as int), c),
            forall|j: int| 0 <= j < table@.len() ==> (#[trigger] table@[j]).1 >= 1,
        decreases n - i,
    {
        let c = cards[i];
        proof {
            assert(cards@.take(i as int + 1).drop_last() =~= cards@.take(i as int));
            assert(cards@.take(i as int + 1).last() == c);
            lemma_occ_le_len(cards@.take(i as int), c);
        }
        let mut j: usize = 0;
        let m = table.len();
        while j < m && !(table[j].0 == c)
            invariant
                m == table.len(),
                j <= m,
                forall|k: int| 0 <= k < j ==> (#[trigger] table@[k]).0 != c,
            decreases m - j,
        {
            j = j + 1;
        }
        if j < m {
            let old_count = table[j].1;
            proof {
                lemma_lookup_present(table@, j as int);
                assert forall|c2: Card| #[trigger] lookup(
                    table@.update(j as int, (table@[j as int].0, (old_count + 1) as usize)),
                    c2,
                ) == occ(cards@.take(i as int + 1), c2) by {
                    lemma_lookup_update(table@, j as int, (old_count + 1) as usize, c2);
                    lemma_occ_push(cards@.take(i as int), c, c2);
                }
            }
            table.set(j, (c, old_count + 1));
        } else {
            proof {
                assert(!has_key(table@, c));
                lemma_lookup_absent(table@, c);
                let pushed = table@.push((c, 1usize));
                assert(pushed.drop_last() =~= table@);
                assert forall|c2: Card| #[trigger] lookup(pushed, c2) == occ(
                    cards@.take(i as int + 1),
                    c2,
                ) by {
                    lemma_occ_push(cards@.take(i as int), c, c2);
                    if c2 == c {
                        assert(pushed.last() == (c, 1usize));
                        assert(lookup(pushed, c2) == 1);
                    } else {
                        assert(pushed.last().0 != c2);
                        assert(lookup(pushed, c2) == lookup(table@, c2));
                    }
                }
            }
            table.push((c, 1));
        }
        i = i + 1;
    }
    proof {
        assert(cards@.take(n as int) =~= cards@);
        assert forall|p: (Card, usize)| #[trigger] table@.contains(p) implies occ(cards@, p.0)
            == p.1 && p.1 >= 1 by {
            let j = choose|j: int| 0 <= j < table@.len() && table@[j] == p;
            lemma_lookup_present(table@, j);
        }
        assert forall|p: (Card, usize)| occ(cards@, p.0) == p.1 && p.1 >= 1 implies #[trigger]
            table@.contains(p) by {
            if !has_key(table@, p.0) {
                lemma_lookup_absent(table@, p.0);
            } else {
                let j = choose|j: int| 0 <= j < table@.len() && (#[trigger] table@[j]).0 == p.0;
                lemma_lookup_present(table@, j);
                assert(table@[j] == p);
            }
        }
    }
    table
}

} // verus!
