//! Card accounting: multiset machinery used to state and preserve the
//! conservation invariant — every card of the global deck sits in exactly
//! one place at all times.
use vstd::prelude::*;

use crate::pile::{in_player_range, PileV};
use vstd::multiset::Multiset;

verus! {

broadcast use {vstd::seq_lib::group_to_multiset_ensures, vstd::multiset::group_multiset_axioms};

/// The multiset of all entries of a sequence of card-index sequences.
pub open spec fn seqs_mset(ps: Seq<Seq<u32>>) -> Multiset<u32>
    decreases ps.len(),
{
    if ps.len() == 0 {
        Multiset::empty()
    } else {
        seqs_mset(ps.drop_last()).add(ps.last().to_multiset())
    }
}

/// The card sequences of a sequence of piles.
pub open spec fn pile_cards(piles: Seq<PileV>) -> Seq<Seq<u32>> {
    piles.map_values(|p: PileV| p.cards)
}

/// The ascending card indices `lo, lo + 1, ..., lo + n - 1`.
pub open spec fn range_seq(lo: int, n: nat) -> Seq<u32> {
    Seq::new(n, |i: int| (lo + i) as u32)
}

/// The multiset holding each of `lo, ..., lo + n - 1` exactly once.
pub open spec fn range_mset(lo: int, n: nat) -> Multiset<u32> {
    range_seq(lo, n).to_multiset()
}

/// Appending a sequence adds its cards.
pub proof fn lemma_seqs_mset_push(ps: Seq<Seq<u32>>, s: Seq<u32>)
    ensures
        seqs_mset(ps.push(s)) == seqs_mset(ps).add(s.to_multiset()),
{
    assert(ps.push(s).drop_last() =~= ps);
}

/// Replacing entry `k` exchanges that entry's cards for the new ones.
pub proof fn lemma_seqs_mset_update(ps: Seq<Seq<u32>>, k: int, s: Seq<u32>)
    requires
        0 <= k < ps.len(),
    ensures
        seqs_mset(ps.update(k, s)).add(ps[k].to_multiset()) == seqs_mset(ps).add(s.to_multiset()),
    decreases ps.len(),
{
    let upd = ps.update(k, s);
    if k == ps.len() - 1 {
        assert(upd.drop_last() =~= ps.drop_last());
        assert(upd.last() == s);
        assert(seqs_mset(upd) == seqs_mset(ps.drop_last()).add(s.to_multiset()));
        assert(seqs_mset(ps) == seqs_mset(ps.drop_last()).add(ps[k].to_multiset()));
        assert(seqs_mset(upd).add(ps[k].to_multiset()) =~= seqs_mset(ps).add(s.to_multiset()));
    } else {
        let dl = ps.drop_last();
        assert(upd.drop_last() =~= dl.update(k, s));
        assert(upd.last() == ps.last());
        lemma_seqs_mset_update(dl, k, s);
        assert(dl[k] == ps[k]);
        assert(seqs_mset(upd) == seqs_mset(dl.update(k, s)).add(ps.last().to_multiset()));
        assert(seqs_mset(ps) == seqs_mset(dl).add(ps.last().to_multiset()));
        assert forall|x: u32|
            seqs_mset(upd).add(ps[k].to_multiset()).count(x) == seqs_mset(ps).add(
                s.to_multiset(),
            ).count(x) by {
            assert(seqs_mset(dl.update(k, s)).add(ps[k].to_multiset()).count(x) == seqs_mset(
                dl,
            ).add(s.to_multiset()).count(x));
        }
        assert(seqs_mset(upd).add(ps[k].to_multiset()) =~= seqs_mset(ps).add(s.to_multiset()));
    }
}

/// Removing entry `k` takes away exactly that entry's cards.
pub proof fn lemma_seqs_mset_remove(ps: Seq<Seq<u32>>, k: int)
    requires
        0 <= k < ps.len(),
    ensures
        seqs_mset(ps.remove(k)).add(ps[k].to_multiset()) == seqs_mset(ps),
    decreases ps.len(),
{
    let rem = ps.remove(k);
    if k == ps.len() - 1 {
        assert(rem =~= ps.drop_last());
        assert(seqs_mset(ps) == seqs_mset(ps.drop_last()).add(ps[k].to_multiset()));
        assert(seqs_mset(rem).add(ps[k].to_multiset()) =~= seqs_mset(ps));
    } else {
        let dl = ps.drop_last();
        assert(rem.drop_last() =~= dl.remove(k));
        assert(rem.last() == ps.last());
        lemma_seqs_mset_remove(dl, k);
        assert(dl[k] == ps[k]);
        assert(rem.len() == ps.len() - 1);
        assert(seqs_mset(rem) == seqs_mset(dl.remove(k)).add(ps.last().to_multiset()));
        assert(seqs_mset(ps) == seqs_mset(dl).add(ps.last().to_multiset()));
        assert forall|x: u32|
            seqs_mset(rem).add(ps[k].to_multiset()).count(x) == seqs_mset(ps).count(x) by {
            assert(seqs_mset(dl.remove(k)).add(ps[k].to_multiset()).count(x) == seqs_mset(
                dl,
            ).count(x));
        }
        assert(seqs_mset(rem).add(ps[k].to_multiset()) =~= seqs_mset(ps));
    }
}

/// Popping the last element of a sequence takes one copy of it out of the
/// sequence's multiset.
pub proof fn lemma_drop_last_mset(s: Seq<u32>)
    requires
        s.len() >= 1,
    ensures
        s.to_multiset() == s.drop_last().to_multiset().insert(s.last()),
{
    assert(s =~= s.drop_last().push(s.last()));
}

/// The cards a pile sequence holds once entry `k` has one card pushed on
/// top: the whole gains exactly that card.
pub proof fn lemma_pile_push_mset(piles: Seq<PileV>, k: int, c: u32, color: crate::card::Color)
    requires
        0 <= k < piles.len(),
    ensures
        seqs_mset(
            pile_cards(piles.update(k, PileV { cards: piles[k].cards.push(c), color })),
        ) == seqs_mset(pile_cards(piles)).insert(c),
{
    let s = piles[k].cards.push(c);
    assert(pile_cards(piles.update(k, PileV { cards: s, color })) =~= pile_cards(piles).update(
        k,
        s,
    ));
    lemma_seqs_mset_update(pile_cards(piles), k, s);
    assert(pile_cards(piles)[k] == piles[k].cards);
    vstd::seq_lib::to_multiset_build(piles[k].cards, c);
    assert(s.to_multiset() == piles[k].cards.to_multiset().insert(c));
    assert forall|x: u32|
        seqs_mset(pile_cards(piles).update(k, s)).count(x) == seqs_mset(
            pile_cards(piles),
        ).insert(c).count(x) by {
        assert(seqs_mset(pile_cards(piles).update(k, s)).add(
            pile_cards(piles)[k].to_multiset(),
        ).count(x) == seqs_mset(pile_cards(piles)).add(s.to_multiset()).count(x));
    }
    assert(seqs_mset(pile_cards(piles).update(k, s)) =~= seqs_mset(pile_cards(piles)).insert(c));
}

/// Appending a fresh one-card pile adds exactly that card.
pub proof fn lemma_pile_new_mset(piles: Seq<PileV>, c: u32, color: crate::card::Color)
    ensures
        seqs_mset(pile_cards(piles.push(PileV { cards: seq![c], color }))) == seqs_mset(
            pile_cards(piles),
        ).insert(c),
{
    assert(pile_cards(piles.push(PileV { cards: seq![c], color })) =~= pile_cards(piles).push(
        seq![c],
    ));
    lemma_seqs_mset_push(pile_cards(piles), seq![c]);
    assert(seq![c].to_multiset() =~= Multiset::empty().insert(c)) by {
        assert(seq![c].drop_last() =~= Seq::<u32>::empty());
        lemma_drop_last_mset(seq![c]);
    }
    assert(seqs_mset(pile_cards(piles)).add(seq![c].to_multiset()) =~= seqs_mset(
        pile_cards(piles),
    ).insert(c));
}

/// Popping the top of pile `k` — removing the pile when that empties it —
/// takes exactly that card away.
pub proof fn lemma_pile_pop_mset(piles: Seq<PileV>, k: int, after: Seq<PileV>)
    requires
        0 <= k < piles.len(),
        piles[k].cards.len() >= 1,
        if piles[k].cards.len() == 1 {
            after == piles.remove(k)
        } else {
            after == piles.update(
                k,
                PileV { cards: piles[k].cards.drop_last(), color: piles[k].color },
            )
        },
    ensures
        seqs_mset(pile_cards(after)).insert(piles[k].cards.last()) == seqs_mset(
            pile_cards(piles),
        ),
{
    let c = piles[k].cards.last();
    if piles[k].cards.len() == 1 {
        assert(pile_cards(after) =~= pile_cards(piles).remove(k));
        lemma_seqs_mset_remove(pile_cards(piles), k);
        assert(piles[k].cards =~= seq![c]);
        assert(piles[k].cards.to_multiset() =~= Multiset::empty().insert(c)) by {
            assert(piles[k].cards.drop_last() =~= Seq::<u32>::empty());
            lemma_drop_last_mset(piles[k].cards);
        }
        assert(seqs_mset(pile_cards(after)).insert(c) =~= seqs_mset(pile_cards(piles)));
    } else {
        let s = piles[k].cards.drop_last();
        assert(pile_cards(after) =~= pile_cards(piles).update(k, s));
        lemma_seqs_mset_update(pile_cards(piles), k, s);
        assert(pile_cards(piles)[k] == piles[k].cards);
        lemma_drop_last_mset(piles[k].cards);
        assert(piles[k].cards.to_multiset() == s.to_multiset().insert(c));
        assert forall|x: u32|
            seqs_mset(pile_cards(after)).insert(c).count(x) == seqs_mset(
                pile_cards(piles),
            ).count(x) by {
            assert(seqs_mset(pile_cards(piles).update(k, s)).add(
                piles[k].cards.to_multiset(),
            ).count(x) == seqs_mset(pile_cards(piles)).add(s.to_multiset()).count(x));
        }
        assert(seqs_mset(pile_cards(after)).insert(c) =~= seqs_mset(pile_cards(piles)));
    }
}

/// The range multiset holds each index of the range exactly once and
/// nothing else.
pub proof fn lemma_range_mset_count(lo: int, n: nat, x: u32)
    requires
        0 <= lo,
        lo + n <= u32::MAX + 1,
    ensures
        range_mset(lo, n).count(x) == if lo <= x < lo + n {
            1nat
        } else {
            0nat
        },
    decreases n,
{
    if n == 0 {
        assert(range_seq(lo, 0) =~= Seq::<u32>::empty());
    } else {
        lemma_range_mset_count(lo, (n - 1) as nat, x);
        assert(range_seq(lo, n) =~= range_seq(lo, (n - 1) as nat).push((lo + n - 1) as u32));
    }
}

/// A value no entry holds has count zero.
pub proof fn lemma_seqs_mset_count_zero(ps: Seq<Seq<u32>>, x: u32)
    requires
        forall|k: int, i: int|
            0 <= k < ps.len() && 0 <= i < (#[trigger] ps[k]).len() ==> #[trigger] ps[k][i] != x,
    ensures
        seqs_mset(ps).count(x) == 0,
    decreases ps.len(),
{
    if ps.len() > 0 {
        lemma_seqs_mset_count_zero(ps.drop_last(), x);
        assert(!ps.last().contains(x));
        assert(ps.last().to_multiset().count(x) == 0);
    }
}

/// With every entry non-empty, the combined multiset holds at least one
/// card per entry.
pub proof fn lemma_seqs_mset_len_ge(ps: Seq<Seq<u32>>)
    requires
        forall|k: int| 0 <= k < ps.len() ==> (#[trigger] ps[k]).len() >= 1,
    ensures
        seqs_mset(ps).len() >= ps.len(),
    decreases ps.len(),
{
    if ps.len() > 0 {
        lemma_seqs_mset_len_ge(ps.drop_last());
    }
}

/// The total number of entries across a sequence of card sequences.
pub open spec fn sum_lens(ps: Seq<Seq<u32>>) -> int
    decreases ps.len(),
{
    if ps.len() == 0 {
        0
    } else {
        sum_lens(ps.drop_last()) + ps.last().len()
    }
}

/// The total entry count is never negative.
pub proof fn lemma_sum_lens_nonneg(ps: Seq<Seq<u32>>)
    ensures
        sum_lens(ps) >= 0,
    decreases ps.len(),
{
    if ps.len() > 0 {
        lemma_sum_lens_nonneg(ps.drop_last());
    }
}

/// The combined multiset holds exactly as many cards as the entries
/// together.
pub proof fn lemma_seqs_mset_len(ps: Seq<Seq<u32>>)
    ensures
        seqs_mset(ps).len() == sum_lens(ps),
    decreases ps.len(),
{
    if ps.len() > 0 {
        lemma_seqs_mset_len(ps.drop_last());
    }
}

/// A multiset equal to a player's forty-card range holds only indices of
/// that range.
pub proof fn lemma_range_mset_members(lo: int, n: nat, m: Multiset<u32>, c: u32)
    requires
        0 <= lo,
        lo + n <= u32::MAX + 1,
        m == range_mset(lo, n),
        m.count(c) > 0,
    ensures
        lo <= c < lo + n,
{
    if c < lo || c >= lo + n {
        assert(forall|i: int| 0 <= i < n ==> range_seq(lo, n)[i] != c);
        assert(!range_seq(lo, n).contains(c));
    }
}

} // verus!
