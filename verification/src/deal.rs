//! Shuffling and the deal: each player's forty cards are shuffled and split
//! into the starting hand, the blitz pile, and one-card post piles.
use vstd::prelude::*;

use rand::seq::SliceRandom;
use rand::SeedableRng;

use crate::card::deck_card;
use crate::conserve::{pile_cards, range_mset, seqs_mset};
use crate::pile::{in_player_range, PileV};
use vstd::multiset::Multiset;

verus! {

broadcast use {vstd::seq_lib::group_to_multiset_ensures, vstd::multiset::group_multiset_axioms};

/// The order in which a seeded shuffle leaves a card sequence. The result
/// depends on the input and the seed alone.
pub uninterp spec fn seeded_order(cards: Seq<u32>, seed: u64) -> Seq<u32>;

/// Relies on rand's `SliceRandom::shuffle` with `thread_rng`: the shuffled
/// slice is a reordering of the input.
#[verifier::external_body]
pub fn shuffle(cards: &mut Vec<u32>)
    ensures
        final(cards)@.to_multiset() == old(cards)@.to_multiset(),
{
    let mut rng = rand::thread_rng();
    cards.as_mut_slice().shuffle(&mut rng);
}

/// Relies on rand's `SliceRandom::shuffle` driven by `StdRng` seeded with
/// `seed_from_u64`: for the pinned library version the outcome is a
/// reordering of the input determined by the input and the seed alone.
#[verifier::external_body]
pub fn shuffle_seeded(cards: &mut Vec<u32>, seed: u64)
    ensures
        final(cards)@ == seeded_order(old(cards)@, seed),
        final(cards)@.to_multiset() == old(cards)@.to_multiset(),
{
    let mut rng = rand::rngs::StdRng::seed_from_u64(seed);
    cards.as_mut_slice().shuffle(&mut rng);
}

/// The starting hand: the first cards of the shuffled order.
pub open spec fn spec_deal_hand(order: Seq<u32>, pps: int) -> Seq<u32> {
    order.take(40 - pps - 10)
}

/// The blitz pile: the next ten cards of the shuffled order.
pub open spec fn spec_deal_blitz(order: Seq<u32>, pps: int) -> Seq<u32> {
    order.subrange(40 - pps - 10, 40 - pps)
}

/// The post piles: the last `pps` cards, one single-card pile each, colored
/// by its card.
pub open spec fn spec_deal_posts(order: Seq<u32>, pps: int) -> Seq<PileV> {
    Seq::new(
        pps as nat,
        |k: int|
            PileV {
                cards: seq![order[40 - pps + k]],
                color: deck_card(order[40 - pps + k] as int).color,
            },
    )
}

/// The first `k` post piles hold exactly the corresponding tail cards of the
/// order.
proof fn lemma_posts_mset_take(order: Seq<u32>, pps: int, k: int)
    requires
        order.len() == 40,
        0 <= pps,
        pps + 10 <= 40,
        0 <= k <= pps,
    ensures
        seqs_mset(pile_cards(spec_deal_posts(order, pps).take(k))) == order.subrange(
            40 - pps,
            40 - pps + k,
        ).to_multiset(),
    decreases k,
{
    let posts = spec_deal_posts(order, pps);
    if k == 0 {
        assert(pile_cards(posts.take(0)) =~= Seq::<Seq<u32>>::empty());
        assert(order.subrange(40 - pps, 40 - pps).to_multiset() =~= Multiset::<u32>::empty())
            by {
            assert(order.subrange(40 - pps, 40 - pps) =~= Seq::<u32>::empty());
        }
    } else {
        lemma_posts_mset_take(order, pps, k - 1);
        let c = order[40 - pps + k - 1];
        assert(pile_cards(posts.take(k)) =~= pile_cards(posts.take(k - 1)).push(seq![c]));
        crate::conserve::lemma_seqs_mset_push(pile_cards(posts.take(k - 1)), seq![c]);
        assert(seq![c].to_multiset() =~= Multiset::<u32>::empty().insert(c)) by {
            assert(seq![c].drop_last() =~= Seq::<u32>::empty());
            crate::conserve::lemma_drop_last_mset(seq![c]);
        }
        assert(order.subrange(40 - pps, 40 - pps + k) =~= order.subrange(
            40 - pps,
            40 - pps + k - 1,
        ).push(c));
        assert(seqs_mset(pile_cards(posts.take(k))) =~= order.subrange(
            40 - pps,
            40 - pps + k,
        ).to_multiset());
    }
}

/// The deal partitions the shuffled order: hand, blitz, and post piles
/// together hold exactly the order's cards.
pub proof fn lemma_deal_mset(order: Seq<u32>, pps: int)
    requires
        order.len() == 40,
        0 <= pps,
        pps + 10 <= 40,
    ensures
        spec_deal_hand(order, pps).to_multiset().add(
            spec_deal_blitz(order, pps).to_multiset(),
        ).add(seqs_mset(pile_cards(spec_deal_posts(order, pps)))) == order.to_multiset(),
{
    let hand = spec_deal_hand(order, pps);
    let blitz = spec_deal_blitz(order, pps);
    let tail = order.subrange(40 - pps, 40);
    lemma_posts_mset_take(order, pps, pps);
    assert(spec_deal_posts(order, pps).take(pps) =~= spec_deal_posts(order, pps));
    assert(order.subrange(40 - pps, 40 - pps + pps) =~= tail);
    assert(order =~= (hand + blitz) + tail);
    vstd::seq_lib::lemma_multiset_commutative(hand + blitz, tail);
    vstd::seq_lib::lemma_multiset_commutative(hand, blitz);
    assert(hand.to_multiset().add(blitz.to_multiset()).add(
        seqs_mset(pile_cards(spec_deal_posts(order, pps))),
    ) =~= order.to_multiset());
}

/// Any reordering of a player's forty-card range holds only indices of that
/// range.
pub proof fn lemma_order_owned(order: Seq<u32>, p: int)
    requires
        0 <= p,
        40 * p + 40 <= u32::MAX + 1,
        order.to_multiset() == range_mset(40 * p, 40),
    ensures
        forall|i: int| 0 <= i < order.len() ==> in_player_range(#[trigger] order[i], p),
{
    assert forall|i: int| 0 <= i < order.len() implies in_player_range(
        #[trigger] order[i],
        p,
    ) by {
        assert(order.contains(order[i]));
        assert(order.to_multiset().count(order[i]) > 0);
        crate::conserve::lemma_range_mset_members(40 * p, 40, order.to_multiset(), order[i]);
    }
}

} // verus!
