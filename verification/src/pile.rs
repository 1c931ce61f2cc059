//! Piles of cards: the shared arena piles (ascending same-color runs) and the
//! per-player post piles (descending same-color, gender-alternating runs).
use vstd::prelude::*;

use crate::card::{deck_card, Card, CardContext, Color};
use crate::error::GameError;

verus! {

/// Mathematical image of a pile: the card indices bottom to top, and the
/// pile's color.
#[verifier::ext_equal]
pub ghost struct PileV {

    pub cards: Seq<u32>,
    pub color: Color,
}

/// A pile is an ordered stack of at most ten card indices with a designated
/// color; the top is the last element.
pub struct Pile {
    pub cards: Vec<u32>,
    pub color: Color,
}

impl View for Pile {
    type V = PileV;

    open spec fn view(&self) -> PileV {
        PileV { cards: self.cards@, color: self.color }
    }
}

/// Card index `c` belongs to player `owner`'s forty-card range.
pub open spec fn in_player_range(c: u32, owner: int) -> bool {
    40 * owner <= c < 40 * (owner + 1)
}

/// Arena pile invariant: a non-empty run whose card at position `i` (from
/// the bottom) shows number `i + 1` in the pile's color; capacity ten.
pub open spec fn arena_pile_inv(p: PileV, deck_len: int) -> bool {
    &&& 1 <= p.cards.len() <= 10
    &&& forall|i: int|
        0 <= i < p.cards.len() ==> {
            &&& (#[trigger] p.cards[i]) < deck_len
            &&& deck_card(p.cards[i] as int).color == p.color
            &&& deck_card(p.cards[i] as int).number == i + 1
        }
}

/// Post pile invariant: a non-empty descending run of player `owner`'s own
/// cards, all in the pile's color, each exactly one below the card beneath
/// it.
pub open spec fn post_pile_inv(p: PileV, owner: int) -> bool {
    &&& 1 <= p.cards.len()
    &&& forall|i: int|
        0 <= i < p.cards.len() ==> {
            &&& in_player_range(#[trigger] p.cards[i], owner)
            &&& deck_card(p.cards[i] as int).color == p.color
            &&& deck_card(p.cards[i] as int).number == deck_card(p.cards[0] as int).number - i
        }
}

/// Whether the arena stacking rules admit card `c` on pile `p`, given the
/// deck.
pub open spec fn pilev_arena_accepts(p: PileV, deck: Seq<Card>, c: u32) -> bool {
    &&& p.cards.len() < 10
    &&& c < deck.len()
    &&& deck[c as int].color == p.color
    &&& deck[c as int].number == p.cards.len() + 1
}

/// The error the arena stacking rules raise for card `c` on pile `p`,
/// checked in the order: pile full, card unknown, color, number.
pub open spec fn pilev_arena_refusal(p: PileV, deck: Seq<Card>, c: u32) -> GameError {
    if p.cards.len() >= 10 {
        GameError::PileFull
    } else if c >= deck.len() {
        GameError::CardIndexOutOfBounds
    } else if deck[c as int].color != p.color {
        GameError::ColorMismatch
    } else {
        GameError::NumberMismatch
    }
}

/// Whether the post stacking rules admit card `c` on pile `p`: same color,
/// the opposite gender of the current top, and exactly one below it.
pub open spec fn pilev_post_accepts(p: PileV, deck: Seq<Card>, c: u32) -> bool {
    &&& p.cards.len() < 10
    &&& c < deck.len()
    &&& deck[c as int].color == p.color
    &&& deck[c as int].gender != deck[p.cards.last() as int].gender
    &&& deck[c as int].number == deck[p.cards.last() as int].number - 1
}

/// The error the post stacking rules raise for card `c` on pile `p`,
/// checked in the order: pile full, card unknown, color, gender, number.
pub open spec fn pilev_post_refusal(p: PileV, deck: Seq<Card>, c: u32) -> GameError {
    if p.cards.len() >= 10 {
        GameError::PileFull
    } else if c >= deck.len() {
        GameError::CardIndexOutOfBounds
    } else if deck[c as int].color != p.color {
        GameError::ColorMismatch
    } else if deck[c as int].gender == deck[p.cards.last() as int].gender {
        GameError::GenderMismatch
    } else {
        GameError::NumberMismatch
    }
}

/// Extending a valid arena pile by an accepted card keeps it valid.
pub proof fn lemma_arena_push_inv(p: PileV, deck: Seq<Card>, c: u32, players: int)
    requires
        crate::card::deck_generated(deck, players),
        arena_pile_inv(p, deck.len() as int),
        pilev_arena_accepts(p, deck, c),
    ensures
        arena_pile_inv(PileV { cards: p.cards.push(c), color: p.color }, deck.len() as int),
{
    assert(deck[c as int] == deck_card(c as int));
}

/// A number-one card makes a valid one-card arena pile in its own color.
pub proof fn lemma_arena_new_pile_inv(deck: Seq<Card>, c: u32, players: int)
    requires
        crate::card::deck_generated(deck, players),
        c < deck.len(),
        deck[c as int].number == 1,
    ensures
        arena_pile_inv(
            PileV { cards: seq![c], color: deck[c as int].color },
            deck.len() as int,
        ),
{
    assert(deck[c as int] == deck_card(c as int));
}

/// Extending a valid post pile by an accepted card of the owner keeps it
/// valid.
pub proof fn lemma_post_push_inv(p: PileV, deck: Seq<Card>, c: u32, players: int, owner: int)
    requires
        crate::card::deck_generated(deck, players),
        post_pile_inv(p, owner),
        p.cards.last() < deck.len(),
        pilev_post_accepts(p, deck, c),
        in_player_range(c, owner),
    ensures
        post_pile_inv(PileV { cards: p.cards.push(c), color: p.color }, owner),
{
    assert(deck[c as int] == deck_card(c as int));
    assert(deck[p.cards.last() as int] == deck_card(p.cards.last() as int));
    let q = PileV { cards: p.cards.push(c), color: p.color };
    assert(q.cards[0] == p.cards[0]);
    assert(q.cards[q.cards.len() - 1] == c);
    assert(deck_card(c as int).number == deck_card(p.cards[0] as int).number - (q.cards.len()
        - 1));
}

/// Removing the top of a valid post pile of at least two cards keeps it
/// valid.
pub proof fn lemma_post_drop_inv(p: PileV, owner: int)
    requires
        post_pile_inv(p, owner),
        p.cards.len() >= 2,
    ensures
        post_pile_inv(PileV { cards: p.cards.drop_last(), color: p.color }, owner),
{
}

/// The shape of a valid arena pile, as a player sees it: the card at
/// position `i` shows number `i + 1`, and every card shows the pile's
/// color.
pub proof fn lemma_arena_pile_shape(p: PileV, deck: Seq<Card>, players: int)
    requires
        crate::card::deck_generated(deck, players),
        arena_pile_inv(p, deck.len() as int),
    ensures
        forall|i: int|
            0 <= i < p.cards.len() ==> deck[(#[trigger] p.cards[i]) as int].number == i + 1,
        forall|i: int|
            0 <= i < p.cards.len() ==> deck[(#[trigger] p.cards[i]) as int].color == p.color,
{
    assert forall|i: int|
        0 <= i < p.cards.len() implies deck[(#[trigger] p.cards[i]) as int].number == i + 1
        && deck[p.cards[i] as int].color == p.color by {
        assert(deck[p.cards[i] as int] == deck_card(p.cards[i] as int));
    }
}

/// The shape of a valid post pile, as a player sees it: the top card's
/// number is the bottom card's number minus the height less one, adjacent
/// cards alternate gender, and every card shows the pile's color.
#[verifier::rlimit(100)]
#[verifier::spinoff_prover]
pub proof fn lemma_post_pile_shape(p: PileV, deck: Seq<Card>, players: int, owner: int)
    requires
        crate::card::deck_generated(deck, players),
        post_pile_inv(p, owner),
        0 <= owner < players,
    ensures
        deck[p.cards.last() as int].number == deck[p.cards[0] as int].number - (p.cards.len()
            - 1),
        forall|i: int|
            0 <= i < p.cards.len() - 1 ==> deck[(#[trigger] p.cards[i]) as int].gender
                != deck[p.cards[i + 1] as int].gender,
        forall|i: int|
            0 <= i < p.cards.len() ==> deck[(#[trigger] p.cards[i]) as int].color == p.color,
{
    assert forall|i: int| 0 <= i < p.cards.len() implies deck[(#[trigger] p.cards[i]) as int]
        == deck_card(p.cards[i] as int) by {
        assert(in_player_range(p.cards[i], owner));
    }
    assert forall|i: int|
        0 <= i < p.cards.len() - 1 implies deck[(#[trigger] p.cards[i]) as int].gender
        != deck[p.cards[i + 1] as int].gender by {
        let a = deck_card(p.cards[i] as int).number as int;
        let b = deck_card(p.cards[i + 1] as int).number as int;
        assert(b == a - 1);
        assert(deck_card(p.cards[i] as int).gender == crate::card::spec_gender_of(a));
        assert(deck_card(p.cards[i + 1] as int).gender == crate::card::spec_gender_of(b));
        assert(a % 2 == 1 <==> (a - 1) % 2 != 1);
    }
}

impl Pile {
    pub fn from_vec(cards: Vec<u32>, color: Color) -> (p: Pile)
        ensures
            p@.cards == cards@,
            p@.color == color,
    {
        Pile { cards, color }
    }

    /// Whether the arena stacking rules admit card `c` on this pile, given
    /// the deck.
    pub open spec fn arena_accepts(self, deck: Seq<Card>, c: u32) -> bool {
        pilev_arena_accepts(self@, deck, c)
    }

    /// The error the arena stacking rules raise for card `c`.
    pub open spec fn arena_refusal(self, deck: Seq<Card>, c: u32) -> GameError {
        pilev_arena_refusal(self@, deck, c)
    }

    /// Push a card onto an arena pile: it must extend the ascending run in
    /// the pile's color. On rejection the pile is unchanged.
    pub fn add_arena_card(&mut self, card_index: u32, context: &CardContext) -> (r: Result<
        (),
        GameError,
    >)
        ensures
            r is Ok <==> old(self).arena_accepts(context@, card_index),
            r is Ok ==> final(self)@ == (PileV {
                cards: old(self)@.cards.push(card_index),
                color: old(self)@.color,
            }),
            r matches Err(e) ==> {
                &&& *final(self) == *old(self)
                &&& e == old(self).arena_refusal(context@, card_index)
            },
    {
        if self.cards.len() >= 10 {
            return Err(GameError::PileFull);
        }
        let card = *self.get_context_card(card_index, context)?;
        if card.color != self.color {
            return Err(GameError::ColorMismatch);
        }
        if card.number != (self.cards.len() + 1) as u32 {
            return Err(GameError::NumberMismatch);
        }
        self.cards.push(card_index);
        Ok(())
    }

    /// Whether the post stacking rules admit card `c` on this pile.
    pub open spec fn post_accepts(self, deck: Seq<Card>, c: u32) -> bool {
        pilev_post_accepts(self@, deck, c)
    }

    /// The error the post stacking rules raise for card `c`.
    pub open spec fn post_refusal(self, deck: Seq<Card>, c: u32) -> GameError {
        pilev_post_refusal(self@, deck, c)
    }

    /// Push a card onto a post pile: same color as the pile, alternating
    /// gender with the current top, number exactly one less. On rejection
    /// the pile is unchanged.
    pub fn add_post_card(&mut self, card_index: u32, context: &CardContext) -> (r: Result<
        (),
        GameError,
    >)
        requires
            old(self)@.cards.len() >= 1,
            old(self)@.cards.last() < context@.len(),
        ensures
            r is Ok <==> old(self).post_accepts(context@, card_index),
            r is Ok ==> final(self)@ == (PileV {
                cards: old(self)@.cards.push(card_index),
                color: old(self)@.color,
            }),
            r matches Err(e) ==> {
                &&& *final(self) == *old(self)
                &&& e == old(self).post_refusal(context@, card_index)
            },
    {
        if self.cards.len() >= 10 {
            return Err(GameError::PileFull);
        }
        let card = *self.get_context_card(card_index, context)?;
        if card.color != self.color {
            return Err(GameError::ColorMismatch);
        }
        let prev_index = self.cards[self.cards.len() - 1];
        let prev = *self.get_context_card(prev_index, context)?;
        if card.gender == prev.gender {
            return Err(GameError::GenderMismatch);
        }
        if prev.number < 1 || card.number != prev.number - 1 {
            return Err(GameError::NumberMismatch);
        }
        self.cards.push(card_index);
        Ok(())
    }

    /// Look a card up without touching the pile.
    fn get_context_card<'a>(&self, card_index: u32, context: &'a CardContext) -> (r: Result<
        &'a Card,
        GameError,
    >)
        ensures
            card_index < context@.len() ==> (r matches Ok(c) && *c == context@[card_index as int]),
            card_index >= context@.len() ==> (r matches Err(e) && e
                == GameError::CardIndexOutOfBounds),
    {
        context.get_card(card_index as usize)
    }
}

/// The image of a sequence of piles.
pub open spec fn piles_view(piles: Seq<Pile>) -> Seq<PileV> {
    piles.map_values(|p: Pile| p@)
}

/// Whether the arena admits card `c` aimed at pile `pile`: a number-one card
/// always starts a new pile; any other card must extend the addressed pile.
pub open spec fn spec_arena_accepts(arena: Seq<PileV>, deck: Seq<Card>, pile: int, c: u32) -> bool {
    &&& c < deck.len()
    &&& (deck[c as int].number == 1 || {
        &&& 0 <= pile < arena.len()
        &&& arena[pile].cards.len() < 10
        &&& deck[c as int].color == arena[pile].color
        &&& deck[c as int].number == arena[pile].cards.len() + 1
    })
}

/// The arena after admitting card `c`: a number-one card appends a fresh
/// one-card pile in the card's color; any other card lands on pile `pile`.
pub open spec fn spec_arena_add(arena: Seq<PileV>, deck: Seq<Card>, pile: int, c: u32) -> Seq<
    PileV,
> {
    if deck[c as int].number == 1 {
        arena.push(PileV { cards: seq![c], color: deck[c as int].color })
    } else {
        arena.update(pile, PileV { cards: arena[pile].cards.push(c), color: arena[pile].color })
    }
}

/// The error the arena raises for card `c` aimed at pile `pile`, checked in
/// the order: card unknown, pile unknown, pile full, color, number.
pub open spec fn spec_arena_refusal(arena: Seq<PileV>, deck: Seq<Card>, pile: int, c: u32) -> GameError {
    if c >= deck.len() {
        GameError::CardIndexOutOfBounds
    } else if pile >= arena.len() {
        GameError::PileIndexOutOfBounds
    } else if arena[pile].cards.len() >= 10 {
        GameError::PileFull
    } else if deck[c as int].color != arena[pile].color {
        GameError::ColorMismatch
    } else {
        GameError::NumberMismatch
    }
}

/// The arena: the shared area where ascending same-color piles accumulate
/// from every player's contributions.
pub struct Arena {
    pub piles: Vec<Pile>,
}

impl View for Arena {
    type V = Seq<PileV>;

    open spec fn view(&self) -> Seq<PileV> {
        piles_view(self.piles@)
    }
}

impl Arena {
    pub fn new() -> (a: Arena)
        ensures
            a@.len() == 0,
    {
        Arena { piles: Vec::new() }
    }

    /// Place card `card_index` onto the arena. A number-one card starts a
    /// new pile (the addressed index is ignored; the new pile's index is the
    /// old pile count); any other card must extend pile `pile_index`. On
    /// rejection the arena is unchanged.
    pub fn add_card(&mut self, pile_index: u32, card_index: u32, context: &CardContext) -> (r:
        Result<(), GameError>)
        ensures
            r is Ok <==> spec_arena_accepts(old(self)@, context@, pile_index as int, card_index),
            r is Ok ==> final(self)@ == spec_arena_add(
                old(self)@,
                context@,
                pile_index as int,
                card_index,
            ),
            r matches Err(e) ==> {
                &&& final(self)@ == old(self)@
                &&& e == spec_arena_refusal(old(self)@, context@, pile_index as int, card_index)
            },
    {
        let card = match context.get_card(card_index as usize) {
            Ok(c) => *c,
            Err(e) => {
                return Err(e);
            },
        };
        if card.number == 1 {
            let mut fresh: Vec<u32> = Vec::new();
            fresh.push(card_index);
            self.piles.push(Pile::from_vec(fresh, card.color));
            assert(self@ =~= spec_arena_add(
                old(self)@,
                context@,
                pile_index as int,
                card_index,
            ));
            Ok(())
        } else {
            if pile_index as usize >= self.piles.len() {
                return Err(GameError::PileIndexOutOfBounds);
            }
            let pile = vstd::std_specs::vec::vec_index_mut(&mut self.piles, pile_index as usize);
            let r = pile.add_arena_card(card_index, context);
            if r.is_ok() {
                assert(self@ =~= spec_arena_add(
                    old(self)@,
                    context@,
                    pile_index as int,
                    card_index,
                ));
            } else {
                assert(self@ =~= old(self)@);
            }
            r
        }
    }
}

impl Default for Arena {
    fn default() -> (a: Arena)
        ensures
            a@.len() == 0,
    {
        Arena::new()
    }
}

/// A player's set of post piles. Cards stack downward with alternating
/// genders; a pile that runs out of cards is removed from the set.
pub struct PostPile {
    pub piles: Vec<Pile>,
}

impl View for PostPile {
    type V = Seq<PileV>;

    open spec fn view(&self) -> Seq<PileV> {
        piles_view(self.piles@)
    }
}

impl PostPile {
    pub fn new() -> (p: PostPile)
        ensures
            p@.len() == 0,
    {
        PostPile { piles: Vec::new() }
    }

    pub fn from_vec(cards: Vec<Pile>) -> (p: PostPile)
        ensures
            p@ == piles_view(cards@),
    {
        PostPile { piles: cards }
    }

    /// Push card `card_index` onto post pile `pile_index`, subject to the
    /// post stacking rules. On rejection the piles are unchanged.
    pub fn add_card(&mut self, pile_index: u32, card_index: u32, context: &CardContext) -> (r:
        Result<(), GameError>)
        requires
            (pile_index as int) < old(self)@.len() ==> {
                &&& old(self)@[pile_index as int].cards.len() >= 1
                &&& old(self)@[pile_index as int].cards.last() < context@.len()
            },
        ensures
            r is Ok <==> ((pile_index as int) < old(self)@.len() && old(
                self,
            ).piles@[pile_index as int].post_accepts(context@, card_index)),
            r is Ok ==> final(self)@ == old(self)@.update(
                pile_index as int,
                PileV {
                    cards: old(self)@[pile_index as int].cards.push(card_index),
                    color: old(self)@[pile_index as int].color,
                },
            ),
            r matches Err(e) ==> {
                &&& final(self)@ == old(self)@
                &&& e == if pile_index as int >= old(self)@.len() {
                    GameError::PileIndexOutOfBounds
                } else {
                    old(self).piles@[pile_index as int].post_refusal(context@, card_index)
                }
            },
    {
        if pile_index as usize >= self.piles.len() {
            return Err(GameError::PileIndexOutOfBounds);
        }
        let pile = vstd::std_specs::vec::vec_index_mut(&mut self.piles, pile_index as usize);
        let r = pile.add_post_card(card_index, context);
        if r.is_ok() {
            assert(self@ =~= old(self)@.update(
                pile_index as int,
                PileV {
                    cards: old(self)@[pile_index as int].cards.push(card_index),
                    color: old(self)@[pile_index as int].color,
                },
            ));
        } else {
            assert(self@ =~= old(self)@);
        }
        r
    }

    /// Pop the top card of post pile `pile_index`; if that empties the pile,
    /// the pile itself is removed from the set.
    pub fn play(&mut self, pile_index: u32) -> (r: Result<u32, GameError>)
        ensures
            r is Ok <==> ((pile_index as int) < old(self)@.len() && old(
                self,
            )@[pile_index as int].cards.len() >= 1),
            r matches Ok(c) ==> {
                &&& c == old(self)@[pile_index as int].cards.last()
                &&& if old(self)@[pile_index as int].cards.len() == 1 {
                    final(self)@ == old(self)@.remove(pile_index as int)
                } else {
                    final(self)@ == old(self)@.update(
                        pile_index as int,
                        PileV {
                            cards: old(self)@[pile_index as int].cards.drop_last(),
                            color: old(self)@[pile_index as int].color,
                        },
                    )
                }
            },
            r matches Err(e) ==> {
                &&& final(self)@ == old(self)@
                &&& e == if pile_index as int >= old(self)@.len() {
                    GameError::PileIndexOutOfBounds
                } else {
                    GameError::PileEmpty
                }
            },
    {
        if pile_index as usize >= self.piles.len() {
            return Err(GameError::PileIndexOutOfBounds);
        }
        let pile = vstd::std_specs::vec::vec_index_mut(&mut self.piles, pile_index as usize);
        let card = match pile.cards.pop() {
            Some(c) => c,
            None => {
                assert(self@ =~= old(self)@);
                return Err(GameError::PileEmpty);
            },
        };
        if self.piles[pile_index as usize].cards.len() == 0 {
            self.piles.remove(pile_index as usize);
            assert(self@ =~= old(self)@.remove(pile_index as int));
        } else {
            assert(self@ =~= old(self)@.update(
                pile_index as int,
                PileV {
                    cards: old(self)@[pile_index as int].cards.drop_last(),
                    color: old(self)@[pile_index as int].color,
                },
            ));
        }
        Ok(card)
    }

    pub fn clear(&mut self)
        ensures
            final(self)@.len() == 0,
    {
        self.piles.clear();
    }
}

impl Default for PostPile {
    fn default() -> (p: PostPile)
        ensures
            p@.len() == 0,
    {
        PostPile::new()
    }
}

} // verus!
