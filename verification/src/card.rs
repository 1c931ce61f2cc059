//! Card identity: every card in a session is referred to by its index in the
//! global deck, and all of a card's attributes are a function of that index.
use vstd::prelude::*;

verus! {

/// The four card colors.
#[derive(Clone, Copy, Debug, PartialEq, Eq, Structural)]
pub enum Color {
    Red,
    Blue,
    Green,
    Yellow,
}

/// Each card shows a boy or a girl; the gender is derived from the card
/// number's parity (odd numbers are boys).
#[derive(Clone, Copy, Debug, PartialEq, Eq, Structural)]
pub enum Gender {
    Boy,
    Girl,
}

/// A card: the player whose 40-card set it belongs to, a number in 1..=10,
/// a color, and a gender.
#[derive(Clone, Copy, Debug, PartialEq, Eq, Structural)]
pub struct Card {
    pub player_id: u32,
    pub number: u32,
    pub color: Color,
    pub gender: Gender,
}

/// The color of the card at within-player offset `off` (0..40): ten cards
/// per color, in the fixed order red, blue, green, yellow.
pub open spec fn spec_color_of(off: int) -> Color {
    if off / 10 == 0 {
        Color::Red
    } else if off / 10 == 1 {
        Color::Blue
    } else if off / 10 == 2 {
        Color::Green
    } else {
        Color::Yellow
    }
}

/// The gender derived from a card number: odd numbers are boys.
pub open spec fn spec_gender_of(number: int) -> Gender {
    if number % 2 == 1 {
        Gender::Boy
    } else {
        Gender::Girl
    }
}

/// The card denoted by global deck index `i`. Player `i / 40` owns the card;
/// its number cycles 1..=10 and its color changes every ten cards.
pub open spec fn deck_card(i: int) -> Card {
    Card {
        player_id: (i / 40) as u32,
        number: ((i % 40) % 10 + 1) as u32,
        color: spec_color_of(i % 40),
        gender: spec_gender_of((i % 40) % 10 + 1),
    }
}

/// The owner of deck index `i` is `i / 40`.
pub open spec fn spec_card_owner(i: int) -> int {
    i / 40
}

/// A deck of `40 * players` cards holds exactly the cards denoted by the
/// indices.
pub open spec fn deck_generated(cards: Seq<Card>, players: int) -> bool {
    &&& cards.len() == 40 * players
    &&& forall|i: int| 0 <= i < cards.len() ==> cards[i] == deck_card(i)
}

/// Generate the global deck for `players` players: for each player four
/// colors of ten cards each, genders alternating with the number's parity.
pub fn generate_all_card(players: u32) -> (cards: Vec<Card>)
    requires
        40 * players <= u32::MAX,
    ensures
        deck_generated(cards@, players as int),
{
    let total: u32 = 40 * players;
    let mut cards: Vec<Card> = Vec::new();
    let mut i: u32 = 0;
    while i < total
        invariant
            total == 40 * players,
            i <= total,
            cards@.len() == i as int,
            forall|k: int| 0 <= k < i as int ==> cards@[k] == deck_card(k),
        decreases total - i,
    {
        let off: u32 = i % 40;
        let number: u32 = off % 10 + 1;
        let color = if off / 10 == 0 {
            Color::Red
        } else if off / 10 == 1 {
            Color::Blue
        } else if off / 10 == 2 {
            Color::Green
        } else {
            Color::Yellow
        };
        let gender = if number % 2 == 1 {
            Gender::Boy
        } else {
            Gender::Girl
        };
        let card = Card { player_id: i / 40, number, color, gender };
        assert(card == deck_card(i as int));
        cards.push(card);
        i = i + 1;
    }
    cards
}

/// Holds the session's global deck; all play messages refer to cards by
/// their index into it.
pub struct CardContext {
    cards: Vec<Card>,
}

impl View for CardContext {
    type V = Seq<Card>;

    closed spec fn view(&self) -> Seq<Card> {
        self.cards@
    }
}

impl CardContext {
    pub fn new(cards: Vec<Card>) -> (ctx: CardContext)
        ensures
            ctx@ == cards@,
    {
        CardContext { cards }
    }

    /// Look a card up by deck index; rejects indices outside the deck.
    pub fn get_card(&self, index: usize) -> (r: Result<&Card, crate::error::GameError>)
        ensures
            index < self@.len() ==> (r matches Ok(c) && *c == self@[index as int]),
            index >= self@.len() ==> (r matches Err(e) && e == crate::error::GameError::CardIndexOutOfBounds),
    {
        if index < self.cards.len() {
            Ok(&self.cards[index])
        } else {
            Err(crate::error::GameError::CardIndexOutOfBounds)
        }
    }

    /// How many cards the deck holds.
    pub fn len(&self) -> (n: usize)
        ensures
            n == self@.len(),
    {
        self.cards.len()
    }
}

/// The number on the card at deck index `i`, computed from the index alone.
pub fn card_number_of_index(i: u32) -> (n: u32)
    ensures
        n == deck_card(i as int).number,
        1 <= n <= 10,
{
    i % 40 % 10 + 1
}

/// The color of the card at deck index `i`, computed from the index alone.
pub fn card_color_of_index(i: u32) -> (c: Color)
    ensures
        c == deck_card(i as int).color,
{
    let off = i % 40;
    if off / 10 == 0 {
        Color::Red
    } else if off / 10 == 1 {
        Color::Blue
    } else if off / 10 == 2 {
        Color::Green
    } else {
        Color::Yellow
    }
}

/// The owner of the card at deck index `i`.
pub fn card_owner_of_index(i: u32) -> (p: u32)
    ensures
        p == deck_card(i as int).player_id,
{
    i / 40
}

} // verus!
