//! A player's private cards: the face-down hand the player cycles through,
//! the face-up available stack whose top may be played, and the blitz pile
//! whose emptying ends the round.
use vstd::prelude::*;

use crate::error::GameError;

verus! {

/// Mathematical image of a player's hand: the undrawn cards and the face-up
/// available cards (top last).
#[verifier::ext_equal]
pub ghost struct PlayerHandV {
    pub in_hand: Seq<u32>,
    pub available: Seq<u32>,
}

/// How many cards a transfer moves: the draw rate, or all remaining cards
/// when fewer are left.
pub open spec fn spec_draw_count(in_hand: Seq<u32>, count: int) -> int {
    if count <= in_hand.len() {
        count
    } else {
        in_hand.len() as int
    }
}

/// One transfer step at the level of hand images.
pub open spec fn spec_transfer(h: PlayerHandV, count: int) -> PlayerHandV {
    let k = spec_draw_count(h.in_hand, count);
    PlayerHandV { in_hand: h.in_hand.skip(k), available: h.available + h.in_hand.take(k) }
}

/// One reset step at the level of hand images: the available cards return to
/// the bottom of the hand, in order.
pub open spec fn spec_reset(h: PlayerHandV) -> PlayerHandV {
    PlayerHandV { in_hand: h.in_hand + h.available, available: Seq::empty() }
}

/// One full cycle: draw onto the available stack, then return it to the
/// hand.
pub open spec fn spec_cycle(h: PlayerHandV, rate: int) -> PlayerHandV {
    spec_reset(spec_transfer(h, rate))
}

/// `n` transfer-then-reset cycles in a row.
pub open spec fn spec_cycle_n(h: PlayerHandV, rate: int, n: nat) -> PlayerHandV
    decreases n,
{
    if n == 0 {
        h
    } else {
        spec_cycle(spec_cycle_n(h, rate, (n - 1) as nat), rate)
    }
}

/// A left rotation of a sequence by `k` places.
spec fn rotated(s: Seq<u32>, k: int) -> Seq<u32> {
    s.skip(k) + s.take(k)
}

proof fn lemma_rotated_index(s: Seq<u32>, k: int, i: int)
    requires
        0 <= k < s.len(),
        0 <= i < s.len(),
    ensures
        rotated(s, k)[i] == s[(i + k) % (s.len() as int)],
{
    let n = s.len() as int;
    if i < n - k {
        assert(rotated(s, k)[i] == s[i + k]);
        vstd::arithmetic::div_mod::lemma_small_mod((i + k) as nat, n as nat);
    } else {
        assert(rotated(s, k)[i] == s[i + k - n]);
        vstd::arithmetic::div_mod::lemma_mod_add_multiples_vanish(i + k - n, n);
        vstd::arithmetic::div_mod::lemma_small_mod((i + k - n) as nat, n as nat);
    }
}

proof fn lemma_rotated_twice(s: Seq<u32>, a: int, b: int)
    requires
        0 <= a < s.len(),
        0 <= b < s.len(),
    ensures
        rotated(rotated(s, a), b) == rotated(s, (a + b) % (s.len() as int)),
{
    let n = s.len() as int;
    vstd::arithmetic::div_mod::lemma_mod_division_less_than_divisor(a + b, n);
    vstd::arithmetic::div_mod::lemma_mod_bound(a + b, n);
    assert forall|i: int| 0 <= i < n implies rotated(rotated(s, a), b)[i] == rotated(
        s,
        (a + b) % n,
    )[i] by {
        lemma_rotated_index(rotated(s, a), b, i);
        vstd::arithmetic::div_mod::lemma_mod_bound(i + b, n);
        lemma_rotated_index(s, a, (i + b) % n);
        lemma_rotated_index(s, (a + b) % n, i);
        assert(((i + b) % n + a) % n == (i + b + a) % n) by {
            vstd::arithmetic::div_mod::lemma_add_mod_noop(i + b, a, n);
            vstd::arithmetic::div_mod::lemma_small_mod(a as nat, n as nat);
        }
        assert((i + (a + b) % n) % n == (i + a + b) % n) by {
            vstd::arithmetic::div_mod::lemma_add_mod_noop_right(i, a + b, n);
        }
    }
    assert(rotated(rotated(s, a), b) =~= rotated(s, (a + b) % n));
}

proof fn lemma_cycle_iterates(h: PlayerHandV, rate: int, j: nat)
    requires
        h.available.len() == 0,
        rate >= 0,
        h.in_hand.len() >= 1,
    ensures
        ({
            let n = h.in_hand.len() as int;
            let k = if rate <= n {
                rate
            } else {
                n
            };
            let k0 = k % n;
            &&& spec_cycle_n(h, rate, j).available.len() == 0
            &&& spec_cycle_n(h, rate, j).in_hand == rotated(h.in_hand, (k0 * j) % n)
        }),
    decreases j,
{
    let n = h.in_hand.len() as int;
    let k = if rate <= n {
        rate
    } else {
        n
    };
    let k0 = k % n;
    vstd::arithmetic::div_mod::lemma_mod_bound(k, n);
    if j == 0 {
        vstd::arithmetic::div_mod::lemma_small_mod(0, n as nat);
        assert(rotated(h.in_hand, 0) =~= h.in_hand);
    } else {
        lemma_cycle_iterates(h, rate, (j - 1) as nat);
        let prev = spec_cycle_n(h, rate, (j - 1) as nat);
        let r = (k0 * (j - 1)) % n;
        assert(prev.in_hand == rotated(h.in_hand, r));
        assert(prev.in_hand.len() == n);
        let stepped = spec_cycle(prev, rate);
        assert(spec_draw_count(prev.in_hand, rate) == k);
        assert(stepped.available.len() == 0);
        assert(stepped.in_hand =~= rotated(prev.in_hand, k)) by {
            assert(spec_transfer(prev, rate).available =~= prev.in_hand.take(k));
        }
        assert(rotated(prev.in_hand, k) =~= rotated(prev.in_hand, k0)) by {
            if k == n {
                vstd::arithmetic::div_mod::lemma_mod_self_0(n);
                assert(rotated(prev.in_hand, n) =~= rotated(prev.in_hand, 0));
            } else {
                vstd::arithmetic::div_mod::lemma_small_mod(k as nat, n as nat);
            }
        }
        vstd::arithmetic::div_mod::lemma_mod_bound(k0 * (j - 1), n);
        lemma_rotated_twice(h.in_hand, r, k0);
        assert((r + k0) % n == (k0 * j) % n) by {
            vstd::arithmetic::div_mod::lemma_add_mod_noop(k0 * (j - 1), k0, n);
            vstd::arithmetic::div_mod::lemma_small_mod(k0 as nat, n as nat);
            assert(k0 * (j - 1) + k0 == k0 * j) by (nonlinear_arith);
        }
    }
}

/// Drawing and resetting over and over returns the hand to its starting
/// partition: from a hand with an empty available stack, as many
/// transfer-then-reset cycles as the hand holds cards restore it exactly.
pub proof fn lemma_transfer_reset_round_trip(h: PlayerHandV, rate: int)
    requires
        h.available.len() == 0,
        rate >= 0,
    ensures
        spec_cycle_n(h, rate, h.in_hand.len()) == h,
{
    let n = h.in_hand.len() as int;
    if n == 0 {
        assert(spec_cycle_n(h, rate, 0) == h);
    } else {
        let k = if rate <= n {
            rate
        } else {
            n
        };
        let k0 = k % n;
        lemma_cycle_iterates(h, rate, h.in_hand.len());
        vstd::arithmetic::div_mod::lemma_mod_multiples_basic(k0, n);
        assert((k0 * n) % n == 0);
        vstd::arithmetic::div_mod::lemma_small_mod(0, n as nat);
        assert(rotated(h.in_hand, 0) =~= h.in_hand);
        assert(spec_cycle_n(h, rate, h.in_hand.len()) =~= h) by {
            assert(spec_cycle_n(h, rate, h.in_hand.len()).available =~= h.available);
        }
    }
}

/// The two ordered card stacks a player draws from and plays from.
pub struct PlayerHand {
    pub in_hand: Vec<u32>,
    pub available_to_play: Vec<u32>,
}

impl View for PlayerHand {
    type V = PlayerHandV;

    open spec fn view(&self) -> PlayerHandV {
        PlayerHandV { in_hand: self.in_hand@, available: self.available_to_play@ }
    }
}

impl PlayerHand {
    pub fn new(cards: Vec<u32>) -> (h: PlayerHand)
        ensures
            h@.in_hand == cards@,
            h@.available.len() == 0,
    {
        PlayerHand { in_hand: cards, available_to_play: Vec::new() }
    }

    /// Move the next `count` cards (or all remaining, if fewer) from the
    /// hand onto the top of the available stack; returns the cards moved, in
    /// the order drawn.
    pub fn transfer_hand_to_available(&mut self, count: u32) -> (drawn: Vec<u32>)
        ensures
            final(self)@ == spec_transfer(old(self)@, count as int),
            drawn@ == old(self)@.in_hand.take(spec_draw_count(old(self)@.in_hand, count as int)),
    {
        let len = self.in_hand.len();
        let k = if (count as usize) <= len {
            count as usize
        } else {
            len
        };
        assert(k as int == spec_draw_count(self@.in_hand, count as int));
        let mut drawn: Vec<u32> = Vec::new();
        let mut i: usize = 0;
        while i < k
            invariant
                i <= k <= self.in_hand.len(),
                *self == *old(self),
                drawn@ == self.in_hand@.take(i as int),
            decreases k - i,
        {
            drawn.push(self.in_hand[i]);
            assert(drawn@ =~= self.in_hand@.take(i + 1));
            i = i + 1;
        }
        let mut rest: Vec<u32> = Vec::new();
        let mut j: usize = k;
        while j < len
            invariant
                k <= j <= len,
                len == self.in_hand.len(),
                *self == *old(self),
                rest@ == self.in_hand@.subrange(k as int, j as int),
            decreases len - j,
        {
            rest.push(self.in_hand[j]);
            assert(rest@ =~= self.in_hand@.subrange(k as int, j + 1));
            j = j + 1;
        }
        self.in_hand = rest;
        let mut m: usize = 0;
        while m < k
            invariant
                m <= k <= old(self)@.in_hand.len(),
                drawn@ == old(self)@.in_hand.take(k as int),
                self.in_hand@ == old(self)@.in_hand.subrange(k as int, old(self)@.in_hand.len() as int),
                drawn@.len() == k,
                self.available_to_play@ == old(self)@.available + drawn@.take(m as int),
            decreases k - m,
        {
            self.available_to_play.push(drawn[m]);
            assert(self.available_to_play@ =~= old(self)@.available + drawn@.take(m + 1));
            m = m + 1;
        }
        assert(self@ =~= spec_transfer(old(self)@, count as int));
        drawn
    }

    /// Pop the top of the available stack; fails when no card is available.
    pub fn play_from_available(&mut self) -> (r: Result<u32, GameError>)
        ensures
            r is Ok <==> old(self)@.available.len() >= 1,
            r matches Ok(c) ==> {
                &&& c == old(self)@.available.last()
                &&& final(self)@.available == old(self)@.available.drop_last()
                &&& final(self)@.in_hand == old(self)@.in_hand
            },
            r matches Err(e) ==> {
                &&& final(self)@ == old(self)@
                &&& e == GameError::NoAvailableCards
            },
    {
        match self.available_to_play.pop() {
            Some(c) => Ok(c),
            None => Err(GameError::NoAvailableCards),
        }
    }

    /// Return every available card to the bottom of the hand, keeping order,
    /// and clear the available stack.
    pub fn reset_hand(&mut self)
        ensures
            final(self)@ == spec_reset(old(self)@),
    {
        self.in_hand.append(&mut self.available_to_play);
        assert(self@ =~= spec_reset(old(self)@));
    }

    pub fn clear(&mut self)
        ensures
            final(self)@.in_hand.len() == 0,
            final(self)@.available.len() == 0,
    {
        self.in_hand.clear();
        self.available_to_play.clear();
    }

    pub fn count_in_hand(&self) -> (n: usize)
        ensures
            n == self@.in_hand.len(),
    {
        self.in_hand.len()
    }

    pub fn count_available(&self) -> (n: usize)
        ensures
            n == self@.available.len(),
    {
        self.available_to_play.len()
    }
}

/// The blitz pile: ten cards at deal time, played from the top; an empty
/// blitz pile entitles the player to call blitz.
pub struct BlitzPile {
    pub cards: Vec<u32>,
}

impl View for BlitzPile {
    type V = Seq<u32>;

    open spec fn view(&self) -> Seq<u32> {
        self.cards@
    }
}

impl BlitzPile {
    pub fn new(cards: Vec<u32>) -> (b: BlitzPile)
        ensures
            b@ == cards@,
    {
        BlitzPile { cards }
    }

    /// Pop the top card of the blitz pile; fails when the pile is empty.
    pub fn play(&mut self) -> (r: Result<u32, GameError>)
        ensures
            r is Ok <==> old(self)@.len() >= 1,
            r matches Ok(c) ==> {
                &&& c == old(self)@.last()
                &&& final(self)@ == old(self)@.drop_last()
            },
            r matches Err(e) ==> {
                &&& final(self)@ == old(self)@
                &&& e == GameError::BlitzPileEmpty
            },
    {
        match self.cards.pop() {
            Some(c) => Ok(c),
            None => Err(GameError::BlitzPileEmpty),
        }
    }

    /// A player may call blitz exactly when their blitz pile is empty.
    pub fn can_call_blitz(&self) -> (b: bool)
        ensures
            b == (self@.len() == 0),
    {
        self.cards.is_empty()
    }

    pub fn clear(&mut self)
        ensures
            final(self)@.len() == 0,
    {
        self.cards.clear();
    }
}

} // verus!
