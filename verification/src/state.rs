//! The authoritative rules engine: the game state, the deal, and every play
//! a client may make.
use vstd::prelude::*;

use crate::card::{deck_card, deck_generated, generate_all_card, Card, CardContext};
use crate::conserve::{pile_cards, range_mset, range_seq, seqs_mset};
use crate::deal::{
    seeded_order, shuffle, shuffle_seeded, spec_deal_blitz, spec_deal_hand, spec_deal_posts,
};
use crate::error::GameError;
use crate::hand::{BlitzPile, PlayerHand, PlayerHandV};
use crate::pile::{arena_pile_inv, in_player_range, post_pile_inv, Arena, Pile, PileV, PostPile};
use crate::score::{spec_total, Scoreboard};
use crate::wire::GamePrefs;
use vstd::multiset::Multiset;

verus! {

broadcast use {vstd::seq_lib::group_to_multiset_ensures, vstd::multiset::group_multiset_axioms};

/// A play that moves a card to the arena: the value names the target arena
/// pile (ignored when the card starts a new pile).
#[derive(Clone, Copy, Debug)]
pub enum ArenaAction {
    FromAvailableHand(u32),
    FromBlitz(u32),
    FromPost { post_pile: u32, arena_pile: u32 },
}

/// A play that rearranges the player's own cards.
#[derive(Clone, Copy, Debug)]
pub enum PlayerAction {
    BlitzToPost(u32),
    AvailableToPost(u32),
    TransferToAvailable,
    ResetHand,
}

/// Any play a client can make: an arena play, a player-local play, or the
/// blitz call that ends the round.
#[derive(Clone, Copy, Debug)]
pub enum Action {
    Arena(ArenaAction),
    Player(PlayerAction),
    CallBlitz(u32),
}

/// A play together with the player making it.
#[derive(Clone, Copy, Debug)]
pub struct Play {
    pub player: u32,
    pub play: Action,
}

/// The play a wire message denotes, if its codes and indices are complete
/// and defined.
pub open spec fn spec_decode_play(player_id: u32, w: crate::wire::PlayWire) -> Option<Play> {
    match w {
        crate::wire::PlayWire::ArenaPlay(a) => {
            match crate::wire::spec_arena_play_type_from_code(a.play_type) {
                Some(crate::wire::ArenaPlayType::FromAvailableHand) => match a.to_index {
                    Some(t) => Some(
                        Play { player: player_id, play: Action::Arena(ArenaAction::FromAvailableHand(t)) },
                    ),
                    None => None,
                },
                Some(crate::wire::ArenaPlayType::FromBlitz) => match a.to_index {
                    Some(t) => Some(
                        Play { player: player_id, play: Action::Arena(ArenaAction::FromBlitz(t)) },
                    ),
                    None => None,
                },
                Some(crate::wire::ArenaPlayType::FromPost) => match (a.from_index, a.to_index) {
                    (Some(f), Some(t)) => Some(
                        Play {
                            player: player_id,
                            play: Action::Arena(
                                ArenaAction::FromPost { post_pile: f, arena_pile: t },
                            ),
                        },
                    ),
                    _ => None,
                },
                None => None,
            }
        },
        crate::wire::PlayWire::PlayerPlay(p) => {
            match crate::wire::spec_player_play_type_from_code(p.play_type) {
                Some(crate::wire::PlayerPlayType::BlitzToPost) => match p.post_index {
                    Some(k) => Some(
                        Play { player: player_id, play: Action::Player(PlayerAction::BlitzToPost(k)) },
                    ),
                    None => None,
                },
                Some(crate::wire::PlayerPlayType::AvailableHandToPost) => match p.post_index {
                    Some(k) => Some(
                        Play {
                            player: player_id,
                            play: Action::Player(PlayerAction::AvailableToPost(k)),
                        },
                    ),
                    None => None,
                },
                Some(crate::wire::PlayerPlayType::TransferToAvailableHand) => Some(
                    Play { player: player_id, play: Action::Player(PlayerAction::TransferToAvailable) },
                ),
                Some(crate::wire::PlayerPlayType::ResetHand) => Some(
                    Play { player: player_id, play: Action::Player(PlayerAction::ResetHand) },
                ),
                None => None,
            }
        },
        crate::wire::PlayWire::CallBlitz(c) => Some(
            Play { player: player_id, play: Action::CallBlitz(c) },
        ),
    }
}

/// Decode a play from its wire form; a missing index or an undefined play
/// kind yields nothing.
pub fn decode_play(player_id: u32, w: crate::wire::PlayWire) -> (r: Option<Play>)
    ensures
        r == spec_decode_play(player_id, w),
{
    match w {
        crate::wire::PlayWire::ArenaPlay(a) => {
            match crate::wire::arena_play_type_from_code(a.play_type) {
                Some(crate::wire::ArenaPlayType::FromAvailableHand) => match a.to_index {
                    Some(t) => Some(
                        Play { player: player_id, play: Action::Arena(ArenaAction::FromAvailableHand(t)) },
                    ),
                    None => None,
                },
                Some(crate::wire::ArenaPlayType::FromBlitz) => match a.to_index {
                    Some(t) => Some(
                        Play { player: player_id, play: Action::Arena(ArenaAction::FromBlitz(t)) },
                    ),
                    None => None,
                },
                Some(crate::wire::ArenaPlayType::FromPost) => match (a.from_index, a.to_index) {
                    (Some(f), Some(t)) => Some(
                        Play {
                            player: player_id,
                            play: Action::Arena(
                                ArenaAction::FromPost { post_pile: f, arena_pile: t },
                            ),
                        },
                    ),
                    _ => None,
                },
                None => None,
            }
        },
        crate::wire::PlayWire::PlayerPlay(p) => {
            match crate::wire::player_play_type_from_code(p.play_type) {
                Some(crate::wire::PlayerPlayType::BlitzToPost) => match p.post_index {
                    Some(k) => Some(
                        Play { player: player_id, play: Action::Player(PlayerAction::BlitzToPost(k)) },
                    ),
                    None => None,
                },
                Some(crate::wire::PlayerPlayType::AvailableHandToPost) => match p.post_index {
                    Some(k) => Some(
                        Play {
                            player: player_id,
                            play: Action::Player(PlayerAction::AvailableToPost(k)),
                        },
                    ),
                    None => None,
                },
                Some(crate::wire::PlayerPlayType::TransferToAvailableHand) => Some(
                    Play { player: player_id, play: Action::Player(PlayerAction::TransferToAvailable) },
                ),
                Some(crate::wire::PlayerPlayType::ResetHand) => Some(
                    Play { player: player_id, play: Action::Player(PlayerAction::ResetHand) },
                ),
                None => None,
            }
        },
        crate::wire::PlayWire::CallBlitz(c) => Some(
            Play { player: player_id, play: Action::CallBlitz(c) },
        ),
    }
}

/// One player's cards for a round.
pub struct Player {
    pub player_id: u32,
    pub hand: PlayerHand,
    pub post_pile: PostPile,
    pub blitz_pile: BlitzPile,
}

/// Mathematical image of a player.
#[verifier::ext_equal]
pub ghost struct PlayerV {
    pub player_id: u32,
    pub hand: PlayerHandV,
    pub posts: Seq<PileV>,
    pub blitz: Seq<u32>,
}

impl View for Player {
    type V = PlayerV;

    open spec fn view(&self) -> PlayerV {
        PlayerV {
            player_id: self.player_id,
            hand: self.hand@,
            posts: self.post_pile@,
            blitz: self.blitz_pile@,
        }
    }
}

impl Player {
    /// A player may call blitz exactly when their blitz pile is empty.
    pub fn can_call_blitz(&self) -> (b: bool)
        ensures
            b == (self@.blitz.len() == 0),
    {
        self.blitz_pile.can_call_blitz()
    }
}

/// Mathematical image of the whole game state.
#[verifier::ext_equal]
pub ghost struct GameStateV {
    pub round: u32,
    pub scores: Seq<Seq<i64>>,
    pub deck: Seq<Card>,
    pub players: Seq<PlayerV>,
    pub arena: Seq<PileV>,
    pub draw_rate: u32,
    pub post_pile_size: u32,
    pub score_to_win: u32,
    pub blitz_deduction: u32,
    pub default_draw_rate: u32,
    pub is_game_over: bool,
}

/// Every card a player holds, as a multiset.
pub open spec fn player_mset(pl: PlayerV) -> Multiset<u32> {
    pl.hand.in_hand.to_multiset().add(pl.hand.available.to_multiset()).add(
        pl.blitz.to_multiset(),
    ).add(seqs_mset(pile_cards(pl.posts)))
}

/// The cards of a multiset that belong to player `p`.
pub open spec fn owned_mset(m: Multiset<u32>, p: int) -> Multiset<u32> {
    m.filter(|c: u32| in_player_range(c, p))
}

/// The cards of player `p` that sit in the arena.
pub open spec fn arena_owned(arena: Seq<PileV>, p: int) -> Multiset<u32> {
    owned_mset(seqs_mset(pile_cards(arena)), p)
}

/// All entries of `s` belong to player `p`.
pub open spec fn seq_owned(s: Seq<u32>, p: int) -> bool {
    forall|i: int| 0 <= i < s.len() ==> in_player_range(#[trigger] s[i], p)
}

/// Player structure invariant: the player knows its own index, holds only
/// its own cards, and every post pile is a valid descending run.
pub open spec fn player_inv(pl: PlayerV, p: int) -> bool {
    &&& pl.player_id == p
    &&& seq_owned(pl.hand.in_hand, p)
    &&& seq_owned(pl.hand.available, p)
    &&& seq_owned(pl.blitz, p)
    &&& forall|k: int| 0 <= k < pl.posts.len() ==> post_pile_inv(#[trigger] pl.posts[k], p)
}

/// Conservation: together with its arena contributions, each player's cards
/// are exactly its forty-card range of the deck — every card in exactly one
/// place.
pub open spec fn conserved(g: GameStateV) -> bool {
    forall|p: int|
        0 <= p < g.players.len() ==> player_mset(#[trigger] g.players[p]).add(
            arena_owned(g.arena, p),
        ) == range_mset(40 * p, 40)
}

/// Well-formedness of a game state: a generated deck, valid piles, correct
/// ownership, matching scoreboard, and conservation of cards.
pub open spec fn wf(g: GameStateV) -> bool {
    &&& 1 <= g.players.len()
    &&& 40 * g.players.len() <= u32::MAX
    &&& g.deck.len() == 40 * g.players.len()
    &&& deck_generated(g.deck, g.players.len() as int)
    &&& g.scores.len() == g.players.len()
    &&& g.post_pile_size + 10 <= 40
    &&& forall|a: int|
        0 <= a < g.arena.len() ==> arena_pile_inv(#[trigger] g.arena[a], g.deck.len() as int)
    &&& forall|p: int| 0 <= p < g.players.len() ==> player_inv(#[trigger] g.players[p], p)
    &&& conserved(g)
}

/// The image of a freshly dealt player: full hand, empty available stack,
/// ten blitz cards, one-card post piles.
pub open spec fn fresh_player(pl: PlayerV, p: int, pps: int) -> bool {
    &&& pl.player_id == p
    &&& pl.hand.in_hand.len() == 30 - pps
    &&& pl.hand.available.len() == 0
    &&& pl.blitz.len() == 10
    &&& pl.posts.len() == pps
    &&& forall|k: int| 0 <= k < pl.posts.len() ==> (#[trigger] pl.posts[k]).cards.len() == 1
}

/// The player dealt from a given card order.
pub open spec fn spec_dealt_player(order: Seq<u32>, p: int, pps: int) -> PlayerV {
    PlayerV {
        player_id: p as u32,
        hand: PlayerHandV { in_hand: spec_deal_hand(order, pps), available: Seq::empty() },
        posts: spec_deal_posts(order, pps),
        blitz: spec_deal_blitz(order, pps),
    }
}

/// The player a seeded deal produces: a function of the player index, the
/// post pile count and the seed alone.
pub open spec fn spec_seeded_player(p: int, pps: int, seed: u64) -> PlayerV {
    spec_dealt_player(seeded_order(range_seq(40 * p, 40), seed), p, pps)
}

/// A dealt player is valid and holds exactly its own forty cards.
proof fn lemma_dealt_player_ok(order: Seq<u32>, p: int, pps: int)
    requires
        0 <= p,
        40 * p + 40 <= u32::MAX + 1,
        0 <= pps,
        pps + 10 <= 40,
        order.len() == 40,
        order.to_multiset() == range_mset(40 * p, 40),
    ensures
        fresh_player(spec_dealt_player(order, p, pps), p, pps),
        player_inv(spec_dealt_player(order, p, pps), p),
        player_mset(spec_dealt_player(order, p, pps)) == range_mset(40 * p, 40),
{
    let pl = spec_dealt_player(order, p, pps);
    crate::deal::lemma_order_owned(order, p);
    assert forall|k: int| 0 <= k < pl.posts.len() implies post_pile_inv(
        #[trigger] pl.posts[k],
        p,
    ) by {
        let c = order[40 - pps + k];
        assert(in_player_range(c, p));
        assert(pl.posts[k].cards =~= seq![c]);
        assert(pl.posts[k].cards[0] == c);
    }
    crate::deal::lemma_deal_mset(order, pps);
    assert(player_mset(pl) =~= range_mset(40 * p, 40)) by {
        assert(pl.hand.available.to_multiset() =~= Multiset::<u32>::empty()) by {
            assert(pl.hand.available =~= Seq::<u32>::empty());
        }
        assert(spec_deal_hand(order, pps).to_multiset().add(
            spec_deal_blitz(order, pps).to_multiset(),
        ).add(seqs_mset(pile_cards(spec_deal_posts(order, pps)))) == order.to_multiset());
    }
}

/// Deal one player's cards from an already shuffled order.
fn deal_player(order: Vec<u32>, player_id: u32, pps: u32) -> (pl: Player)
    requires
        order@.len() == 40,
        pps + 10 <= 40,
    ensures
        pl@ == spec_dealt_player(order@, player_id as int, pps as int),
{
    let hand_n: usize = (30 - pps) as usize;
    let mut hand: Vec<u32> = Vec::new();
    let mut i: usize = 0;
    while i < hand_n
        invariant
            hand_n == 30 - pps,
            order@.len() == 40,
            i <= hand_n,
            hand@ == order@.take(i as int),
        decreases hand_n - i,
    {
        hand.push(order[i]);
        assert(hand@ =~= order@.take(i + 1));
        i = i + 1;
    }
    let mut blitz: Vec<u32> = Vec::new();
    let mut j: usize = hand_n;
    while j < hand_n + 10
        invariant
            hand_n == 30 - pps,
            order@.len() == 40,
            hand_n <= j <= hand_n + 10,
            blitz@ == order@.subrange(hand_n as int, j as int),
        decreases hand_n + 10 - j,
    {
        blitz.push(order[j]);
        assert(blitz@ =~= order@.subrange(hand_n as int, j + 1));
        j = j + 1;
    }
    let mut posts: Vec<Pile> = Vec::new();
    let mut k: usize = 0;
    while k < pps as usize
        invariant
            hand_n == 30 - pps,
            pps + 10 <= 40,
            order@.len() == 40,
            k <= pps,
            posts@.len() == k,
            forall|t: int|
                0 <= t < k ==> (#[trigger] posts@[t])@ == spec_deal_posts(
                    order@,
                    pps as int,
                )[t],
        decreases pps - k,
    {
        let c = order[(40 - pps as usize) + k];
        let color = crate::card::card_color_of_index(c);
        let mut cards: Vec<u32> = Vec::new();
        cards.push(c);
        let pile = Pile::from_vec(cards, color);
        assert(pile@ =~= spec_deal_posts(order@, pps as int)[k as int]) by {
            assert(pile@.cards =~= seq![c]);
        }
        posts.push(pile);
        k = k + 1;
    }
    let pl = Player {
        player_id,
        hand: PlayerHand::new(hand),
        post_pile: PostPile::from_vec(posts),
        blitz_pile: BlitzPile::new(blitz),
    };
    assert(pl@.posts =~= spec_deal_posts(order@, pps as int));
    assert(pl@ =~= spec_dealt_player(order@, player_id as int, pps as int)) by {
        assert(pl@.hand.in_hand =~= spec_deal_hand(order@, pps as int));
        assert(pl@.blitz =~= spec_deal_blitz(order@, pps as int));
        assert(pl@.hand.available =~= Seq::<u32>::empty());
    }
    pl
}

/// The ascending card indices a player owns, before shuffling.
fn player_order(player_id: u32) -> (order: Vec<u32>)
    requires
        40 * player_id + 40 <= u32::MAX,
    ensures
        order@ == range_seq(40 * player_id, 40),
        order@.to_multiset() == range_mset(40 * player_id, 40),
{
    let base: u32 = 40 * player_id;
    let mut order: Vec<u32> = Vec::new();
    let mut i: u32 = 0;
    while i < 40
        invariant
            base == 40 * player_id,
            base + 40 <= u32::MAX,
            i <= 40,
            order@.len() == i,
            forall|t: int| 0 <= t < i ==> order@[t] == base + t,
        decreases 40 - i,
    {
        order.push(base + i);
        i = i + 1;
    }
    assert(order@ =~= range_seq(40 * player_id, 40));
    order
}

/// Deal a fresh player: shuffle the player's own forty indices and split
/// them into hand, blitz pile and post piles. With a seed the deal is the
/// same on every run.
fn make_player(player_id: u32, pps: u32, seed: Option<u64>) -> (pl: Player)
    requires
        40 * player_id + 40 <= u32::MAX,
        pps + 10 <= 40,
    ensures
        fresh_player(pl@, player_id as int, pps as int),
        player_inv(pl@, player_id as int),
        player_mset(pl@) == range_mset(40 * player_id, 40),
        seed matches Some(s) ==> pl@ == spec_seeded_player(player_id as int, pps as int, s),
{
    let mut order = player_order(player_id);
    match seed {
        Some(s) => shuffle_seeded(&mut order, s),
        None => shuffle(&mut order),
    }
    proof {
        assert(order@.len() == order@.to_multiset().len());
        assert(range_seq(40 * player_id, 40).len() == 40);
        assert(range_mset(40 * player_id, 40).len() == 40) by {
            assert(range_seq(40 * player_id, 40).to_multiset().len() == 40);
        }
        lemma_dealt_player_ok(order@, player_id as int, pps as int);
    }
    deal_player(order, player_id, pps)
}

/// An empty arena contributes no cards to any player.
proof fn lemma_empty_arena_owned(arena: Seq<PileV>, p: int)
    requires
        arena.len() == 0,
    ensures
        arena_owned(arena, p) == Multiset::<u32>::empty(),
{
    assert(pile_cards(arena) =~= Seq::<Seq<u32>>::empty());
    assert(arena_owned(arena, p) =~= Multiset::<u32>::empty());
}

/// The authoritative state of one game: deck, per-player piles, the shared
/// arena, the scoreboard and the round bookkeeping.
pub struct GameState {
    pub round: u32,
    pub scoreboard: Scoreboard,
    pub card_context: CardContext,
    pub players: Vec<Player>,
    pub arena: Arena,
    pub draw_rate: u32,
    pub post_pile_size: u32,
    /// The running total a player must reach to win the game.
    pub score_to_win: u32,
    /// Points deducted from a player who could have called blitz but did
    /// not, when another player calls it.
    pub blitz_deduction: u32,
    /// The draw rate the game was created with, restored by a reset.
    pub default_draw_rate: u32,
    /// Set once a running total reaches `score_to_win`.
    pub is_game_over: bool,
}

impl View for GameState {
    type V = GameStateV;

    open spec fn view(&self) -> GameStateV {
        GameStateV {
            round: self.round,
            scores: self.scoreboard@,
            deck: self.card_context@,
            players: self.players@.map_values(|pl: Player| pl@),
            arena: self.arena@,
            draw_rate: self.draw_rate,
            post_pile_size: self.post_pile_size,
            score_to_win: self.score_to_win,
            blitz_deduction: self.blitz_deduction,
            default_draw_rate: self.default_draw_rate,
            is_game_over: self.is_game_over,
        }
    }
}

impl GameState {
    /// Create the state for a new game: generate the deck and deal every
    /// player. Rejects a game with no players or more post piles than a
    /// deal can supply.
    pub fn new(player_count: u32, prefs: GamePrefs) -> (r: Result<GameState, GameError>)
        ensures
            r is Ok <==> (1 <= player_count && prefs.post_pile_size <= 30 && player_count
                <= u32::MAX / 40),
            r matches Err(e) ==> e == GameError::InvalidConfig,
            r matches Ok(gs) ==> {
                &&& wf(gs@)
                &&& gs@.players.len() == player_count
                &&& gs@.round == 0
                &&& gs@.arena.len() == 0
                &&& gs@.draw_rate == prefs.draw_rate
                &&& gs@.default_draw_rate == prefs.draw_rate
                &&& gs@.post_pile_size == prefs.post_pile_size
                &&& gs@.score_to_win == prefs.score_to_win
                &&& gs@.blitz_deduction == prefs.blitz_deduction
                &&& gs@.is_game_over == false
                &&& forall|p: int|
                    0 <= p < player_count ==> fresh_player(
                        #[trigger] gs@.players[p],
                        p,
                        prefs.post_pile_size as int,
                    )
                &&& forall|p: int| 0 <= p < player_count ==> (#[trigger] gs@.scores[p]).len() == 0
            },
    {
        if player_count < 1 || prefs.post_pile_size > 30 || player_count > u32::MAX / 40 {
            return Err(GameError::InvalidConfig);
        }
        let cards = generate_all_card(player_count);
        let card_context = CardContext::new(cards);
        let mut players: Vec<Player> = Vec::new();
        let mut i: u32 = 0;
        while i < player_count
            invariant
                1 <= player_count <= u32::MAX / 40,
                prefs.post_pile_size <= 30,
                i <= player_count,
                players@.len() == i,
                forall|p: int|
                    0 <= p < i ==> {
                        &&& fresh_player(
                            (#[trigger] players@[p])@,
                            p,
                            prefs.post_pile_size as int,
                        )
                        &&& player_inv(players@[p]@, p)
                        &&& player_mset(players@[p]@) == range_mset(40 * p, 40)
                    },
            decreases player_count - i,
        {
            players.push(make_player(i, prefs.post_pile_size, None));
            i = i + 1;
        }
        let gs = GameState {
            round: 0,
            scoreboard: Scoreboard::new(player_count),
            card_context,
            players,
            arena: Arena::new(),
            draw_rate: prefs.draw_rate,
            post_pile_size: prefs.post_pile_size,
            score_to_win: prefs.score_to_win,
            blitz_deduction: prefs.blitz_deduction,
            default_draw_rate: prefs.draw_rate,
            is_game_over: false,
        };
        proof {
            assert forall|p: int| 0 <= p < gs@.players.len() implies player_mset(
                #[trigger] gs@.players[p],
            ).add(arena_owned(gs@.arena, p)) == range_mset(40 * p, 40) by {
                lemma_empty_arena_owned(gs@.arena, p);
                assert(player_mset(gs@.players[p]).add(Multiset::<u32>::empty()) =~= player_mset(
                    gs@.players[p],
                ));
            }
        }
        Ok(gs)
    }

    pub fn from_build(builder: GameStateBuilder) -> (r: Result<GameState, GameError>)
        ensures
            r is Ok <==> (1 <= builder.player_count && builder.post_pile_size <= 30
                && builder.player_count <= u32::MAX / 40),
            r matches Err(e) ==> e == GameError::InvalidConfig,
            r matches Ok(gs) ==> wf(gs@) && gs@.players.len() == builder.player_count
                && gs@.draw_rate == builder.draw_rate && gs@.post_pile_size
                == builder.post_pile_size && gs@.score_to_win == builder.score_to_win
                && gs@.blitz_deduction == builder.blitz_deduction,
    {
        GameState::new(
            builder.player_count,
            GamePrefs {
                draw_rate: builder.draw_rate,
                post_pile_size: builder.post_pile_size,
                score_to_win: builder.score_to_win,
                blitz_deduction: builder.blitz_deduction,
            },
        )
    }

    /// Deal a fresh set of cards for the given player slot.
    pub fn create_player(&self, player_id: u32) -> (r: Result<Player, GameError>)
        requires
            wf(self@),
        ensures
            r is Ok <==> (player_id as int) < self@.players.len(),
            r matches Err(e) ==> e == GameError::InvalidPlayer,
            r matches Ok(pl) ==> {
                &&& fresh_player(pl@, player_id as int, self@.post_pile_size as int)
                &&& player_inv(pl@, player_id as int)
                &&& player_mset(pl@) == range_mset(40 * player_id, 40)
            },
    {
        if (player_id as usize) >= self.players.len() {
            return Err(GameError::InvalidPlayer);
        }
        Ok(make_player(player_id, self.post_pile_size, None))
    }

    /// Deal a fresh set of cards for the given player slot from a seeded
    /// shuffle: the same seed always produces the same deal.
    pub fn create_player_seeded(&self, player_id: u32, seed: u64) -> (r: Result<Player, GameError>)
        requires
            wf(self@),
        ensures
            r is Ok <==> (player_id as int) < self@.players.len(),
            r matches Err(e) ==> e == GameError::InvalidPlayer,
            r matches Ok(pl) ==> {
                &&& pl@ == spec_seeded_player(player_id as int, self@.post_pile_size as int, seed)
                &&& fresh_player(pl@, player_id as int, self@.post_pile_size as int)
                &&& player_inv(pl@, player_id as int)
                &&& player_mset(pl@) == range_mset(40 * player_id, 40)
            },
    {
        if (player_id as usize) >= self.players.len() {
            return Err(GameError::InvalidPlayer);
        }
        Ok(make_player(player_id, self.post_pile_size, Some(seed)))
    }

    /// Start the next round: clear the arena and deal every player anew.
    /// The scoreboard and the preferences carry over.
    pub fn new_round(&mut self) -> (r: Result<(), GameError>)
        requires
            wf(old(self)@),
            old(self)@.round < u32::MAX,
        ensures
            r is Ok,
            wf(final(self)@),
            final(self)@.round == old(self)@.round + 1,
            final(self)@.arena.len() == 0,
            final(self)@.scores == old(self)@.scores,
            final(self)@.deck == old(self)@.deck,
            final(self)@.players.len() == old(self)@.players.len(),
            final(self)@.draw_rate == old(self)@.draw_rate,
            final(self)@.post_pile_size == old(self)@.post_pile_size,
            final(self)@.score_to_win == old(self)@.score_to_win,
            final(self)@.blitz_deduction == old(self)@.blitz_deduction,
            final(self)@.default_draw_rate == old(self)@.default_draw_rate,
            final(self)@.is_game_over == old(self)@.is_game_over,
            forall|p: int|
                0 <= p < old(self)@.players.len() ==> fresh_player(
                    #[trigger] final(self)@.players[p],
                    p,
                    old(self)@.post_pile_size as int,
                ),
    {
        self.round = self.round + 1;
        self.arena.piles.clear();
        let count = self.players.len();
        let mut fresh: Vec<Player> = Vec::new();
        let mut i: usize = 0;
        while i < count
            invariant
                wf(old(self)@),
                count == old(self)@.players.len(),
                self.post_pile_size == old(self)@.post_pile_size,
                i <= count,
                fresh@.len() == i,
                forall|p: int|
                    0 <= p < i ==> {
                        &&& fresh_player(
                            (#[trigger] fresh@[p])@,
                            p,
                            old(self)@.post_pile_size as int,
                        )
                        &&& player_inv(fresh@[p]@, p)
                        &&& player_mset(fresh@[p]@) == range_mset(40 * p, 40)
                    },
            decreases count - i,
        {
            fresh.push(make_player(i as u32, self.post_pile_size, None));
            i = i + 1;
        }
        self.players = fresh;
        proof {
            assert forall|p: int| 0 <= p < self@.players.len() implies player_mset(
                #[trigger] self@.players[p],
            ).add(arena_owned(self@.arena, p)) == range_mset(40 * p, 40) by {
                lemma_empty_arena_owned(self@.arena, p);
                assert(player_mset(self@.players[p]).add(Multiset::<u32>::empty()) =~= player_mset(
                    self@.players[p],
                ));
            }
        }
        Ok(())
    }

    /// Set the number of cards a transfer moves.
    pub fn change_draw_rate(&mut self, new_rate: u32)
        ensures
            final(self)@ == (GameStateV { draw_rate: new_rate, ..old(self)@ }),
    {
        self.draw_rate = new_rate;
    }

    /// Restore the draw rate the game was created with.
    pub fn reset_draw_rate(&mut self)
        ensures
            final(self)@ == (GameStateV { draw_rate: old(self)@.default_draw_rate, ..old(self)@ }),
    {
        self.draw_rate = self.default_draw_rate;
    }

    /// Whether some player's running total has reached the winning score.
    pub fn game_over(&self) -> (b: bool)
        ensures
            b == self@.is_game_over,
    {
        self.is_game_over
    }
}

/// The arena pile index a successful arena play reports: a number-one card
/// opens the next pile; any other card lands where it was aimed.
pub open spec fn actual_arena_index(pre: GameStateV, pile: u32, c: u32) -> u32 {
    if pre.deck[c as int].number == 1 {
        pre.arena.len() as u32
    } else {
        pile
    }
}

/// The delta of a play that moves card `c` from a player's area to the
/// arena.
pub open spec fn arena_move_delta(
    p: u32,
    c: u32,
    actual: u32,
    kind: crate::wire::PlayerStateChangeType,
) -> crate::wire::GameStateChangeV {
    crate::wire::GameStateChangeV {
        arena_state_changes: seq![
            crate::wire::ArenaStateChange {
                action: crate::wire::StateChangeAction::Add,
                card: c,
                pile_index: actual,
            },
        ],
        player_state_changes: seq![
            crate::wire::PlayerStateChange {
                player_id: p,
                change_type: kind,
                action: crate::wire::StateChangeAction::Remove,
                card: c,
            },
        ],
    }
}

/// The delta of a play that moves card `c` from one of a player's areas
/// onto a post pile.
pub open spec fn post_move_delta(
    p: u32,
    c: u32,
    from: crate::wire::PlayerStateChangeType,
) -> crate::wire::GameStateChangeV {
    crate::wire::GameStateChangeV {
        arena_state_changes: Seq::empty(),
        player_state_changes: seq![
            crate::wire::PlayerStateChange {
                player_id: p,
                change_type: from,
                action: crate::wire::StateChangeAction::Remove,
                card: c,
            },
            crate::wire::PlayerStateChange {
                player_id: p,
                change_type: crate::wire::PlayerStateChangeType::PostPile,
                action: crate::wire::StateChangeAction::Add,
                card: c,
            },
        ],
    }
}

/// The delta of a hand-local play (transfer or reset), which clients replay
/// without a card index.
pub open spec fn hand_delta(p: u32, kind: crate::wire::PlayerStateChangeType) -> crate::wire::GameStateChangeV {
    crate::wire::GameStateChangeV {
        arena_state_changes: Seq::empty(),
        player_state_changes: seq![
            crate::wire::PlayerStateChange {
                player_id: p,
                change_type: kind,
                action: crate::wire::StateChangeAction::Remove,
                card: 0,
            },
        ],
    }
}

/// A player after popping the top of the available stack.
pub open spec fn player_after_avail_pop(pl: PlayerV) -> PlayerV {
    PlayerV {
        hand: PlayerHandV {
            in_hand: pl.hand.in_hand,
            available: pl.hand.available.drop_last(),
        },
        ..pl
    }
}

/// A player after popping the top of the blitz pile.
pub open spec fn player_after_blitz_pop(pl: PlayerV) -> PlayerV {
    PlayerV { blitz: pl.blitz.drop_last(), ..pl }
}

/// A player after popping the top of post pile `k`; a pile that runs empty
/// is removed.
pub open spec fn player_after_post_pop(pl: PlayerV, k: int) -> PlayerV {
    PlayerV {
        posts: if pl.posts[k].cards.len() == 1 {
            pl.posts.remove(k)
        } else {
            pl.posts.update(
                k,
                PileV { cards: pl.posts[k].cards.drop_last(), color: pl.posts[k].color },
            )
        },
        ..pl
    }
}

/// A player after pushing card `c` onto post pile `k`.
pub open spec fn player_after_post_push(pl: PlayerV, k: int, c: u32) -> PlayerV {
    PlayerV {
        posts: pl.posts.update(
            k,
            PileV { cards: pl.posts[k].cards.push(c), color: pl.posts[k].color },
        ),
        ..pl
    }
}

/// Every card every player holds, as a multiset.
pub open spec fn players_mset(ps: Seq<PlayerV>) -> Multiset<u32>
    decreases ps.len(),
{
    if ps.len() == 0 {
        Multiset::empty()
    } else {
        players_mset(ps.drop_last()).add(player_mset(ps.last()))
    }
}

/// Every card in the game — the arena plus every player's piles — as a
/// multiset.
pub open spec fn state_mset(g: GameStateV) -> Multiset<u32> {
    seqs_mset(pile_cards(g.arena)).add(players_mset(g.players))
}

/// How often the players together hold a card: exactly as often as its
/// owner does, when every other player's count is zero.
proof fn lemma_players_mset_pointwise(ps: Seq<PlayerV>, x: u32, o: int)
    requires
        forall|q: int|
            0 <= q < ps.len() && q != o ==> player_mset(#[trigger] ps[q]).count(x) == 0,
    ensures
        players_mset(ps).count(x) == if 0 <= o < ps.len() {
            player_mset(ps[o]).count(x)
        } else {
            0nat
        },
    decreases ps.len(),
{
    if ps.len() > 0 {
        lemma_players_mset_pointwise(ps.drop_last(), x, o);
    }
}

/// Every card of the deck sits in exactly one place: the arena piles and
/// the players' piles together hold each of the `40 * P` deck indices
/// exactly once — full coverage, no duplicates.
pub proof fn lemma_all_cards_partition(g: GameStateV)
    requires
        wf(g),
    ensures
        state_mset(g) == range_mset(0, (40 * g.players.len()) as nat),
{
    let n = g.players.len() as int;
    assert forall|x: u32|
        state_mset(g).count(x) == range_mset(0, (40 * g.players.len()) as nat).count(x) by {
        let o = (x as int) / 40;
        crate::conserve::lemma_range_mset_count(0, (40 * g.players.len()) as nat, x);
        assert forall|q: int| 0 <= q < n implies player_mset(#[trigger] g.players[q]).add(
            arena_owned(g.arena, q),
        ).count(x) == range_mset(40 * q, 40).count(x) by {
            assert(player_mset(g.players[q]).add(arena_owned(g.arena, q)) == range_mset(
                40 * q,
                40,
            ));
        }
        assert forall|q: int| 0 <= q < n implies (#[trigger] range_mset(40 * q, 40).count(x) == if q
            == o {
            1nat
        } else {
            0nat
        }) by {
            crate::conserve::lemma_range_mset_count(40 * q, 40, x);
            assert(40 * q <= x < 40 * q + 40 <==> q == o) by (nonlinear_arith)
                requires
                    o == (x as int) / 40,
            ;
        }
        if 0 <= o < n {
            // x belongs to player o's range; everyone else holds none of it
            assert(in_player_range(x, o)) by (nonlinear_arith)
                requires
                    o == (x as int) / 40,
            ;
            lemma_players_mset_pointwise(g.players, x, o);
            assert(arena_owned(g.arena, o).count(x) == seqs_mset(pile_cards(g.arena)).count(x));
            assert forall|q: int| 0 <= q < n && q != o implies !in_player_range(x, q) by {}
        } else {
            // x is outside the deck: nobody holds it
            lemma_players_mset_pointwise(g.players, x, o);
            assert forall|k: int, i: int|
                0 <= k < pile_cards(g.arena).len() && 0 <= i < (#[trigger] pile_cards(
                    g.arena,
                )[k]).len() implies #[trigger] pile_cards(g.arena)[k][i] != x by {
                assert(arena_pile_inv(g.arena[k], g.deck.len() as int));
                assert(g.arena[k].cards[i] < g.deck.len());
                assert(x >= 40 * g.players.len()) by (nonlinear_arith)
                    requires
                        o == (x as int) / 40,
                        !(0 <= o < n),
                        n == g.players.len(),
                        x >= 0,
                ;
            }
            crate::conserve::lemma_seqs_mset_count_zero(pile_cards(g.arena), x);
        }
    }
    assert(state_mset(g) =~= range_mset(0, (40 * g.players.len()) as nat));
}

/// Card accounting per player: the hand, the available stack, the blitz
/// pile, the post piles and the player's arena contributions always total
/// forty cards.
pub proof fn lemma_player_card_total(g: GameStateV, p: int)
    requires
        wf(g),
        0 <= p < g.players.len(),
    ensures
        g.players[p].hand.in_hand.len() + g.players[p].hand.available.len()
            + g.players[p].blitz.len() + crate::conserve::sum_lens(pile_cards(g.players[p].posts))
            + arena_owned(g.arena, p).len() == 40,
{
    let pl = g.players[p];
    assert(player_mset(pl).add(arena_owned(g.arena, p)) == range_mset(40 * p, 40));
    assert(player_mset(pl).add(arena_owned(g.arena, p)).len() == range_mset(40 * p, 40).len());
    assert(range_mset(40 * p, 40).len() == 40) by {
        assert(range_seq(40 * p, 40).to_multiset().len() == range_seq(40 * p, 40).len());
    }
    crate::conserve::lemma_seqs_mset_len(pile_cards(pl.posts));
}

/// The arena can never hold more piles than there are cards in the deck.
proof fn lemma_arena_len_bound(g: GameStateV)
    requires
        wf(g),
    ensures
        g.arena.len() <= 40 * g.players.len(),
{
    lemma_all_cards_partition(g);
    assert forall|k: int| 0 <= k < pile_cards(g.arena).len() implies (#[trigger] pile_cards(
        g.arena,
    )[k]).len() >= 1 by {
        assert(arena_pile_inv(g.arena[k], g.deck.len() as int));
    }
    crate::conserve::lemma_seqs_mset_len_ge(pile_cards(g.arena));
    assert(state_mset(g).len() == seqs_mset(pile_cards(g.arena)).len() + players_mset(
        g.players,
    ).len());
    assert(range_mset(0, (40 * g.players.len()) as nat).len() == 40 * g.players.len()) by {
        assert(range_seq(0, (40 * g.players.len()) as nat).to_multiset().len() == range_seq(
            0,
            (40 * g.players.len()) as nat,
        ).len());
    }
}

/// Conservation survives moving one of player `p`'s cards to the arena.
proof fn lemma_arena_move_conserved(pre: GameStateV, post: GameStateV, p: int, c: u32)
    requires
        conserved(pre),
        0 <= p < pre.players.len(),
        in_player_range(c, p),
        post.players.len() == pre.players.len(),
        seqs_mset(pile_cards(post.arena)) == seqs_mset(pile_cards(pre.arena)).insert(c),
        player_mset(post.players[p]).insert(c) == player_mset(pre.players[p]),
        forall|q: int|
            0 <= q < pre.players.len() && q != p ==> post.players[q] == pre.players[q],
    ensures
        conserved(post),
{
    assert forall|q: int| 0 <= q < post.players.len() implies player_mset(
        #[trigger] post.players[q],
    ).add(arena_owned(post.arena, q)) == range_mset(40 * q, 40) by {
        assert forall|x: u32|
            player_mset(post.players[q]).add(arena_owned(post.arena, q)).count(x) == range_mset(
                40 * q,
                40,
            ).count(x) by {
            assert(player_mset(pre.players[q]).add(arena_owned(pre.arena, q)).count(x)
                == range_mset(40 * q, 40).count(x));
            assert(arena_owned(post.arena, q).count(x) == if in_player_range(x, q) {
                seqs_mset(pile_cards(post.arena)).count(x)
            } else {
                0
            });
            assert(arena_owned(pre.arena, q).count(x) == if in_player_range(x, q) {
                seqs_mset(pile_cards(pre.arena)).count(x)
            } else {
                0
            });
            assert(seqs_mset(pile_cards(post.arena)).count(x) == seqs_mset(
                pile_cards(pre.arena),
            ).count(x) + if x == c {
                1int
            } else {
                0int
            });
            if q == p {
                assert(player_mset(post.players[q]).insert(c).count(x) == player_mset(
                    pre.players[q],
                ).count(x));
                assert(player_mset(post.players[q]).count(x) + if x == c {
                    1int
                } else {
                    0int
                } == player_mset(pre.players[q]).count(x));
            } else {
                assert(player_mset(post.players[q]) == player_mset(pre.players[q]));
                if x == c {
                    assert(!in_player_range(x, q));
                }
            }
        }
        assert(player_mset(post.players[q]).add(arena_owned(post.arena, q)) =~= range_mset(
            40 * q,
            40,
        ));
    }
}

/// Conservation survives a rearrangement of one player's own cards.
proof fn lemma_player_swap_conserved(pre: GameStateV, post: GameStateV, p: int)
    requires
        conserved(pre),
        0 <= p < pre.players.len(),
        post.players.len() == pre.players.len(),
        post.arena == pre.arena,
        player_mset(post.players[p]) == player_mset(pre.players[p]),
        forall|q: int|
            0 <= q < pre.players.len() && q != p ==> post.players[q] == pre.players[q],
    ensures
        conserved(post),
{
    assert forall|q: int| 0 <= q < post.players.len() implies player_mset(
        #[trigger] post.players[q],
    ).add(arena_owned(post.arena, q)) == range_mset(40 * q, 40) by {
        assert(player_mset(post.players[q]) == player_mset(pre.players[q]));
        assert(player_mset(pre.players[q]).add(arena_owned(pre.arena, q)) == range_mset(
            40 * q,
            40,
        ));
    }
}

impl GameState {
    /// Play the top of the available stack onto the arena.
    fn arena_from_available(&mut self, p: u32, pile: u32) -> (r: Result<
        crate::wire::GameEvent,
        GameError,
    >)
        requires
            wf(old(self)@),
            (p as int) < old(self)@.players.len(),
        ensures
            wf(final(self)@),
            ({
                let pre = old(self)@;
                let pl = pre.players[p as int];
                let c = pl.hand.available.last();
                &&& (r is Ok <==> (pl.hand.available.len() >= 1 && crate::pile::spec_arena_accepts(
                    pre.arena,
                    pre.deck,
                    pile as int,
                    c,
                )))
                &&& (r matches Ok(ev) ==> {
                    &&& final(self)@ == (GameStateV {
                        arena: crate::pile::spec_arena_add(pre.arena, pre.deck, pile as int, c),
                        players: pre.players.update(p as int, player_after_avail_pop(pl)),
                        ..pre
                    })
                    &&& ev@ == crate::wire::GameEventV::GameStateChange(
                        arena_move_delta(
                            p,
                            c,
                            actual_arena_index(pre, pile, c),
                            crate::wire::PlayerStateChangeType::AvailableHand,
                        ),
                    )
                })
                &&& (r matches Err(e) ==> {
                    &&& final(self)@ == pre
                    &&& e == if pl.hand.available.len() == 0 {
                        GameError::NoAvailableCards
                    } else {
                        crate::pile::spec_arena_refusal(pre.arena, pre.deck, pile as int, c)
                    }
                })
            }),
    {
        proof {
            lemma_arena_len_bound(old(self)@);
        }
        let pu = p as usize;
        let avail_len = self.players[pu].hand.available_to_play.len();
        if avail_len == 0 {
            return Err(GameError::NoAvailableCards);
        }
        let c = self.players[pu].hand.available_to_play[avail_len - 1];
        let alen = self.arena.piles.len();
        match self.arena.add_card(pile, c, &self.card_context) {
            Err(e) => {
                assert(self@ =~= old(self)@);
                return Err(e);
            },
            Ok(()) => {},
        }
        let number = crate::card::card_number_of_index(c);
        let actual: u32 = if number == 1 {
            alen as u32
        } else {
            pile
        };
        let plm = vstd::std_specs::vec::vec_index_mut(&mut self.players, pu);
        let popped = plm.hand.play_from_available();
        proof {
            let pre = old(self)@;
            let pl = pre.players[p as int];
            assert(popped is Ok);
            assert(self@.players =~= pre.players.update(p as int, player_after_avail_pop(pl))) by {
                assert(self@.players[p as int] =~= player_after_avail_pop(pl));
            }
            assert(self@ =~= (GameStateV {
                arena: crate::pile::spec_arena_add(pre.arena, pre.deck, pile as int, c),
                players: pre.players.update(p as int, player_after_avail_pop(pl)),
                ..pre
            }));
            crate::conserve::lemma_drop_last_mset(pl.hand.available);
            assert(player_mset(self@.players[p as int]).insert(c) =~= player_mset(pl));
            lemma_move_to_arena_wf(pre, self@, p as int, pile as int, c);
        }
        let delta = crate::wire::GameStateChange {
            arena_state_changes: vec![
                crate::wire::ArenaStateChange {
                    action: crate::wire::StateChangeAction::Add,
                    card: c,
                    pile_index: actual,
                },
            ],
            player_state_changes: vec![
                crate::wire::PlayerStateChange {
                    player_id: p,
                    change_type: crate::wire::PlayerStateChangeType::AvailableHand,
                    action: crate::wire::StateChangeAction::Remove,
                    card: c,
                },
            ],
        };
        let ev = crate::wire::GameEvent::GameStateChange(delta);
        proof {
            assert(ev@ =~= crate::wire::GameEventV::GameStateChange(
                arena_move_delta(
                    p,
                    c,
                    actual_arena_index(old(self)@, pile, c),
                    crate::wire::PlayerStateChangeType::AvailableHand,
                ),
            ));
        }
        Ok(ev)
    }

    /// Play the top of the blitz pile onto the arena.
    fn arena_from_blitz(&mut self, p: u32, pile: u32) -> (r: Result<
        crate::wire::GameEvent,
        GameError,
    >)
        requires
            wf(old(self)@),
            (p as int) < old(self)@.players.len(),
        ensures
            wf(final(self)@),
            ({
                let pre = old(self)@;
                let pl = pre.players[p as int];
                let c = pl.blitz.last();
                &&& (r is Ok <==> (pl.blitz.len() >= 1 && crate::pile::spec_arena_accepts(
                    pre.arena,
                    pre.deck,
                    pile as int,
                    c,
                )))
                &&& (r matches Ok(ev) ==> {
                    &&& final(self)@ == (GameStateV {
                        arena: crate::pile::spec_arena_add(pre.arena, pre.deck, pile as int, c),
                        players: pre.players.update(p as int, player_after_blitz_pop(pl)),
                        ..pre
                    })
                    &&& ev@ == crate::wire::GameEventV::GameStateChange(
                        arena_move_delta(
                            p,
                            c,
                            actual_arena_index(pre, pile, c),
                            crate::wire::PlayerStateChangeType::BlitzPile,
                        ),
                    )
                })
                &&& (r matches Err(e) ==> {
                    &&& final(self)@ == pre
                    &&& e == if pl.blitz.len() == 0 {
                        GameError::BlitzPileEmpty
                    } else {
                        crate::pile::spec_arena_refusal(pre.arena, pre.deck, pile as int, c)
                    }
                })
            }),
    {
        proof {
            lemma_arena_len_bound(old(self)@);
        }
        let pu = p as usize;
        let blitz_len = self.players[pu].blitz_pile.cards.len();
        if blitz_len == 0 {
            return Err(GameError::BlitzPileEmpty);
        }
        let c = self.players[pu].blitz_pile.cards[blitz_len - 1];
        let alen = self.arena.piles.len();
        match self.arena.add_card(pile, c, &self.card_context) {
            Err(e) => {
                assert(self@ =~= old(self)@);
                return Err(e);
            },
            Ok(()) => {},
        }
        let number = crate::card::card_number_of_index(c);
        let actual: u32 = if number == 1 {
            alen as u32
        } else {
            pile
        };
        let plm = vstd::std_specs::vec::vec_index_mut(&mut self.players, pu);
        let popped = plm.blitz_pile.play();
        proof {
            let pre = old(self)@;
            let pl = pre.players[p as int];
            assert(popped is Ok);
            assert(self@.players =~= pre.players.update(p as int, player_after_blitz_pop(pl))) by {
                assert(self@.players[p as int] =~= player_after_blitz_pop(pl));
            }
            assert(self@ =~= (GameStateV {
                arena: crate::pile::spec_arena_add(pre.arena, pre.deck, pile as int, c),
                players: pre.players.update(p as int, player_after_blitz_pop(pl)),
                ..pre
            }));
            crate::conserve::lemma_drop_last_mset(pl.blitz);
            assert(player_mset(self@.players[p as int]).insert(c) =~= player_mset(pl));
            lemma_move_to_arena_wf(pre, self@, p as int, pile as int, c);
        }
        let delta = crate::wire::GameStateChange {
            arena_state_changes: vec![
                crate::wire::ArenaStateChange {
                    action: crate::wire::StateChangeAction::Add,
                    card: c,
                    pile_index: actual,
                },
            ],
            player_state_changes: vec![
                crate::wire::PlayerStateChange {
                    player_id: p,
                    change_type: crate::wire::PlayerStateChangeType::BlitzPile,
                    action: crate::wire::StateChangeAction::Remove,
                    card: c,
                },
            ],
        };
        let ev = crate::wire::GameEvent::GameStateChange(delta);
        proof {
            assert(ev@ =~= crate::wire::GameEventV::GameStateChange(
                arena_move_delta(
                    p,
                    c,
                    actual_arena_index(old(self)@, pile, c),
                    crate::wire::PlayerStateChangeType::BlitzPile,
                ),
            ));
        }
        Ok(ev)
    }

    /// Play the top of a post pile onto the arena; a post pile that runs
    /// empty is removed.
    fn arena_from_post(&mut self, p: u32, post_pile: u32, arena_pile: u32) -> (r: Result<
        crate::wire::GameEvent,
        GameError,
    >)
        requires
            wf(old(self)@),
            (p as int) < old(self)@.players.len(),
        ensures
            wf(final(self)@),
            ({
                let pre = old(self)@;
                let pl = pre.players[p as int];
                let k = post_pile as int;
                let c = pl.posts[k].cards.last();
                &&& (r is Ok <==> (k < pl.posts.len() && pl.posts[k].cards.len() >= 1
                    && crate::pile::spec_arena_accepts(pre.arena, pre.deck, arena_pile as int, c)))
                &&& (r matches Ok(ev) ==> {
                    &&& final(self)@ == (GameStateV {
                        arena: crate::pile::spec_arena_add(
                            pre.arena,
                            pre.deck,
                            arena_pile as int,
                            c,
                        ),
                        players: pre.players.update(p as int, player_after_post_pop(pl, k)),
                        ..pre
                    })
                    &&& ev@ == crate::wire::GameEventV::GameStateChange(
                        arena_move_delta(
                            p,
                            c,
                            actual_arena_index(pre, arena_pile, c),
                            crate::wire::PlayerStateChangeType::PostPile,
                        ),
                    )
                })
                &&& (r matches Err(e) ==> {
                    &&& final(self)@ == pre
                    &&& e == if k >= pl.posts.len() {
                        GameError::PileIndexOutOfBounds
                    } else if pl.posts[k].cards.len() == 0 {
                        GameError::PileEmpty
                    } else {
                        crate::pile::spec_arena_refusal(pre.arena, pre.deck, arena_pile as int, c)
                    }
                })
            }),
    {
        proof {
            lemma_arena_len_bound(old(self)@);
        }
        let pu = p as usize;
        let ku = post_pile as usize;
        if ku >= self.players[pu].post_pile.piles.len() {
            return Err(GameError::PileIndexOutOfBounds);
        }
        let pile_len = self.players[pu].post_pile.piles[ku].cards.len();
        if pile_len == 0 {
            return Err(GameError::PileEmpty);
        }
        let c = self.players[pu].post_pile.piles[ku].cards[pile_len - 1];
        let alen = self.arena.piles.len();
        match self.arena.add_card(arena_pile, c, &self.card_context) {
            Err(e) => {
                assert(self@ =~= old(self)@);
                return Err(e);
            },
            Ok(()) => {},
        }
        let number = crate::card::card_number_of_index(c);
        let actual: u32 = if number == 1 {
            alen as u32
        } else {
            arena_pile
        };
        let plm = vstd::std_specs::vec::vec_index_mut(&mut self.players, pu);
        let popped = plm.post_pile.play(post_pile);
        proof {
            let pre = old(self)@;
            let pl = pre.players[p as int];
            let k = post_pile as int;
            assert(popped is Ok);
            assert(self@.players =~= pre.players.update(p as int, player_after_post_pop(pl, k)))
                by {
                assert(self@.players[p as int] =~= player_after_post_pop(pl, k));
            }
            assert(self@ =~= (GameStateV {
                arena: crate::pile::spec_arena_add(pre.arena, pre.deck, arena_pile as int, c),
                players: pre.players.update(p as int, player_after_post_pop(pl, k)),
                ..pre
            }));
            assert(post_pile_inv(pl.posts[k], p as int));
            crate::conserve::lemma_pile_pop_mset(pl.posts, k, self@.players[p as int].posts);
            assert(player_mset(self@.players[p as int]).insert(c) =~= player_mset(pl));
            assert forall|t: int|
                0 <= t < self@.players[p as int].posts.len() implies post_pile_inv(
                #[trigger] self@.players[p as int].posts[t],
                p as int,
            ) by {
                let posts2 = self@.players[p as int].posts;
                if pl.posts[k].cards.len() == 1 {
                    if t < k {
                        assert(posts2[t] == pl.posts[t]);
                    } else {
                        assert(posts2[t] == pl.posts[t + 1]);
                    }
                } else {
                    if t == k {
                        crate::pile::lemma_post_drop_inv(pl.posts[k], p as int);
                    } else {
                        assert(posts2[t] == pl.posts[t]);
                    }
                }
            }
            lemma_move_to_arena_wf(pre, self@, p as int, arena_pile as int, c);
        }
        let delta = crate::wire::GameStateChange {
            arena_state_changes: vec![
                crate::wire::ArenaStateChange {
                    action: crate::wire::StateChangeAction::Add,
                    card: c,
                    pile_index: actual,
                },
            ],
            player_state_changes: vec![
                crate::wire::PlayerStateChange {
                    player_id: p,
                    change_type: crate::wire::PlayerStateChangeType::PostPile,
                    action: crate::wire::StateChangeAction::Remove,
                    card: c,
                },
            ],
        };
        let ev = crate::wire::GameEvent::GameStateChange(delta);
        proof {
            assert(ev@ =~= crate::wire::GameEventV::GameStateChange(
                arena_move_delta(
                    p,
                    c,
                    actual_arena_index(old(self)@, arena_pile, c),
                    crate::wire::PlayerStateChangeType::PostPile,
                ),
            ));
        }
        Ok(ev)
    }
}

impl GameState {
    /// Move the top of the blitz pile onto a post pile.
    fn blitz_to_post(&mut self, p: u32, k: u32) -> (r: Result<crate::wire::GameEvent, GameError>)
        requires
            wf(old(self)@),
            (p as int) < old(self)@.players.len(),
        ensures
            wf(final(self)@),
            ({
                let pre = old(self)@;
                let pl = pre.players[p as int];
                let c = pl.blitz.last();
                &&& (r is Ok <==> (pl.blitz.len() >= 1 && (k as int) < pl.posts.len()
                    && crate::pile::pilev_post_accepts(pl.posts[k as int], pre.deck, c)))
                &&& (r matches Ok(ev) ==> {
                    &&& final(self)@ == (GameStateV {
                        players: pre.players.update(
                            p as int,
                            player_after_post_push(player_after_blitz_pop(pl), k as int, c),
                        ),
                        ..pre
                    })
                    &&& ev@ == crate::wire::GameEventV::GameStateChange(
                        post_move_delta(p, c, crate::wire::PlayerStateChangeType::BlitzPile),
                    )
                })
                &&& (r matches Err(e) ==> {
                    &&& final(self)@ == pre
                    &&& e == if pl.blitz.len() == 0 {
                        GameError::BlitzPileEmpty
                    } else if (k as int) >= pl.posts.len() {
                        GameError::PileIndexOutOfBounds
                    } else {
                        crate::pile::pilev_post_refusal(pl.posts[k as int], pre.deck, c)
                    }
                })
            }),
    {
        let pu = p as usize;
        let blitz_len = self.players[pu].blitz_pile.cards.len();
        if blitz_len == 0 {
            return Err(GameError::BlitzPileEmpty);
        }
        let c = self.players[pu].blitz_pile.cards[blitz_len - 1];
        let plm = vstd::std_specs::vec::vec_index_mut(&mut self.players, pu);
        proof {
            let pl = old(self)@.players[p as int];
            assert((k as int) < pl.posts.len() ==> post_pile_inv(pl.posts[k as int], p as int));
            assert((k as int) < pl.posts.len() ==> pl.posts[k as int].cards.last() < old(
                self,
            )@.deck.len());
        }
        let added = plm.post_pile.add_card(k, c, &self.card_context);
        match added {
            Err(e) => {
                proof {
                    assert(self@.players =~= old(self)@.players) by {
                        assert(self@.players[p as int] =~= old(self)@.players[p as int]);
                    }
                    assert(self@ =~= old(self)@);
                }
                return Err(e);
            },
            Ok(()) => {},
        }
        let plm2 = vstd::std_specs::vec::vec_index_mut(&mut self.players, pu);
        let popped = plm2.blitz_pile.play();
        proof {
            let pre = old(self)@;
            let pl = pre.players[p as int];
            let post_pl = player_after_post_push(player_after_blitz_pop(pl), k as int, c);
            assert(popped is Ok);
            assert(self@.players =~= pre.players.update(p as int, post_pl)) by {
                assert(self@.players[p as int] =~= post_pl);
            }
            assert(self@ =~= (GameStateV {
                players: pre.players.update(p as int, post_pl),
                ..pre
            }));
            assert(src_mset_shift(pl, post_pl, c)) by {
                crate::conserve::lemma_drop_last_mset(pl.blitz);
                assert(post_pl.hand.in_hand.to_multiset().add(
                    post_pl.hand.available.to_multiset(),
                ).add(post_pl.blitz.to_multiset()).insert(c) =~= pl.hand.in_hand.to_multiset().add(
                    pl.hand.available.to_multiset(),
                ).add(pl.blitz.to_multiset()));
            }
            lemma_post_push_wf(pre, self@, p as int, k as int, c, pl.blitz, post_pl.blitz);
        }
        let ev = crate::wire::GameEvent::GameStateChange(
            crate::wire::GameStateChange {
                arena_state_changes: Vec::new(),
                player_state_changes: vec![
                    crate::wire::PlayerStateChange {
                        player_id: p,
                        change_type: crate::wire::PlayerStateChangeType::BlitzPile,
                        action: crate::wire::StateChangeAction::Remove,
                        card: c,
                    },
                    crate::wire::PlayerStateChange {
                        player_id: p,
                        change_type: crate::wire::PlayerStateChangeType::PostPile,
                        action: crate::wire::StateChangeAction::Add,
                        card: c,
                    },
                ],
            },
        );
        proof {
            assert(ev@ =~= crate::wire::GameEventV::GameStateChange(
                post_move_delta(p, c, crate::wire::PlayerStateChangeType::BlitzPile),
            ));
        }
        Ok(ev)
    }

    /// Move the top of the available stack onto a post pile.
    fn available_to_post(&mut self, p: u32, k: u32) -> (r: Result<
        crate::wire::GameEvent,
        GameError,
    >)
        requires
            wf(old(self)@),
            (p as int) < old(self)@.players.len(),
        ensures
            wf(final(self)@),
            ({
                let pre = old(self)@;
                let pl = pre.players[p as int];
                let c = pl.hand.available.last();
                &&& (r is Ok <==> (pl.hand.available.len() >= 1 && (k as int) < pl.posts.len()
                    && crate::pile::pilev_post_accepts(pl.posts[k as int], pre.deck, c)))
                &&& (r matches Ok(ev) ==> {
                    &&& final(self)@ == (GameStateV {
                        players: pre.players.update(
                            p as int,
                            player_after_post_push(player_after_avail_pop(pl), k as int, c),
                        ),
                        ..pre
                    })
                    &&& ev@ == crate::wire::GameEventV::GameStateChange(
                        post_move_delta(p, c, crate::wire::PlayerStateChangeType::AvailableHand),
                    )
                })
                &&& (r matches Err(e) ==> {
                    &&& final(self)@ == pre
                    &&& e == if pl.hand.available.len() == 0 {
                        GameError::NoAvailableCards
                    } else if (k as int) >= pl.posts.len() {
                        GameError::PileIndexOutOfBounds
                    } else {
                        crate::pile::pilev_post_refusal(pl.posts[k as int], pre.deck, c)
                    }
                })
            }),
    {
        let pu = p as usize;
        let avail_len = self.players[pu].hand.available_to_play.len();
        if avail_len == 0 {
            return Err(GameError::NoAvailableCards);
        }
        let c = self.players[pu].hand.available_to_play[avail_len - 1];
        let plm = vstd::std_specs::vec::vec_index_mut(&mut self.players, pu);
        proof {
            let pl = old(self)@.players[p as int];
            assert((k as int) < pl.posts.len() ==> post_pile_inv(pl.posts[k as int], p as int));
            assert((k as int) < pl.posts.len() ==> pl.posts[k as int].cards.last() < old(
                self,
            )@.deck.len());
        }
        let added = plm.post_pile.add_card(k, c, &self.card_context);
        match added {
            Err(e) => {
                proof {
                    assert(self@.players =~= old(self)@.players) by {
                        assert(self@.players[p as int] =~= old(self)@.players[p as int]);
                    }
                    assert(self@ =~= old(self)@);
                }
                return Err(e);
            },
            Ok(()) => {},
        }
        let plm2 = vstd::std_specs::vec::vec_index_mut(&mut self.players, pu);
        let popped = plm2.hand.play_from_available();
        proof {
            let pre = old(self)@;
            let pl = pre.players[p as int];
            let post_pl = player_after_post_push(player_after_avail_pop(pl), k as int, c);
            assert(popped is Ok);
            assert(self@.players =~= pre.players.update(p as int, post_pl)) by {
                assert(self@.players[p as int] =~= post_pl);
            }
            assert(self@ =~= (GameStateV {
                players: pre.players.update(p as int, post_pl),
                ..pre
            }));
            assert(src_mset_shift(pl, post_pl, c)) by {
                crate::conserve::lemma_drop_last_mset(pl.hand.available);
                assert(post_pl.hand.in_hand.to_multiset().add(
                    post_pl.hand.available.to_multiset(),
                ).add(post_pl.blitz.to_multiset()).insert(c) =~= pl.hand.in_hand.to_multiset().add(
                    pl.hand.available.to_multiset(),
                ).add(pl.blitz.to_multiset()));
            }
            lemma_post_push_wf(pre, self@, p as int, k as int, c, pl.hand.available, post_pl.hand.available);
        }
        let ev = crate::wire::GameEvent::GameStateChange(
            crate::wire::GameStateChange {
                arena_state_changes: Vec::new(),
                player_state_changes: vec![
                    crate::wire::PlayerStateChange {
                        player_id: p,
                        change_type: crate::wire::PlayerStateChangeType::AvailableHand,
                        action: crate::wire::StateChangeAction::Remove,
                        card: c,
                    },
                    crate::wire::PlayerStateChange {
                        player_id: p,
                        change_type: crate::wire::PlayerStateChangeType::PostPile,
                        action: crate::wire::StateChangeAction::Add,
                        card: c,
                    },
                ],
            },
        );
        proof {
            assert(ev@ =~= crate::wire::GameEventV::GameStateChange(
                post_move_delta(p, c, crate::wire::PlayerStateChangeType::AvailableHand),
            ));
        }
        Ok(ev)
    }
}

impl GameState {
    /// Move the next `draw_rate` cards (or all remaining) from the hand to
    /// the available stack.
    fn do_transfer(&mut self, p: u32) -> (ev: crate::wire::GameEvent)
        requires
            wf(old(self)@),
            (p as int) < old(self)@.players.len(),
        ensures
            wf(final(self)@),
            ({
                let pre = old(self)@;
                let pl = pre.players[p as int];
                &&& final(self)@ == (GameStateV {
                    players: pre.players.update(
                        p as int,
                        PlayerV {
                            hand: crate::hand::spec_transfer(pl.hand, pre.draw_rate as int),
                            ..pl
                        },
                    ),
                    ..pre
                })
                &&& ev@ == crate::wire::GameEventV::GameStateChange(
                    hand_delta(p, crate::wire::PlayerStateChangeType::TransferHandToAvailable),
                )
            }),
    {
        let rate = self.draw_rate;
        let plm = vstd::std_specs::vec::vec_index_mut(&mut self.players, p as usize);
        let _drawn = plm.hand.transfer_hand_to_available(rate);
        proof {
            let pre = old(self)@;
            let pl = pre.players[p as int];
            let pl2 = PlayerV {
                hand: crate::hand::spec_transfer(pl.hand, pre.draw_rate as int),
                ..pl
            };
            assert(self@.players =~= pre.players.update(p as int, pl2)) by {
                assert(self@.players[p as int] =~= pl2);
            }
            assert(self@ =~= (GameStateV { players: pre.players.update(p as int, pl2), ..pre }));
            let k = crate::hand::spec_draw_count(pl.hand.in_hand, pre.draw_rate as int);
            assert(pl.hand.in_hand =~= pl.hand.in_hand.take(k) + pl.hand.in_hand.skip(k));
            vstd::seq_lib::lemma_multiset_commutative(
                pl.hand.in_hand.take(k),
                pl.hand.in_hand.skip(k),
            );
            vstd::seq_lib::lemma_multiset_commutative(pl.hand.available, pl.hand.in_hand.take(k));
            assert(player_mset(pl2) =~= player_mset(pl));
            assert forall|i: int| 0 <= i < pl2.hand.in_hand.len() implies in_player_range(
                #[trigger] pl2.hand.in_hand[i],
                p as int,
            ) by {
                assert(pl2.hand.in_hand[i] == pl.hand.in_hand[k + i]);
            }
            assert forall|i: int| 0 <= i < pl2.hand.available.len() implies in_player_range(
                #[trigger] pl2.hand.available[i],
                p as int,
            ) by {
                if i < pl.hand.available.len() {
                    assert(pl2.hand.available[i] == pl.hand.available[i]);
                } else {
                    assert(pl2.hand.available[i] == pl.hand.in_hand[i
                        - pl.hand.available.len()]);
                }
            }
            lemma_player_swap_conserved(pre, self@, p as int);
        }
        crate::wire::GameEvent::GameStateChange(
            crate::wire::GameStateChange {
                arena_state_changes: Vec::new(),
                player_state_changes: vec![
                    crate::wire::PlayerStateChange {
                        player_id: p,
                        change_type: crate::wire::PlayerStateChangeType::TransferHandToAvailable,
                        action: crate::wire::StateChangeAction::Remove,
                        card: 0,
                    },
                ],
            },
        )
    }

    /// Return the available stack to the bottom of the hand.
    fn do_reset(&mut self, p: u32) -> (ev: crate::wire::GameEvent)
        requires
            wf(old(self)@),
            (p as int) < old(self)@.players.len(),
        ensures
            wf(final(self)@),
            ({
                let pre = old(self)@;
                let pl = pre.players[p as int];
                &&& final(self)@ == (GameStateV {
                    players: pre.players.update(
                        p as int,
                        PlayerV { hand: crate::hand::spec_reset(pl.hand), ..pl },
                    ),
                    ..pre
                })
                &&& ev@ == crate::wire::GameEventV::GameStateChange(
                    hand_delta(p, crate::wire::PlayerStateChangeType::ResetPlayerHand),
                )
            }),
    {
        let plm = vstd::std_specs::vec::vec_index_mut(&mut self.players, p as usize);
        plm.hand.reset_hand();
        proof {
            let pre = old(self)@;
            let pl = pre.players[p as int];
            let pl2 = PlayerV { hand: crate::hand::spec_reset(pl.hand), ..pl };
            assert(self@.players =~= pre.players.update(p as int, pl2)) by {
                assert(self@.players[p as int] =~= pl2);
            }
            assert(self@ =~= (GameStateV { players: pre.players.update(p as int, pl2), ..pre }));
            vstd::seq_lib::lemma_multiset_commutative(pl.hand.in_hand, pl.hand.available);
            assert(player_mset(pl2) =~= player_mset(pl));
            assert forall|i: int| 0 <= i < pl2.hand.in_hand.len() implies in_player_range(
                #[trigger] pl2.hand.in_hand[i],
                p as int,
            ) by {
                if i < pl.hand.in_hand.len() {
                    assert(pl2.hand.in_hand[i] == pl.hand.in_hand[i]);
                } else {
                    assert(pl2.hand.in_hand[i] == pl.hand.available[i - pl.hand.in_hand.len()]);
                }
            }
            lemma_player_swap_conserved(pre, self@, p as int);
        }
        crate::wire::GameEvent::GameStateChange(
            crate::wire::GameStateChange {
                arena_state_changes: Vec::new(),
                player_state_changes: vec![
                    crate::wire::PlayerStateChange {
                        player_id: p,
                        change_type: crate::wire::PlayerStateChangeType::ResetPlayerHand,
                        action: crate::wire::StateChangeAction::Remove,
                        card: 0,
                    },
                ],
            },
        )
    }
}

/// Moving the last card of one of player `p`'s face-up stacks onto one of
/// that player's post piles keeps the state well-formed: the card never
/// leaves the player.
proof fn lemma_post_push_wf(
    pre: GameStateV,
    post: GameStateV,
    p: int,
    k: int,
    c: u32,
    src_before: Seq<u32>,
    src_after: Seq<u32>,
)
    requires
        wf(pre),
        0 <= p < pre.players.len(),
        0 <= k < pre.players[p].posts.len(),
        seq_owned(src_before, p),
        src_before.len() >= 1,
        c == src_before.last(),
        src_after == src_before.drop_last(),
        crate::pile::pilev_post_accepts(pre.players[p].posts[k], pre.deck, c),
        post.arena == pre.arena,
        post.deck == pre.deck,
        post.scores == pre.scores,
        post.post_pile_size == pre.post_pile_size,
        post.players.len() == pre.players.len(),
        forall|q: int|
            0 <= q < pre.players.len() && q != p ==> post.players[q] == pre.players[q],
        player_inv_except_posts(post.players[p], pre.players[p], p),
        post.players[p].posts == pre.players[p].posts.update(
            k,
            PileV {
                cards: pre.players[p].posts[k].cards.push(c),
                color: pre.players[p].posts[k].color,
            },
        ),
        src_mset_shift(pre.players[p], post.players[p], c),
    ensures
        wf(post),
{
    let pl = pre.players[p];
    let pl2 = post.players[p];
    // the changed post pile is still a valid run; the others are untouched
    assert(post_pile_inv(pl.posts[k], p));
    assert(pl.posts[k].cards.last() < pre.deck.len());
    crate::pile::lemma_post_push_inv(pl.posts[k], pre.deck, c, pre.players.len() as int, p);
    assert forall|t: int| 0 <= t < pl2.posts.len() implies post_pile_inv(
        #[trigger] pl2.posts[t],
        p,
    ) by {
        if t != k {
            assert(pl2.posts[t] == pl.posts[t]);
        }
    }
    // the player's cards are only rearranged
    crate::conserve::lemma_drop_last_mset(src_before);
    crate::conserve::lemma_pile_push_mset(pl.posts, k, c, pl.posts[k].color);
    assert(pl2.posts =~= pl.posts.update(
        k,
        PileV { cards: pl.posts[k].cards.push(c), color: pl.posts[k].color },
    ));
    assert(player_mset(pl2) =~= player_mset(pl));
    lemma_player_swap_conserved(pre, post, p);
}

/// The parts of the player invariant a post push leaves untouched, plus the
/// identity of the changed player.
pub open spec fn player_inv_except_posts(pl2: PlayerV, pl: PlayerV, p: int) -> bool {
    &&& pl2.player_id == p
    &&& seq_owned(pl2.hand.in_hand, p)
    &&& seq_owned(pl2.hand.available, p)
    &&& seq_owned(pl2.blitz, p)
}

/// After the move, the source stack lost exactly card `c` and the rest of
/// the player's stacks are as the push spec says.
pub open spec fn src_mset_shift(pl: PlayerV, pl2: PlayerV, c: u32) -> bool {
    &&& pl2.hand.in_hand.to_multiset().add(pl2.hand.available.to_multiset()).add(
        pl2.blitz.to_multiset(),
    ).insert(c) == pl.hand.in_hand.to_multiset().add(pl.hand.available.to_multiset()).add(
        pl.blitz.to_multiset(),
    )
}

/// Moving the last card of one of player `p`'s stacks onto the arena keeps
/// the state well-formed, provided the arena accepted the card and only
/// that player's stack shrank by exactly that card.
proof fn lemma_move_to_arena_wf(pre: GameStateV, post: GameStateV, p: int, pile: int, c: u32)
    requires
        wf(pre),
        0 <= p < pre.players.len(),
        in_player_range(c, p),
        crate::pile::spec_arena_accepts(pre.arena, pre.deck, pile, c),
        post.arena == crate::pile::spec_arena_add(pre.arena, pre.deck, pile, c),
        post.players.len() == pre.players.len(),
        player_mset(post.players[p]).insert(c) == player_mset(pre.players[p]),
        player_inv(post.players[p], p),
        forall|q: int|
            0 <= q < pre.players.len() && q != p ==> post.players[q] == pre.players[q],
        post.deck == pre.deck,
        post.scores == pre.scores,
        post.post_pile_size == pre.post_pile_size,
    ensures
        wf(post),
{
    // the new arena piles are valid
    assert forall|a: int| 0 <= a < post.arena.len() implies arena_pile_inv(
        #[trigger] post.arena[a],
        post.deck.len() as int,
    ) by {
        if pre.deck[c as int].number == 1 {
            if a < pre.arena.len() {
                assert(post.arena[a] == pre.arena[a]);
            } else {
                crate::pile::lemma_arena_new_pile_inv(pre.deck, c, pre.players.len() as int);
                assert(post.arena[a] == (PileV {
                    cards: seq![c],
                    color: pre.deck[c as int].color,
                }));
            }
        } else {
            if a == pile {
                crate::pile::lemma_arena_push_inv(
                    pre.arena[pile],
                    pre.deck,
                    c,
                    pre.players.len() as int,
                );
            } else {
                assert(post.arena[a] == pre.arena[a]);
            }
        }
    }
    // the card moved from the player to the arena
    if pre.deck[c as int].number == 1 {
        crate::conserve::lemma_pile_new_mset(pre.arena, c, pre.deck[c as int].color);
    } else {
        crate::conserve::lemma_pile_push_mset(pre.arena, pile, c, pre.arena[pile].color);
        assert(post.arena =~= pre.arena.update(
            pile,
            PileV { cards: pre.arena[pile].cards.push(c), color: pre.arena[pile].color },
        ));
    }
    lemma_arena_move_conserved(pre, post, p, c);
}

/// How many entries of `s` belong to player `p`.
pub open spec fn count_owned(s: Seq<u32>, p: int) -> int
    decreases s.len(),
{
    if s.len() == 0 {
        0
    } else {
        count_owned(s.drop_last(), p) + if in_player_range(s.last(), p) {
            1int
        } else {
            0int
        }
    }
}

/// How many cards of the arena belong to player `p` — the cards that player
/// contributed.
pub open spec fn arena_count(piles: Seq<PileV>, p: int) -> int
    decreases piles.len(),
{
    if piles.len() == 0 {
        0
    } else {
        arena_count(piles.drop_last(), p) + count_owned(piles.last().cards, p)
    }
}

proof fn lemma_count_owned_nonneg(s: Seq<u32>, p: int)
    ensures
        0 <= count_owned(s, p) <= s.len(),
    decreases s.len(),
{
    if s.len() > 0 {
        lemma_count_owned_nonneg(s.drop_last(), p);
    }
}

/// The positional count agrees with the multiset filter.
proof fn lemma_count_owned_mset(s: Seq<u32>, p: int)
    ensures
        count_owned(s, p) == owned_mset(s.to_multiset(), p).len(),
    decreases s.len(),
{
    if s.len() == 0 {
        assert(owned_mset(s.to_multiset(), p) =~= Multiset::<u32>::empty());
    } else {
        let c = s.last();
        lemma_count_owned_mset(s.drop_last(), p);
        crate::conserve::lemma_drop_last_mset(s);
        let m = s.drop_last().to_multiset();
        if in_player_range(c, p) {
            assert(owned_mset(m.insert(c), p) =~= owned_mset(m, p).insert(c));
            vstd::multiset::lemma_insert_len(owned_mset(m, p), c);
        } else {
            assert(owned_mset(m.insert(c), p) =~= owned_mset(m, p));
        }
    }
}

/// The per-pile count agrees with the player's arena contribution.
proof fn lemma_arena_count_mset(piles: Seq<PileV>, p: int)
    ensures
        arena_count(piles, p) == arena_owned(piles, p).len(),
    decreases piles.len(),
{
    if piles.len() == 0 {
        assert(pile_cards(piles) =~= Seq::<Seq<u32>>::empty());
        assert(arena_owned(piles, p) =~= Multiset::<u32>::empty());
    } else {
        lemma_arena_count_mset(piles.drop_last(), p);
        lemma_count_owned_mset(piles.last().cards, p);
        assert(pile_cards(piles).drop_last() =~= pile_cards(piles.drop_last()));
        assert(pile_cards(piles).last() == piles.last().cards);
        let a = seqs_mset(pile_cards(piles.drop_last()));
        let b = piles.last().cards.to_multiset();
        assert(seqs_mset(pile_cards(piles)) == a.add(b));
        assert(owned_mset(a.add(b), p) =~= owned_mset(a, p).add(owned_mset(b, p)));
    }
}

/// No player ever has more than forty cards in the arena.
proof fn lemma_arena_count_bound(g: GameStateV, p: int)
    requires
        wf(g),
        0 <= p < g.players.len(),
    ensures
        0 <= arena_count(g.arena, p) <= 40,
{
    lemma_arena_count_mset(g.arena, p);
    assert(player_mset(g.players[p]).add(arena_owned(g.arena, p)) == range_mset(40 * p, 40));
    assert(player_mset(g.players[p]).add(arena_owned(g.arena, p)).len() == range_mset(
        40 * p,
        40,
    ).len());
    assert(range_mset(40 * p, 40).len() == 40) by {
        assert(range_seq(40 * p, 40).to_multiset().len() == range_seq(40 * p, 40).len());
    }
}

proof fn lemma_count_owned_step(s: Seq<u32>, p: int, j: int)
    requires
        0 <= j < s.len(),
    ensures
        count_owned(s.take(j + 1), p) == count_owned(s.take(j), p) + if in_player_range(s[j], p) {
            1int
        } else {
            0int
        },
{
    assert(s.take(j + 1).drop_last() =~= s.take(j));
    assert(s.take(j + 1).last() == s[j]);
}

proof fn lemma_arena_count_step(piles: Seq<PileV>, p: int, a: int)
    requires
        0 <= a < piles.len(),
    ensures
        arena_count(piles.take(a + 1), p) == arena_count(piles.take(a), p) + count_owned(
            piles[a].cards,
            p,
        ),
{
    assert(piles.take(a + 1).drop_last() =~= piles.take(a));
    assert(piles.take(a + 1).last() == piles[a]);
}

proof fn lemma_count_owned_take_le(s: Seq<u32>, p: int, j: int)
    requires
        0 <= j <= s.len(),
    ensures
        count_owned(s.take(j), p) <= count_owned(s, p),
    decreases s.len() - j,
{
    if j == s.len() {
        assert(s.take(j) =~= s);
    } else {
        lemma_count_owned_step(s, p, j);
        lemma_count_owned_take_le(s, p, j + 1);
    }
}

proof fn lemma_arena_count_take_le(piles: Seq<PileV>, p: int, a: int)
    requires
        0 <= a <= piles.len(),
    ensures
        arena_count(piles.take(a), p) <= arena_count(piles, p),
    decreases piles.len() - a,
{
    if a == piles.len() {
        assert(piles.take(a) =~= piles);
    } else {
        lemma_arena_count_step(piles, p, a);
        lemma_count_owned_nonneg(piles[a].cards, p);
        lemma_arena_count_take_le(piles, p, a + 1);
    }
}

impl GameState {
    /// Count every player's arena contributions by walking the arena piles.
    fn arena_counts(&self) -> (counts: Vec<u32>)
        requires
            wf(self@),
        ensures
            counts@.len() == self@.players.len(),
            forall|q: int| 0 <= q < counts@.len() ==> counts@[q] == arena_count(self@.arena, q),
    {
        let n = self.players.len();
        let mut counts: Vec<u32> = Vec::new();
        let mut z: usize = 0;
        while z < n
            invariant
                z <= n,
                counts@.len() == z,
                forall|q: int| 0 <= q < z ==> counts@[q] == 0,
            decreases n - z,
        {
            counts.push(0);
            z = z + 1;
        }
        proof {
            assert forall|q: int| 0 <= q < n implies counts@[q] == arena_count(
                self@.arena.take(0),
                q,
            ) by {
                assert(self@.arena.take(0) =~= Seq::<PileV>::empty());
            }
        }
        let mut a: usize = 0;
        while a < self.arena.piles.len()
            invariant
                wf(self@),
                n == self@.players.len(),
                a <= self@.arena.len(),
                counts@.len() == n,
                forall|q: int|
                    0 <= q < n ==> counts@[q] == arena_count(self@.arena.take(a as int), q),
            decreases self@.arena.len() - a,
        {
            let pile_len = self.arena.piles[a].cards.len();
            let mut j: usize = 0;
            while j < pile_len
                invariant
                    wf(self@),
                    n == self@.players.len(),
                    a < self@.arena.len(),
                    pile_len == self@.arena[a as int].cards.len(),
                    j <= pile_len,
                    counts@.len() == n,
                    forall|q: int|
                        0 <= q < n ==> counts@[q] == arena_count(self@.arena.take(a as int), q)
                            + count_owned(self@.arena[a as int].cards.take(j as int), q),
                decreases pile_len - j,
            {
                let c = self.arena.piles[a].cards[j];
                let o = (c / 40) as usize;
                proof {
                    assert(arena_pile_inv(self@.arena[a as int], self@.deck.len() as int));
                    assert(c < self@.deck.len());
                    assert((c as int) / 40 < n) by (nonlinear_arith)
                        requires
                            c < 40 * n,
                            n >= 0,
                    ;
                    let oo = (c as int) / 40;
                    assert forall|q: int| 0 <= q < n implies (in_player_range(c, q) <==> q
                        == oo) by {
                        assert(40 * q <= c < 40 * q + 40 <==> q == oo) by (nonlinear_arith)
                            requires
                                oo == (c as int) / 40,
                        ;
                    }
                    // the running count stays at most forty
                    lemma_count_owned_take_le(self@.arena[a as int].cards, oo, j as int);
                    lemma_count_owned_nonneg(self@.arena[a as int].cards.take(j as int), oo);
                    lemma_arena_count_take_le(self@.arena, oo, a as int);
                    assert(self@.arena.take(a as int).take(a as int) =~= self@.arena.take(
                        a as int,
                    ));
                    lemma_arena_count_step(self@.arena, oo, a as int);
                    lemma_arena_count_take_le(self@.arena, oo, a as int + 1);
                    lemma_arena_count_bound(self@, oo);
                    assert(counts@[oo] + 1 <= 41);
                }
                let cur = counts[o];
                counts.set(o, cur + 1);
                proof {
                    let oo = o as int;
                    assert forall|q: int| 0 <= q < n implies counts@[q] == arena_count(
                        self@.arena.take(a as int),
                        q,
                    ) + count_owned(self@.arena[a as int].cards.take(j + 1), q) by {
                        lemma_count_owned_step(self@.arena[a as int].cards, q, j as int);
                    }
                }
                j = j + 1;
            }
            proof {
                assert forall|q: int| 0 <= q < n implies counts@[q] == arena_count(
                    self@.arena.take(a + 1),
                    q,
                ) by {
                    assert(self@.arena[a as int].cards.take(pile_len as int) =~= self@.arena[a as int].cards);
                    lemma_arena_count_step(self@.arena, q, a as int);
                }
            }
            a = a + 1;
        }
        proof {
            assert forall|q: int| 0 <= q < n implies counts@[q] == arena_count(self@.arena, q) by {
                assert(self@.arena.take(self@.arena.len() as int) =~= self@.arena);
            }
        }
        counts
    }
}

/// One player's score for the round that just ended: one point per card
/// contributed to the arena, two off per card left in the blitz pile, and —
/// on a penalty call by `caller` — the blitz deduction off every other
/// player whose blitz pile is empty.
pub open spec fn spec_round_entry(g: GameStateV, caller: Option<u32>, q: int) -> int {
    arena_count(g.arena, q) - 2 * g.players[q].blitz.len() - if (caller matches Some(c) && q
        != c && g.players[q].blitz.len() == 0) {
        g.blitz_deduction as int
    } else {
        0int
    }
}

impl GameState {
    /// Score the ended round: push one entry per player and raise the
    /// game-over flag when a running total reaches the winning score.
    fn score_round_impl(&mut self, penalize: Option<u32>)
        requires
            wf(old(self)@),
        ensures
            wf(final(self)@),
            final(self)@.players == old(self)@.players,
            final(self)@.arena == old(self)@.arena,
            final(self)@.deck == old(self)@.deck,
            final(self)@.round == old(self)@.round,
            final(self)@.draw_rate == old(self)@.draw_rate,
            final(self)@.post_pile_size == old(self)@.post_pile_size,
            final(self)@.score_to_win == old(self)@.score_to_win,
            final(self)@.blitz_deduction == old(self)@.blitz_deduction,
            final(self)@.default_draw_rate == old(self)@.default_draw_rate,
            final(self)@.scores.len() == old(self)@.scores.len(),
            forall|q: int|
                0 <= q < old(self)@.players.len() ==> final(self)@.scores[q] == old(
                    self,
                )@.scores[q].push(spec_round_entry(old(self)@, penalize, q) as i64),
            final(self)@.is_game_over == (old(self)@.is_game_over || exists|q: int|
                0 <= q < old(self)@.players.len() && spec_total(final(self)@.scores[q]) >= old(
                    self,
                )@.score_to_win),
    {
        let counts = self.arena_counts();
        let n = self.players.len();
        let mut round_scores: Vec<i64> = Vec::new();
        let mut q: usize = 0;
        while q < n
            invariant
                wf(old(self)@),
                *self == *old(self),
                n == self@.players.len(),
                counts@.len() == n,
                forall|t: int| 0 <= t < n ==> counts@[t] == arena_count(self@.arena, t),
                q <= n,
                round_scores@.len() == q,
                forall|t: int|
                    0 <= t < q ==> round_scores@[t] == spec_round_entry(
                        old(self)@,
                        penalize,
                        t,
                    ) as i64,
            decreases n - q,
        {
            proof {
                lemma_arena_count_bound(self@, q as int);
                lemma_player_card_total(self@, q as int);
                crate::conserve::lemma_sum_lens_nonneg(
                    pile_cards(self@.players[q as int].posts),
                );
            }
            let blitz_len = self.players[q].blitz_pile.cards.len();
            assert(blitz_len <= 40);
            let mut s: i64 = counts[q] as i64 - 2 * (blitz_len as i64);
            match penalize {
                Some(cal) => {
                    if (q as u32) != cal && blitz_len == 0 {
                        s = s - (self.blitz_deduction as i64);
                    }
                },
                None => {},
            }
            assert(s == spec_round_entry(old(self)@, penalize, q as int));
            round_scores.push(s);
            q = q + 1;
        }
        assert(round_scores@.len() == old(self)@.scores.len());
        self.scoreboard.add_round(self.round, round_scores);
        assert(self@.players == old(self)@.players);
        assert(self@.arena == old(self)@.arena);
        assert(self@.scores.len() == old(self)@.scores.len());
        assert(forall|u: int|
            0 <= u < old(self)@.players.len() ==> self@.scores[u] == old(self)@.scores[u].push(
                round_scores@[u],
            ));
        let totals = self.scoreboard.get_totals();
        let win = self.score_to_win as i128;
        let mut t: usize = 0;
        let mut over = false;
        while t < totals.len()
            invariant
                t <= totals@.len(),
                win == old(self)@.score_to_win,
                totals@.len() == self@.scores.len(),
                forall|u: int| 0 <= u < self@.scores.len() ==> totals@[u] == spec_total(
                    self@.scores[u],
                ),
                over == (exists|u: int| 0 <= u < t && totals@[u] >= win),
            decreases totals@.len() - t,
        {
            if totals[t] >= win {
                over = true;
            }
            t = t + 1;
        }
        if over {
            proof {
                let u = choose|u: int| 0 <= u < totals@.len() && totals@[u] >= win;
                assert(spec_total(self@.scores[u]) >= old(self)@.score_to_win);
            }
            self.is_game_over = true;
        } else {
            proof {
                assert forall|u: int| 0 <= u < old(self)@.players.len() implies !(spec_total(
                    self@.scores[u],
                ) >= old(self)@.score_to_win) by {
                    assert(totals@[u] < win);
                }
            }
        }
        assert forall|u: int| 0 <= u < old(self)@.players.len() implies self@.scores[u] == old(
            self,
        )@.scores[u].push(spec_round_entry(old(self)@, penalize, u) as i64) by {
            assert(self@.scores[u] == old(self)@.scores[u].push(round_scores@[u]));
            assert(round_scores@[u] == spec_round_entry(old(self)@, penalize, u) as i64);
        }
    }

    /// Score the ended round without penalties: per-player points are the
    /// arena contributions less twice the cards left in the blitz pile.
    pub fn score_round(&mut self)
        requires
            wf(old(self)@),
        ensures
            wf(final(self)@),
            final(self)@.players == old(self)@.players,
            final(self)@.arena == old(self)@.arena,
            final(self)@.deck == old(self)@.deck,
            final(self)@.round == old(self)@.round,
            final(self)@.draw_rate == old(self)@.draw_rate,
            final(self)@.post_pile_size == old(self)@.post_pile_size,
            final(self)@.score_to_win == old(self)@.score_to_win,
            final(self)@.blitz_deduction == old(self)@.blitz_deduction,
            final(self)@.default_draw_rate == old(self)@.default_draw_rate,
            final(self)@.scores.len() == old(self)@.scores.len(),
            forall|q: int|
                0 <= q < old(self)@.players.len() ==> final(self)@.scores[q] == old(
                    self,
                )@.scores[q].push(spec_round_entry(old(self)@, None, q) as i64),
            final(self)@.is_game_over == (old(self)@.is_game_over || exists|q: int|
                0 <= q < old(self)@.players.len() && spec_total(final(self)@.scores[q]) >= old(
                    self,
                )@.score_to_win),
    {
        self.score_round_impl(None)
    }
}

/// What calling blitz does: a valid call (empty blitz pile) scores the
/// round and starts the next one; a penalty call deducts from every other
/// player who could have called, scores, and ends the game.
pub open spec fn call_blitz_rel(
    pre: GameStateV,
    post: GameStateV,
    p: u32,
    ev: crate::wire::GameEventV,
) -> bool {
    let valid = pre.players[p as int].blitz.len() == 0;
    let caller: Option<u32> = if valid {
        None
    } else {
        Some(p)
    };
    &&& post.scores.len() == pre.scores.len()
    &&& forall|q: int|
        0 <= q < pre.players.len() ==> post.scores[q] == pre.scores[q].push(
            spec_round_entry(pre, caller, q) as i64,
        )
    &&& post.is_game_over == (pre.is_game_over || exists|q: int|
        0 <= q < pre.players.len() && spec_total(post.scores[q]) >= pre.score_to_win)
    &&& post.deck == pre.deck
    &&& post.players.len() == pre.players.len()
    &&& post.draw_rate == pre.draw_rate
    &&& post.post_pile_size == pre.post_pile_size
    &&& post.score_to_win == pre.score_to_win
    &&& post.blitz_deduction == pre.blitz_deduction
    &&& post.default_draw_rate == pre.default_draw_rate
    &&& if valid {
        &&& post.round == pre.round + 1
        &&& post.arena.len() == 0
        &&& forall|q: int|
            0 <= q < pre.players.len() ==> fresh_player(
                #[trigger] post.players[q],
                q,
                pre.post_pile_size as int,
            )
        &&& ev == crate::wire::GameEventV::ServerGameStateAction(
            crate::wire::ServerGameStateAction::ServerNewRound,
        )
    } else {
        &&& post.round == pre.round
        &&& post.arena == pre.arena
        &&& post.players == pre.players
        &&& ev == crate::wire::GameEventV::ServerGameStateAction(
            crate::wire::ServerGameStateAction::ServerGameOver,
        )
    }
}

impl GameState {
    /// Handle a blitz call by player `p`.
    fn do_call_blitz(&mut self, p: u32) -> (ev: crate::wire::GameEvent)
        requires
            wf(old(self)@),
            (p as int) < old(self)@.players.len(),
            old(self)@.round < u32::MAX,
        ensures
            wf(final(self)@),
            call_blitz_rel(old(self)@, final(self)@, p, ev@),
    {
        let valid = self.players[p as usize].blitz_pile.can_call_blitz();
        if valid {
            self.score_round_impl(None);
            let nr = self.new_round();
            proof {
                assert(nr is Ok);
            }
            crate::wire::GameEvent::ServerGameStateAction(
                crate::wire::ServerGameStateAction::ServerNewRound,
            )
        } else {
            self.score_round_impl(Some(p));
            crate::wire::GameEvent::ServerGameStateAction(
                crate::wire::ServerGameStateAction::ServerGameOver,
            )
        }
    }
}

/// When the rules accept a play, given the state it is applied to: the
/// player slot must exist, and the variant's own conditions must hold.
pub open spec fn play_enabled(g: GameStateV, play: Play) -> bool {
    let p = play.player as int;
    p < g.players.len() && match play.play {
        Action::Arena(ArenaAction::FromAvailableHand(pile)) => g.players[p].hand.available.len()
            >= 1 && crate::pile::spec_arena_accepts(
            g.arena,
            g.deck,
            pile as int,
            g.players[p].hand.available.last(),
        ),
        Action::Arena(ArenaAction::FromBlitz(pile)) => g.players[p].blitz.len() >= 1
            && crate::pile::spec_arena_accepts(
            g.arena,
            g.deck,
            pile as int,
            g.players[p].blitz.last(),
        ),
        Action::Arena(ArenaAction::FromPost { post_pile, arena_pile }) => (post_pile as int)
            < g.players[p].posts.len() && g.players[p].posts[post_pile as int].cards.len() >= 1
            && crate::pile::spec_arena_accepts(
            g.arena,
            g.deck,
            arena_pile as int,
            g.players[p].posts[post_pile as int].cards.last(),
        ),
        Action::Player(PlayerAction::BlitzToPost(k)) => g.players[p].blitz.len() >= 1 && (
        k as int) < g.players[p].posts.len() && crate::pile::pilev_post_accepts(
            g.players[p].posts[k as int],
            g.deck,
            g.players[p].blitz.last(),
        ),
        Action::Player(PlayerAction::AvailableToPost(k)) => g.players[p].hand.available.len() >= 1
            && (k as int) < g.players[p].posts.len() && crate::pile::pilev_post_accepts(
            g.players[p].posts[k as int],
            g.deck,
            g.players[p].hand.available.last(),
        ),
        Action::Player(PlayerAction::TransferToAvailable) => true,
        Action::Player(PlayerAction::ResetHand) => true,
        Action::CallBlitz(_) => true,
    }
}

/// The exact rule violation a rejected play reports; a play naming a slot
/// that does not exist is refused before anything else.
pub open spec fn play_refusal(g: GameStateV, play: Play) -> GameError {
    let p = play.player as int;
    if p >= g.players.len() {
        GameError::InvalidPlayer
    } else {
        match play.play {
        Action::Arena(ArenaAction::FromAvailableHand(pile)) => if g.players[p].hand.available.len()
            == 0 {
            GameError::NoAvailableCards
        } else {
            crate::pile::spec_arena_refusal(
                g.arena,
                g.deck,
                pile as int,
                g.players[p].hand.available.last(),
            )
        },
        Action::Arena(ArenaAction::FromBlitz(pile)) => if g.players[p].blitz.len() == 0 {
            GameError::BlitzPileEmpty
        } else {
            crate::pile::spec_arena_refusal(
                g.arena,
                g.deck,
                pile as int,
                g.players[p].blitz.last(),
            )
        },
        Action::Arena(ArenaAction::FromPost { post_pile, arena_pile }) => if (post_pile as int)
            >= g.players[p].posts.len() {
            GameError::PileIndexOutOfBounds
        } else if g.players[p].posts[post_pile as int].cards.len() == 0 {
            GameError::PileEmpty
        } else {
            crate::pile::spec_arena_refusal(
                g.arena,
                g.deck,
                arena_pile as int,
                g.players[p].posts[post_pile as int].cards.last(),
            )
        },
        Action::Player(PlayerAction::BlitzToPost(k)) => if g.players[p].blitz.len() == 0 {
            GameError::BlitzPileEmpty
        } else if (k as int) >= g.players[p].posts.len() {
            GameError::PileIndexOutOfBounds
        } else {
            crate::pile::pilev_post_refusal(
                g.players[p].posts[k as int],
                g.deck,
                g.players[p].blitz.last(),
            )
        },
        Action::Player(PlayerAction::AvailableToPost(k)) => if g.players[p].hand.available.len()
            == 0 {
            GameError::NoAvailableCards
        } else if (k as int) >= g.players[p].posts.len() {
            GameError::PileIndexOutOfBounds
        } else {
            crate::pile::pilev_post_refusal(
                g.players[p].posts[k as int],
                g.deck,
                g.players[p].hand.available.last(),
            )
        },
        Action::Player(PlayerAction::TransferToAvailable) => arbitrary(),
        Action::Player(PlayerAction::ResetHand) => arbitrary(),
        Action::CallBlitz(_) => arbitrary(),
        }
    }
}

/// What a successful play does: the exact new state and the exact event
/// broadcast for it. A valid blitz call re-deals, so its clause is a
/// relation rather than a function of the old state.
pub open spec fn play_step(
    pre: GameStateV,
    post: GameStateV,
    play: Play,
    ev: crate::wire::GameEventV,
) -> bool {
    let p = play.player as int;
    let pl = pre.players[p];
    match play.play {
        Action::Arena(ArenaAction::FromAvailableHand(pile)) => {
            let c = pl.hand.available.last();
            &&& post == (GameStateV {
                arena: crate::pile::spec_arena_add(pre.arena, pre.deck, pile as int, c),
                players: pre.players.update(p, player_after_avail_pop(pl)),
                ..pre
            })
            &&& ev == crate::wire::GameEventV::GameStateChange(
                arena_move_delta(
                    play.player,
                    c,
                    actual_arena_index(pre, pile, c),
                    crate::wire::PlayerStateChangeType::AvailableHand,
                ),
            )
        },
        Action::Arena(ArenaAction::FromBlitz(pile)) => {
            let c = pl.blitz.last();
            &&& post == (GameStateV {
                arena: crate::pile::spec_arena_add(pre.arena, pre.deck, pile as int, c),
                players: pre.players.update(p, player_after_blitz_pop(pl)),
                ..pre
            })
            &&& ev == crate::wire::GameEventV::GameStateChange(
                arena_move_delta(
                    play.player,
                    c,
                    actual_arena_index(pre, pile, c),
                    crate::wire::PlayerStateChangeType::BlitzPile,
                ),
            )
        },
        Action::Arena(ArenaAction::FromPost { post_pile, arena_pile }) => {
            let c = pl.posts[post_pile as int].cards.last();
            &&& post == (GameStateV {
                arena: crate::pile::spec_arena_add(pre.arena, pre.deck, arena_pile as int, c),
                players: pre.players.update(p, player_after_post_pop(pl, post_pile as int)),
                ..pre
            })
            &&& ev == crate::wire::GameEventV::GameStateChange(
                arena_move_delta(
                    play.player,
                    c,
                    actual_arena_index(pre, arena_pile, c),
                    crate::wire::PlayerStateChangeType::PostPile,
                ),
            )
        },
        Action::Player(PlayerAction::BlitzToPost(k)) => {
            let c = pl.blitz.last();
            &&& post == (GameStateV {
                players: pre.players.update(
                    p,
                    player_after_post_push(player_after_blitz_pop(pl), k as int, c),
                ),
                ..pre
            })
            &&& ev == crate::wire::GameEventV::GameStateChange(
                post_move_delta(play.player, c, crate::wire::PlayerStateChangeType::BlitzPile),
            )
        },
        Action::Player(PlayerAction::AvailableToPost(k)) => {
            let c = pl.hand.available.last();
            &&& post == (GameStateV {
                players: pre.players.update(
                    p,
                    player_after_post_push(player_after_avail_pop(pl), k as int, c),
                ),
                ..pre
            })
            &&& ev == crate::wire::GameEventV::GameStateChange(
                post_move_delta(
                    play.player,
                    c,
                    crate::wire::PlayerStateChangeType::AvailableHand,
                ),
            )
        },
        Action::Player(PlayerAction::TransferToAvailable) => {
            &&& post == (GameStateV {
                players: pre.players.update(
                    p,
                    PlayerV {
                        hand: crate::hand::spec_transfer(pl.hand, pre.draw_rate as int),
                        ..pl
                    },
                ),
                ..pre
            })
            &&& ev == crate::wire::GameEventV::GameStateChange(
                hand_delta(
                    play.player,
                    crate::wire::PlayerStateChangeType::TransferHandToAvailable,
                ),
            )
        },
        Action::Player(PlayerAction::ResetHand) => {
            &&& post == (GameStateV {
                players: pre.players.update(
                    p,
                    PlayerV { hand: crate::hand::spec_reset(pl.hand), ..pl },
                ),
                ..pre
            })
            &&& ev == crate::wire::GameEventV::GameStateChange(
                hand_delta(play.player, crate::wire::PlayerStateChangeType::ResetPlayerHand),
            )
        },
        Action::CallBlitz(_) => call_blitz_rel(pre, post, play.player, ev),
    }
}

impl GameState {
    /// Apply one play: validate it against the rules, mutate the state and
    /// hand back the event to broadcast. A rejected play leaves the state
    /// exactly as it was and reports why it was refused.
    pub fn make_play(&mut self, play: Play) -> (r: Result<crate::wire::GameEvent, GameError>)
        requires
            wf(old(self)@),
            old(self)@.round < u32::MAX,
        ensures
            wf(final(self)@),
            r is Ok <==> play_enabled(old(self)@, play),
            r matches Ok(ev) ==> play_step(old(self)@, final(self)@, play, ev@),
            r matches Err(e) ==> final(self)@ == old(self)@ && e == play_refusal(
                old(self)@,
                play,
            ),
    {
        let p = play.player;
        if (p as usize) >= self.players.len() {
            return Err(GameError::InvalidPlayer);
        }
        match play.play {
            Action::Arena(ArenaAction::FromAvailableHand(pile)) => self.arena_from_available(
                p,
                pile,
            ),
            Action::Arena(ArenaAction::FromBlitz(pile)) => self.arena_from_blitz(p, pile),
            Action::Arena(ArenaAction::FromPost { post_pile, arena_pile }) => self.arena_from_post(
                p,
                post_pile,
                arena_pile,
            ),
            Action::Player(PlayerAction::BlitzToPost(k)) => self.blitz_to_post(p, k),
            Action::Player(PlayerAction::AvailableToPost(k)) => self.available_to_post(p, k),
            Action::Player(PlayerAction::TransferToAvailable) => Ok(self.do_transfer(p)),
            Action::Player(PlayerAction::ResetHand) => Ok(self.do_reset(p)),
            Action::CallBlitz(_) => Ok(self.do_call_blitz(p)),
        }
    }
}

/// A builder for a game outside any session: preferences plus a player
/// count.
pub struct GameStateBuilder {
    pub draw_rate: u32,
    pub post_pile_size: u32,
    pub player_count: u32,
    pub score_to_win: u32,
    pub blitz_deduction: u32,
}

impl GameStateBuilder {
    /// The standard two-player game.
    pub fn new() -> (b: GameStateBuilder)
        ensures
            b.draw_rate == 3,
            b.post_pile_size == 3,
            b.player_count == 2,
            b.score_to_win == 72,
            b.blitz_deduction == 10,
    {
        GameStateBuilder {
            draw_rate: 3,
            post_pile_size: 3,
            player_count: 2,
            score_to_win: 72,
            blitz_deduction: 10,
        }
    }

    pub fn with_draw_rate(self, draw_rate: u32) -> (b: GameStateBuilder)
        ensures
            b == (GameStateBuilder { draw_rate, ..self }),
    {
        GameStateBuilder { draw_rate, ..self }
    }

    pub fn with_post_pile_size(self, post_pile_size: u32) -> (b: GameStateBuilder)
        ensures
            b == (GameStateBuilder { post_pile_size, ..self }),
    {
        GameStateBuilder { post_pile_size, ..self }
    }

    pub fn with_player_count(self, player_count: u32) -> (b: GameStateBuilder)
        ensures
            b == (GameStateBuilder { player_count, ..self }),
    {
        GameStateBuilder { player_count, ..self }
    }

    pub fn with_score_to_win(self, score_to_win: u32) -> (b: GameStateBuilder)
        ensures
            b == (GameStateBuilder { score_to_win, ..self }),
    {
        GameStateBuilder { score_to_win, ..self }
    }

    pub fn with_blitz_deduction(self, blitz_deduction: u32) -> (b: GameStateBuilder)
        ensures
            b == (GameStateBuilder { blitz_deduction, ..self }),
    {
        GameStateBuilder { blitz_deduction, ..self }
    }

    pub fn build(self) -> (r: Result<GameState, GameError>)
        ensures
            r is Ok <==> (1 <= self.player_count && self.post_pile_size <= 30 && self.player_count
                <= u32::MAX / 40),
            r matches Ok(gs) ==> wf(gs@) && gs@.players.len() == self.player_count
                && gs@.draw_rate == self.draw_rate,
    {
        GameState::from_build(self)
    }
}

impl Default for GameStateBuilder {
    fn default() -> (b: GameStateBuilder)
        ensures
            b.draw_rate == 3,
            b.post_pile_size == 3,
            b.player_count == 2,
            b.score_to_win == 72,
            b.blitz_deduction == 10,
    {
        GameStateBuilder::new()
    }
}

} // verus!
