//! Rules-engine tests: the deck, the piles, the hand cycle, scoring and the
//! play validation paths.
use blitz::card::{generate_all_card, Card, CardContext, Color, Gender};
use blitz::error::GameError;
use blitz::hand::{BlitzPile, PlayerHand};
use blitz::pile::{Arena, Pile, PostPile};
use blitz::state::{Action, ArenaAction, GameState, GameStateBuilder, Play, PlayerAction};
use blitz::wire::{GameEvent, GamePrefs, ServerGameStateAction};

fn default_prefs() -> GamePrefs {
    GamePrefs { draw_rate: 3, post_pile_size: 3, score_to_win: 72, blitz_deduction: 10 }
}

fn new_game(players: u32) -> GameState {
    GameState::new(players, default_prefs()).unwrap()
}

#[test]
fn deck_has_forty_cards_per_player() {
    let deck = generate_all_card(2);
    assert_eq!(deck.len(), 80);
    let first = deck[0];
    assert_eq!(first.player_id, 0);
    assert_eq!(first.number, 1);
    assert_eq!(first.color, Color::Red);
    assert_eq!(first.gender, Gender::Boy);
    let last_of_first_player = deck[39];
    assert_eq!(last_of_first_player.player_id, 0);
    assert_eq!(last_of_first_player.number, 10);
    assert_eq!(last_of_first_player.color, Color::Yellow);
    assert_eq!(last_of_first_player.gender, Gender::Girl);
    let first_of_second_player = deck[40];
    assert_eq!(first_of_second_player.player_id, 1);
    assert_eq!(first_of_second_player.number, 1);
    assert_eq!(first_of_second_player.color, Color::Red);
}

#[test]
fn deck_gender_follows_number_parity() {
    let deck = generate_all_card(1);
    for card in &deck {
        let expected = if card.number % 2 == 1 { Gender::Boy } else { Gender::Girl };
        assert_eq!(card.gender, expected);
    }
}

#[test]
fn new_game_deals_every_player() {
    let gs = new_game(2);
    assert_eq!(gs.players.len(), 2);
    assert_eq!(gs.draw_rate, 3);
    assert_eq!(gs.round, 0);
    assert!(!gs.game_over());
    for player in &gs.players {
        assert_eq!(player.hand.count_in_hand(), 27);
        assert_eq!(player.hand.count_available(), 0);
        assert_eq!(player.blitz_pile.cards.len(), 10);
        assert_eq!(player.post_pile.piles.len(), 3);
        for pile in &player.post_pile.piles {
            assert_eq!(pile.cards.len(), 1);
        }
    }
}

#[test]
fn invalid_config_is_rejected() {
    assert!(matches!(
        GameState::new(0, default_prefs()),
        Err(GameError::InvalidConfig)
    ));
    let too_many_posts = GamePrefs { post_pile_size: 31, ..default_prefs() };
    assert!(matches!(
        GameState::new(2, too_many_posts),
        Err(GameError::InvalidConfig)
    ));
}

#[test]
fn builder_defaults_and_overrides() {
    let b = GameStateBuilder::new();
    assert_eq!(b.draw_rate, 3);
    assert_eq!(b.post_pile_size, 3);
    assert_eq!(b.player_count, 2);
    assert_eq!(b.score_to_win, 72);
    assert_eq!(b.blitz_deduction, 10);
    let gs = GameStateBuilder::new()
        .with_draw_rate(5)
        .with_post_pile_size(4)
        .with_player_count(3)
        .with_score_to_win(100)
        .with_blitz_deduction(20)
        .build()
        .unwrap();
    assert_eq!(gs.players.len(), 3);
    assert_eq!(gs.draw_rate, 5);
    assert_eq!(gs.post_pile_size, 4);
    assert_eq!(gs.score_to_win, 100);
    assert_eq!(gs.blitz_deduction, 20);
}

fn context(players: u32) -> CardContext {
    CardContext::new(generate_all_card(players))
}

#[test]
fn arena_new_pile_needs_a_one() {
    let ctx = context(1);
    let mut arena = Arena::new();
    // deck index 1 shows number 2: it cannot start a pile, and the
    // addressed pile does not exist
    assert!(matches!(
        arena.add_card(0, 1, &ctx),
        Err(GameError::PileIndexOutOfBounds)
    ));
    assert_eq!(arena.piles.len(), 0);
    // deck index 0 shows number 1: a new pile opens
    assert!(arena.add_card(0, 0, &ctx).is_ok());
    assert_eq!(arena.piles.len(), 1);
    assert_eq!(arena.piles[0].cards, vec![0]);
    assert_eq!(arena.piles[0].color, Color::Red);
}

#[test]
fn arena_rejects_wrong_color_and_number() {
    let ctx = context(1);
    let mut arena = Arena::new();
    arena.add_card(0, 0, &ctx).unwrap();
    // deck index 11 is a blue two: wrong color for the red pile
    assert!(matches!(
        arena.add_card(0, 11, &ctx),
        Err(GameError::ColorMismatch)
    ));
    // deck index 2 is a red three: not the successor of one
    assert!(matches!(
        arena.add_card(0, 2, &ctx),
        Err(GameError::NumberMismatch)
    ));
    // the failures changed nothing
    assert_eq!(arena.piles[0].cards, vec![0]);
    // deck index 1 is the red two: it extends the pile
    assert!(arena.add_card(0, 1, &ctx).is_ok());
    assert_eq!(arena.piles[0].cards, vec![0, 1]);
}

#[test]
fn post_pile_alternates_gender_and_descends() {
    let ctx = context(1);
    // deck index 4 is the red five (a boy)
    let mut pile = Pile::from_vec(vec![4], Color::Red);
    // deck index 2 is the red three (a boy): same gender is refused first
    assert!(matches!(
        pile.add_post_card(2, &ctx),
        Err(GameError::GenderMismatch)
    ));
    // deck index 13 is the blue four: wrong color
    assert!(matches!(
        pile.add_post_card(13, &ctx),
        Err(GameError::ColorMismatch)
    ));
    // deck index 3 is the red four (a girl): exactly one less, opposite
    // gender
    assert!(pile.add_post_card(3, &ctx).is_ok());
    assert_eq!(pile.cards, vec![4, 3]);
    // deck index 0 is the red one (a boy): opposite gender, but not one
    // less than four
    assert!(matches!(
        pile.add_post_card(0, &ctx),
        Err(GameError::NumberMismatch)
    ));
}

#[test]
fn post_pile_play_removes_emptied_pile() {
    let mut posts = PostPile::from_vec(vec![
        Pile::from_vec(vec![4, 3], Color::Red),
        Pile::from_vec(vec![15], Color::Blue),
    ]);
    assert_eq!(posts.play(0).unwrap(), 3);
    assert_eq!(posts.piles.len(), 2);
    assert_eq!(posts.play(1).unwrap(), 15);
    // the second pile emptied and disappeared
    assert_eq!(posts.piles.len(), 1);
    assert!(matches!(posts.play(5), Err(GameError::PileIndexOutOfBounds)));
}

#[test]
fn transfer_moves_draw_rate_cards() {
    let mut hand = PlayerHand::new(vec![10, 11, 12, 13, 14]);
    let drawn = hand.transfer_hand_to_available(3);
    assert_eq!(drawn, vec![10, 11, 12]);
    assert_eq!(hand.in_hand, vec![13, 14]);
    assert_eq!(hand.available_to_play, vec![10, 11, 12]);
    assert_eq!(hand.play_from_available().unwrap(), 12);
}

#[test]
fn transfer_with_short_hand_moves_all() {
    let mut hand = PlayerHand::new(vec![7, 8]);
    let drawn = hand.transfer_hand_to_available(3);
    assert_eq!(drawn, vec![7, 8]);
    assert_eq!(hand.count_in_hand(), 0);
    assert_eq!(hand.available_to_play, vec![7, 8]);
}

#[test]
fn reset_returns_available_to_hand_bottom() {
    let mut hand = PlayerHand::new(vec![1, 2, 3, 4, 5]);
    hand.transfer_hand_to_available(3);
    hand.reset_hand();
    assert_eq!(hand.in_hand, vec![4, 5, 1, 2, 3]);
    assert_eq!(hand.count_available(), 0);
}

#[test]
fn transfer_reset_cycles_return_to_start() {
    let starting = vec![1u32, 2, 3, 4, 5];
    let mut hand = PlayerHand::new(starting.clone());
    // as many cycles as the hand holds cards restore the partition
    for _ in 0..starting.len() {
        hand.transfer_hand_to_available(3);
        hand.reset_hand();
    }
    assert_eq!(hand.in_hand, starting);
    assert_eq!(hand.count_available(), 0);
}

#[test]
fn empty_sources_are_rejected() {
    let mut hand = PlayerHand::new(vec![]);
    assert!(matches!(
        hand.play_from_available(),
        Err(GameError::NoAvailableCards)
    ));
    let mut blitz = BlitzPile::new(vec![]);
    assert!(matches!(blitz.play(), Err(GameError::BlitzPileEmpty)));
    assert!(blitz.can_call_blitz());
    let mut stocked = BlitzPile::new(vec![20, 21]);
    assert!(!stocked.can_call_blitz());
    assert_eq!(stocked.play().unwrap(), 21);
}

#[test]
fn seeded_deal_is_reproducible() {
    let gs = new_game(2);
    let first = gs.create_player_seeded(1, 12345).unwrap();
    let second = gs.create_player_seeded(1, 12345).unwrap();
    assert_eq!(first.hand.in_hand, second.hand.in_hand);
    assert_eq!(first.blitz_pile.cards, second.blitz_pile.cards);
    assert_eq!(first.post_pile.piles.len(), second.post_pile.piles.len());
    for (a, b) in first.post_pile.piles.iter().zip(second.post_pile.piles.iter()) {
        assert_eq!(a.cards, b.cards);
    }
    // every dealt card belongs to player 1
    for c in &first.hand.in_hand {
        assert!((40..80).contains(c));
    }
}

#[test]
fn rejected_play_leaves_state_unchanged() {
    let mut gs = new_game(2);
    let before_hand = gs.players[0].hand.in_hand.clone();
    let play = Play {
        player: 0,
        play: Action::Arena(ArenaAction::FromAvailableHand(0)),
    };
    // nothing is available yet, so the play is refused
    let r = gs.make_play(play);
    assert!(matches!(r, Err(GameError::NoAvailableCards)));
    assert_eq!(gs.players[0].hand.in_hand, before_hand);
    assert_eq!(gs.arena.piles.len(), 0);
}

#[test]
fn transfer_play_emits_player_state_change() {
    let mut gs = new_game(2);
    let play = Play {
        player: 0,
        play: Action::Player(PlayerAction::TransferToAvailable),
    };
    let ev = gs.make_play(play).unwrap();
    match ev {
        GameEvent::GameStateChange(delta) => {
            assert_eq!(delta.arena_state_changes.len(), 0);
            assert_eq!(delta.player_state_changes.len(), 1);
            assert_eq!(delta.player_state_changes[0].player_id, 0);
        },
        GameEvent::ServerGameStateAction(_) => panic!("expected a state delta"),
    }
    assert_eq!(gs.players[0].hand.count_available(), 3);
    assert_eq!(gs.players[0].hand.count_in_hand(), 24);
}

#[test]
fn draw_rate_changes_and_resets() {
    let mut gs = new_game(2);
    gs.change_draw_rate(1);
    assert_eq!(gs.draw_rate, 1);
    let play = Play {
        player: 0,
        play: Action::Player(PlayerAction::TransferToAvailable),
    };
    gs.make_play(play).unwrap();
    assert_eq!(gs.players[0].hand.count_available(), 1);
    gs.reset_draw_rate();
    assert_eq!(gs.draw_rate, 3);
}

#[test]
fn valid_blitz_call_scores_and_redeals() {
    let mut gs = new_game(2);
    // player 0 has emptied its blitz pile over the round
    gs.players[0].blitz_pile.cards.clear();
    let ev = gs
        .make_play(Play { player: 0, play: Action::CallBlitz(0) })
        .unwrap();
    assert!(matches!(
        ev,
        GameEvent::ServerGameStateAction(ServerGameStateAction::ServerNewRound)
    ));
    assert_eq!(gs.round, 1);
    assert_eq!(gs.arena.piles.len(), 0);
    // no arena cards: the caller scores zero, the other player loses two
    // per card left in its blitz pile
    assert_eq!(gs.scoreboard.scores[0], vec![0]);
    assert_eq!(gs.scoreboard.scores[1], vec![-20]);
    // the new round dealt everyone afresh
    assert_eq!(gs.players[0].blitz_pile.cards.len(), 10);
}

#[test]
fn penalty_blitz_call_deducts_from_idle_players() {
    let mut gs = new_game(2);
    // player 1 could have called blitz but did not; player 0 calls with a
    // full blitz pile
    gs.players[1].blitz_pile.cards.clear();
    let ev = gs
        .make_play(Play { player: 0, play: Action::CallBlitz(0) })
        .unwrap();
    assert!(matches!(
        ev,
        GameEvent::ServerGameStateAction(ServerGameStateAction::ServerGameOver)
    ));
    // the round is scored without a re-deal
    assert_eq!(gs.round, 0);
    assert_eq!(gs.scoreboard.scores[0], vec![-20]);
    assert_eq!(gs.scoreboard.scores[1], vec![-10]);
}

#[test]
fn scoreboard_totals_sum_rows() {
    let mut sb = blitz::score::Scoreboard::new(2);
    sb.add_round(0, vec![5, -3]);
    sb.add_round(1, vec![2, 7]);
    assert_eq!(sb.get_totals(), vec![7, 4]);
    sb.add_score(1, 0, 10);
    assert_eq!(sb.scores[0], vec![5, 12]);
    assert_eq!(sb.get_totals(), vec![17, 4]);
}

#[test]
fn game_over_flag_rises_at_score_to_win() {
    let mut gs = GameStateBuilder::new().with_score_to_win(0).build().unwrap();
    gs.players[0].blitz_pile.cards.clear();
    gs.make_play(Play { player: 0, play: Action::CallBlitz(0) })
        .unwrap();
    // the caller's total of zero already reaches a winning score of zero
    assert!(gs.game_over());
}

#[test]
fn new_round_preserves_scores_and_prefs() {
    let mut gs = new_game(2);
    gs.score_round();
    let totals = gs.scoreboard.get_totals();
    gs.new_round().unwrap();
    assert_eq!(gs.round, 1);
    assert_eq!(gs.scoreboard.get_totals(), totals);
    assert_eq!(gs.draw_rate, 3);
    assert_eq!(gs.players.len(), 2);
}

#[test]
fn arena_play_from_available_builds_a_pile() {
    let mut gs = new_game(2);
    // put the red one and the red two on top of player zero's available
    // stack
    gs.players[0].hand.available_to_play.push(1);
    gs.players[0].hand.available_to_play.push(0);
    let ev = gs
        .make_play(Play { player: 0, play: Action::Arena(ArenaAction::FromAvailableHand(0)) })
        .unwrap();
    match ev {
        GameEvent::GameStateChange(delta) => {
            assert_eq!(delta.arena_state_changes.len(), 1);
            assert_eq!(delta.arena_state_changes[0].card, 0);
            assert_eq!(delta.arena_state_changes[0].pile_index, 0);
            assert_eq!(delta.player_state_changes.len(), 1);
            assert_eq!(delta.player_state_changes[0].card, 0);
        },
        GameEvent::ServerGameStateAction(_) => panic!("expected a state delta"),
    }
    assert_eq!(gs.arena.piles.len(), 1);
    assert_eq!(gs.arena.piles[0].cards, vec![0]);
    // the red two extends the same pile
    gs.make_play(Play { player: 0, play: Action::Arena(ArenaAction::FromAvailableHand(0)) })
        .unwrap();
    assert_eq!(gs.arena.piles[0].cards, vec![0, 1]);
    // a red four cannot follow the two; the state stays put
    gs.players[0].hand.available_to_play.push(3);
    let r = gs.make_play(Play { player: 0, play: Action::Arena(ArenaAction::FromAvailableHand(0)) });
    assert!(matches!(r, Err(GameError::NumberMismatch)));
    assert_eq!(gs.arena.piles[0].cards, vec![0, 1]);
    assert_eq!(*gs.players[0].hand.available_to_play.last().unwrap(), 3);
}

#[test]
fn blitz_to_post_moves_one_card() {
    let mut gs = new_game(2);
    // give player zero a post pile topped by the red five and a blitz pile
    // topped by the red four
    gs.players[0].post_pile.piles.clear();
    gs.players[0].post_pile.piles.push(Pile::from_vec(vec![4], Color::Red));
    gs.players[0].blitz_pile.cards.push(3);
    let before_blitz = gs.players[0].blitz_pile.cards.len();
    gs.make_play(Play { player: 0, play: Action::Player(PlayerAction::BlitzToPost(0)) })
        .unwrap();
    assert_eq!(gs.players[0].post_pile.piles[0].cards, vec![4, 3]);
    assert_eq!(gs.players[0].blitz_pile.cards.len(), before_blitz - 1);
    // a second push of the same card fails: the top is now the four
    gs.players[0].blitz_pile.cards.push(3);
    let r = gs.make_play(Play { player: 0, play: Action::Player(PlayerAction::BlitzToPost(0)) });
    assert!(matches!(r, Err(GameError::GenderMismatch)));
}

#[test]
fn full_and_empty_piles_are_refused() {
    let ctx = context(1);
    // a ten-card pile is full before any other check
    let mut full = Pile::from_vec(vec![9, 8, 7, 6, 5, 4, 3, 2, 1, 0], Color::Red);
    assert!(matches!(full.add_post_card(0, &ctx), Err(GameError::PileFull)));
    // an empty post pile has no top to play
    let mut posts = PostPile::from_vec(vec![Pile::from_vec(vec![], Color::Red)]);
    assert!(matches!(posts.play(0), Err(GameError::PileEmpty)));
}

#[test]
fn dealing_an_unknown_slot_is_refused() {
    let gs = new_game(2);
    assert!(matches!(gs.create_player(9), Err(GameError::InvalidPlayer)));
    assert!(gs.create_player(1).is_ok());
}

#[test]
fn a_play_by_an_unknown_slot_is_refused() {
    let mut gs = new_game(2);
    let r = gs.make_play(Play {
        player: 7,
        play: Action::Player(PlayerAction::TransferToAvailable),
    });
    assert!(matches!(r, Err(GameError::InvalidPlayer)));
    assert_eq!(gs.players[0].hand.count_available(), 0);
    assert_eq!(gs.players[1].hand.count_available(), 0);
}

#[test]
fn card_context_rejects_bad_indices() {
    let ctx = context(1);
    assert_eq!(ctx.len(), 40);
    let card: &Card = ctx.get_card(0).unwrap();
    assert_eq!(card.number, 1);
    assert!(matches!(
        ctx.get_card(40),
        Err(GameError::CardIndexOutOfBounds)
    ));
}
