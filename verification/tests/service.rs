//! Coordinator tests: the wire enum codes, play decoding, sessions, the
//! registry and event dispatch.
use blitz::error::{GameError, ServiceError};
use blitz::registry::Registry;
use blitz::session::{
    ClientEventData, ClientEventPayload, RemovalOutcome, ServerEventPayload, Session,
};
use blitz::state::{decode_play, Action, ArenaAction, PlayerAction};
use blitz::card::{Color, Gender};
use blitz::wire::{
    ack_type_code, ack_type_from_code, arena_play_type_code, arena_play_type_from_code,
    client_game_state_action_code, client_game_state_action_from_code, color_code,
    color_from_code, gender_code, gender_from_code, player_play_type_code,
    player_play_type_from_code, player_state_change_type_code,
    player_state_change_type_from_code, server_game_state_action_code,
    server_game_state_action_from_code, state_change_action_code, state_change_action_from_code,
    ArenaPlayType, ArenaPlayWire, ClientGameStateAction, EAcknowledgementType, GamePrefs,
    PlayWire, PlayerPlayType, PlayerPlayWire, PlayerStateChangeType, ServerGameStateAction,
    StateChangeAction,
};

#[test]
fn wire_enums_round_trip() {
    for x in [StateChangeAction::Add, StateChangeAction::Remove] {
        assert_eq!(state_change_action_from_code(state_change_action_code(x)), Some(x));
    }
    assert_eq!(state_change_action_from_code(2), None);
    for x in [
        PlayerStateChangeType::BlitzPile,
        PlayerStateChangeType::AvailableHand,
        PlayerStateChangeType::PostPile,
        PlayerStateChangeType::ResetPlayerHand,
        PlayerStateChangeType::TransferHandToAvailable,
        PlayerStateChangeType::PlayerCallBlitz,
    ] {
        assert_eq!(
            player_state_change_type_from_code(player_state_change_type_code(x)),
            Some(x)
        );
    }
    assert_eq!(player_state_change_type_from_code(6), None);
    for x in [
        ServerGameStateAction::ServerPauseGame,
        ServerGameStateAction::ServerResumeGame,
        ServerGameStateAction::ServerGameOver,
        ServerGameStateAction::ServerNewRound,
    ] {
        assert_eq!(
            server_game_state_action_from_code(server_game_state_action_code(x)),
            Some(x)
        );
    }
    // the wire reserves code two
    assert_eq!(server_game_state_action_from_code(2), None);
    assert_eq!(server_game_state_action_code(ServerGameStateAction::ServerGameOver), 3);
    for x in [
        ClientGameStateAction::PauseGame,
        ClientGameStateAction::ResumeGame,
        ClientGameStateAction::ResetDrawRate,
    ] {
        assert_eq!(
            client_game_state_action_from_code(client_game_state_action_code(x)),
            Some(x)
        );
    }
    assert_eq!(client_game_state_action_from_code(2), None);
    for x in [Color::Red, Color::Blue, Color::Green, Color::Yellow] {
        assert_eq!(color_from_code(color_code(x)), Some(x));
    }
    assert_eq!(color_code(Color::Green), 2);
    assert_eq!(color_from_code(4), None);
    for x in [Gender::Boy, Gender::Girl] {
        assert_eq!(gender_from_code(gender_code(x)), Some(x));
    }
    assert_eq!(gender_from_code(-1), None);
    for x in [
        ArenaPlayType::FromAvailableHand,
        ArenaPlayType::FromBlitz,
        ArenaPlayType::FromPost,
    ] {
        assert_eq!(arena_play_type_from_code(arena_play_type_code(x)), Some(x));
    }
    assert_eq!(arena_play_type_from_code(3), None);
    for x in [
        PlayerPlayType::BlitzToPost,
        PlayerPlayType::AvailableHandToPost,
        PlayerPlayType::TransferToAvailableHand,
        PlayerPlayType::ResetHand,
    ] {
        assert_eq!(player_play_type_from_code(player_play_type_code(x)), Some(x));
    }
    assert_eq!(player_play_type_from_code(4), None);
    for x in [EAcknowledgementType::Accepted, EAcknowledgementType::Rejected] {
        assert_eq!(ack_type_from_code(ack_type_code(x)), Some(x));
    }
    assert_eq!(ack_type_from_code(2), None);
}

#[test]
fn play_decoding_follows_the_wire() {
    let w = PlayWire::ArenaPlay(ArenaPlayWire {
        play_type: 0,
        from_index: None,
        to_index: Some(4),
    });
    let p = decode_play(7, w).unwrap();
    assert_eq!(p.player, 7);
    assert!(matches!(p.play, Action::Arena(ArenaAction::FromAvailableHand(4))));
    let w = PlayWire::ArenaPlay(ArenaPlayWire {
        play_type: 2,
        from_index: Some(1),
        to_index: Some(0),
    });
    let p = decode_play(0, w).unwrap();
    assert!(matches!(
        p.play,
        Action::Arena(ArenaAction::FromPost { post_pile: 1, arena_pile: 0 })
    ));
    // a missing index cannot decode
    let w = PlayWire::ArenaPlay(ArenaPlayWire { play_type: 2, from_index: None, to_index: Some(0) });
    assert!(decode_play(0, w).is_none());
    // an undefined play kind cannot decode
    let w = PlayWire::PlayerPlay(PlayerPlayWire { play_type: 9, post_index: None });
    assert!(decode_play(0, w).is_none());
    let w = PlayWire::PlayerPlay(PlayerPlayWire { play_type: 3, post_index: None });
    assert!(matches!(
        decode_play(2, w).unwrap().play,
        Action::Player(PlayerAction::ResetHand)
    ));
    let w = PlayWire::CallBlitz(1);
    assert!(matches!(decode_play(1, w).unwrap().play, Action::CallBlitz(1)));
}

fn prefs() -> GamePrefs {
    GamePrefs { draw_rate: 3, post_pile_size: 3, score_to_win: 72, blitz_deduction: 10 }
}

#[test]
fn create_and_join_sessions() {
    let mut reg = Registry::new();
    let alice = reg.create_session(String::from("alice"), 1).unwrap();
    assert_eq!(alice.player_game_id, 0);
    assert!(alice.is_session_admin);
    assert_eq!(alice.username, "alice");
    assert_eq!(alice.session_id.len(), 24);
    let listed = reg.active_sessions();
    assert_eq!(listed.len(), 1);
    assert_eq!(listed[0].id, alice.session_id);
    assert_eq!(listed[0].players, vec![String::from("alice")]);
    let bob = reg.join_session(&alice.session_id, String::from("bob"), 2).unwrap();
    assert_eq!(bob.player_game_id, 1);
    assert!(!bob.is_session_admin);
    let listed = reg.active_sessions();
    assert_eq!(listed[0].players, vec![String::from("alice"), String::from("bob")]);
    assert!(reg.get_session(&alice.session_id).is_some());
    assert!(reg.get_session(&String::from("missing")).is_none());
}

#[test]
fn blank_usernames_are_rejected() {
    let mut reg = Registry::new();
    assert!(matches!(
        reg.create_session(String::new(), 0),
        Err(ServiceError::InvalidArgument)
    ));
    let alice = reg.create_session(String::from("alice"), 0).unwrap();
    assert!(matches!(
        reg.join_session(&alice.session_id, String::new(), 0),
        Err(ServiceError::InvalidArgument)
    ));
}

#[test]
fn duplicate_username_rejected_without_mutation() {
    let mut reg = Registry::new();
    let alice = reg.create_session(String::from("alice"), 0).unwrap();
    let r = reg.join_session(&alice.session_id, String::from("alice"), 0);
    assert!(matches!(r, Err(ServiceError::InvalidArgument)));
    // the session's players are untouched
    assert_eq!(reg.sessions[0].players.len(), 1);
    assert_eq!(reg.sessions[0].players[0].username, "alice");
}

#[test]
fn joining_an_unknown_session_is_not_found() {
    let mut reg = Registry::new();
    assert!(matches!(
        reg.join_session(&String::from("nope"), String::from("bob"), 0),
        Err(ServiceError::NotFound)
    ));
}

#[test]
fn open_stream_twice_is_refused() {
    let mut session = Session::create(String::from("s"), String::from("alice"), 0);
    assert!(session.open_stream(0).is_ok());
    assert!(matches!(
        session.open_stream(0),
        Err(ServiceError::FailedPrecondition)
    ));
    assert!(matches!(session.open_stream(9), Err(ServiceError::NotFound)));
}

#[test]
fn start_game_handshake_runs_to_confirmation() {
    let mut session = Session::create(String::from("s"), String::from("alice"), 0);
    session.add_player(String::from("bob"), 1).unwrap();
    session.open_stream(0).unwrap();
    session.open_stream(1).unwrap();
    // only the admin may start
    let r = session.dispatch(ClientEventData {
        event_id: 1,
        player_id: 1,
        payload: ClientEventPayload::StartGame(prefs()),
    });
    assert!(matches!(r, Err(ServiceError::FailedPrecondition)));
    // the admin starts: the request goes to every other player
    let plan = session
        .dispatch(ClientEventData {
            event_id: 2,
            player_id: 0,
            payload: ClientEventPayload::StartGame(prefs()),
        })
        .unwrap();
    assert!(matches!(
        plan.broadcast_payload,
        Some(ServerEventPayload::RequestStartGame)
    ));
    assert_eq!(plan.broadcast_recipients, vec![1]);
    assert!(!session.is_joinable);
    let start_event_id = plan.broadcast_event_id;
    // the payload carries the eighty-card deck and both deals
    let data = session.build_start_data().unwrap();
    assert_eq!(data.deck.len(), 80);
    assert_eq!(data.player_cards.len(), 2);
    assert_eq!(data.player_cards[1].blitz_pile.len(), 10);
    assert_eq!(data.prefs.draw_rate, 3);
    // nothing is confirmed until the other player acknowledges
    assert!(session.confirm_start_if_acked().is_none());
    session
        .dispatch(ClientEventData {
            event_id: 3,
            player_id: 1,
            payload: ClientEventPayload::Acknowledge(start_event_id),
        })
        .unwrap();
    let confirm = session.confirm_start_if_acked().unwrap();
    assert!(matches!(confirm.payload, ServerEventPayload::ConfirmGameStart));
    // a second confirmation is not owed
    assert!(session.confirm_start_if_acked().is_none());
    // restarting a running game is refused
    let r = session.dispatch(ClientEventData {
        event_id: 4,
        player_id: 0,
        payload: ClientEventPayload::StartGame(prefs()),
    });
    assert!(matches!(r, Err(ServiceError::FailedPrecondition)));
}

fn started_session() -> Session {
    let mut session = Session::create(String::from("s"), String::from("alice"), 0);
    session.add_player(String::from("bob"), 1).unwrap();
    session.open_stream(0).unwrap();
    session.open_stream(1).unwrap();
    session
        .dispatch(ClientEventData {
            event_id: 1,
            player_id: 0,
            payload: ClientEventPayload::StartGame(prefs()),
        })
        .unwrap();
    session
}

#[test]
fn accepted_play_fans_out_with_ack_first() {
    let mut session = started_session();
    let play = blitz::state::Play {
        player: 0,
        play: Action::Player(PlayerAction::TransferToAvailable),
    };
    let plan = session
        .dispatch(ClientEventData {
            event_id: 9,
            player_id: 0,
            payload: ClientEventPayload::Play(play),
        })
        .unwrap();
    assert_eq!(plan.sender_events.len(), 1);
    assert!(matches!(
        plan.sender_events[0].payload,
        ServerEventPayload::Acknowledge { acked_event_id: 9, ack: EAcknowledgementType::Accepted }
    ));
    assert!(matches!(
        plan.broadcast_payload,
        Some(ServerEventPayload::GameStateChange(_))
    ));
    // everyone connected receives the delta, the sender included
    assert_eq!(plan.broadcast_recipients, vec![0, 1]);
    assert_eq!(plan.broadcast_event_id, 9);
    // the delta is tracked in flight for both until acknowledged; the
    // other player still owes the start-request acknowledgment (id zero)
    assert_eq!(session.in_flight[0], vec![9]);
    assert_eq!(session.in_flight[1], vec![0, 9]);
    session
        .dispatch(ClientEventData {
            event_id: 10,
            player_id: 1,
            payload: ClientEventPayload::Acknowledge(9),
        })
        .unwrap();
    assert_eq!(session.in_flight[1], vec![0]);
}

#[test]
fn rejected_play_answers_the_sender_alone() {
    let mut session = started_session();
    let play = blitz::state::Play {
        player: 0,
        play: Action::Arena(ArenaAction::FromAvailableHand(0)),
    };
    let plan = session
        .dispatch(ClientEventData {
            event_id: 5,
            player_id: 0,
            payload: ClientEventPayload::Play(play),
        })
        .unwrap();
    assert!(plan.broadcast_payload.is_none());
    assert_eq!(plan.broadcast_recipients.len(), 0);
    assert_eq!(plan.sender_events.len(), 2);
    assert!(matches!(
        plan.sender_events[0].payload,
        ServerEventPayload::GamePlayError(GameError::NoAvailableCards)
    ));
    assert!(matches!(
        plan.sender_events[1].payload,
        ServerEventPayload::Acknowledge { acked_event_id: 5, ack: EAcknowledgementType::Rejected }
    ));
}

#[test]
fn draw_rate_change_reaches_the_others() {
    let mut session = started_session();
    let plan = session
        .dispatch(ClientEventData {
            event_id: 6,
            player_id: 1,
            payload: ClientEventPayload::ChangeDrawRate(5),
        })
        .unwrap();
    assert!(matches!(
        plan.broadcast_payload,
        Some(ServerEventPayload::ChangeDrawRate(5))
    ));
    // the sender gets only its acknowledgment
    assert_eq!(plan.broadcast_recipients, vec![0]);
    assert_eq!(session.game_state.as_ref().unwrap().draw_rate, 5);
    // an admin reset restores the default and is announced as a change
    let plan = session
        .dispatch(ClientEventData {
            event_id: 7,
            player_id: 0,
            payload: ClientEventPayload::StaticEvent(ClientGameStateAction::ResetDrawRate),
        })
        .unwrap();
    assert!(matches!(
        plan.broadcast_payload,
        Some(ServerEventPayload::ChangeDrawRate(3))
    ));
    assert_eq!(session.game_state.as_ref().unwrap().draw_rate, 3);
    // a non-admin may not send game-state actions
    let r = session.dispatch(ClientEventData {
        event_id: 8,
        player_id: 1,
        payload: ClientEventPayload::StaticEvent(ClientGameStateAction::PauseGame),
    });
    assert!(matches!(r, Err(ServiceError::FailedPrecondition)));
}

#[test]
fn open_stream_event_on_open_stream_is_refused() {
    let mut session = started_session();
    let r = session.dispatch(ClientEventData {
        event_id: 2,
        player_id: 1,
        payload: ClientEventPayload::OpenStream,
    });
    assert!(matches!(r, Err(ServiceError::FailedPrecondition)));
}

#[test]
fn lobby_departure_promotes_next_admin() {
    let mut session = Session::create(String::from("s"), String::from("alice"), 0);
    session.add_player(String::from("bob"), 1).unwrap();
    session.add_player(String::from("carol"), 2).unwrap();
    let (out, _) = session.remove_player(0).unwrap();
    assert!(matches!(out, RemovalOutcome::Removed { now_empty: false }));
    assert_eq!(session.players.len(), 2);
    assert_eq!(session.players[0].username, "bob");
    assert!(session.players[0].is_session_admin);
    assert_eq!(session.players[0].player_game_id, 0);
    assert_eq!(session.players[1].username, "carol");
    assert_eq!(session.players[1].player_game_id, 1);
}

#[test]
fn mid_game_departure_ends_the_game() {
    let mut session = started_session();
    let (out, plan) = session.remove_player(1).unwrap();
    assert!(matches!(out, RemovalOutcome::GameEnded));
    assert!(session.game_state.is_none());
    assert!(matches!(
        plan.broadcast_payload,
        Some(ServerEventPayload::ServerGameStateAction(ServerGameStateAction::ServerGameOver))
    ));
    assert_eq!(plan.broadcast_recipients, vec![0]);
}

#[test]
fn admin_end_requires_a_running_game() {
    let mut reg = Registry::new();
    let alice = reg.create_session(String::from("alice"), 0).unwrap();
    // an explicit admin end with no game in progress is refused
    assert!(matches!(
        reg.end_session(&alice.session_id, 0),
        Err(ServiceError::FailedPrecondition)
    ));
    assert_eq!(reg.sessions.len(), 1);
    // an admin disconnect before the game starts destroys the session
    reg.remove_player(&alice.session_id, 0).unwrap();
    assert_eq!(reg.sessions.len(), 0);
}

#[test]
fn admin_disconnect_mid_game_deletes_the_session() {
    let mut reg = Registry::new();
    let alice = reg.create_session(String::from("alice"), 0).unwrap();
    reg.join_session(&alice.session_id, String::from("bob"), 0).unwrap();
    let session = &mut reg.sessions[0];
    session.open_stream(0).unwrap();
    session.open_stream(1).unwrap();
    session
        .dispatch(ClientEventData {
            event_id: 1,
            player_id: 0,
            payload: ClientEventPayload::StartGame(prefs()),
        })
        .unwrap();
    let (out, plan) = reg.remove_player(&alice.session_id, 0).unwrap();
    assert!(matches!(out, blitz::registry::EndOutcome::SessionDeleted));
    assert!(matches!(
        plan.broadcast_payload,
        Some(ServerEventPayload::ServerGameStateAction(ServerGameStateAction::ServerGameOver))
    ));
    assert_eq!(plan.broadcast_recipients, vec![1]);
    assert_eq!(reg.sessions.len(), 0);
}

#[test]
fn non_admin_disconnect_mid_game_keeps_the_session() {
    let mut reg = Registry::new();
    let alice = reg.create_session(String::from("alice"), 0).unwrap();
    reg.join_session(&alice.session_id, String::from("bob"), 0).unwrap();
    let session = &mut reg.sessions[0];
    session.open_stream(0).unwrap();
    session.open_stream(1).unwrap();
    session
        .dispatch(ClientEventData {
            event_id: 1,
            player_id: 0,
            payload: ClientEventPayload::StartGame(prefs()),
        })
        .unwrap();
    let (out, plan) = reg.remove_player(&alice.session_id, 1).unwrap();
    assert!(matches!(out, blitz::registry::EndOutcome::GameEnded));
    assert_eq!(plan.broadcast_recipients, vec![0]);
    assert_eq!(reg.sessions.len(), 1);
    assert!(reg.sessions[0].game_state.is_none());
    assert_eq!(reg.sessions[0].players.len(), 2);
}

#[test]
fn lobby_departures_update_the_registry() {
    let mut reg = Registry::new();
    let alice = reg.create_session(String::from("alice"), 0).unwrap();
    let r = reg.end_session(&alice.session_id, 1);
    // player one does not exist in this session
    assert!(matches!(r, Err(ServiceError::NotFound)));
    let bob = reg.join_session(&alice.session_id, String::from("bob"), 0).unwrap();
    assert_eq!(bob.player_game_id, 1);
    reg.end_session(&alice.session_id, 1).unwrap();
    assert_eq!(reg.sessions[0].players.len(), 1);
    assert_eq!(reg.sessions[0].players[0].username, "alice");
}
