//! One game session: its players, their stream slots, the authoritative
//! game state, in-flight event tracking, and the dispatch of client events
//! into state changes and outbound sends.
use vstd::prelude::*;

use crate::card::Card;
use crate::error::{GameError, ServiceError};
use crate::state::{wf, GameState, GameStateV, Play};
use crate::wire::{
    ClientGameStateAction, EAcknowledgementType, GamePrefs, GameStateChange, GameEvent,
    ServerGameStateAction,
};

verus! {

/// The wire record describing a player within a session.
pub struct PlayerInfo {
    pub session_id: String,
    pub player_game_id: u32,
    pub username: String,
    pub face_image_id: u32,
    pub is_session_admin: bool,
}

/// Mathematical image of a player record.
#[verifier::ext_equal]
pub ghost struct PlayerInfoV {
    pub session_id: Seq<char>,
    pub player_game_id: u32,
    pub username: Seq<char>,
    pub face_image_id: u32,
    pub is_session_admin: bool,
}

impl View for PlayerInfo {
    type V = PlayerInfoV;

    open spec fn view(&self) -> PlayerInfoV {
        PlayerInfoV {
            session_id: self.session_id@,
            player_game_id: self.player_game_id,
            username: self.username@,
            face_image_id: self.face_image_id,
            is_session_admin: self.is_session_admin,
        }
    }
}

/// A client-to-server event, already decoded to plain values.
pub enum ClientEventPayload {
    Play(Play),
    StaticEvent(ClientGameStateAction),
    OpenStream,
    StartGame(GamePrefs),
    ChangeDrawRate(u32),
    Acknowledge(u32),
}

/// The envelope of a client event: the client's own event id, the sending
/// player, and the payload.
pub struct ClientEventData {
    pub event_id: u32,
    pub player_id: u32,
    pub payload: ClientEventPayload,
}

/// A server-to-client payload. The start-game payloads carry no body here;
/// the caller materializes it from `build_start_data` so that a single
/// session snapshot serves every recipient.
pub enum ServerEventPayload {
    GameStateChange(GameStateChange),
    Acknowledge { acked_event_id: u32, ack: EAcknowledgementType },
    ServerGameStateAction(ServerGameStateAction),
    RequestStartGame,
    ConfirmGameStart,
    ChangeDrawRate(u32),
    GamePlayError(GameError),
}

/// One send aimed at the sender of the event being dispatched.
pub struct SenderEvent {
    pub event_id: u32,
    pub payload: ServerEventPayload,
}

/// What the coordinator must send after dispatching one client event: first
/// the sender's own events, then one payload to each recipient in order.
/// The in-flight bookkeeping has already been done by `dispatch`.
pub struct DispatchPlan {
    pub sender_events: Vec<SenderEvent>,
    pub broadcast_payload: Option<ServerEventPayload>,
    pub broadcast_event_id: u32,
    pub broadcast_recipients: Vec<u32>,
}

/// One player's starting cards, as shipped in the start-game payload.
pub struct PlayerCards {
    pub in_hand: Vec<u32>,
    pub available_to_play: Vec<u32>,
    pub post_piles: Vec<Vec<u32>>,
    pub blitz_pile: Vec<u32>,
}

/// The start-game payload: the preferences, the global deck, and every
/// player's deal.
pub struct StartGameData {
    pub prefs: GamePrefs,
    pub deck: Vec<Card>,
    pub player_cards: Vec<PlayerCards>,
}

/// A session: joinable until the admin starts the game, then the
/// authoritative game state plus per-player stream slots and in-flight
/// event tracking.
pub struct Session {
    pub id: String,
    pub is_joinable: bool,
    pub players: Vec<PlayerInfo>,
    pub game_state: Option<GameState>,
    pub stream_open: Vec<bool>,
    pub in_flight: Vec<Vec<u32>>,
    pub server_event_counter: u32,
    pub pending_start: Option<u32>,
}

/// Mathematical image of a session.
#[verifier::ext_equal]
pub ghost struct SessionV {
    pub id: Seq<char>,
    pub is_joinable: bool,
    pub players: Seq<PlayerInfoV>,
    pub game: Option<GameStateV>,
    pub streams: Seq<bool>,
    pub in_flight: Seq<Seq<u32>>,
    pub counter: u32,
    pub pending_start: Option<u32>,
}

impl View for Session {
    type V = SessionV;

    open spec fn view(&self) -> SessionV {
        SessionV {
            id: self.id@,
            is_joinable: self.is_joinable,
            players: self.players@.map_values(|p: PlayerInfo| p@),
            game: match self.game_state {
                Some(g) => Some(g@),
                None => None,
            },
            streams: self.stream_open@,
            in_flight: self.in_flight@.map_values(|v: Vec<u32>| v@),
            counter: self.server_event_counter,
            pending_start: self.pending_start,
        }
    }
}

/// Session structure invariant: one stream slot and one in-flight set per
/// player, dense server-assigned ids, the admin in slot zero, and a
/// well-formed game covering exactly the session's players once started.
pub open spec fn session_wf(s: SessionV) -> bool {
    &&& 1 <= s.players.len() < u32::MAX
    &&& s.players.len() == s.streams.len()
    &&& s.players.len() == s.in_flight.len()
    &&& forall|i: int|
        0 <= i < s.players.len() ==> (#[trigger] s.players[i]).player_game_id == i
    &&& forall|i: int|
        0 <= i < s.players.len() ==> (#[trigger] s.players[i]).is_session_admin == (i == 0)
    &&& (s.game matches Some(g) ==> {
        &&& wf(g)
        &&& g.players.len() == s.players.len()
        &&& !s.is_joinable
    })
    &&& (s.pending_start is Some ==> s.game is Some)
}

/// A session with one player occupying some slot index.
pub open spec fn spec_player_record(
    session_id: Seq<char>,
    slot: int,
    username: Seq<char>,
    face_image_id: u32,
) -> PlayerInfoV {
    PlayerInfoV {
        session_id,
        player_game_id: slot as u32,
        username,
        face_image_id,
        is_session_admin: slot == 0,
    }
}

/// What became of a session after a player left.
pub enum RemovalOutcome {
    /// The game was in progress: it ended for everyone and the session's
    /// state was cleared.
    GameEnded,
    /// The lobby slot was removed; `now_empty` says the last player left
    /// and the session should be deleted.
    Removed { now_empty: bool },
}

/// The event counter after one allocation; it wraps at the maximum.
pub open spec fn next_ctr(c: u32) -> u32 {
    if c == u32::MAX {
        0u32
    } else {
        (c + 1) as u32
    }
}

/// A plan that sends nothing.
pub open spec fn plan_is_empty(plan: DispatchPlan) -> bool {
    &&& plan.sender_events@.len() == 0
    &&& plan.broadcast_payload is None
    &&& plan.broadcast_recipients@.len() == 0
}

/// The single accepted acknowledgment every successful event earns its
/// sender.
pub open spec fn plan_single_ack(plan: DispatchPlan, acked: u32) -> bool {
    &&& plan.sender_events@.len() == 1
    &&& plan.sender_events@[0].event_id == acked
    &&& plan.sender_events@[0].payload matches ServerEventPayload::Acknowledge {
        acked_event_id,
        ack,
    } && acked_event_id == acked && ack == EAcknowledgementType::Accepted
}

/// The in-flight sets after recording `id` for exactly `recipients`.
pub open spec fn tracked_for(
    pre: Seq<Seq<u32>>,
    post: Seq<Seq<u32>>,
    recipients: Seq<u32>,
    id: u32,
) -> bool {
    &&& post.len() == pre.len()
    &&& forall|q: int|
        0 <= q < pre.len() ==> post[q] == (if recipients.contains(q as u32) {
            pre[q].push(id)
        } else {
            pre[q]
        })
}

/// The sends that announce a mid-game departure: the leaver is
/// acknowledged, and every other connected player is told the game is over
/// (event id zero).
pub open spec fn spec_game_over_broadcast(pre: SessionV, leaver: u32, plan: DispatchPlan) -> bool {
    &&& plan_single_ack(plan, 0)
    &&& plan.broadcast_event_id == 0
    &&& plan.broadcast_payload matches Some(pl) && pl matches
        ServerEventPayload::ServerGameStateAction(a) && a
        == ServerGameStateAction::ServerGameOver
    &&& plan.broadcast_recipients@ == Session::spec_recipients(pre, Some(leaver))
}

/// The game-over announcement together with its in-flight bookkeeping.
pub open spec fn spec_game_over_plan(
    pre: SessionV,
    leaver: u32,
    plan: DispatchPlan,
    post_in_flight: Seq<Seq<u32>>,
) -> bool {
    &&& spec_game_over_broadcast(pre, leaver, plan)
    &&& tracked_for(pre.in_flight, post_in_flight, plan.broadcast_recipients@, 0)
}

/// A mid-game departure ends the game: the state is cleared, the slots
/// stay, and the plan announces it.
pub open spec fn spec_game_ended(
    pre: SessionV,
    leaver: u32,
    post: SessionV,
    plan: DispatchPlan,
) -> bool {
    &&& spec_game_over_plan(pre, leaver, plan, post.in_flight)
    &&& post == (SessionV { game: None, pending_start: None, in_flight: post.in_flight, ..pre })
}

/// A lobby departure: the slot is gone, ids are dense again, and slot zero
/// holds the admin role.
pub open spec fn spec_lobby_removed(pre: SessionV, player_id: u32, post: SessionV) -> bool {
    &&& post == (SessionV {
        players: post.players,
        streams: pre.streams.remove(player_id as int),
        in_flight: pre.in_flight.remove(player_id as int),
        ..pre
    })
    &&& post.players.len() == pre.players.len() - 1
    &&& forall|i: int|
        0 <= i < post.players.len() ==> (#[trigger] post.players[i]) == (PlayerInfoV {
            player_game_id: i as u32,
            is_session_admin: i == 0,
            ..pre.players[if i < player_id as int {
                i
            } else {
                i + 1
            }]
        })
}

/// What dispatching a Play does. Without a started game, with a bad player
/// slot, or with an exhausted round counter nothing changes and the reason
/// is reported. An accepted play mutates the game per the rules engine and
/// fans the delta out to every connected player, the sender first receiving
/// its acknowledgment; a rejected play leaves the game untouched and
/// answers the sender alone with the violation and a rejection.
pub open spec fn dispatch_play_post(
    pre: SessionV,
    post: SessionV,
    r: Result<DispatchPlan, ServiceError>,
    event_id: u32,
    sender: u32,
    play: Play,
) -> bool {
    match pre.game {
        None => r matches Err(e) && e == ServiceError::FailedPrecondition && post == pre,
        Some(g) => {
            if play.player as int >= g.players.len() {
                r matches Err(e) && e == ServiceError::NotFound && post == pre
            } else if g.round == u32::MAX {
                r matches Err(e) && e == ServiceError::FailedPrecondition && post == pre
            } else if crate::state::play_enabled(g, play) {
                &&& r matches Ok(plan) && {
                    &&& plan_single_ack(plan, event_id)
                    &&& plan.broadcast_event_id == event_id
                    &&& plan.broadcast_recipients@ == Session::spec_recipients(pre, None)
                    &&& plan.broadcast_payload matches Some(pl) && match pl {
                        ServerEventPayload::GameStateChange(c) => crate::state::play_step(
                            g,
                            post.game->Some_0,
                            play,
                            crate::wire::GameEventV::GameStateChange(c@),
                        ),
                        ServerEventPayload::ServerGameStateAction(a) => crate::state::play_step(
                            g,
                            post.game->Some_0,
                            play,
                            crate::wire::GameEventV::ServerGameStateAction(a),
                        ),
                        _ => false,
                    }
                    &&& tracked_for(
                        pre.in_flight,
                        post.in_flight,
                        plan.broadcast_recipients@,
                        event_id,
                    )
                }
                &&& post.game is Some
                &&& post == (SessionV { game: post.game, in_flight: post.in_flight, ..pre })
            } else {
                &&& r matches Ok(plan) && {
                    &&& plan.sender_events@.len() == 2
                    &&& plan.sender_events@[0].event_id == pre.counter
                    &&& plan.sender_events@[0].payload matches
                        ServerEventPayload::GamePlayError(ge) && ge == crate::state::play_refusal(
                        g,
                        play,
                    )
                    &&& plan.sender_events@[1].event_id == next_ctr(pre.counter)
                    &&& plan.sender_events@[1].payload matches ServerEventPayload::Acknowledge {
                        acked_event_id,
                        ack,
                    } && acked_event_id == event_id && ack == EAcknowledgementType::Rejected
                    &&& plan.broadcast_payload is None
                    &&& plan.broadcast_recipients@.len() == 0
                }
                &&& post == (SessionV {
                    counter: next_ctr(next_ctr(pre.counter)),
                    in_flight: pre.in_flight.update(
                        sender as int,
                        pre.in_flight[sender as int].push(pre.counter),
                    ),
                    ..pre
                })
            }
        },
    }
}

/// What dispatching a draw-rate change does: without a game nothing
/// changes; otherwise the rate is set and announced to every other
/// connected player, the sender receiving only its acknowledgment.
pub open spec fn dispatch_rate_post(
    pre: SessionV,
    post: SessionV,
    r: Result<DispatchPlan, ServiceError>,
    event_id: u32,
    sender: u32,
    new_rate: u32,
) -> bool {
    match pre.game {
        None => r matches Err(e) && e == ServiceError::FailedPrecondition && post == pre,
        Some(g) => {
            &&& r matches Ok(plan) && {
                &&& plan_single_ack(plan, event_id)
                &&& plan.broadcast_event_id == event_id
                &&& plan.broadcast_recipients@ == Session::spec_recipients(pre, Some(sender))
                &&& plan.broadcast_payload matches Some(pl) && pl matches
                    ServerEventPayload::ChangeDrawRate(nr) && nr == new_rate
                &&& tracked_for(
                    pre.in_flight,
                    post.in_flight,
                    plan.broadcast_recipients@,
                    event_id,
                )
            }
            &&& post == (SessionV {
                game: Some(GameStateV { draw_rate: new_rate, ..g }),
                in_flight: post.in_flight,
                ..pre
            })
        },
    }
}

/// What dispatching an admin game-state action does: only the admin may
/// send one; a reset restores the default draw rate and is announced as a
/// rate change; pause and resume are relayed as server actions.
pub open spec fn dispatch_static_post(
    pre: SessionV,
    post: SessionV,
    r: Result<DispatchPlan, ServiceError>,
    event_id: u32,
    sender: u32,
    action: ClientGameStateAction,
) -> bool {
    if sender != 0 || (action == ClientGameStateAction::ResetDrawRate && pre.game is None) {
        r matches Err(e) && e == ServiceError::FailedPrecondition && post == pre
    } else {
        &&& r matches Ok(plan) && {
            &&& plan_single_ack(plan, event_id)
            &&& plan.broadcast_event_id == event_id
            &&& plan.broadcast_recipients@ == Session::spec_recipients(pre, Some(sender))
            &&& plan.broadcast_payload matches Some(pl) && match action {
                ClientGameStateAction::PauseGame => pl matches
                    ServerEventPayload::ServerGameStateAction(a) && a
                    == ServerGameStateAction::ServerPauseGame,
                ClientGameStateAction::ResumeGame => pl matches
                    ServerEventPayload::ServerGameStateAction(a) && a
                    == ServerGameStateAction::ServerResumeGame,
                ClientGameStateAction::ResetDrawRate => pl matches
                    ServerEventPayload::ChangeDrawRate(nr) && nr
                    == pre.game->Some_0.default_draw_rate,
            }
            &&& tracked_for(
                pre.in_flight,
                post.in_flight,
                plan.broadcast_recipients@,
                event_id,
            )
        }
        &&& post == (SessionV {
            game: if action == ClientGameStateAction::ResetDrawRate {
                Some(
                    GameStateV {
                        draw_rate: pre.game->Some_0.default_draw_rate,
                        ..pre.game->Some_0
                    },
                )
            } else {
                pre.game
            },
            in_flight: post.in_flight,
            ..pre
        })
    }
}

/// What dispatching a start-game request does: only the admin of a still
/// joinable session may start; the game is instantiated, one server event
/// id is allocated, and a start request goes to every other player and is
/// recorded in flight until each acknowledges it.
pub open spec fn dispatch_start_post(
    pre: SessionV,
    post: SessionV,
    r: Result<DispatchPlan, ServiceError>,
    sender: u32,
    prefs: GamePrefs,
) -> bool {
    if sender != 0 || !pre.is_joinable {
        r matches Err(e) && e == ServiceError::FailedPrecondition && post == pre
    } else if !(prefs.post_pile_size <= 30 && pre.players.len() <= u32::MAX / 40) {
        r matches Err(e) && e == ServiceError::InvalidArgument && post == pre
    } else {
        &&& r matches Ok(plan) && {
            &&& plan.sender_events@.len() == 0
            &&& plan.broadcast_event_id == pre.counter
            &&& plan.broadcast_payload matches Some(pl) && pl is RequestStartGame
            &&& plan.broadcast_recipients@ == Seq::new(
                (pre.players.len() - 1) as nat,
                |i: int| (i + 1) as u32,
            )
            &&& tracked_for(
                pre.in_flight,
                post.in_flight,
                plan.broadcast_recipients@,
                pre.counter,
            )
        }
        &&& post.game matches Some(g) && {
            &&& wf(g)
            &&& g.players.len() == pre.players.len()
            &&& g.round == 0
            &&& g.draw_rate == prefs.draw_rate
            &&& g.post_pile_size == prefs.post_pile_size
            &&& g.score_to_win == prefs.score_to_win
            &&& g.blitz_deduction == prefs.blitz_deduction
            &&& forall|p: int|
                0 <= p < g.players.len() ==> crate::state::fresh_player(
                    #[trigger] g.players[p],
                    p,
                    prefs.post_pile_size as int,
                )
        }
        &&& post == (SessionV {
            is_joinable: false,
            game: post.game,
            counter: next_ctr(pre.counter),
            pending_start: Some(pre.counter),
            in_flight: post.in_flight,
            ..pre
        })
    }
}

impl Session {
    /// A fresh joinable session holding only its admin.
    pub fn create(id: String, username: String, face_image_id: u32) -> (s: Session)
        requires
            username@.len() > 0,
        ensures
            session_wf(s@),
            s@.id == id@,
            s@.is_joinable,
            s@.game is None,
            s@.counter == 0,
            s@.players.len() == 1,
            s@.players[0] == spec_player_record(id@, 0, username@, face_image_id),
            s@.streams[0] == false,
            s@.in_flight[0].len() == 0,
            s@.pending_start is None,
    {
        let admin = PlayerInfo {
            session_id: id.clone(),
            player_game_id: 0,
            username,
            face_image_id,
            is_session_admin: true,
        };
        let mut players: Vec<PlayerInfo> = Vec::new();
        players.push(admin);
        let mut stream_open: Vec<bool> = Vec::new();
        stream_open.push(false);
        let mut in_flight: Vec<Vec<u32>> = Vec::new();
        in_flight.push(Vec::new());
        let s = Session {
            id,
            is_joinable: true,
            players,
            game_state: None,
            stream_open,
            in_flight,
            server_event_counter: 0,
            pending_start: None,
        };
        proof {
            assert(s@.players =~= seq![
                spec_player_record(s.id@, 0, s.players@[0].username@, face_image_id),
            ]);
        }
        s
    }

    /// Allocate the next server event id; the counter wraps at its maximum.
    pub fn next_event_id(&mut self) -> (id: u32)
        ensures
            id == old(self)@.counter,
            final(self)@ == (SessionV {
                counter: if old(self)@.counter == u32::MAX {
                    0
                } else {
                    (old(self)@.counter + 1) as u32
                },
                ..old(self)@
            }),
    {
        let id = self.server_event_counter;
        if self.server_event_counter == u32::MAX {
            self.server_event_counter = 0;
        } else {
            self.server_event_counter = self.server_event_counter + 1;
        }
        id
    }

    /// Whether some player already uses this username.
    fn has_username(&self, username: &String) -> (b: bool)
        ensures
            b == exists|i: int|
                0 <= i < self@.players.len() && (#[trigger] self@.players[i]).username
                    == username@,
    {
        let mut i: usize = 0;
        while i < self.players.len()
            invariant
                i <= self.players@.len(),
                forall|j: int|
                    0 <= j < i ==> (#[trigger] self.players@[j]).username@ != username@,
            decreases self.players@.len() - i,
        {
            if *username == self.players[i].username {
                proof {
                    assert(self@.players[i as int].username == username@);
                }
                return true;
            }
            i = i + 1;
        }
        assert forall|j: int| 0 <= j < self@.players.len() implies (#[trigger] self@.players[j]).username
            != username@ by {
            assert(self.players@[j].username@ != username@);
        }
        false
    }

    /// Admit a new player to the lobby. Fails once the game has started,
    /// and on a duplicate username — in both cases the session is left
    /// untouched.
    pub fn add_player(&mut self, username: String, face_image_id: u32) -> (r: Result<
        PlayerInfo,
        ServiceError,
    >)
        requires
            session_wf(old(self)@),
        ensures
            session_wf(final(self)@),
            r is Ok <==> (old(self)@.is_joinable && !(exists|i: int|
                0 <= i < old(self)@.players.len() && (#[trigger] old(self)@.players[i]).username
                    == username@) && old(self)@.players.len() + 1 < u32::MAX),
            r matches Ok(p) ==> {
                &&& p@ == spec_player_record(
                    old(self)@.id,
                    old(self)@.players.len() as int,
                    username@,
                    face_image_id,
                )
                &&& final(self)@ == (SessionV {
                    players: old(self)@.players.push(p@),
                    streams: old(self)@.streams.push(false),
                    in_flight: old(self)@.in_flight.push(Seq::empty()),
                    ..old(self)@
                })
            },
            r matches Err(e) ==> {
                &&& final(self)@ == old(self)@
                &&& e == if !old(self)@.is_joinable {
                    ServiceError::FailedPrecondition
                } else if (exists|i: int|
                    0 <= i < old(self)@.players.len() && (#[trigger] old(
                        self,
                    )@.players[i]).username == username@) {
                    ServiceError::InvalidArgument
                } else {
                    ServiceError::FailedPrecondition
                }
            },
    {
        if !self.is_joinable {
            return Err(ServiceError::FailedPrecondition);
        }
        if self.has_username(&username) {
            return Err(ServiceError::InvalidArgument);
        }
        if self.players.len() + 1 >= u32::MAX as usize {
            return Err(ServiceError::FailedPrecondition);
        }
        let slot = self.players.len();
        let player = PlayerInfo {
            session_id: self.id.clone(),
            player_game_id: slot as u32,
            username,
            face_image_id,
            is_session_admin: slot == 0,
        };
        let copy = PlayerInfo {
            session_id: player.session_id.clone(),
            player_game_id: player.player_game_id,
            username: player.username.clone(),
            face_image_id: player.face_image_id,
            is_session_admin: player.is_session_admin,
        };
        self.players.push(player);
        self.stream_open.push(false);
        self.in_flight.push(Vec::new());
        proof {
            assert(self@.players =~= old(self)@.players.push(copy@));
            assert(self@.in_flight =~= old(self)@.in_flight.push(Seq::empty()));
        }
        Ok(copy)
    }

    /// Install a player's stream slot. A second open on the same slot is
    /// refused, as is a slot that does not exist.
    pub fn open_stream(&mut self, player_id: u32) -> (r: Result<(), ServiceError>)
        requires
            session_wf(old(self)@),
        ensures
            session_wf(final(self)@),
            r is Ok <==> ((player_id as int) < old(self)@.streams.len() && !old(
                self,
            )@.streams[player_id as int]),
            r is Ok ==> final(self)@ == (SessionV {
                streams: old(self)@.streams.update(player_id as int, true),
                ..old(self)@
            }),
            r matches Err(e) ==> {
                &&& final(self)@ == old(self)@
                &&& e == if (player_id as int) >= old(self)@.streams.len() {
                    ServiceError::NotFound
                } else {
                    ServiceError::FailedPrecondition
                }
            },
    {
        if (player_id as usize) >= self.stream_open.len() {
            return Err(ServiceError::NotFound);
        }
        if self.stream_open[player_id as usize] {
            return Err(ServiceError::FailedPrecondition);
        }
        self.stream_open.set(player_id as usize, true);
        Ok(())
    }

    /// Drop the referenced server event from the sender's in-flight set.
    pub fn acknowledge(&mut self, player_id: u32, server_event_id: u32)
        requires
            session_wf(old(self)@),
        ensures
            session_wf(final(self)@),
            (player_id as int) < old(self)@.in_flight.len() ==> final(self)@ == (SessionV {
                in_flight: old(self)@.in_flight.update(
                    player_id as int,
                    old(self)@.in_flight[player_id as int].filter(
                        |e: u32| e != server_event_id,
                    ),
                ),
                ..old(self)@
            }),
            (player_id as int) >= old(self)@.in_flight.len() ==> final(self)@ == old(self)@,
    {
        if (player_id as usize) >= self.in_flight.len() {
            return ;
        }
        let row = &self.in_flight[player_id as usize];
        let mut kept: Vec<u32> = Vec::new();
        let mut i: usize = 0;
        proof {
            reveal(Seq::filter);
            assert(row@.take(0) =~= Seq::<u32>::empty());
            assert(kept@ == row@.take(0).filter(|e: u32| e != server_event_id));
        }
        while i < row.len()
            invariant
                i <= row@.len(),
                kept@ == row@.take(i as int).filter(|e: u32| e != server_event_id),
            decreases row@.len() - i,
        {
            let v = row[i];
            proof {
                reveal(Seq::filter);
                assert(row@.take(i + 1).drop_last() =~= row@.take(i as int));
                assert(row@.take(i + 1).last() == row@[i as int]);
            }
            if v != server_event_id {
                kept.push(v);
            }
            i = i + 1;
        }
        proof {
            assert(row@.take(row@.len() as int) =~= row@);
        }
        let slot = vstd::std_specs::vec::vec_index_mut(&mut self.in_flight, player_id as usize);
        *slot = kept;
        proof {
            assert(self@.in_flight =~= old(self)@.in_flight.update(
                player_id as int,
                old(self)@.in_flight[player_id as int].filter(|e: u32| e != server_event_id),
            ));
        }
    }

    /// Whether every player has acknowledged the given server event.
    pub fn all_acked(&self, server_event_id: u32) -> (b: bool)
        ensures
            b == forall|p: int|
                0 <= p < self@.in_flight.len() ==> !(#[trigger] self@.in_flight[p]).contains(
                    server_event_id,
                ),
    {
        let mut p: usize = 0;
        while p < self.in_flight.len()
            invariant
                p <= self@.in_flight.len(),
                forall|q: int|
                    0 <= q < p ==> !(#[trigger] self@.in_flight[q]).contains(server_event_id),
            decreases self@.in_flight.len() - p,
        {
            let row = &self.in_flight[p];
            let mut i: usize = 0;
            while i < row.len()
                invariant
                    i <= row@.len(),
                    row@ == self@.in_flight[p as int],
                    p < self@.in_flight.len(),
                    forall|j: int| 0 <= j < i ==> row@[j] != server_event_id,
                decreases row@.len() - i,
            {
                if row[i] == server_event_id {
                    return false;
                }
                i = i + 1;
            }
            p = p + 1;
        }
        true
    }

    /// The delivery targets of a fan-out: every player with an open stream,
    /// in slot order, optionally without the sender.
    pub open spec fn spec_recipients(s: SessionV, skip: Option<u32>) -> Seq<u32> {
        Seq::new(s.streams.len(), |i: int| i as u32).filter(
            |q: u32| s.streams[q as int] && skip != Some(q),
        )
    }

    /// Collect the fan-out targets in slot order.
    fn collect_recipients(&self, skip: Option<u32>) -> (r: Vec<u32>)
        requires
            session_wf(self@),
        ensures
            r@ == Session::spec_recipients(self@, skip),
            forall|a: int, b: int| 0 <= a < b < r@.len() ==> r@[a] < r@[b],
            forall|a: int| 0 <= a < r@.len() ==> (#[trigger] r@[a] as int) < self@.streams.len(),
    {
        let mut r: Vec<u32> = Vec::new();
        let mut i: usize = 0;
        let ghost idx = Seq::new(self@.streams.len(), |t: int| t as u32);
        let ghost spred = |q: u32| self@.streams[q as int] && skip != Some(q);
        proof {
            reveal(Seq::filter);
            assert(idx.take(0) =~= Seq::<u32>::empty());
            assert(r@ == idx.take(0).filter(spred));
        }
        while i < self.stream_open.len()
            invariant
                session_wf(self@),
                i <= self@.streams.len(),
                idx == Seq::new(self@.streams.len(), |t: int| t as u32),
                spred == (|q: u32| self@.streams[q as int] && skip != Some(q)),
                r@ == idx.take(i as int).filter(spred),
                forall|a: int, b: int| 0 <= a < b < r@.len() ==> r@[a] < r@[b],
                forall|a: int| 0 <= a < r@.len() ==> (#[trigger] r@[a] as int) < i,
            decreases self@.streams.len() - i,
        {
            let wanted = self.stream_open[i] && match skip {
                Some(q) => (q as usize) != i,
                None => true,
            };
            proof {
                reveal(Seq::filter);
                assert(idx.take(i + 1).drop_last() =~= idx.take(i as int));
                assert(idx.take(i + 1).last() == (i as u32));
                assert(spred(i as u32) == wanted);
            }
            if wanted {
                r.push(i as u32);
            }
            i = i + 1;
        }
        proof {
            assert(idx.take(idx.len() as int) =~= idx);
        }
        r
    }

    /// Record `event_id` as in flight for every listed recipient.
    fn track_all(&mut self, recipients: &Vec<u32>, event_id: u32)
        requires
            session_wf(old(self)@),
            forall|a: int, b: int|
                0 <= a < b < recipients@.len() ==> recipients@[a] < recipients@[b],
            forall|a: int|
                0 <= a < recipients@.len() ==> (#[trigger] recipients@[a] as int) < old(
                    self,
                )@.in_flight.len(),
        ensures
            session_wf(final(self)@),
            final(self)@ == (SessionV { in_flight: final(self)@.in_flight, ..old(self)@ }),
            final(self)@.in_flight.len() == old(self)@.in_flight.len(),
            forall|q: int|
                0 <= q < old(self)@.in_flight.len() ==> final(self)@.in_flight[q] == (
                if recipients@.contains(q as u32) {
                    old(self)@.in_flight[q].push(event_id)
                } else {
                    old(self)@.in_flight[q]
                }),
    {
        let mut i: usize = 0;
        while i < recipients.len()
            invariant
                session_wf(self@),
                i <= recipients@.len(),
                forall|a: int, b: int|
                    0 <= a < b < recipients@.len() ==> recipients@[a] < recipients@[b],
                forall|a: int|
                    0 <= a < recipients@.len() ==> (#[trigger] recipients@[a] as int)
                        < self@.in_flight.len(),
                self@.in_flight.len() == old(self)@.in_flight.len(),
                self@ == (SessionV { in_flight: self@.in_flight, ..old(self)@ }),
                forall|q: int|
                    0 <= q < old(self)@.in_flight.len() ==> self@.in_flight[q] == (
                    if recipients@.take(i as int).contains(q as u32) {
                        old(self)@.in_flight[q].push(event_id)
                    } else {
                        old(self)@.in_flight[q]
                    }),
            decreases recipients@.len() - i,
        {
            let p = recipients[i];
            proof {
                assert(!recipients@.take(i as int).contains(p)) by {
                    assert forall|a: int| 0 <= a < i implies recipients@.take(i as int)[a]
                        != p by {
                        assert(recipients@[a] < recipients@[i as int]);
                    }
                }
            }
            let ghost prev = self@;
            self.track_in_flight(p, event_id);
            proof {
                assert(recipients@.take(i + 1)[i as int] == p);
                assert(recipients@.take(i + 1).contains(p));
                assert forall|q: int| 0 <= q < old(self)@.in_flight.len() implies self@.in_flight[q]
                    == (if recipients@.take(i + 1).contains(q as u32) {
                    old(self)@.in_flight[q].push(event_id)
                } else {
                    old(self)@.in_flight[q]
                }) by {
                    assert(self@.in_flight[q] == if q == p as int {
                        prev.in_flight[q].push(event_id)
                    } else {
                        prev.in_flight[q]
                    });
                    if recipients@.take(i + 1).contains(q as u32) {
                        if q == p as int {
                            assert(prev.in_flight[q] == old(self)@.in_flight[q]);
                        } else {
                            assert(recipients@.take(i as int).contains(q as u32)) by {
                                let a = choose|a: int|
                                    0 <= a < i + 1 && #[trigger] recipients@.take(i + 1)[a] == q as u32;
                                assert(recipients@.take(i as int)[a] == q as u32);
                            }
                        }
                    } else {
                        assert(q != p as int);
                        assert(!recipients@.take(i as int).contains(q as u32)) by {
                            if exists|a: int|
                                0 <= a < i && #[trigger] recipients@.take(i as int)[a] == q as u32 {
                                let a = choose|a: int|
                                    0 <= a < i && #[trigger] recipients@.take(i as int)[a] == q as u32;
                                assert(recipients@.take(i + 1)[a] == q as u32);
                            }
                        }
                    }
                }
            }
            i = i + 1;
        }
        proof {
            assert(recipients@.take(recipients@.len() as int) =~= recipients@);
        }
    }

    /// Start the game: only the admin may, only while the session is still
    /// joinable. Instantiates the authoritative game state and closes the
    /// session to new players.
    pub fn start_game(&mut self, prefs: GamePrefs, caller: u32) -> (r: Result<(), ServiceError>)
        requires
            session_wf(old(self)@),
        ensures
            session_wf(final(self)@),
            r is Ok <==> (caller == 0 && old(self)@.is_joinable && prefs.post_pile_size <= 30
                && old(self)@.players.len() <= u32::MAX / 40),
            r is Ok ==> ({
                &&& final(self)@.game matches Some(g) && {
                    &&& wf(g)
                    &&& g.players.len() == old(self)@.players.len()
                    &&& g.round == 0
                    &&& g.draw_rate == prefs.draw_rate
                    &&& g.post_pile_size == prefs.post_pile_size
                    &&& g.score_to_win == prefs.score_to_win
                    &&& g.blitz_deduction == prefs.blitz_deduction
                    &&& g.arena.len() == 0
                    &&& forall|p: int|
                        0 <= p < g.players.len() ==> crate::state::fresh_player(
                            #[trigger] g.players[p],
                            p,
                            prefs.post_pile_size as int,
                        )
                }
                &&& final(self)@ == (SessionV {
                    is_joinable: false,
                    game: final(self)@.game,
                    ..old(self)@
                })
            }),
            r matches Err(e) ==> {
                &&& final(self)@ == old(self)@
                &&& e == if caller != 0 || !old(self)@.is_joinable {
                    ServiceError::FailedPrecondition
                } else {
                    ServiceError::InvalidArgument
                }
            },
    {
        if caller != 0 {
            return Err(ServiceError::FailedPrecondition);
        }
        if !self.is_joinable {
            return Err(ServiceError::FailedPrecondition);
        }
        let count = self.players.len() as u32;
        proof {
            assert(old(self)@.players.len() >= 1);
            assert(count >= 1);
        }
        let game = match GameState::new(count, prefs) {
            Ok(g) => g,
            Err(_) => {
                return Err(ServiceError::InvalidArgument);
            },
        };
        self.is_joinable = false;
        self.game_state = Some(game);
        Ok(())
    }

    /// Copy a card-index vector.
    fn copy_u32s(v: &Vec<u32>) -> (r: Vec<u32>)
        ensures
            r@ == v@,
    {
        let mut r: Vec<u32> = Vec::new();
        let mut i: usize = 0;
        while i < v.len()
            invariant
                i <= v@.len(),
                r@ == v@.take(i as int),
            decreases v@.len() - i,
        {
            r.push(v[i]);
            assert(r@ =~= v@.take(i + 1));
            i = i + 1;
        }
        proof {
            assert(v@.take(v@.len() as int) =~= v@);
        }
        r
    }

    /// The start-game payload shipped to every client: preferences, the
    /// global deck, and each player's deal, read off the authoritative
    /// state.
    pub fn build_start_data(&self) -> (r: Result<StartGameData, ServiceError>)
        requires
            session_wf(self@),
        ensures
            r is Ok <==> self@.game is Some,
            r matches Err(e) ==> e == ServiceError::FailedPrecondition,
            r matches Ok(d) ==> ({
                let g = self@.game->Some_0;
                &&& d.prefs == (GamePrefs {
                    draw_rate: g.draw_rate,
                    post_pile_size: g.post_pile_size,
                    score_to_win: g.score_to_win,
                    blitz_deduction: g.blitz_deduction,
                })
                &&& d.deck@ == g.deck
                &&& d.player_cards@.len() == g.players.len()
                &&& forall|p: int|
                    0 <= p < g.players.len() ==> {
                        &&& (#[trigger] d.player_cards@[p]).in_hand@ == g.players[p].hand.in_hand
                        &&& d.player_cards@[p].available_to_play@ == g.players[p].hand.available
                        &&& d.player_cards@[p].blitz_pile@ == g.players[p].blitz
                        &&& d.player_cards@[p].post_piles@.len() == g.players[p].posts.len()
                        &&& forall|k: int|
                            0 <= k < g.players[p].posts.len()
                                ==> (#[trigger] d.player_cards@[p].post_piles@[k])@
                                == g.players[p].posts[k].cards
                    }
            }),
    {
        let game = match &self.game_state {
            Some(g) => g,
            None => {
                return Err(ServiceError::FailedPrecondition);
            },
        };
        let prefs = GamePrefs {
            draw_rate: game.draw_rate,
            post_pile_size: game.post_pile_size,
            score_to_win: game.score_to_win,
            blitz_deduction: game.blitz_deduction,
        };
        let mut deck: Vec<Card> = Vec::new();
        let deck_len = game.card_context.len();
        let mut i: usize = 0;
        while i < deck_len
            invariant
                deck_len == game.card_context@.len(),
                i <= deck_len,
                deck@ == game.card_context@.take(i as int),
            decreases deck_len - i,
        {
            match game.card_context.get_card(i) {
                Ok(c) => {
                    deck.push(*c);
                },
                Err(_) => {
                    proof {
                        assert(false);
                    }
                },
            }
            assert(deck@ =~= game.card_context@.take(i + 1));
            i = i + 1;
        }
        proof {
            assert(game.card_context@.take(deck_len as int) =~= game.card_context@);
        }
        let mut player_cards: Vec<PlayerCards> = Vec::new();
        let mut p: usize = 0;
        while p < game.players.len()
            invariant
                p <= game.players@.len(),
                player_cards@.len() == p,
                forall|t: int|
                    0 <= t < p ==> {
                        &&& (#[trigger] player_cards@[t]).in_hand@
                            == game.players@[t]@.hand.in_hand
                        &&& player_cards@[t].available_to_play@
                            == game.players@[t]@.hand.available
                        &&& player_cards@[t].blitz_pile@ == game.players@[t]@.blitz
                        &&& player_cards@[t].post_piles@.len() == game.players@[t]@.posts.len()
                        &&& forall|k: int|
                            0 <= k < game.players@[t]@.posts.len()
                                ==> (#[trigger] player_cards@[t].post_piles@[k])@
                                == game.players@[t]@.posts[k].cards
                    },
            decreases game.players@.len() - p,
        {
            let pl = &game.players[p];
            let mut post_piles: Vec<Vec<u32>> = Vec::new();
            let mut k: usize = 0;
            while k < pl.post_pile.piles.len()
                invariant
                    k <= pl.post_pile.piles@.len(),
                    post_piles@.len() == k,
                    forall|t: int|
                        0 <= t < k ==> (#[trigger] post_piles@[t])@
                            == pl.post_pile.piles@[t].cards@,
                decreases pl.post_pile.piles@.len() - k,
            {
                post_piles.push(Self::copy_u32s(&pl.post_pile.piles[k].cards));
                k = k + 1;
            }
            let cards = PlayerCards {
                in_hand: Self::copy_u32s(&pl.hand.in_hand),
                available_to_play: Self::copy_u32s(&pl.hand.available_to_play),
                post_piles,
                blitz_pile: Self::copy_u32s(&pl.blitz_pile.cards),
            };
            proof {
                assert(cards.post_piles@.len() == game.players@[p as int]@.posts.len());
                assert forall|k2: int|
                    0 <= k2 < game.players@[p as int]@.posts.len() implies (
                #[trigger] cards.post_piles@[k2])@ == game.players@[p as int]@.posts[k2].cards by {
                    assert(cards.post_piles@[k2]@ == pl.post_pile.piles@[k2].cards@);
                }
            }
            player_cards.push(cards);
            p = p + 1;
        }
        let d = StartGameData { prefs, deck, player_cards };
        proof {
            let g = self@.game->Some_0;
            assert(d.deck@ == g.deck);
            assert forall|t: int| 0 <= t < g.players.len() implies {
                &&& (#[trigger] d.player_cards@[t]).in_hand@ == g.players[t].hand.in_hand
                &&& d.player_cards@[t].available_to_play@ == g.players[t].hand.available
                &&& d.player_cards@[t].blitz_pile@ == g.players[t].blitz
                &&& d.player_cards@[t].post_piles@.len() == g.players[t].posts.len()
                &&& forall|k: int|
                    0 <= k < g.players[t].posts.len()
                        ==> (#[trigger] d.player_cards@[t].post_piles@[k])@
                        == g.players[t].posts[k].cards
            } by {
                assert(g.players[t] == game.players@[t]@);
            }
        }
        Ok(d)
    }

    /// Send the admin its confirmation once every player has acknowledged
    /// the pending start-game request.
    pub fn confirm_start_if_acked(&mut self) -> (r: Option<SenderEvent>)
        requires
            session_wf(old(self)@),
        ensures
            session_wf(final(self)@),
            r is Some <==> (old(self)@.pending_start matches Some(s) && forall|p: int|
                0 <= p < old(self)@.in_flight.len() ==> !(#[trigger] old(self)@.in_flight[p]).contains(
                    s,
                )),
            r matches Some(ev) ==> {
                &&& ev.payload is ConfirmGameStart
                &&& ev.event_id == old(self)@.counter
                &&& final(self)@ == (SessionV {
                    pending_start: None,
                    counter: if old(self)@.counter == u32::MAX {
                        0
                    } else {
                        (old(self)@.counter + 1) as u32
                    },
                    in_flight: old(self)@.in_flight.update(
                        0,
                        old(self)@.in_flight[0].push(old(self)@.counter),
                    ),
                    ..old(self)@
                })
            },
            r is None ==> final(self)@ == old(self)@,
    {
        let pending = match self.pending_start {
            Some(s) => s,
            None => {
                return None;
            },
        };
        if !self.all_acked(pending) {
            return None;
        }
        self.pending_start = None;
        let id = self.next_event_id();
        self.track_in_flight(0, id);
        Some(SenderEvent { event_id: id, payload: ServerEventPayload::ConfirmGameStart })
    }

    /// Dispatch one Play event; see `dispatch`.
    fn dispatch_play(&mut self, event_id: u32, sender: u32, play: Play) -> (r: Result<
        DispatchPlan,
        ServiceError,
    >)
        requires
            session_wf(old(self)@),
            (sender as int) < old(self)@.players.len(),
        ensures
            session_wf(final(self)@),
            dispatch_play_post(old(self)@, final(self)@, r, event_id, sender, play),
    {
        match &self.game_state {
            Some(g) => {
                if play.player as usize >= self.players.len() {
                    return Err(ServiceError::NotFound);
                }
                if g.round == u32::MAX {
                    return Err(ServiceError::FailedPrecondition);
                }
            },
            None => {
                return Err(ServiceError::FailedPrecondition);
            },
        }
        let played = match &mut self.game_state {
            Some(g) => g.make_play(play),
            None => {
                proof {
                    assert(false);
                }
                Err(GameError::InvalidConfig)
            },
        };
        proof {
            let pre = old(self)@;
            let g = pre.game->Some_0;
            match &played {
                Ok(ev) => {
                    assert(self@.game matches Some(g2) && g2.players.len() == g.players.len())
                        by {
                        assert(crate::state::play_step(g, self@.game->Some_0, play, ev@));
                    }
                },
                Err(_) => {},
            }
        }
        match played {
            Ok(ev) => {
                let payload = match ev {
                    GameEvent::GameStateChange(c) => ServerEventPayload::GameStateChange(c),
                    GameEvent::ServerGameStateAction(a) => ServerEventPayload::ServerGameStateAction(
                        a,
                    ),
                };
                let recipients = self.collect_recipients(None);
                self.track_all(&recipients, event_id);
                let mut sender_events: Vec<SenderEvent> = Vec::new();
                sender_events.push(
                    SenderEvent {
                        event_id,
                        payload: ServerEventPayload::Acknowledge {
                            acked_event_id: event_id,
                            ack: EAcknowledgementType::Accepted,
                        },
                    },
                );
                Ok(
                    DispatchPlan {
                        sender_events,
                        broadcast_payload: Some(payload),
                        broadcast_event_id: event_id,
                        broadcast_recipients: recipients,
                    },
                )
            },
            Err(ge) => {
                let err_id = self.next_event_id();
                let ack_id = self.next_event_id();
                self.track_in_flight(sender, err_id);
                let mut sender_events: Vec<SenderEvent> = Vec::new();
                sender_events.push(
                    SenderEvent { event_id: err_id, payload: ServerEventPayload::GamePlayError(ge) },
                );
                sender_events.push(
                    SenderEvent {
                        event_id: ack_id,
                        payload: ServerEventPayload::Acknowledge {
                            acked_event_id: event_id,
                            ack: EAcknowledgementType::Rejected,
                        },
                    },
                );
                Ok(
                    DispatchPlan {
                        sender_events,
                        broadcast_payload: None,
                        broadcast_event_id: event_id,
                        broadcast_recipients: Vec::new(),
                    },
                )
            },
        }
    }

    /// Dispatch one client event under the session's exclusive hold: apply
    /// the mutation it asks for, record the in-flight bookkeeping, and hand
    /// back the exact sends the coordinator must perform. Rule violations
    /// are answered to the sender alone; accepted plays fan out to every
    /// connected player.
    pub fn dispatch(&mut self, event: ClientEventData) -> (r: Result<DispatchPlan, ServiceError>)
        requires
            session_wf(old(self)@),
            (event.player_id as int) < old(self)@.players.len(),
        ensures
            session_wf(final(self)@),
            match event.payload {
                ClientEventPayload::Play(play) => dispatch_play_post(
                    old(self)@,
                    final(self)@,
                    r,
                    event.event_id,
                    event.player_id,
                    play,
                ),
                ClientEventPayload::ChangeDrawRate(nr) => dispatch_rate_post(
                    old(self)@,
                    final(self)@,
                    r,
                    event.event_id,
                    event.player_id,
                    nr,
                ),
                ClientEventPayload::StaticEvent(a) => dispatch_static_post(
                    old(self)@,
                    final(self)@,
                    r,
                    event.event_id,
                    event.player_id,
                    a,
                ),
                ClientEventPayload::OpenStream => r matches Err(e) && e
                    == ServiceError::FailedPrecondition && final(self)@ == old(self)@,
                ClientEventPayload::StartGame(prefs) => dispatch_start_post(
                    old(self)@,
                    final(self)@,
                    r,
                    event.player_id,
                    prefs,
                ),
                ClientEventPayload::Acknowledge(sid) => r is Ok && final(self)@ == (SessionV {
                    in_flight: old(self)@.in_flight.update(
                        event.player_id as int,
                        old(self)@.in_flight[event.player_id as int].filter(
                            |e: u32| e != sid,
                        ),
                    ),
                    ..old(self)@
                }) && (r matches Ok(plan) ==> plan_is_empty(plan)),
            },
    {
        match event.payload {
            ClientEventPayload::Play(play) => self.dispatch_play(
                event.event_id,
                event.player_id,
                play,
            ),
            ClientEventPayload::ChangeDrawRate(nr) => self.dispatch_rate(
                event.event_id,
                event.player_id,
                nr,
            ),
            ClientEventPayload::StaticEvent(a) => self.dispatch_static(
                event.event_id,
                event.player_id,
                a,
            ),
            ClientEventPayload::OpenStream => Err(ServiceError::FailedPrecondition),
            ClientEventPayload::StartGame(prefs) => self.dispatch_start(event.player_id, prefs),
            ClientEventPayload::Acknowledge(sid) => {
                self.acknowledge(event.player_id, sid);
                Ok(
                    DispatchPlan {
                        sender_events: Vec::new(),
                        broadcast_payload: None,
                        broadcast_event_id: 0,
                        broadcast_recipients: Vec::new(),
                    },
                )
            },
        }
    }

    /// Dispatch one draw-rate change; see `dispatch`.
    fn dispatch_rate(&mut self, event_id: u32, sender: u32, new_rate: u32) -> (r: Result<
        DispatchPlan,
        ServiceError,
    >)
        requires
            session_wf(old(self)@),
        ensures
            session_wf(final(self)@),
            dispatch_rate_post(old(self)@, final(self)@, r, event_id, sender, new_rate),
    {
        match &mut self.game_state {
            Some(g) => {
                g.change_draw_rate(new_rate);
            },
            None => {
                return Err(ServiceError::FailedPrecondition);
            },
        }
        let recipients = self.collect_recipients(Some(sender));
        self.track_all(&recipients, event_id);
        let mut sender_events: Vec<SenderEvent> = Vec::new();
        sender_events.push(
            SenderEvent {
                event_id,
                payload: ServerEventPayload::Acknowledge {
                    acked_event_id: event_id,
                    ack: EAcknowledgementType::Accepted,
                },
            },
        );
        Ok(
            DispatchPlan {
                sender_events,
                broadcast_payload: Some(ServerEventPayload::ChangeDrawRate(new_rate)),
                broadcast_event_id: event_id,
                broadcast_recipients: recipients,
            },
        )
    }

    /// Dispatch one admin game-state action; see `dispatch`.
    fn dispatch_static(&mut self, event_id: u32, sender: u32, action: ClientGameStateAction) -> (r:
        Result<DispatchPlan, ServiceError>)
        requires
            session_wf(old(self)@),
        ensures
            session_wf(final(self)@),
            dispatch_static_post(old(self)@, final(self)@, r, event_id, sender, action),
    {
        if sender != 0 {
            return Err(ServiceError::FailedPrecondition);
        }
        let payload = match action {
            ClientGameStateAction::PauseGame => ServerEventPayload::ServerGameStateAction(
                ServerGameStateAction::ServerPauseGame,
            ),
            ClientGameStateAction::ResumeGame => ServerEventPayload::ServerGameStateAction(
                ServerGameStateAction::ServerResumeGame,
            ),
            ClientGameStateAction::ResetDrawRate => {
                let rate = match &mut self.game_state {
                    Some(g) => {
                        g.reset_draw_rate();
                        g.draw_rate
                    },
                    None => {
                        return Err(ServiceError::FailedPrecondition);
                    },
                };
                ServerEventPayload::ChangeDrawRate(rate)
            },
        };
        let recipients = self.collect_recipients(Some(sender));
        self.track_all(&recipients, event_id);
        let mut sender_events: Vec<SenderEvent> = Vec::new();
        sender_events.push(
            SenderEvent {
                event_id,
                payload: ServerEventPayload::Acknowledge {
                    acked_event_id: event_id,
                    ack: EAcknowledgementType::Accepted,
                },
            },
        );
        Ok(
            DispatchPlan {
                sender_events,
                broadcast_payload: Some(payload),
                broadcast_event_id: event_id,
                broadcast_recipients: recipients,
            },
        )
    }

    /// Dispatch one start-game request; see `dispatch`.
    fn dispatch_start(&mut self, sender: u32, prefs: GamePrefs) -> (r: Result<
        DispatchPlan,
        ServiceError,
    >)
        requires
            session_wf(old(self)@),
        ensures
            session_wf(final(self)@),
            dispatch_start_post(old(self)@, final(self)@, r, sender, prefs),
    {
        match self.start_game(prefs, sender) {
            Ok(()) => {},
            Err(e) => {
                return Err(e);
            },
        }
        let s = self.next_event_id();
        self.pending_start = Some(s);
        let n = self.players.len();
        let mut recipients: Vec<u32> = Vec::new();
        let mut i: usize = 1;
        while i < n
            invariant
                1 <= i <= n,
                n < u32::MAX,
                recipients@.len() == i - 1,
                forall|a: int| 0 <= a < i - 1 ==> (#[trigger] recipients@[a]) == a + 1,
            decreases n - i,
        {
            recipients.push(i as u32);
            i = i + 1;
        }
        proof {
            assert(recipients@ =~= Seq::new(
                (old(self)@.players.len() - 1) as nat,
                |i: int| (i + 1) as u32,
            ));
        }
        self.track_all(&recipients, s);
        Ok(
            DispatchPlan {
                sender_events: Vec::new(),
                broadcast_payload: Some(ServerEventPayload::RequestStartGame),
                broadcast_event_id: s,
                broadcast_recipients: recipients,
            },
        )
    }

    /// Handle a player leaving (explicitly or by disconnect). Mid-game the
    /// whole game ends: every other connected player is told, the game
    /// state is cleared, and the slots stay. In the lobby the slot is
    /// removed, ids are renumbered densely, and the next player inherits
    /// the admin role; removing the last player leaves the session to be
    /// deleted by its registry.
    pub fn remove_player(&mut self, player_id: u32) -> (r: Result<
        (RemovalOutcome, DispatchPlan),
        ServiceError,
    >)
        requires
            session_wf(old(self)@),
        ensures
            r matches Err(e) ==> {
                &&& e == ServiceError::NotFound
                &&& final(self)@ == old(self)@
                &&& (player_id as int) >= old(self)@.players.len()
            },
            r is Ok <==> (player_id as int) < old(self)@.players.len(),
            r matches Ok((out, plan)) ==> match out {
                RemovalOutcome::GameEnded => {
                    &&& old(self)@.game is Some
                    &&& session_wf(final(self)@)
                    &&& spec_game_ended(old(self)@, player_id, final(self)@, plan)
                },
                RemovalOutcome::Removed { now_empty } => {
                    &&& old(self)@.game is None
                    &&& plan_is_empty(plan)
                    &&& now_empty == (old(self)@.players.len() == 1)
                    &&& if now_empty {
                        final(self)@ == old(self)@
                    } else {
                        &&& session_wf(final(self)@)
                        &&& spec_lobby_removed(old(self)@, player_id, final(self)@)
                    }
                },
            },
    {
        if (player_id as usize) >= self.players.len() {
            return Err(ServiceError::NotFound);
        }
        let empty_plan = DispatchPlan {
            sender_events: Vec::new(),
            broadcast_payload: None,
            broadcast_event_id: 0,
            broadcast_recipients: Vec::new(),
        };
        match &self.game_state {
            Some(_) => {
                let recipients = self.collect_recipients(Some(player_id));
                self.track_all(&recipients, 0);
                self.game_state = None;
                self.pending_start = None;
                let mut sender_events: Vec<SenderEvent> = Vec::new();
                sender_events.push(
                    SenderEvent {
                        event_id: 0,
                        payload: ServerEventPayload::Acknowledge {
                            acked_event_id: 0,
                            ack: EAcknowledgementType::Accepted,
                        },
                    },
                );
                let plan = DispatchPlan {
                    sender_events,
                    broadcast_payload: Some(
                        ServerEventPayload::ServerGameStateAction(
                            ServerGameStateAction::ServerGameOver,
                        ),
                    ),
                    broadcast_event_id: 0,
                    broadcast_recipients: recipients,
                };
                return Ok((RemovalOutcome::GameEnded, plan));
            },
            None => {},
        }
        if self.players.len() == 1 {
            return Ok((RemovalOutcome::Removed { now_empty: true }, empty_plan));
        }
        self.players.remove(player_id as usize);
        self.stream_open.remove(player_id as usize);
        self.in_flight.remove(player_id as usize);
        let n = self.players.len();
        let mut i: usize = 0;
        while i < n
            invariant
                n == self.players@.len(),
                n == old(self)@.players.len() - 1,
                1 <= old(self)@.players.len(),
                (player_id as int) < old(self)@.players.len(),
                n < u32::MAX,
                i <= n,
                self.players@.map_values(|p: PlayerInfo| p@).len() == n,
                forall|t: int|
                    0 <= t < i ==> (#[trigger] self.players@[t])@ == (PlayerInfoV {
                        player_game_id: t as u32,
                        is_session_admin: t == 0,
                        ..old(self)@.players[if t < player_id as int {
                            t
                        } else {
                            t + 1
                        }]
                    }),
                forall|t: int|
                    i <= t < n ==> (#[trigger] self.players@[t])@ == old(self)@.players[if t
                        < player_id as int {
                        t
                    } else {
                        t + 1
                    }],
                self.stream_open@ == old(self)@.streams.remove(player_id as int),
                self.in_flight@.map_values(|v: Vec<u32>| v@) == old(self)@.in_flight.remove(
                    player_id as int,
                ),
                self.id@ == old(self)@.id,
                self.is_joinable == old(self)@.is_joinable,
                self.game_state is None,
                old(self)@.game is None,
                self.server_event_counter == old(self)@.counter,
                self.pending_start == old(self)@.pending_start,
            decreases n - i,
        {
            let pl = vstd::std_specs::vec::vec_index_mut(&mut self.players, i);
            pl.player_game_id = i as u32;
            pl.is_session_admin = i == 0;
            i = i + 1;
        }
        proof {
            assert(session_wf(self@)) by {
                assert(self@.pending_start is Some ==> self@.game is Some);
            }
        }
        Ok((RemovalOutcome::Removed { now_empty: false }, empty_plan))
    }

    /// Record `event_id` as in flight for player `p`.
    fn track_in_flight(&mut self, p: u32, event_id: u32)
        requires
            session_wf(old(self)@),
            (p as int) < old(self)@.in_flight.len(),
        ensures
            session_wf(final(self)@),
            final(self)@ == (SessionV {
                in_flight: old(self)@.in_flight.update(
                    p as int,
                    old(self)@.in_flight[p as int].push(event_id),
                ),
                ..old(self)@
            }),
    {
        let row = vstd::std_specs::vec::vec_index_mut(&mut self.in_flight, p as usize);
        row.push(event_id);
        proof {
            assert(self@.in_flight =~= old(self)@.in_flight.update(
                p as int,
                old(self)@.in_flight[p as int].push(event_id),
            ));
        }
    }
}

} // verus!
