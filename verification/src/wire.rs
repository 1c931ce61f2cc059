//! Wire-stable enumerations and event payloads. Every enumeration that
//! crosses the wire has a fixed integer code; encoding and decoding are
//! mutually inverse on the defined values.
use vstd::prelude::*;

use crate::card::{Card, Color, Gender};
use crate::error::GameError;

verus! {

/// Whether a state change adds or removes a card.
#[derive(Clone, Copy, Debug, PartialEq, Eq, Structural)]
pub enum StateChangeAction {
    Add,
    Remove,
}

/// Which part of a player's cards a state change touches.
#[derive(Clone, Copy, Debug, PartialEq, Eq, Structural)]
pub enum PlayerStateChangeType {
    BlitzPile,
    AvailableHand,
    PostPile,
    ResetPlayerHand,
    TransferHandToAvailable,
    PlayerCallBlitz,
}

/// Game-level actions the server announces to every client.
#[derive(Clone, Copy, Debug, PartialEq, Eq, Structural)]
pub enum ServerGameStateAction {
    ServerPauseGame,
    ServerResumeGame,
    ServerGameOver,
    ServerNewRound,
}

/// Game-level actions a client may request.
#[derive(Clone, Copy, Debug, PartialEq, Eq, Structural)]
pub enum ClientGameStateAction {
    PauseGame,
    ResumeGame,
    ResetDrawRate,
}

/// The source of an arena play.
#[derive(Clone, Copy, Debug, PartialEq, Eq, Structural)]
pub enum ArenaPlayType {
    FromAvailableHand,
    FromBlitz,
    FromPost,
}

/// The kind of a player-local play.
#[derive(Clone, Copy, Debug, PartialEq, Eq, Structural)]
pub enum PlayerPlayType {
    BlitzToPost,
    AvailableHandToPost,
    TransferToAvailableHand,
    ResetHand,
}

/// Whether the server accepted or rejected a client event.
#[derive(Clone, Copy, Debug, PartialEq, Eq, Structural)]
pub enum EAcknowledgementType {
    Accepted,
    Rejected,
}

pub open spec fn spec_state_change_action_code(x: StateChangeAction) -> i32 {
    match x {
        StateChangeAction::Add => 0,
        StateChangeAction::Remove => 1,
    }
}

pub open spec fn spec_state_change_action_from_code(n: i32) -> Option<StateChangeAction> {
    if n == 0 {
        Some(StateChangeAction::Add)
    } else if n == 1 {
        Some(StateChangeAction::Remove)
    } else {
        None
    }
}

pub fn state_change_action_code(x: StateChangeAction) -> (n: i32)
    ensures
        n == spec_state_change_action_code(x),
{
    match x {
        StateChangeAction::Add => 0,
        StateChangeAction::Remove => 1,
    }
}

pub fn state_change_action_from_code(n: i32) -> (x: Option<StateChangeAction>)
    ensures
        x == spec_state_change_action_from_code(n),
{
    if n == 0 {
        Some(StateChangeAction::Add)
    } else if n == 1 {
        Some(StateChangeAction::Remove)
    } else {
        None
    }
}

/// Encoding and decoding of `StateChangeAction` are mutually inverse on the
/// defined values.
pub proof fn lemma_state_change_action_bijective()
    ensures
        forall|x: StateChangeAction|
            spec_state_change_action_from_code(#[trigger] spec_state_change_action_code(x))
                == Some(x),
        forall|n: i32, x: StateChangeAction|
            spec_state_change_action_from_code(n) == Some(x) ==> spec_state_change_action_code(x)
                == n,
{
}

pub open spec fn spec_player_state_change_type_code(x: PlayerStateChangeType) -> i32 {
    match x {
        PlayerStateChangeType::BlitzPile => 0,
        PlayerStateChangeType::AvailableHand => 1,
        PlayerStateChangeType::PostPile => 2,
        PlayerStateChangeType::ResetPlayerHand => 3,
        PlayerStateChangeType::TransferHandToAvailable => 4,
        PlayerStateChangeType::PlayerCallBlitz => 5,
    }
}

pub open spec fn spec_player_state_change_type_from_code(n: i32) -> Option<PlayerStateChangeType> {
    if n == 0 {
        Some(PlayerStateChangeType::BlitzPile)
    } else if n == 1 {
        Some(PlayerStateChangeType::AvailableHand)
    } else if n == 2 {
        Some(PlayerStateChangeType::PostPile)
    } else if n == 3 {
        Some(PlayerStateChangeType::ResetPlayerHand)
    } else if n == 4 {
        Some(PlayerStateChangeType::TransferHandToAvailable)
    } else if n == 5 {
        Some(PlayerStateChangeType::PlayerCallBlitz)
    } else {
        None
    }
}

pub fn player_state_change_type_code(x: PlayerStateChangeType) -> (n: i32)
    ensures
        n == spec_player_state_change_type_code(x),
{
    match x {
        PlayerStateChangeType::BlitzPile => 0,
        PlayerStateChangeType::AvailableHand => 1,
        PlayerStateChangeType::PostPile => 2,
        PlayerStateChangeType::ResetPlayerHand => 3,
        PlayerStateChangeType::TransferHandToAvailable => 4,
        PlayerStateChangeType::PlayerCallBlitz => 5,
    }
}

pub fn player_state_change_type_from_code(n: i32) -> (x: Option<PlayerStateChangeType>)
    ensures
        x == spec_player_state_change_type_from_code(n),
{
    if n == 0 {
        Some(PlayerStateChangeType::BlitzPile)
    } else if n == 1 {
        Some(PlayerStateChangeType::AvailableHand)
    } else if n == 2 {
        Some(PlayerStateChangeType::PostPile)
    } else if n == 3 {
        Some(PlayerStateChangeType::ResetPlayerHand)
    } else if n == 4 {
        Some(PlayerStateChangeType::TransferHandToAvailable)
    } else if n == 5 {
        Some(PlayerStateChangeType::PlayerCallBlitz)
    } else {
        None
    }
}

/// Encoding and decoding of `PlayerStateChangeType` are mutually inverse on
/// the defined values.
pub proof fn lemma_player_state_change_type_bijective()
    ensures
        forall|x: PlayerStateChangeType|
            spec_player_state_change_type_from_code(
                #[trigger] spec_player_state_change_type_code(x),
            ) == Some(x),
        forall|n: i32, x: PlayerStateChangeType|
            spec_player_state_change_type_from_code(n) == Some(x)
                ==> spec_player_state_change_type_code(x) == n,
{
}

pub open spec fn spec_server_game_state_action_code(x: ServerGameStateAction) -> i32 {
    match x {
        ServerGameStateAction::ServerPauseGame => 0,
        ServerGameStateAction::ServerResumeGame => 1,
        ServerGameStateAction::ServerGameOver => 3,
        ServerGameStateAction::ServerNewRound => 4,
    }
}

pub open spec fn spec_server_game_state_action_from_code(n: i32) -> Option<ServerGameStateAction> {
    if n == 0 {
        Some(ServerGameStateAction::ServerPauseGame)
    } else if n == 1 {
        Some(ServerGameStateAction::ServerResumeGame)
    } else if n == 3 {
        Some(ServerGameStateAction::ServerGameOver)
    } else if n == 4 {
        Some(ServerGameStateAction::ServerNewRound)
    } else {
        None
    }
}

pub fn server_game_state_action_code(x: ServerGameStateAction) -> (n: i32)
    ensures
        n == spec_server_game_state_action_code(x),
{
    match x {
        ServerGameStateAction::ServerPauseGame => 0,
        ServerGameStateAction::ServerResumeGame => 1,
        ServerGameStateAction::ServerGameOver => 3,
        ServerGameStateAction::ServerNewRound => 4,
    }
}

pub fn server_game_state_action_from_code(n: i32) -> (x: Option<ServerGameStateAction>)
    ensures
        x == spec_server_game_state_action_from_code(n),
{
    if n == 0 {
        Some(ServerGameStateAction::ServerPauseGame)
    } else if n == 1 {
        Some(ServerGameStateAction::ServerResumeGame)
    } else if n == 3 {
        Some(ServerGameStateAction::ServerGameOver)
    } else if n == 4 {
        Some(ServerGameStateAction::ServerNewRound)
    } else {
        None
    }
}

/// Encoding and decoding of `ServerGameStateAction` are mutually inverse on
/// the defined values; the wire skips code 2.
pub proof fn lemma_server_game_state_action_bijective()
    ensures
        forall|x: ServerGameStateAction|
            spec_server_game_state_action_from_code(
                #[trigger] spec_server_game_state_action_code(x),
            ) == Some(x),
        forall|n: i32, x: ServerGameStateAction|
            spec_server_game_state_action_from_code(n) == Some(x)
                ==> spec_server_game_state_action_code(x) == n,
{
}

pub open spec fn spec_client_game_state_action_code(x: ClientGameStateAction) -> i32 {
    match x {
        ClientGameStateAction::PauseGame => 0,
        ClientGameStateAction::ResumeGame => 1,
        ClientGameStateAction::ResetDrawRate => 3,
    }
}

pub open spec fn spec_client_game_state_action_from_code(n: i32) -> Option<ClientGameStateAction> {
    if n == 0 {
        Some(ClientGameStateAction::PauseGame)
    } else if n == 1 {
        Some(ClientGameStateAction::ResumeGame)
    } else if n == 3 {
        Some(ClientGameStateAction::ResetDrawRate)
    } else {
        None
    }
}

pub fn client_game_state_action_code(x: ClientGameStateAction) -> (n: i32)
    ensures
        n == spec_client_game_state_action_code(x),
{
    match x {
        ClientGameStateAction::PauseGame => 0,
        ClientGameStateAction::ResumeGame => 1,
        ClientGameStateAction::ResetDrawRate => 3,
    }
}

pub fn client_game_state_action_from_code(n: i32) -> (x: Option<ClientGameStateAction>)
    ensures
        x == spec_client_game_state_action_from_code(n),
{
    if n == 0 {
        Some(ClientGameStateAction::PauseGame)
    } else if n == 1 {
        Some(ClientGameStateAction::ResumeGame)
    } else if n == 3 {
        Some(ClientGameStateAction::ResetDrawRate)
    } else {
        None
    }
}

/// Encoding and decoding of `ClientGameStateAction` are mutually inverse on
/// the defined values; the wire skips code 2.
pub proof fn lemma_client_game_state_action_bijective()
    ensures
        forall|x: ClientGameStateAction|
            spec_client_game_state_action_from_code(
                #[trigger] spec_client_game_state_action_code(x),
            ) == Some(x),
        forall|n: i32, x: ClientGameStateAction|
            spec_client_game_state_action_from_code(n) == Some(x)
                ==> spec_client_game_state_action_code(x) == n,
{
}

pub open spec fn spec_color_code(x: Color) -> i32 {
    match x {
        Color::Red => 0,
        Color::Blue => 1,
        Color::Green => 2,
        Color::Yellow => 3,
    }
}

pub open spec fn spec_color_from_code(n: i32) -> Option<Color> {
    if n == 0 {
        Some(Color::Red)
    } else if n == 1 {
        Some(Color::Blue)
    } else if n == 2 {
        Some(Color::Green)
    } else if n == 3 {
        Some(Color::Yellow)
    } else {
        None
    }
}

pub fn color_code(x: Color) -> (n: i32)
    ensures
        n == spec_color_code(x),
{
    match x {
        Color::Red => 0,
        Color::Blue => 1,
        Color::Green => 2,
        Color::Yellow => 3,
    }
}

pub fn color_from_code(n: i32) -> (x: Option<Color>)
    ensures
        x == spec_color_from_code(n),
{
    if n == 0 {
        Some(Color::Red)
    } else if n == 1 {
        Some(Color::Blue)
    } else if n == 2 {
        Some(Color::Green)
    } else if n == 3 {
        Some(Color::Yellow)
    } else {
        None
    }
}

/// Encoding and decoding of `Color` are mutually inverse on the defined
/// values.
pub proof fn lemma_color_bijective()
    ensures
        forall|x: Color| spec_color_from_code(#[trigger] spec_color_code(x)) == Some(x),
        forall|n: i32, x: Color| spec_color_from_code(n) == Some(x) ==> spec_color_code(x) == n,
{
}

pub open spec fn spec_gender_code(x: Gender) -> i32 {
    match x {
        Gender::Boy => 0,
        Gender::Girl => 1,
    }
}

pub open spec fn spec_gender_from_code(n: i32) -> Option<Gender> {
    if n == 0 {
        Some(Gender::Boy)
    } else if n == 1 {
        Some(Gender::Girl)
    } else {
        None
    }
}

pub fn gender_code(x: Gender) -> (n: i32)
    ensures
        n == spec_gender_code(x),
{
    match x {
        Gender::Boy => 0,
        Gender::Girl => 1,
    }
}

pub fn gender_from_code(n: i32) -> (x: Option<Gender>)
    ensures
        x == spec_gender_from_code(n),
{
    if n == 0 {
        Some(Gender::Boy)
    } else if n == 1 {
        Some(Gender::Girl)
    } else {
        None
    }
}

/// Encoding and decoding of `Gender` are mutually inverse on the defined
/// values.
pub proof fn lemma_gender_bijective()
    ensures
        forall|x: Gender| spec_gender_from_code(#[trigger] spec_gender_code(x)) == Some(x),
        forall|n: i32, x: Gender| spec_gender_from_code(n) == Some(x) ==> spec_gender_code(x) == n,
{
}

pub open spec fn spec_arena_play_type_code(x: ArenaPlayType) -> i32 {
    match x {
        ArenaPlayType::FromAvailableHand => 0,
        ArenaPlayType::FromBlitz => 1,
        ArenaPlayType::FromPost => 2,
    }
}

pub open spec fn spec_arena_play_type_from_code(n: i32) -> Option<ArenaPlayType> {
    if n == 0 {
        Some(ArenaPlayType::FromAvailableHand)
    } else if n == 1 {
        Some(ArenaPlayType::FromBlitz)
    } else if n == 2 {
        Some(ArenaPlayType::FromPost)
    } else {
        None
    }
}

pub fn arena_play_type_code(x: ArenaPlayType) -> (n: i32)
    ensures
        n == spec_arena_play_type_code(x),
{
    match x {
        ArenaPlayType::FromAvailableHand => 0,
        ArenaPlayType::FromBlitz => 1,
        ArenaPlayType::FromPost => 2,
    }
}

pub fn arena_play_type_from_code(n: i32) -> (x: Option<ArenaPlayType>)
    ensures
        x == spec_arena_play_type_from_code(n),
{
    if n == 0 {
        Some(ArenaPlayType::FromAvailableHand)
    } else if n == 1 {
        Some(ArenaPlayType::FromBlitz)
    } else if n == 2 {
        Some(ArenaPlayType::FromPost)
    } else {
        None
    }
}

/// Encoding and decoding of `ArenaPlayType` are mutually inverse on the
/// defined values.
pub proof fn lemma_arena_play_type_bijective()
    ensures
        forall|x: ArenaPlayType|
            spec_arena_play_type_from_code(#[trigger] spec_arena_play_type_code(x)) == Some(x),
        forall|n: i32, x: ArenaPlayType|
            spec_arena_play_type_from_code(n) == Some(x) ==> spec_arena_play_type_code(x) == n,
{
}

pub open spec fn spec_player_play_type_code(x: PlayerPlayType) -> i32 {
    match x {
        PlayerPlayType::BlitzToPost => 0,
        PlayerPlayType::AvailableHandToPost => 1,
        PlayerPlayType::TransferToAvailableHand => 2,
        PlayerPlayType::ResetHand => 3,
    }
}

pub open spec fn spec_player_play_type_from_code(n: i32) -> Option<PlayerPlayType> {
    if n == 0 {
        Some(PlayerPlayType::BlitzToPost)
    } else if n == 1 {
        Some(PlayerPlayType::AvailableHandToPost)
    } else if n == 2 {
        Some(PlayerPlayType::TransferToAvailableHand)
    } else if n == 3 {
        Some(PlayerPlayType::ResetHand)
    } else {
        None
    }
}

pub fn player_play_type_code(x: PlayerPlayType) -> (n: i32)
    ensures
        n == spec_player_play_type_code(x),
{
    match x {
        PlayerPlayType::BlitzToPost => 0,
        PlayerPlayType::AvailableHandToPost => 1,
        PlayerPlayType::TransferToAvailableHand => 2,
        PlayerPlayType::ResetHand => 3,
    }
}

pub fn player_play_type_from_code(n: i32) -> (x: Option<PlayerPlayType>)
    ensures
        x == spec_player_play_type_from_code(n),
{
    if n == 0 {
        Some(PlayerPlayType::BlitzToPost)
    } else if n == 1 {
        Some(PlayerPlayType::AvailableHandToPost)
    } else if n == 2 {
        Some(PlayerPlayType::TransferToAvailableHand)
    } else if n == 3 {
        Some(PlayerPlayType::ResetHand)
    } else {
        None
    }
}

/// Encoding and decoding of `PlayerPlayType` are mutually inverse on the
/// defined values.
pub proof fn lemma_player_play_type_bijective()
    ensures
        forall|x: PlayerPlayType|
            spec_player_play_type_from_code(#[trigger] spec_player_play_type_code(x)) == Some(x),
        forall|n: i32, x: PlayerPlayType|
            spec_player_play_type_from_code(n) == Some(x) ==> spec_player_play_type_code(x) == n,
{
}

pub open spec fn spec_ack_type_code(x: EAcknowledgementType) -> i32 {
    match x {
        EAcknowledgementType::Accepted => 0,
        EAcknowledgementType::Rejected => 1,
    }
}

pub open spec fn spec_ack_type_from_code(n: i32) -> Option<EAcknowledgementType> {
    if n == 0 {
        Some(EAcknowledgementType::Accepted)
    } else if n == 1 {
        Some(EAcknowledgementType::Rejected)
    } else {
        None
    }
}

pub fn ack_type_code(x: EAcknowledgementType) -> (n: i32)
    ensures
        n == spec_ack_type_code(x),
{
    match x {
        EAcknowledgementType::Accepted => 0,
        EAcknowledgementType::Rejected => 1,
    }
}

pub fn ack_type_from_code(n: i32) -> (x: Option<EAcknowledgementType>)
    ensures
        x == spec_ack_type_from_code(n),
{
    if n == 0 {
        Some(EAcknowledgementType::Accepted)
    } else if n == 1 {
        Some(EAcknowledgementType::Rejected)
    } else {
        None
    }
}

/// Encoding and decoding of `EAcknowledgementType` are mutually inverse on
/// the defined values.
pub proof fn lemma_ack_type_bijective()
    ensures
        forall|x: EAcknowledgementType|
            spec_ack_type_from_code(#[trigger] spec_ack_type_code(x)) == Some(x),
        forall|n: i32, x: EAcknowledgementType|
            spec_ack_type_from_code(n) == Some(x) ==> spec_ack_type_code(x) == n,
{
}

/// One card added to or removed from an arena pile.
#[derive(Clone, Copy, Debug, PartialEq, Eq, Structural)]
pub struct ArenaStateChange {
    pub action: StateChangeAction,
    pub card: u32,
    pub pile_index: u32,
}

/// One change to a player's own cards.
#[derive(Clone, Copy, Debug, PartialEq, Eq, Structural)]
pub struct PlayerStateChange {
    pub player_id: u32,
    pub change_type: PlayerStateChangeType,
    pub action: StateChangeAction,
    pub card: u32,
}

/// Everything a client must redraw after one successful play.
#[derive(Clone, Debug)]
pub struct GameStateChange {
    pub arena_state_changes: Vec<ArenaStateChange>,
    pub player_state_changes: Vec<PlayerStateChange>,
}

/// Mathematical image of a state delta.
#[verifier::ext_equal]
pub ghost struct GameStateChangeV {
    pub arena_state_changes: Seq<ArenaStateChange>,
    pub player_state_changes: Seq<PlayerStateChange>,
}

impl View for GameStateChange {
    type V = GameStateChangeV;

    open spec fn view(&self) -> GameStateChangeV {
        GameStateChangeV {
            arena_state_changes: self.arena_state_changes@,
            player_state_changes: self.player_state_changes@,
        }
    }
}

/// The event the rules engine hands back for a successful play: either a
/// delta to broadcast, or a round-end announcement.
#[derive(Clone, Debug)]
pub enum GameEvent {
    GameStateChange(GameStateChange),
    ServerGameStateAction(ServerGameStateAction),
}

/// Mathematical image of a rules-engine event.
#[verifier::ext_equal]
pub ghost enum GameEventV {
    GameStateChange(GameStateChangeV),
    ServerGameStateAction(ServerGameStateAction),
}

impl View for GameEvent {
    type V = GameEventV;

    open spec fn view(&self) -> GameEventV {
        match self {
            GameEvent::GameStateChange(c) => GameEventV::GameStateChange(c@),
            GameEvent::ServerGameStateAction(a) => GameEventV::ServerGameStateAction(*a),
        }
    }
}

/// An arena play as it crosses the wire: a play kind code and optional
/// source and target indices.
#[derive(Clone, Copy, Debug, PartialEq, Eq, Structural)]
pub struct ArenaPlayWire {
    pub play_type: i32,
    pub from_index: Option<u32>,
    pub to_index: Option<u32>,
}

/// A player-local play as it crosses the wire.
#[derive(Clone, Copy, Debug, PartialEq, Eq, Structural)]
pub struct PlayerPlayWire {
    pub play_type: i32,
    pub post_index: Option<u32>,
}

/// The play payload of a client event, as it crosses the wire.
#[derive(Clone, Copy, Debug, PartialEq, Eq, Structural)]
pub enum PlayWire {
    ArenaPlay(ArenaPlayWire),
    PlayerPlay(PlayerPlayWire),
    CallBlitz(u32),
}

/// The preferences a session admin chooses when starting a game.
#[derive(Clone, Copy, Debug, PartialEq, Eq, Structural)]
pub struct GamePrefs {
    pub draw_rate: u32,
    pub post_pile_size: u32,
    pub score_to_win: u32,
    pub blitz_deduction: u32,
}

impl Default for GamePrefs {
    /// The standard game: draw three, three post piles, play to 72, ten
    /// point penalty.
    fn default() -> (p: GamePrefs)
        ensures
            p == (GamePrefs { draw_rate: 3, post_pile_size: 3, score_to_win: 72, blitz_deduction: 10 }),
    {
        GamePrefs { draw_rate: 3, post_pile_size: 3, score_to_win: 72, blitz_deduction: 10 }
    }
}

} // verus!
