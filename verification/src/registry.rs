//! The session registry: the server's map from session id to session, with
//! the unary operations of the session service.
use vstd::prelude::*;

use crate::error::ServiceError;
use crate::session::{
    plan_is_empty, session_wf, spec_game_ended, spec_game_over_broadcast, spec_lobby_removed,
    spec_player_record, DispatchPlan, PlayerInfo, PlayerInfoV, RemovalOutcome, Session, SessionV,
};

verus! {

/// Relies on bson's `ObjectId::new().to_hex()`: a freshly generated
/// collision-resistant identifier rendered as its 24-character hex form.
#[verifier::external_body]
fn new_session_id() -> (id: String)
    ensures
        id@.len() == 24,
{
    bson::oid::ObjectId::new().to_hex()
}

/// What became of a session after an end-session request or a disconnect.
pub enum EndOutcome {
    /// An admin departure: the session is gone, after a game-over
    /// announcement when a game was running.
    SessionDeleted,
    /// A non-admin mid-game departure ended the game but kept the session.
    GameEnded,
    /// A non-admin lobby departure removed only that player's slot.
    PlayerRemoved,
}

/// One row of the session listing: the session id and its players'
/// usernames.
pub struct SessionSummary {
    pub id: String,
    pub players: Vec<String>,
}

/// Registry invariant: every session is well-formed and ids never repeat.
pub open spec fn registry_wf(rs: Seq<SessionV>) -> bool {
    &&& forall|i: int| 0 <= i < rs.len() ==> session_wf(#[trigger] rs[i])
    &&& forall|i: int, j: int| 0 <= i < j < rs.len() ==> rs[i].id != rs[j].id
}

/// Some registered session bears the id.
pub open spec fn has_session(rs: Seq<SessionV>, id: Seq<char>) -> bool {
    exists|i: int| 0 <= i < rs.len() && (#[trigger] rs[i]).id == id
}

/// The index of the session bearing the id — under the registry invariant
/// there is at most one.
pub open spec fn spec_session_index(rs: Seq<SessionV>, id: Seq<char>) -> int {
    choose|i: int| 0 <= i < rs.len() && (#[trigger] rs[i]).id == id
}

/// The session bearing the id.
pub open spec fn spec_session_with(rs: Seq<SessionV>, id: Seq<char>) -> SessionV {
    rs[spec_session_index(rs, id)]
}

/// A session holds a player under the given username.
pub open spec fn spec_has_username(s: SessionV, name: Seq<char>) -> bool {
    exists|j: int| 0 <= j < s.players.len() && (#[trigger] s.players[j]).username == name
}

/// When a join is owed success: the session exists, is still joinable, the
/// username is nonblank and unused there, and the session is not at
/// capacity.
pub open spec fn spec_join_ok(rs: Seq<SessionV>, id: Seq<char>, name: Seq<char>) -> bool {
    &&& name.len() > 0
    &&& has_session(rs, id)
    &&& spec_session_with(rs, id).is_joinable
    &&& !spec_has_username(spec_session_with(rs, id), name)
    &&& spec_session_with(rs, id).players.len() + 1 < u32::MAX
}

/// The error a refused join reports, by its cause: blank username, no such
/// session, not joinable, duplicate username, session at capacity.
pub open spec fn spec_join_error(rs: Seq<SessionV>, id: Seq<char>, name: Seq<char>) -> ServiceError {
    if name.len() == 0 {
        ServiceError::InvalidArgument
    } else if !has_session(rs, id) {
        ServiceError::NotFound
    } else if !spec_session_with(rs, id).is_joinable {
        ServiceError::FailedPrecondition
    } else if spec_has_username(spec_session_with(rs, id), name) {
        ServiceError::InvalidArgument
    } else {
        ServiceError::FailedPrecondition
    }
}

/// A session after admitting one more player.
pub open spec fn spec_joined_session(s: SessionV, p: PlayerInfoV) -> SessionV {
    SessionV {
        players: s.players.push(p),
        streams: s.streams.push(false),
        in_flight: s.in_flight.push(Seq::empty()),
        ..s
    }
}

/// The sessions a listing shows: exactly the joinable ones, in registry
/// order.
pub open spec fn spec_listing(rs: Seq<SessionV>) -> Seq<SessionV> {
    rs.filter(|s: SessionV| s.is_joinable)
}

/// When an end-session request is owed success: the session exists, and
/// the caller is the admin of a running game or names an existing player
/// slot.
pub open spec fn spec_end_ok(rs: Seq<SessionV>, id: Seq<char>, pid: u32) -> bool {
    &&& has_session(rs, id)
    &&& ({
        let s = spec_session_with(rs, id);
        if pid == 0 {
            s.game is Some
        } else {
            (pid as int) < s.players.len()
        }
    })
}

/// The error a refused end-session request reports: no such session, an
/// admin end with no game in progress, or no such player slot.
pub open spec fn spec_end_error(rs: Seq<SessionV>, id: Seq<char>, pid: u32) -> ServiceError {
    if !has_session(rs, id) {
        ServiceError::NotFound
    } else if pid == 0 {
        ServiceError::FailedPrecondition
    } else {
        ServiceError::NotFound
    }
}

/// When a disconnect is handled: the session exists and the player either
/// is the admin or occupies a slot.
pub open spec fn spec_disconnect_ok(rs: Seq<SessionV>, id: Seq<char>, pid: u32) -> bool {
    &&& has_session(rs, id)
    &&& (pid == 0 || (pid as int) < spec_session_with(rs, id).players.len())
}

/// With ids unique, any index bearing the id is the index the
/// specification names.
proof fn lemma_session_index_unique(rs: Seq<SessionV>, id: Seq<char>, i: int)
    requires
        forall|a: int, b: int| 0 <= a < b < rs.len() ==> rs[a].id != rs[b].id,
        0 <= i < rs.len(),
        rs[i].id == id,
    ensures
        has_session(rs, id),
        spec_session_index(rs, id) == i,
        spec_session_with(rs, id) == rs[i],
{
    assert(has_session(rs, id));
    let k = spec_session_index(rs, id);
    assert(0 <= k < rs.len() && rs[k].id == id);
    if k != i {
        if k < i {
            assert(rs[k].id != rs[i].id);
        } else {
            assert(rs[i].id != rs[k].id);
        }
    }
}

/// When no index bears the id, the registry has no such session.
proof fn lemma_no_session(rs: Seq<SessionV>, id: Seq<char>)
    requires
        forall|i: int| 0 <= i < rs.len() ==> (#[trigger] rs[i]).id != id,
    ensures
        !has_session(rs, id),
{
    if exists|i: int| 0 <= i < rs.len() && (#[trigger] rs[i]).id == id {
        let i = choose|i: int| 0 <= i < rs.len() && (#[trigger] rs[i]).id == id;
        assert(rs[i].id != id);
    }
}

/// The concurrent map from session id to session, flattened to its
/// authoritative sequential content; the surrounding process serializes
/// access per session.
pub struct Registry {
    pub sessions: Vec<Session>,
}

impl View for Registry {
    type V = Seq<SessionV>;

    open spec fn view(&self) -> Seq<SessionV> {
        self.sessions@.map_values(|s: Session| s@)
    }
}

impl Registry {
    pub fn new() -> (r: Registry)
        ensures
            r@.len() == 0,
            registry_wf(r@),
    {
        Registry { sessions: Vec::new() }
    }

    /// The index of the session with the given id.
    pub fn find_session(&self, session_id: &String) -> (r: Option<usize>)
        ensures
            r matches Some(i) ==> (i as int) < self@.len() && self@[i as int].id == session_id@,
            r is None ==> forall|i: int|
                0 <= i < self@.len() ==> (#[trigger] self@[i]).id != session_id@,
    {
        let mut i: usize = 0;
        while i < self.sessions.len()
            invariant
                i <= self.sessions@.len(),
                forall|j: int| 0 <= j < i ==> (#[trigger] self.sessions@[j])@.id != session_id@,
            decreases self.sessions@.len() - i,
        {
            if *session_id == self.sessions[i].id {
                return Some(i);
            }
            i = i + 1;
        }
        proof {
            assert forall|j: int| 0 <= j < self@.len() implies (#[trigger] self@[j]).id
                != session_id@ by {
                assert(self.sessions@[j]@.id != session_id@);
            }
        }
        None
    }

    /// Create a session: a fresh id, one admin player. A blank username is
    /// refused; an id collision (astronomically unlikely) is reported as an
    /// internal fault.
    pub fn create_session(&mut self, username: String, face_image_id: u32) -> (r: Result<
        PlayerInfo,
        ServiceError,
    >)
        requires
            registry_wf(old(self)@),
        ensures
            registry_wf(final(self)@),
            username@.len() == 0 <==> (r matches Err(e) && e == ServiceError::InvalidArgument),
            r matches Err(e) ==> {
                &&& final(self)@ == old(self)@
                &&& e == if username@.len() == 0 {
                    ServiceError::InvalidArgument
                } else {
                    ServiceError::Internal
                }
            },
            r matches Ok(p) ==> {
                &&& p@.player_game_id == 0
                &&& p@.is_session_admin
                &&& p@.username == username@
                &&& p@.face_image_id == face_image_id
                &&& final(self)@.len() == old(self)@.len() + 1
                &&& final(self)@[old(self)@.len() as int] == (SessionV {
                    id: p@.session_id,
                    is_joinable: true,
                    players: seq![p@],
                    game: None,
                    streams: seq![false],
                    in_flight: seq![Seq::<u32>::empty()],
                    counter: 0,
                    pending_start: None,
                })
                &&& !has_session(old(self)@, p@.session_id)
                &&& forall|i: int|
                    0 <= i < old(self)@.len() ==> (#[trigger] final(self)@[i]) == old(self)@[i]
            },
    {
        if username.as_str().is_empty() {
            return Err(ServiceError::InvalidArgument);
        }
        let id = new_session_id();
        let ghost gid = id@;
        match self.find_session(&id) {
            Some(_) => {
                return Err(ServiceError::Internal);
            },
            None => {},
        }
        let session = Session::create(id, username, face_image_id);
        proof {
            assert(session@.id == gid);
            assert(session@.streams =~= seq![false]);
            assert(session@.in_flight[0] =~= Seq::<u32>::empty());
            assert(session@.in_flight =~~= seq![Seq::<u32>::empty()]);
            assert(session@.players =~= seq![
                spec_player_record(gid, 0, session.players@[0].username@, face_image_id),
            ]);
        }
        let player = PlayerInfo {
            session_id: session.id.clone(),
            player_game_id: 0,
            username: session.players[0].username.clone(),
            face_image_id,
            is_session_admin: true,
        };
        self.sessions.push(session);
        proof {
            assert forall|i: int| 0 <= i < self@.len() implies session_wf(
                #[trigger] self@[i],
            ) by {
                if i < old(self)@.len() {
                    assert(self@[i] == old(self)@[i]);
                }
            }
            assert forall|i: int, j: int| 0 <= i < j < self@.len() implies self@[i].id
                != self@[j].id by {
                if j == self@.len() - 1 {
                    assert(self.sessions@[j]@.id == gid);
                    assert(self@[j].id == gid);
                    assert(old(self)@[i].id != gid);
                    assert(self@[i] == old(self)@[i]);
                } else {
                    assert(self@[i] == old(self)@[i]);
                    assert(self@[j] == old(self)@[j]);
                }
            }
            assert(self@[old(self)@.len() as int] =~~= (SessionV {
                id: gid,
                is_joinable: true,
                players: seq![player@],
                game: None,
                streams: seq![false],
                in_flight: seq![Seq::<u32>::empty()],
                counter: 0,
                pending_start: None,
            }));
            assert(!has_session(old(self)@, gid)) by {
                if exists|i: int| 0 <= i < old(self)@.len() && (#[trigger] old(self)@[i]).id
                    == gid {
                    let i = choose|i: int|
                        0 <= i < old(self)@.len() && (#[trigger] old(self)@[i]).id == gid;
                    assert(old(self)@[i].id != gid);
                }
            }
        }
        Ok(player)
    }

    /// Join an existing joinable session under a fresh username. Success is
    /// owed exactly when the session exists, is joinable, and the nonblank
    /// username is unused there; every refusal names its cause and leaves
    /// the registry untouched.
    pub fn join_session(&mut self, session_id: &String, username: String, face_image_id: u32) -> (r:
        Result<PlayerInfo, ServiceError>)
        requires
            registry_wf(old(self)@),
        ensures
            registry_wf(final(self)@),
            r is Ok <==> spec_join_ok(old(self)@, session_id@, username@),
            r is Err ==> final(self)@ == old(self)@,
            r matches Err(e) ==> e == spec_join_error(old(self)@, session_id@, username@),
            r matches Ok(p) ==> ({
                let s = spec_session_with(old(self)@, session_id@);
                &&& p@ == spec_player_record(
                    s.id,
                    s.players.len() as int,
                    username@,
                    face_image_id,
                )
                &&& final(self)@ == old(self)@.update(
                    spec_session_index(old(self)@, session_id@),
                    spec_joined_session(s, p@),
                )
            }),
    {
        if username.as_str().is_empty() {
            return Err(ServiceError::InvalidArgument);
        }
        let idx = match self.find_session(session_id) {
            Some(i) => i,
            None => {
                proof {
                    assert(!has_session(old(self)@, session_id@)) by {
                        if exists|i: int|
                            0 <= i < old(self)@.len() && (#[trigger] old(self)@[i]).id
                                == session_id@ {
                            let i = choose|i: int|
                                0 <= i < old(self)@.len() && (#[trigger] old(self)@[i]).id
                                    == session_id@;
                            assert(old(self)@[i].id != session_id@);
                        }
                    }
                }
                return Err(ServiceError::NotFound);
            },
        };
        proof {
            lemma_session_index_unique(old(self)@, session_id@, idx as int);
        }
        let session = vstd::std_specs::vec::vec_index_mut(&mut self.sessions, idx);
        let joined = session.add_player(username, face_image_id);
        match joined {
            Ok(p) => {
                proof {
                    assert(self@ =~= old(self)@.update(idx as int, self.sessions@[idx as int]@));
                    assert(self@[idx as int] =~~= spec_joined_session(
                        old(self)@[idx as int],
                        p@,
                    ));
                    assert(self@ =~= old(self)@.update(
                        spec_session_index(old(self)@, session_id@),
                        spec_joined_session(spec_session_with(old(self)@, session_id@), p@),
                    ));
                    assert forall|i: int, j: int| 0 <= i < j < self@.len() implies self@[i].id
                        != self@[j].id by {
                        assert(old(self)@[i].id != old(self)@[j].id);
                    }
                }
                Ok(p)
            },
            Err(e) => {
                proof {
                    assert(self@ =~= old(self)@);
                }
                Err(e)
            },
        }
    }

    /// The joinable sessions, each with its id and player usernames: one
    /// row per joinable session, in registry order, and nothing else.
    pub fn active_sessions(&self) -> (r: Vec<SessionSummary>)
        requires
            registry_wf(self@),
        ensures
            r@.len() == spec_listing(self@).len(),
            forall|k: int|
                0 <= k < r@.len() ==> {
                    &&& (#[trigger] r@[k]).id@ == spec_listing(self@)[k].id
                    &&& r@[k].players@.len() == spec_listing(self@)[k].players.len()
                    &&& forall|p: int|
                        0 <= p < spec_listing(self@)[k].players.len()
                            ==> (#[trigger] r@[k].players@[p])@
                            == spec_listing(self@)[k].players[p].username
                },
            forall|i: int|
                0 <= i < self@.len() && (#[trigger] self@[i]).is_joinable ==> exists|k: int|
                    0 <= k < r@.len() && (#[trigger] r@[k].id@) == self@[i].id,
    {
        let mut r: Vec<SessionSummary> = Vec::new();
        let mut i: usize = 0;
        proof {
            reveal(Seq::filter);
            assert(self@.take(0) =~= Seq::<SessionV>::empty());
            assert(r@.len() == spec_listing(self@.take(0)).len());
        }
        while i < self.sessions.len()
            invariant
                i <= self.sessions@.len(),
                registry_wf(self@),
                r@.len() == spec_listing(self@.take(i as int)).len(),
                forall|k: int|
                    0 <= k < r@.len() ==> {
                        &&& (#[trigger] r@[k]).id@ == spec_listing(self@.take(i as int))[k].id
                        &&& r@[k].players@.len() == spec_listing(
                            self@.take(i as int),
                        )[k].players.len()
                        &&& forall|p: int|
                            0 <= p < spec_listing(self@.take(i as int))[k].players.len()
                                ==> (#[trigger] r@[k].players@[p])@ == spec_listing(
                                self@.take(i as int),
                            )[k].players[p].username
                    },
                forall|t: int|
                    0 <= t < i && (#[trigger] self@[t]).is_joinable ==> exists|k: int|
                        0 <= k < r@.len() && (#[trigger] r@[k].id@) == self@[t].id,
            decreases self.sessions@.len() - i,
        {
            let session = &self.sessions[i];
            let ghost old_r = r@;
            let ghost prefix = self@.take(i as int);
            let ghost prefix2 = self@.take(i + 1);
            proof {
                reveal(Seq::filter);
                assert(prefix2.drop_last() =~= prefix);
                assert(prefix2.last() == self@[i as int]);
                assert(spec_listing(prefix2) == if self@[i as int].is_joinable {
                    spec_listing(prefix).push(self@[i as int])
                } else {
                    spec_listing(prefix)
                });
            }
            if session.is_joinable {
                let summary = Self::summarize(session);
                proof {
                    assert(summary.id@ == self@[i as int].id);
                    assert(self@[i as int].is_joinable);
                }
                r.push(summary);
                proof {
                    assert(r@[r@.len() - 1].id@ == self@[i as int].id);
                    assert forall|k: int| 0 <= k < r@.len() implies {
                        &&& (#[trigger] r@[k]).id@ == spec_listing(prefix2)[k].id
                        &&& r@[k].players@.len() == spec_listing(prefix2)[k].players.len()
                        &&& forall|p: int|
                            0 <= p < spec_listing(prefix2)[k].players.len()
                                ==> (#[trigger] r@[k].players@[p])@ == spec_listing(
                                prefix2,
                            )[k].players[p].username
                    } by {
                        if k < old_r.len() {
                            assert(r@[k] == old_r[k]);
                            assert(spec_listing(prefix2)[k] == spec_listing(prefix)[k]);
                        } else {
                            assert(r@[k] == summary);
                            assert(spec_listing(prefix2)[k] == self@[i as int]);
                        }
                    }
                    assert forall|t: int|
                        0 <= t < i + 1 && (#[trigger] self@[t]).is_joinable implies exists|k: int|
                        0 <= k < r@.len() && (#[trigger] r@[k].id@) == self@[t].id by {
                        if t == i as int {
                            assert(r@[r@.len() - 1].id@ == self@[t].id);
                        } else {
                            let k = choose|k: int|
                                0 <= k < old_r.len() && (#[trigger] old_r[k].id@) == self@[t].id;
                            assert(r@[k] == old_r[k]);
                            assert(r@[k].id@ == self@[t].id);
                        }
                    }
                }
            } else {
                proof {
                    assert forall|t: int|
                        0 <= t < i + 1 && (#[trigger] self@[t]).is_joinable implies exists|k: int|
                        0 <= k < r@.len() && (#[trigger] r@[k].id@) == self@[t].id by {
                        assert(t != i as int);
                    }
                }
            }
            i = i + 1;
        }
        proof {
            assert(self@.take(self@.len() as int) =~= self@);
        }
        r
    }

    /// One session's listing row.
    fn summarize(session: &Session) -> (s: SessionSummary)
        ensures
            s.id@ == session@.id,
            s.players@.len() == session@.players.len(),
            forall|p: int|
                0 <= p < session@.players.len() ==> (#[trigger] s.players@[p])@
                    == session@.players[p].username,
    {
        let mut players: Vec<String> = Vec::new();
        let mut p: usize = 0;
        while p < session.players.len()
            invariant
                p <= session.players@.len(),
                players@.len() == p,
                forall|t: int|
                    0 <= t < p ==> (#[trigger] players@[t])@ == session.players@[t].username@,
            decreases session.players@.len() - p,
        {
            players.push(session.players[p].username.clone());
            p = p + 1;
        }
        SessionSummary { id: session.id.clone(), players }
    }

    /// Look one session up by id: its listing row, or nothing.
    pub fn get_session(&self, session_id: &String) -> (r: Option<SessionSummary>)
        requires
            registry_wf(self@),
        ensures
            r is Some <==> has_session(self@, session_id@),
            r matches Some(s) ==> ({
                let found = spec_session_with(self@, session_id@);
                &&& s.id@ == found.id
                &&& s.players@.len() == found.players.len()
                &&& forall|p: int|
                    0 <= p < found.players.len() ==> (#[trigger] s.players@[p])@
                        == found.players[p].username
            }),
    {
        match self.find_session(session_id) {
            Some(i) => {
                proof {
                    lemma_session_index_unique(self@, session_id@, i as int);
                }
                Some(Self::summarize(&self.sessions[i]))
            },
            None => {
                proof {
                    lemma_no_session(self@, session_id@);
                }
                None
            },
        }
    }

    /// End a session on a player's behalf. An admin with a running game
    /// ends it for everyone — the announcement goes out and the session
    /// disappears; a non-admin departure mid-game ends the game but keeps
    /// the session; a non-admin lobby departure removes only that player.
    pub fn end_session(&mut self, session_id: &String, player_game_id: u32) -> (r: Result<
        (EndOutcome, DispatchPlan),
        ServiceError,
    >)
        requires
            registry_wf(old(self)@),
        ensures
            registry_wf(final(self)@),
            r is Ok <==> spec_end_ok(old(self)@, session_id@, player_game_id),
            r is Err ==> final(self)@ == old(self)@,
            r matches Err(e) ==> e == spec_end_error(old(self)@, session_id@, player_game_id),
            r matches Ok((out, plan)) ==> ({
                let i = spec_session_index(old(self)@, session_id@);
                let s = old(self)@[i];
                if player_game_id == 0 {
                    &&& out is SessionDeleted
                    &&& spec_game_over_broadcast(s, 0, plan)
                    &&& final(self)@ == old(self)@.remove(i)
                } else if s.game is Some {
                    &&& out is GameEnded
                    &&& spec_game_ended(s, player_game_id, final(self)@[i], plan)
                    &&& final(self)@ == old(self)@.update(i, final(self)@[i])
                } else {
                    &&& out is PlayerRemoved
                    &&& plan_is_empty(plan)
                    &&& spec_lobby_removed(s, player_game_id, final(self)@[i])
                    &&& final(self)@ == old(self)@.update(i, final(self)@[i])
                }
            }),
    {
        let idx = match self.find_session(session_id) {
            Some(i) => i,
            None => {
                proof {
                    lemma_no_session(old(self)@, session_id@);
                }
                return Err(ServiceError::NotFound);
            },
        };
        proof {
            lemma_session_index_unique(old(self)@, session_id@, idx as int);
        }
        let session = vstd::std_specs::vec::vec_index_mut(&mut self.sessions, idx);
        if player_game_id == 0 {
            if session.game_state.is_none() {
                proof {
                    assert(self@ =~= old(self)@);
                }
                return Err(ServiceError::FailedPrecondition);
            }
            let removed = session.remove_player(0);
            let plan = match removed {
                Ok((out, plan)) => {
                    proof {
                        match &out {
                            RemovalOutcome::GameEnded => {},
                            RemovalOutcome::Removed { .. } => {
                                assert(false);
                            },
                        }
                    }
                    plan
                },
                Err(_) => {
                    proof {
                        assert(false);
                    }
                    return Err(ServiceError::Internal);
                },
            };
            self.sessions.remove(idx);
            proof {
                assert(self@ =~= old(self)@.remove(idx as int));
                lemma_registry_remove(old(self)@, self@, idx as int);
            }
            return Ok((EndOutcome::SessionDeleted, plan));
        }
        let removed = session.remove_player(player_game_id);
        match removed {
            Ok((out, plan)) => {
                let outcome = match out {
                    RemovalOutcome::GameEnded => EndOutcome::GameEnded,
                    RemovalOutcome::Removed { now_empty } => {
                        proof {
                            assert(!now_empty);
                        }
                        EndOutcome::PlayerRemoved
                    },
                };
                proof {
                    assert(self@ =~= old(self)@.update(idx as int, self.sessions@[idx as int]@));
                    assert forall|i: int, j: int| 0 <= i < j < self@.len() implies self@[i].id
                        != self@[j].id by {
                        assert(old(self)@[i].id != old(self)@[j].id);
                    }
                }
                Ok((outcome, plan))
            },
            Err(e) => {
                proof {
                    assert(self@ =~= old(self)@);
                }
                Err(e)
            },
        }
    }
}

impl Registry {
    /// Handle a player's disconnect. An admin leaving destroys the session
    /// — after a game-over announcement when a game was running; a
    /// non-admin departure mid-game ends the game for everyone but keeps
    /// the session; a non-admin lobby departure removes only that player.
    pub fn remove_player(&mut self, session_id: &String, player_id: u32) -> (r: Result<
        (EndOutcome, DispatchPlan),
        ServiceError,
    >)
        requires
            registry_wf(old(self)@),
        ensures
            registry_wf(final(self)@),
            r is Ok <==> spec_disconnect_ok(old(self)@, session_id@, player_id),
            r is Err ==> final(self)@ == old(self)@,
            r matches Err(e) ==> e == ServiceError::NotFound,
            r matches Ok((out, plan)) ==> ({
                let i = spec_session_index(old(self)@, session_id@);
                let s = old(self)@[i];
                if player_id == 0 {
                    &&& out is SessionDeleted
                    &&& final(self)@ == old(self)@.remove(i)
                    &&& (s.game is Some ==> spec_game_over_broadcast(s, 0, plan))
                    &&& (s.game is None ==> plan_is_empty(plan))
                } else if s.game is Some {
                    &&& out is GameEnded
                    &&& spec_game_ended(s, player_id, final(self)@[i], plan)
                    &&& final(self)@ == old(self)@.update(i, final(self)@[i])
                } else {
                    &&& out is PlayerRemoved
                    &&& plan_is_empty(plan)
                    &&& spec_lobby_removed(s, player_id, final(self)@[i])
                    &&& final(self)@ == old(self)@.update(i, final(self)@[i])
                }
            }),
    {
        let idx = match self.find_session(session_id) {
            Some(i) => i,
            None => {
                proof {
                    lemma_no_session(old(self)@, session_id@);
                }
                return Err(ServiceError::NotFound);
            },
        };
        proof {
            lemma_session_index_unique(old(self)@, session_id@, idx as int);
        }
        if player_id == 0 {
            let empty_plan = DispatchPlan {
                sender_events: Vec::new(),
                broadcast_payload: None,
                broadcast_event_id: 0,
                broadcast_recipients: Vec::new(),
            };
            let plan = if self.sessions[idx].game_state.is_none() {
                empty_plan
            } else {
                let session = vstd::std_specs::vec::vec_index_mut(&mut self.sessions, idx);
                match session.remove_player(0) {
                    Ok((out, plan)) => {
                        proof {
                            match &out {
                                RemovalOutcome::GameEnded => {},
                                RemovalOutcome::Removed { .. } => {
                                    assert(false);
                                },
                            }
                        }
                        plan
                    },
                    Err(_) => {
                        proof {
                            assert(false);
                        }
                        empty_plan
                    },
                }
            };
            self.sessions.remove(idx);
            proof {
                assert(self@ =~= old(self)@.remove(idx as int));
                lemma_registry_remove(old(self)@, self@, idx as int);
            }
            return Ok((EndOutcome::SessionDeleted, plan));
        }
        let session = vstd::std_specs::vec::vec_index_mut(&mut self.sessions, idx);
        let removed = session.remove_player(player_id);
        match removed {
            Ok((out, plan)) => {
                let outcome = match out {
                    RemovalOutcome::GameEnded => EndOutcome::GameEnded,
                    RemovalOutcome::Removed { now_empty } => {
                        proof {
                            assert(!now_empty);
                        }
                        EndOutcome::PlayerRemoved
                    },
                };
                proof {
                    assert(self@ =~= old(self)@.update(idx as int, self.sessions@[idx as int]@));
                    assert forall|i: int, j: int| 0 <= i < j < self@.len() implies self@[i].id
                        != self@[j].id by {
                        assert(old(self)@[i].id != old(self)@[j].id);
                    }
                }
                Ok((outcome, plan))
            },
            Err(e) => {
                proof {
                    assert(self@ =~= old(self)@);
                }
                Err(e)
            },
        }
    }
}

/// Removing one session keeps every remaining session valid and the ids
/// distinct.
proof fn lemma_registry_remove(pre: Seq<SessionV>, post: Seq<SessionV>, k: int)
    requires
        0 <= k < pre.len(),
        post =~= pre.remove(k),
        forall|i: int| 0 <= i < pre.len() && i != k ==> session_wf(#[trigger] pre[i]),
        forall|i: int, j: int| 0 <= i < j < pre.len() ==> pre[i].id != pre[j].id,
    ensures
        registry_wf(post),
{
    assert forall|i: int| 0 <= i < post.len() implies session_wf(#[trigger] post[i]) by {
        if i < k {
            assert(post[i] == pre[i]);
        } else {
            assert(post[i] == pre[i + 1]);
        }
    }
    assert forall|i: int, j: int| 0 <= i < j < post.len() implies post[i].id != post[j].id by {
        let i2 = if i < k {
            i
        } else {
            i + 1
        };
        let j2 = if j < k {
            j
        } else {
            j + 1
        };
        assert(post[i] == pre[i2]);
        assert(post[j] == pre[j2]);
    }
}

} // verus!
