use vstd::prelude::*;

use crate::errors::GameError;
use crate::room::{
    act_guard, act_rel, join_rel, leave_rel, start_rel, ActionKind, ActionOutcome, FinishOutcome,
    RoomState,
};
use std::collections::HashMap;

verus! {

broadcast use vstd::std_specs::hash::group_hash_axioms;

/// Relies on uuid's `Uuid::new_v4`: a fresh random version-4 UUID,
/// carried as its 128-bit value. Nothing is assumed of the value.
#[verifier::external_body]
fn fresh_hand_id() -> u128 {
    uuid::Uuid::new_v4().as_u128()
}

/// Relies on chrono's `Utc::now` and `timestamp_millis`: the current
/// wall-clock time as milliseconds since the epoch. Nothing is assumed
/// of the value.
#[verifier::external_body]
fn now_millis() -> i64 {
    chrono::Utc::now().timestamp_millis()
}

/// Whether starting a hand with identity `hid` at some start time
/// relates the two room states.
pub open spec fn started_somewhen(r0: RoomState, r1: RoomState, hid: u128) -> bool {
    exists|t: i64| start_rel(r0, r1, hid, t)
}

/// A room no player has touched yet: the given identity and capacity,
/// every seat free, no dealer, no hand.
pub open spec fn fresh_room(r: RoomState, room_id: u128, max_players: usize) -> bool {
    &&& r.room_id == room_id
    &&& r.max_players == max_players
    &&& r.seats@.len() == max_players
    &&& forall|i: int| 0 <= i < max_players ==> #[trigger] r.seats@[i] is None
    &&& r.dealer_index is None
    &&& r.active_hand is None
}

/// The capacity a room is created with when a join reaches a room that
/// does not exist yet.
pub const DEFAULT_ROOM_CAPACITY: usize = 6;

/// The registry of rooms: the sole owner of the mapping from room
/// identity to room state. The surrounding service shards this map for
/// concurrency and guards each room with its own lock; the registry
/// itself holds the game rules, applied one room at a time.
pub struct GameManager {
    pub rooms: HashMap<u128, RoomState>,
}

impl GameManager {
    /// Every registered room is sound and filed under its own identity.
    pub open spec fn wf(&self) -> bool {
        forall|id: u128|
            self.rooms@.contains_key(id) ==> (#[trigger] self.rooms@[id]).wf()
                && self.rooms@[id].room_id == id
    }

    /// An empty registry.
    pub fn new() -> (r: GameManager)
        ensures
            r.wf(),
            r.rooms@ == Map::<u128, RoomState>::empty(),
    {
        GameManager { rooms: HashMap::new() }
    }

    /// Creates the room if it is absent, leaving an existing room — and
    /// every other room — exactly as it was.
    pub fn ensure_room(&mut self, room_id: u128, max_players: usize)
        requires
            old(self).wf(),
            1 <= max_players <= 23,
        ensures
            final(self).wf(),
            final(self).rooms@.contains_key(room_id),
            old(self).rooms@.contains_key(room_id) ==> final(self).rooms@ == old(self).rooms@,
            !old(self).rooms@.contains_key(room_id) ==> final(self).rooms@ == old(
                self,
            ).rooms@.insert(room_id, final(self).rooms@[room_id]) && fresh_room(
                final(self).rooms@[room_id],
                room_id,
                max_players,
            ),
    {
        if !self.rooms.contains_key(&room_id) {
            let r = RoomState::new(room_id, max_players);
            self.rooms.insert(room_id, r);
        }
    }

    /// Seats the player in the room, creating the room with the default
    /// capacity if it does not exist yet: the requested seat when free,
    /// otherwise the lowest free seat; `RoomFull` with no free seat.
    pub fn join_room(&mut self, user_id: u128, room_id: u128, requested_seat: Option<u8>) -> (r:
        Result<u8, GameError>)
        requires
            old(self).wf(),
        ensures
            final(self).wf(),
            final(self).rooms@.contains_key(room_id),
            final(self).rooms@ == old(self).rooms@.insert(room_id, final(self).rooms@[room_id]),
            exists|r0: RoomState|
                {
                    &&& #[trigger] join_rel(
                        r0,
                        final(self).rooms@[room_id],
                        user_id,
                        requested_seat,
                        r,
                    )
                    &&& (if old(self).rooms@.contains_key(room_id) {
                        r0 == old(self).rooms@[room_id]
                    } else {
                        fresh_room(r0, room_id, DEFAULT_ROOM_CAPACITY)
                    })
                },
    {
        self.ensure_room(room_id, DEFAULT_ROOM_CAPACITY);
        let mut room = match self.rooms.remove(&room_id) {
            Some(room) => room,
            None => {
                return vstd::pervasive::unreached();
            },
        };
        let res = room.join(user_id, requested_seat);
        self.rooms.insert(room_id, room);
        proof {
            assert(self.rooms@ =~= old(self).rooms@.insert(room_id, self.rooms@[room_id]));
        }
        res
    }

    /// Frees the player's seat in the room; a missing room or an
    /// unseated player is a quiet no-op, as the service treats leaving
    /// as idempotent.
    pub fn leave_room(&mut self, user_id: u128, room_id: u128) -> (r: Result<(), GameError>)
        requires
            old(self).wf(),
        ensures
            final(self).wf(),
            r is Ok,
            !old(self).rooms@.contains_key(room_id) ==> final(self).rooms@ == old(self).rooms@,
            old(self).rooms@.contains_key(room_id) ==> final(self).rooms@ == old(
                self,
            ).rooms@.insert(room_id, final(self).rooms@[room_id]) && leave_rel(
                old(self).rooms@[room_id],
                final(self).rooms@[room_id],
                user_id,
            ),
    {
        let mut room = match self.rooms.remove(&room_id) {
            Some(room) => room,
            None => {
                return Ok(());
            },
        };
        room.leave(user_id);
        self.rooms.insert(room_id, room);
        proof {
            assert(self.rooms@ =~= old(self).rooms@.insert(room_id, self.rooms@[room_id]));
        }
        Ok(())
    }

    /// Starts a hand in the room: a fresh hand identity is drawn, the
    /// start time taken, and the room's state machine moved from idle
    /// to in-progress as `start_rel` says. Fails with `RoomNotFound`
    /// for an unknown room and `HandAlreadyActive` for a busy one.
    pub fn start_hand(&mut self, room_id: u128) -> (r: Result<u128, GameError>)
        requires
            old(self).wf(),
        ensures
            final(self).wf(),
            !old(self).rooms@.contains_key(room_id) ==> r == Result::<u128, GameError>::Err(
                GameError::RoomNotFound,
            ) && final(self).rooms@ == old(self).rooms@,
            old(self).rooms@.contains_key(room_id) ==> {
                let r0 = old(self).rooms@[room_id];
                &&& final(self).rooms@ == old(self).rooms@.insert(
                    room_id,
                    final(self).rooms@[room_id],
                )
                &&& (r0.active_hand is Some ==> r == Result::<u128, GameError>::Err(
                    GameError::HandAlreadyActive,
                ) && final(self).rooms@[room_id] == r0)
                &&& (r0.active_hand is None ==> match r {
                    Ok(hid) => started_somewhen(r0, final(self).rooms@[room_id], hid),
                    Err(_) => false,
                })
            },
    {
        let mut room = match self.rooms.remove(&room_id) {
            Some(room) => room,
            None => {
                return Err(GameError::RoomNotFound);
            },
        };
        let hand_id = fresh_hand_id();
        let started_at = now_millis();
        let res = room.start_hand(hand_id, started_at);
        self.rooms.insert(room_id, room);
        proof {
            assert(self.rooms@ =~= old(self).rooms@.insert(room_id, self.rooms@[room_id]));
        }
        match res {
            Ok(_) => {
                proof {
                    assert(started_somewhen(
                        old(self).rooms@[room_id],
                        self.rooms@[room_id],
                        hand_id,
                    ));
                }
                Ok(hand_id)
            },
            Err(e) => Err(e),
        }
    }

    /// Applies a player action in the room, as `act_rel` says. Fails
    /// with `RoomNotFound` for an unknown room; the per-room refusals
    /// (`PlayerNotSeated`, `NoActiveHand`, `NotPlayersTurn`,
    /// `UnsupportedAction`) pass through unchanged.
    pub fn handle_action(
        &mut self,
        user_id: u128,
        room_id: u128,
        kind: ActionKind,
        amount: i64,
    ) -> (r: Result<ActionOutcome, GameError>)
        requires
            old(self).wf(),
            old(self).rooms@.contains_key(room_id) ==> act_guard(
                old(self).rooms@[room_id],
                user_id,
                kind,
                amount,
            ),
        ensures
            final(self).wf(),
            !old(self).rooms@.contains_key(room_id) ==> r == Result::<
                ActionOutcome,
                GameError,
            >::Err(GameError::RoomNotFound) && final(self).rooms@ == old(self).rooms@,
            old(self).rooms@.contains_key(room_id) ==> final(self).rooms@ == old(
                self,
            ).rooms@.insert(room_id, final(self).rooms@[room_id]) && act_rel(
                old(self).rooms@[room_id],
                final(self).rooms@[room_id],
                user_id,
                kind,
                amount,
                r,
            ),
    {
        let mut room = match self.rooms.remove(&room_id) {
            Some(room) => room,
            None => {
                return Err(GameError::RoomNotFound);
            },
        };
        let res = room.handle_action(user_id, kind, amount);
        self.rooms.insert(room_id, room);
        proof {
            assert(self.rooms@ =~= old(self).rooms@.insert(room_id, self.rooms@[room_id]));
        }
        res
    }

    /// Settles the room's active hand, as `finish_rel` says. Fails with
    /// `RoomNotFound` for an unknown room and `NoActiveHand` for an
    /// idle one.
    pub fn finish_hand(&mut self, room_id: u128) -> (r: Result<FinishOutcome, GameError>)
        requires
            old(self).wf(),
            old(self).rooms@.contains_key(room_id) ==> match old(
                self,
            ).rooms@[room_id].active_hand {
                Some(h) => {
                    &&& (crate::room::count_true(h.players_in_hand@) >= 2 ==> h.board@.len() >= 3)
                    &&& forall|i: int|
                        0 <= i < old(self).rooms@[room_id].seats@.len() && crate::room::hand_live(
                            h,
                            i,
                        ) && #[trigger] old(self).rooms@[room_id].seats@[i] is Some ==> i64::MIN
                            <= old(self).rooms@[room_id].seats@[i].unwrap().chips + h.pot && old(
                            self,
                        ).rooms@[room_id].seats@[i].unwrap().chips + h.pot <= i64::MAX
                },
                None => true,
            },
        ensures
            final(self).wf(),
            !old(self).rooms@.contains_key(room_id) ==> r == Result::<
                FinishOutcome,
                GameError,
            >::Err(GameError::RoomNotFound) && final(self).rooms@ == old(self).rooms@,
            old(self).rooms@.contains_key(room_id) ==> final(self).rooms@ == old(
                self,
            ).rooms@.insert(room_id, final(self).rooms@[room_id]) && crate::room::finish_rel(
                old(self).rooms@[room_id],
                final(self).rooms@[room_id],
                r,
            ),
    {
        let mut room = match self.rooms.remove(&room_id) {
            Some(room) => room,
            None => {
                return Err(GameError::RoomNotFound);
            },
        };
        let res = room.finish_hand();
        self.rooms.insert(room_id, room);
        proof {
            assert(self.rooms@ =~= old(self).rooms@.insert(room_id, self.rooms@[room_id]));
        }
        res
    }
}

} // verus!
