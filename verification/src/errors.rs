use vstd::prelude::*;

verus! {

/// The ways a room or hand operation can fail. State-machine violations
/// are client-caused and surfaced without altering in-memory state;
/// `LockUnavailable` and `PersistenceFailure` belong to the surrounding
/// service, which maps lock poisoning and storage failures onto them.
#[derive(Clone, Copy, Debug, PartialEq, Eq, Structural)]
pub enum GameError {
    RoomNotFound,
    RoomFull,
    SeatOccupied,
    PlayerNotSeated,
    NoActiveHand,
    HandAlreadyActive,
    NotPlayersTurn,
    UnsupportedAction,
    LockUnavailable,
    PersistenceFailure,
}

} // verus!
