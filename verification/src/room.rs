use vstd::prelude::*;

use crate::cards::Card;
use crate::deck::{deal_hole_cards, lemma_permutation_preserves_no_duplicates, new_deck, shuffle_deck};
use crate::errors::GameError;
use crate::eval::{choice_rank, evaluate_best_of_seven, is_choice_rank, valid_choice};
use crate::rank::{lemma_rank_le_lt_trans, lemma_rank_le_trans, lemma_rank_order_total, rank_le, rank_lt, HandRank};
use tokio_util::sync::CancellationToken;

verus! {

/// A claimed seat: who sits there, the seat's index, the chip stack and
/// a connectivity flag.
#[derive(Clone, Copy, Debug, PartialEq, Eq, Structural)]
pub struct PlayerSlot {
    pub user_id: u128,
    pub seat: usize,
    pub chips: i64,
    pub connected: bool,
}

/// The betting round an active hand is in. Only a label: the engine
/// leaves board dealing between rounds to its caller.
#[derive(Clone, Copy, Debug, PartialEq, Eq, Structural)]
pub enum Round {
    PreFlop,
    Flop,
    Turn,
    River,
}

/// A player action. `Other` stands for any unrecognized kind, which the
/// engine rejects.
#[derive(Clone, Copy, Debug, PartialEq, Eq, Structural)]
pub enum ActionKind {
    Fold,
    Check,
    Bet,
    Raise,
    Call,
    AllIn,
    Other,
}

/// The action kind a wire-format label names: "fold", "check", "bet",
/// "raise", "call" and "allin" are recognized; everything else is
/// `Other`, which the engine refuses as unsupported.
pub open spec fn spec_action_kind(s: Seq<char>) -> ActionKind {
    if s == "fold"@ {
        ActionKind::Fold
    } else if s == "check"@ {
        ActionKind::Check
    } else if s == "bet"@ {
        ActionKind::Bet
    } else if s == "raise"@ {
        ActionKind::Raise
    } else if s == "call"@ {
        ActionKind::Call
    } else if s == "allin"@ {
        ActionKind::AllIn
    } else {
        ActionKind::Other
    }
}

/// Parses a wire-format action label into its kind.
pub fn action_kind_of(kind: &str) -> (r: ActionKind)
    ensures
        r == spec_action_kind(kind@),
{
    let k = String::from_str(kind);
    if k == String::from_str("fold") {
        ActionKind::Fold
    } else if k == String::from_str("check") {
        ActionKind::Check
    } else if k == String::from_str("bet") {
        ActionKind::Bet
    } else if k == String::from_str("raise") {
        ActionKind::Raise
    } else if k == String::from_str("call") {
        ActionKind::Call
    } else if k == String::from_str("allin") {
        ActionKind::AllIn
    } else {
        ActionKind::Other
    }
}

/// One in-progress hand: identity, start time, pot, community board,
/// per-seat hole cards, whose turn it is, the round label, and a
/// per-seat still-in-hand flag.
#[derive(Clone, Debug)]
pub struct HandState {
    pub id: u128,
    pub started_at: i64,
    pub pot: i64,
    pub board: Vec<Card>,
    pub hole_cards: Vec<Option<(Card, Card)>>,
    pub current_turn: Option<usize>,
    pub round: Round,
    pub players_in_hand: Vec<bool>,
}

/// One room: identity, fixed capacity, sparse seat list, dealer
/// position, at most one active hand, and the cancellation handle of
/// any pending per-turn timer.
#[derive(Debug)]
pub struct RoomState {
    pub room_id: u128,
    pub max_players: usize,
    pub seats: Vec<Option<PlayerSlot>>,
    pub dealer_index: Option<usize>,
    pub active_hand: Option<HandState>,
    pub turn_task: Option<CancellationToken>,
}

// ---------------------------------------------------------------------------
// Spec helpers over seats and liveness flags.
// ---------------------------------------------------------------------------

/// How many flags are set.
pub open spec fn count_true(s: Seq<bool>) -> nat
    decreases s.len(),
{
    if s.len() == 0 {
        0
    } else {
        count_true(s.drop_last()) + (if s.last() {
            1nat
        } else {
            0nat
        })
    }
}

/// The first set flag at or after `lo` and before `hi`, if any.
pub open spec fn first_live_in(flags: Seq<bool>, lo: int, hi: int) -> Option<int>
    decreases hi - lo,
{
    if lo < 0 || lo >= hi || hi > flags.len() {
        None
    } else if flags[lo] {
        Some(lo)
    } else {
        first_live_in(flags, lo + 1, hi)
    }
}

/// The next live seat after `from` in circular order: the scan wraps
/// past the end and ends on `from` itself.
pub open spec fn spec_next_live(flags: Seq<bool>, from: int) -> Option<int> {
    match first_live_in(flags, from + 1, flags.len() as int) {
        Some(i) => Some(i),
        None => first_live_in(flags, 0, from + 1),
    }
}

/// The first occupied seat at or after `lo` and before `hi`, if any.
pub open spec fn first_occupied_in(seats: Seq<Option<PlayerSlot>>, lo: int, hi: int) -> Option<int>
    decreases hi - lo,
{
    if lo < 0 || lo >= hi || hi > seats.len() {
        None
    } else if seats[lo] is Some {
        Some(lo)
    } else {
        first_occupied_in(seats, lo + 1, hi)
    }
}

/// The seat that acts first: the first occupied seat after the dealer in
/// circular order, or the lowest occupied seat when no dealer is set.
pub open spec fn spec_first_to_act(seats: Seq<Option<PlayerSlot>>, dealer: Option<usize>) -> Option<
    int,
> {
    match dealer {
        Some(d) => match first_occupied_in(seats, d + 1, seats.len() as int) {
            Some(i) => Some(i),
            None => first_occupied_in(seats, 0, d + 1),
        },
        None => first_occupied_in(seats, 0, seats.len() as int),
    }
}

/// The first free seat at or after `lo` and before `hi`, if any.
pub open spec fn first_free_in(seats: Seq<Option<PlayerSlot>>, lo: int, hi: int) -> Option<int>
    decreases hi - lo,
{
    if lo < 0 || lo >= hi || hi > seats.len() {
        None
    } else if seats[lo] is None {
        Some(lo)
    } else {
        first_free_in(seats, lo + 1, hi)
    }
}

/// Whether seat `j` holds player `u`.
pub open spec fn seat_holds(seats: Seq<Option<PlayerSlot>>, u: u128, j: int) -> bool {
    seats[j] is Some && seats[j].unwrap().user_id == u
}

/// Whether `s` is the lowest seat holding `u`.
pub open spec fn is_user_seat(seats: Seq<Option<PlayerSlot>>, u: u128, s: int) -> bool {
    &&& 0 <= s < seats.len()
    &&& seat_holds(seats, u, s)
    &&& forall|j: int| 0 <= j < s ==> !#[trigger] seat_holds(seats, u, j)
}

/// Whether `u` holds some seat.
pub open spec fn user_seated(seats: Seq<Option<PlayerSlot>>, u: u128) -> bool {
    exists|j: int| 0 <= j < seats.len() && #[trigger] seat_holds(seats, u, j)
}

proof fn lemma_first_live_props(flags: Seq<bool>, lo: int, hi: int)
    ensures
        match first_live_in(flags, lo, hi) {
            Some(i) => lo <= i < hi && i < flags.len() && flags[i],
            None => true,
        },
    decreases hi - lo,
{
    if !(lo < 0 || lo >= hi || hi > flags.len()) && !flags[lo] {
        lemma_first_live_props(flags, lo + 1, hi);
    }
}

proof fn lemma_first_occupied_props(seats: Seq<Option<PlayerSlot>>, lo: int, hi: int)
    ensures
        match first_occupied_in(seats, lo, hi) {
            Some(i) => lo <= i < hi && i < seats.len() && seats[i] is Some,
            None => true,
        },
    decreases hi - lo,
{
    if !(lo < 0 || lo >= hi || hi > seats.len()) && !(seats[lo] is Some) {
        lemma_first_occupied_props(seats, lo + 1, hi);
    }
}

proof fn lemma_count_true_all_false(s: Seq<bool>)
    requires
        forall|i: int| 0 <= i < s.len() ==> !s[i],
    ensures
        count_true(s) == 0,
    decreases s.len(),
{
    if s.len() > 0 {
        lemma_count_true_all_false(s.drop_last());
    }
}

proof fn lemma_count_true_pos(s: Seq<bool>)
    requires
        count_true(s) > 0,
    ensures
        exists|i: int| 0 <= i < s.len() && s[i],
    decreases s.len(),
{
    if s.last() {
        assert(s[s.len() - 1]);
    } else {
        lemma_count_true_pos(s.drop_last());
        let i = choose|i: int| 0 <= i < s.drop_last().len() && s.drop_last()[i];
        assert(s[i]);
    }
}

proof fn lemma_true_count_pos(s: Seq<bool>, i: int)
    requires
        0 <= i < s.len(),
        s[i],
    ensures
        count_true(s) >= 1,
    decreases s.len(),
{
    if i < s.len() - 1 {
        lemma_true_count_pos(s.drop_last(), i);
    }
}

proof fn lemma_two_true(s: Seq<bool>, i: int, j: int)
    requires
        0 <= i < j < s.len(),
        s[i],
        s[j],
    ensures
        count_true(s) >= 2,
    decreases s.len(),
{
    if j == s.len() - 1 {
        lemma_true_count_pos(s.drop_last(), i);
    } else {
        lemma_two_true(s.drop_last(), i, j);
    }
}

/// The one live seat of a hand that has exactly one.
pub open spec fn the_live_seat(flags: Seq<bool>) -> int {
    choose|i: int| 0 <= i < flags.len() && flags[i]
}

/// How many seats are still in the hand.
fn count_live(flags: &Vec<bool>) -> (c: usize)
    ensures
        c == count_true(flags@),
{
    let mut c: usize = 0;
    let mut i: usize = 0;
    proof {
        assert(flags@.take(0) =~= Seq::<bool>::empty());
    }
    while i < flags.len()
        invariant
            i <= flags@.len(),
            c <= i,
            c == count_true(flags@.take(i as int)),
        decreases flags@.len() - i,
    {
        proof {
            assert(flags@.take(i + 1).drop_last() =~= flags@.take(i as int));
            assert(flags@.take(i + 1).last() == flags@[i as int]);
        }
        if flags[i] {
            c += 1;
        }
        i += 1;
    }
    proof {
        assert(flags@.take(flags@.len() as int) =~= flags@);
    }
    c
}

/// The lowest live seat, if any seat is live.
fn find_live(flags: &Vec<bool>) -> (out: Option<usize>)
    ensures
        match out {
            Some(i) => i < flags@.len() && flags@[i as int],
            None => forall|j: int| 0 <= j < flags@.len() ==> !flags@[j],
        },
{
    let mut i: usize = 0;
    while i < flags.len()
        invariant
            i <= flags@.len(),
            forall|j: int| 0 <= j < i ==> !flags@[j],
        decreases flags@.len() - i,
    {
        if flags[i] {
            return Some(i);
        }
        i += 1;
    }
    None
}

/// The next live seat after `from`, scanning circularly and skipping
/// folded seats; `None` when no seat is live at all.
pub fn next_live_player(flags: &Vec<bool>, from: usize) -> (out: Option<usize>)
    requires
        from < flags@.len(),
    ensures
        match out {
            Some(i) => spec_next_live(flags@, from as int) == Some(i as int),
            None => spec_next_live(flags@, from as int) is None,
        },
{
    let n = flags.len();
    let mut j: usize = from + 1;
    while j < n
        invariant
            from < n,
            n == flags@.len(),
            from + 1 <= j <= n,
            first_live_in(flags@, from + 1, n as int) == first_live_in(flags@, j as int, n as int),
        decreases n - j,
    {
        if flags[j] {
            return Some(j);
        }
        j += 1;
    }
    let mut k: usize = 0;
    while k < from + 1
        invariant
            from < n,
            n == flags@.len(),
            k <= from + 1,
            first_live_in(flags@, from + 1, n as int) is None,
            first_live_in(flags@, 0, from + 1) == first_live_in(flags@, k as int, from + 1),
        decreases from + 1 - k,
    {
        if flags[k] {
            return Some(k);
        }
        k += 1;
    }
    None
}

/// The seat that acts first in a fresh hand: the first occupied seat
/// after the dealer, wrapping, or the lowest occupied seat without one.
pub fn first_to_act_index(seats: &Vec<Option<PlayerSlot>>, dealer: Option<usize>) -> (out: Option<
    usize,
>)
    requires
        match dealer {
            Some(d) => d < seats@.len(),
            None => true,
        },
    ensures
        match out {
            Some(i) => spec_first_to_act(seats@, dealer) == Some(i as int),
            None => spec_first_to_act(seats@, dealer) is None,
        },
{
    let n = seats.len();
    match dealer {
        Some(d) => {
            let mut j: usize = d + 1;
            while j < n
                invariant
                    dealer == Some(d),
                    d < n,
                    n == seats@.len(),
                    d + 1 <= j <= n,
                    first_occupied_in(seats@, d + 1, n as int) == first_occupied_in(
                        seats@,
                        j as int,
                        n as int,
                    ),
                decreases n - j,
            {
                if seats[j].is_some() {
                    return Some(j);
                }
                j += 1;
            }
            let mut k: usize = 0;
            while k < d + 1
                invariant
                    dealer == Some(d),
                    d < n,
                    n == seats@.len(),
                    k <= d + 1,
                    first_occupied_in(seats@, d + 1, n as int) is None,
                    first_occupied_in(seats@, 0, d + 1) == first_occupied_in(
                        seats@,
                        k as int,
                        d + 1,
                    ),
                decreases d + 1 - k,
            {
                if seats[k].is_some() {
                    return Some(k);
                }
                k += 1;
            }
            None
        },
        None => {
            let mut j: usize = 0;
            while j < n
                invariant
                    dealer is None,
                    n == seats@.len(),
                    j <= n,
                    first_occupied_in(seats@, 0, n as int) == first_occupied_in(
                        seats@,
                        j as int,
                        n as int,
                    ),
                decreases n - j,
            {
                if seats[j].is_some() {
                    return Some(j);
                }
                j += 1;
            }
            None
        },
    }
}

/// The lowest seat holding the player, if any does.
fn find_user_seat(seats: &Vec<Option<PlayerSlot>>, user_id: u128) -> (out: Option<usize>)
    ensures
        match out {
            Some(s) => is_user_seat(seats@, user_id, s as int),
            None => !user_seated(seats@, user_id),
        },
{
    let n = seats.len();
    let mut i: usize = 0;
    while i < n
        invariant
            n == seats@.len(),
            i <= n,
            forall|j: int| 0 <= j < i ==> !#[trigger] seat_holds(seats@, user_id, j),
        decreases n - i,
    {
        let hit = match &seats[i] {
            Some(ps) => ps.user_id == user_id,
            None => false,
        };
        if hit {
            proof {
                assert(seat_holds(seats@, user_id, i as int));
            }
            return Some(i);
        }
        i += 1;
    }
    None
}

// ---------------------------------------------------------------------------
// Well-formedness.
// ---------------------------------------------------------------------------

impl HandState {
    /// A hand is sound for a room of `nseats` seats: the per-seat
    /// vectors have that length, the board never exceeds five cards,
    /// only seats holding hole cards are still in the hand, and the
    /// current turn, if any, points at a live seat.
    pub open spec fn wf(&self, nseats: int) -> bool {
        &&& self.hole_cards@.len() == nseats
        &&& self.players_in_hand@.len() == nseats
        &&& self.board@.len() <= 5
        &&& forall|i: int|
            0 <= i < nseats && self.players_in_hand@[i] ==> #[trigger] self.hole_cards@[i] is Some
        &&& match self.current_turn {
            Some(i) => i < nseats && self.players_in_hand@[i as int],
            None => true,
        }
    }
}

impl RoomState {
    /// A room is sound: the seat list matches the fixed capacity, the
    /// capacity leaves a 52-card deck enough cards for two hole cards a
    /// seat and the board, every slot records its own seat index, the
    /// dealer points inside the room, and any active hand is sound.
    pub open spec fn wf(&self) -> bool {
        &&& self.seats@.len() == self.max_players
        &&& 1 <= self.max_players <= 23
        &&& forall|i: int|
            0 <= i < self.seats@.len() && #[trigger] self.seats@[i] is Some
                ==> self.seats@[i].unwrap().seat == i
        &&& match self.dealer_index {
            Some(d) => d < self.seats@.len(),
            None => true,
        }
        &&& match self.active_hand {
            Some(h) => h.wf(self.seats@.len() as int),
            None => true,
        }
    }

    /// A fresh room: every seat free, no dealer, no hand, no timer.
    pub fn new(room_id: u128, max_players: usize) -> (r: RoomState)
        requires
            1 <= max_players <= 23,
        ensures
            r.wf(),
            r.room_id == room_id,
            r.max_players == max_players,
            forall|i: int| 0 <= i < max_players ==> #[trigger] r.seats@[i] is None,
            r.dealer_index is None,
            r.active_hand is None,
            r.turn_task is None,
    {
        let mut seats: Vec<Option<PlayerSlot>> = Vec::new();
        let mut i: usize = 0;
        while i < max_players
            invariant
                i <= max_players,
                seats@.len() == i,
                forall|j: int| 0 <= j < i ==> #[trigger] seats@[j] is None,
            decreases max_players - i,
        {
            seats.push(None);
            i += 1;
        }
        RoomState {
            room_id,
            max_players,
            seats,
            dealer_index: None,
            active_hand: None,
            turn_task: None,
        }
    }
}

// ---------------------------------------------------------------------------
// Joining and leaving.
// ---------------------------------------------------------------------------

/// The seat a join claims: the requested seat when it names a free seat
/// of the room (seat numbers count from 1), otherwise the lowest free
/// seat; none when the room is full.
pub open spec fn spec_join_seat(seats: Seq<Option<PlayerSlot>>, requested: Option<u8>) -> Option<
    int,
> {
    if requested is Some && 1 <= requested.unwrap() && requested.unwrap() <= seats.len()
        && seats[requested.unwrap() - 1] is None {
        Some(requested.unwrap() - 1)
    } else {
        first_free_in(seats, 0, seats.len() as int)
    }
}

/// What a join does: on success the claimed seat gains a slot for the
/// player with the starting stack of 1000 chips and the 1-based seat
/// number is returned; with no free seat the join fails with `RoomFull`
/// and changes nothing. No other field of the room moves.
pub open spec fn join_rel(
    old_r: RoomState,
    new_r: RoomState,
    user_id: u128,
    requested: Option<u8>,
    r: Result<u8, GameError>,
) -> bool {
    match spec_join_seat(old_r.seats@, requested) {
        Some(s) => {
            &&& r is Ok
            &&& r.unwrap() == s + 1
            &&& new_r.seats@ == old_r.seats@.update(
                s,
                Some(PlayerSlot { user_id, seat: s as usize, chips: 1000, connected: true }),
            )
            &&& same_room_but_seats(old_r, new_r)
        },
        None => {
            &&& r == Result::<u8, GameError>::Err(GameError::RoomFull)
            &&& new_r == old_r
        },
    }
}

/// Whether two room states agree on everything but the seat list.
pub open spec fn same_room_but_seats(a: RoomState, b: RoomState) -> bool {
    &&& b.room_id == a.room_id
    &&& b.max_players == a.max_players
    &&& b.dealer_index == a.dealer_index
    &&& b.active_hand == a.active_hand
    &&& b.turn_task == a.turn_task
}

/// What leaving does: the player's (lowest) seat is freed and nothing
/// else moves; a player without a seat leaves the room untouched.
pub open spec fn leave_rel(old_r: RoomState, new_r: RoomState, user_id: u128) -> bool {
    if user_seated(old_r.seats@, user_id) {
        exists|s: int|
            #[trigger] is_user_seat(old_r.seats@, user_id, s) && new_r.seats@ == old_r.seats@.update(
                s,
                None,
            ) && same_room_but_seats(old_r, new_r)
    } else {
        new_r == old_r
    }
}

impl RoomState {
    /// Claims a seat for the player: the requested seat when free,
    /// otherwise the lowest free seat; fails with `RoomFull` when no
    /// seat is free. Returns the 1-based seat number.
    pub fn join(&mut self, user_id: u128, requested_seat: Option<u8>) -> (r: Result<u8, GameError>)
        requires
            old(self).wf(),
        ensures
            final(self).wf(),
            join_rel(*old(self), *final(self), user_id, requested_seat, r),
    {
        if let Some(q) = requested_seat {
            if 1 <= q && (q as usize) <= self.seats.len() {
                let idx = (q - 1) as usize;
                if self.seats[idx].is_none() {
                    self.seats[idx] = Some(
                        PlayerSlot { user_id, seat: idx, chips: 1000, connected: true },
                    );
                    return Ok(q);
                }
            }
        }
        let n = self.seats.len();
        let mut i: usize = 0;
        while i < n
            invariant
                old(self).wf(),
                *self == *old(self),
                n == self.seats@.len(),
                i <= n,
                spec_join_seat(self.seats@, requested_seat) == first_free_in(
                    self.seats@,
                    0,
                    n as int,
                ),
                first_free_in(self.seats@, 0, n as int) == first_free_in(
                    self.seats@,
                    i as int,
                    n as int,
                ),
            decreases n - i,
        {
            if self.seats[i].is_none() {
                self.seats[i] = Some(
                    PlayerSlot { user_id, seat: i, chips: 1000, connected: true },
                );
                return Ok((i + 1) as u8);
            }
            i += 1;
        }
        Err(GameError::RoomFull)
    }

    /// Frees the player's seat if one holds them (the lowest, if
    /// somehow several); a player without a seat leaves the room
    /// untouched. An in-progress hand keeps its snapshot of who was
    /// dealt in.
    pub fn leave(&mut self, user_id: u128)
        requires
            old(self).wf(),
        ensures
            final(self).wf(),
            leave_rel(*old(self), *final(self), user_id),
    {
        let n = self.seats.len();
        let mut i: usize = 0;
        while i < n
            invariant
                old(self).wf(),
                *self == *old(self),
                n == self.seats@.len(),
                i <= n,
                forall|j: int| 0 <= j < i ==> !#[trigger] seat_holds(self.seats@, user_id, j),
            decreases n - i,
        {
            let hit = match &self.seats[i] {
                Some(ps) => ps.user_id == user_id,
                None => false,
            };
            if hit {
                proof {
                    assert(seat_holds(self.seats@, user_id, i as int));
                    assert(is_user_seat(self.seats@, user_id, i as int));
                }
                self.seats[i] = None;
                return ;
            }
            i += 1;
        }
        proof {
            assert(forall|j: int|
                0 <= j < self.seats@.len() ==> !#[trigger] seat_holds(self.seats@, user_id, j));
        }
    }
}


// ---------------------------------------------------------------------------
// Starting a hand.
// ---------------------------------------------------------------------------

/// No card appears twice among the dealt hole cards: the two cards of a
/// pair differ, and no two seats share a card.
pub open spec fn holes_distinct(hole: Seq<Option<(Card, Card)>>) -> bool {
    forall|i: int, j: int|
        #![trigger hole[i], hole[j]]
        0 <= i < hole.len() && 0 <= j < hole.len() && hole[i] is Some && hole[j] is Some ==> {
            let a = hole[i].unwrap();
            let b = hole[j].unwrap();
            &&& a.0 != a.1
            &&& (i != j ==> a.0 != b.0 && a.0 != b.1 && a.1 != b.0 && a.1 != b.1)
        }
}

/// What starting a hand does: seats, dealer and identity stay; a fresh
/// hand appears with the given id and start time, an empty board, an
/// empty pot, the pre-flop label, exactly the occupied seats dealt two
/// distinct hole cards each and marked live, the first-to-act seat on
/// turn, and a fresh timer handle installed.
pub open spec fn start_rel(
    old_r: RoomState,
    new_r: RoomState,
    hand_id: u128,
    started_at: i64,
) -> bool {
    &&& new_r.room_id == old_r.room_id
    &&& new_r.max_players == old_r.max_players
    &&& new_r.seats@ == old_r.seats@
    &&& new_r.dealer_index == old_r.dealer_index
    &&& new_r.turn_task is Some
    &&& new_r.active_hand is Some
    &&& {
        let h = new_r.active_hand.unwrap();
        let n = old_r.seats@.len() as int;
        &&& h.id == hand_id
        &&& h.started_at == started_at
        &&& h.pot == 0
        &&& h.board@.len() == 0
        &&& h.round == Round::PreFlop
        &&& h.players_in_hand@.len() == n
        &&& h.hole_cards@.len() == n
        &&& forall|i: int|
            0 <= i < n ==> (#[trigger] h.players_in_hand@[i] <==> old_r.seats@[i] is Some)
        &&& forall|i: int|
            0 <= i < n ==> (#[trigger] h.hole_cards@[i] is Some <==> old_r.seats@[i] is Some)
        &&& holes_distinct(h.hole_cards@)
        &&& match h.current_turn {
            Some(t) => spec_first_to_act(old_r.seats@, old_r.dealer_index) == Some(t as int),
            None => spec_first_to_act(old_r.seats@, old_r.dealer_index) is None,
        }
    }
}

impl RoomState {
    /// Starts a fresh hand: shuffles a new deck, deals two hole cards to
    /// every occupied seat, zeroes the pot, marks the occupied seats
    /// live, puts the first seat after the dealer on turn, cancels any
    /// stale turn timer and installs a fresh handle. Fails with
    /// `HandAlreadyActive`, changing nothing, if a hand is running.
    pub fn start_hand(&mut self, hand_id: u128, started_at: i64) -> (r: Result<(), GameError>)
        requires
            old(self).wf(),
        ensures
            final(self).wf(),
            old(self).active_hand is Some ==> r == Result::<(), GameError>::Err(
                GameError::HandAlreadyActive,
            ) && *final(self) == *old(self),
            old(self).active_hand is None ==> r is Ok && start_rel(
                *old(self),
                *final(self),
                hand_id,
                started_at,
            ),
    {
        if self.active_hand.is_some() {
            return Err(GameError::HandAlreadyActive);
        }
        let mut deck = new_deck();
        let ghost fresh = deck@;
        shuffle_deck(&mut deck);
        proof {
            lemma_permutation_preserves_no_duplicates(fresh, deck@);
        }
        let ghost shuffled = deck@;
        let n = self.seats.len();
        let dealt = deal_hole_cards(&mut deck, n);
        let mut hole: Vec<Option<(Card, Card)>> = Vec::new();
        let mut flags: Vec<bool> = Vec::new();
        let mut i: usize = 0;
        while i < n
            invariant
                old(self).wf(),
                *self == *old(self),
                old(self).active_hand is None,
                n == self.seats@.len(),
                i <= n,
                2 * n <= shuffled.len(),
                shuffled.no_duplicates(),
                dealt@.len() == n,
                forall|j: int|
                    0 <= j < n ==> dealt@[j] == Some(
                        (shuffled[2 * j], shuffled[2 * j + 1]),
                    ),
                hole@.len() == i,
                flags@.len() == i,
                forall|j: int| 0 <= j < i ==> (#[trigger] flags@[j] <==> self.seats@[j] is Some),
                forall|j: int|
                    0 <= j < i ==> #[trigger] hole@[j] == (if self.seats@[j] is Some {
                        dealt@[j]
                    } else {
                        Option::<(Card, Card)>::None
                    }),
            decreases n - i,
        {
            let occ = self.seats[i].is_some();
            flags.push(occ);
            if occ {
                hole.push(dealt[i]);
            } else {
                hole.push(None);
            }
            i += 1;
        }
        let turn = first_to_act_index(&self.seats, self.dealer_index);
        proof {
            match self.dealer_index {
                Some(d) => {
                    lemma_first_occupied_props(self.seats@, d + 1, n as int);
                    lemma_first_occupied_props(self.seats@, 0, d + 1);
                },
                None => {
                    lemma_first_occupied_props(self.seats@, 0, n as int);
                },
            }
            assert forall|x: int, y: int|
                #![trigger hole@[x], hole@[y]]
                0 <= x < hole@.len() && 0 <= y < hole@.len() && hole@[x] is Some
                    && hole@[y] is Some implies {
                let a = hole@[x].unwrap();
                let b = hole@[y].unwrap();
                &&& a.0 != a.1
                &&& (x != y ==> a.0 != b.0 && a.0 != b.1 && a.1 != b.0 && a.1 != b.1)
            } by {
                assert(hole@[x] == dealt@[x]);
                assert(hole@[y] == dealt@[y]);
            }
            assert(holes_distinct(hole@));
        }
        if let Some(tok) = &self.turn_task {
            tok.cancel();
        }
        self.turn_task = Some(CancellationToken::new());
        self.active_hand = Some(
            HandState {
                id: hand_id,
                started_at,
                pot: 0,
                board: Vec::new(),
                hole_cards: hole,
                current_turn: turn,
                round: Round::PreFlop,
                players_in_hand: flags,
            },
        );
        Ok(())
    }
}


// ---------------------------------------------------------------------------
// Finishing a hand.
// ---------------------------------------------------------------------------

/// What settling a hand reports: the hand's identity, pot and board,
/// and the winning seat with its player and showdown strength, where a
/// winner exists.
#[derive(Clone, Debug)]
pub struct FinishOutcome {
    pub hand_id: u128,
    pub pot: i64,
    pub board: Vec<Card>,
    pub winner_seat: Option<usize>,
    pub winner_user: Option<u128>,
    pub winner_rank: Option<HandRank>,
}

/// Whether seat `i` is still contesting the hand.
pub open spec fn hand_live(h: HandState, i: int) -> bool {
    0 <= i < h.players_in_hand@.len() && h.players_in_hand@[i]
}

/// The seven (or fewer) cards seat `i` shows down: the board plus its
/// two hole cards.
pub open spec fn seven_of(h: HandState, i: int) -> Seq<Card> {
    h.board@ + seq![h.hole_cards@[i].unwrap().0, h.hole_cards@[i].unwrap().1]
}

/// The seat list after the pot is credited to the winner's stack; a
/// vacated winning seat receives nothing.
pub open spec fn award_seats(seats: Seq<Option<PlayerSlot>>, w: int, pot: i64) -> Seq<
    Option<PlayerSlot>,
> {
    if 0 <= w < seats.len() && seats[w] is Some {
        seats.update(
            w,
            Some(PlayerSlot { chips: (seats[w].unwrap().chips + pot) as i64, ..seats[w].unwrap() }),
        )
    } else {
        seats
    }
}

/// What finishing a hand does. Without an active hand it fails with
/// `NoActiveHand` and changes nothing. Otherwise the hand is cleared,
/// the timer handle is cancelled and dropped, and: with no live seat
/// there is no winner; with one live seat that seat wins by default;
/// with two or more, the winner is the first live seat whose best
/// five-card choice from board plus hole cards beats every choice of
/// every earlier live seat and at least matches every choice of every
/// live seat. The winner's seat, if still occupied, is credited the
/// whole pot.
pub open spec fn finish_rel(
    old_r: RoomState,
    new_r: RoomState,
    r: Result<FinishOutcome, GameError>,
) -> bool {
    match old_r.active_hand {
        None => r == Result::<FinishOutcome, GameError>::Err(GameError::NoActiveHand) && new_r
            == old_r,
        Some(h) => {
            &&& r is Ok
            &&& {
                let out = r.unwrap();
                let flags = h.players_in_hand@;
                let lc = count_true(flags);
                &&& out.hand_id == h.id
                &&& out.pot == h.pot
                &&& out.board@ == h.board@
                &&& new_r.room_id == old_r.room_id
                &&& new_r.max_players == old_r.max_players
                &&& new_r.dealer_index == old_r.dealer_index
                &&& new_r.active_hand is None
                &&& new_r.turn_task is None
                &&& if lc == 0 {
                    &&& out.winner_seat is None
                    &&& out.winner_user is None
                    &&& out.winner_rank is None
                    &&& new_r.seats@ == old_r.seats@
                } else {
                    &&& match out.winner_seat {
                        Some(w) => {
                            &&& hand_live(h, w as int)
                            &&& (lc == 1 ==> w as int == the_live_seat(flags) && out.winner_rank
                                is None)
                            &&& (lc >= 2 ==> match out.winner_rank {
                                Some(br) => {
                                    &&& is_choice_rank(seven_of(h, w as int), br@)
                                    &&& forall|j: int, a: int, b: int, c: int, d: int, e: int|
                                        hand_live(h, j) && valid_choice(
                                            seven_of(h, j).len() as int,
                                            a,
                                            b,
                                            c,
                                            d,
                                            e,
                                        ) ==> rank_le(
                                            #[trigger] choice_rank(seven_of(h, j), a, b, c, d, e),
                                            br@,
                                        )
                                    &&& forall|j: int, a: int, b: int, c: int, d: int, e: int|
                                        hand_live(h, j) && j < w && valid_choice(
                                            seven_of(h, j).len() as int,
                                            a,
                                            b,
                                            c,
                                            d,
                                            e,
                                        ) ==> rank_lt(
                                            #[trigger] choice_rank(seven_of(h, j), a, b, c, d, e),
                                            br@,
                                        )
                                },
                                None => false,
                            })
                            &&& new_r.seats@ == award_seats(old_r.seats@, w as int, h.pot)
                            &&& out.winner_user == (if old_r.seats@[w as int] is Some {
                                Some(old_r.seats@[w as int].unwrap().user_id)
                            } else {
                                Option::<u128>::None
                            })
                        },
                        None => false,
                    }
                }
            }
        },
    }
}

/// A copy of a card vector.
fn copy_cards(v: &Vec<Card>) -> (out: Vec<Card>)
    ensures
        out@ == v@,
{
    let mut out: Vec<Card> = Vec::new();
    let mut i: usize = 0;
    while i < v.len()
        invariant
            i <= v@.len(),
            out@ == v@.take(i as int),
        decreases v@.len() - i,
    {
        proof {
            assert(v@.take(i + 1) =~= v@.take(i as int).push(v@[i as int]));
        }
        out.push(v[i]);
        i += 1;
    }
    proof {
        assert(v@.take(v@.len() as int) =~= v@);
    }
    out
}

impl RoomState {
    /// Settles the active hand: evaluates every live seat's best
    /// five-card hand from board plus hole cards, credits the whole pot
    /// to the first seat holding the maximum, clears the hand and the
    /// turn timer. With one live seat that seat wins without a
    /// showdown; with none, nobody does. Fails with `NoActiveHand`,
    /// changing nothing, when no hand is running.
    pub fn finish_hand(&mut self) -> (r: Result<FinishOutcome, GameError>)
        requires
            old(self).wf(),
            match old(self).active_hand {
                Some(h) => {
                    &&& (count_true(h.players_in_hand@) >= 2 ==> h.board@.len() >= 3)
                    &&& forall|i: int|
                        0 <= i < old(self).seats@.len() && hand_live(h, i) && #[trigger] old(
                            self,
                        ).seats@[i] is Some ==> i64::MIN <= old(self).seats@[i].unwrap().chips
                            + h.pot <= i64::MAX
                },
                None => true,
            },
        ensures
            final(self).wf(),
            finish_rel(*old(self), *final(self), r),
    {
        let hand_id: u128;
        let pot: i64;
        let board_copy: Vec<Card>;
        let winner: Option<(usize, Option<HandRank>)>;
        match &self.active_hand {
            None => {
                return Err(GameError::NoActiveHand);
            },
            Some(h) => {
                hand_id = h.id;
                pot = h.pot;
                board_copy = copy_cards(&h.board);
                let lc = count_live(&h.players_in_hand);
                if lc == 0 {
                    winner = None;
                } else if lc == 1 {
                    match find_live(&h.players_in_hand) {
                        Some(w) => {
                            proof {
                                let flags = h.players_in_hand@;
                                assert(0 <= (w as int) && (w as int) < flags.len() && flags[w as int]);
                                let t = the_live_seat(flags);
                                assert(0 <= t < flags.len() && flags[t]);
                                if t < w as int {
                                    lemma_two_true(flags, t, w as int);
                                } else if t > w as int {
                                    lemma_two_true(flags, w as int, t);
                                }
                            }
                            winner = Some((w, None));
                        },
                        None => {
                            proof {
                                lemma_count_true_all_false(h.players_in_hand@);
                            }
                            winner = vstd::pervasive::unreached();
                        },
                    }
                } else {
                    let flags_ref = &h.players_in_hand;
                    let n2 = flags_ref.len();
                    let mut best: Option<(usize, HandRank)> = None;
                    let mut i: usize = 0;
                    while i < n2
                        invariant
                            flags_ref@ == h.players_in_hand@,
                            n2 == h.players_in_hand@.len(),
                            i <= n2,
                            3 <= h.board@.len() <= 5,
                            h.hole_cards@.len() == n2,
                            forall|j: int|
                                0 <= j < n2 && h.players_in_hand@[j]
                                    ==> #[trigger] h.hole_cards@[j] is Some,
                            match best {
                                None => forall|j: int| 0 <= j < i ==> !h.players_in_hand@[j],
                                Some((w, br)) => {
                                    &&& (w as int) < i
                                    &&& hand_live(*h, w as int)
                                    &&& is_choice_rank(seven_of(*h, w as int), br@)
                                    &&& forall|j: int, a: int, b: int, c: int, d: int, e: int|
                                        0 <= j < i && hand_live(*h, j) && valid_choice(
                                            seven_of(*h, j).len() as int,
                                            a,
                                            b,
                                            c,
                                            d,
                                            e,
                                        ) ==> rank_le(
                                            #[trigger] choice_rank(seven_of(*h, j), a, b, c, d, e),
                                            br@,
                                        )
                                    &&& forall|j: int, a: int, b: int, c: int, d: int, e: int|
                                        hand_live(*h, j) && j < w && valid_choice(
                                            seven_of(*h, j).len() as int,
                                            a,
                                            b,
                                            c,
                                            d,
                                            e,
                                        ) ==> rank_lt(
                                            #[trigger] choice_rank(seven_of(*h, j), a, b, c, d, e),
                                            br@,
                                        )
                                },
                            },
                        decreases n2 - i,
                    {
                        if flags_ref[i] {
                            let hc = h.hole_cards[i];
                            match hc {
                                Some((c1, c2)) => {
                                    let mut cards = copy_cards(&h.board);
                                    cards.push(c1);
                                    cards.push(c2);
                                    proof {
                                        assert(cards@ =~= seven_of(*h, i as int));
                                    }
                                    let rank = evaluate_best_of_seven(&cards);
                                    let ghost grank = rank@;
                                    let ghost gcards = cards@;
                                    let replace = match &best {
                                        None => true,
                                        Some((_, br)) => rank.beats(br),
                                    };
                                    let ghost prev = best;
                                    if replace {
                                        best = Some((i, rank));
                                    }
                                    proof {
                                        let w1 = best.unwrap().0 as int;
                                        let br1 = best.unwrap().1@;
                                        match prev {
                                            None => {
                                                assert(w1 == i as int && br1 == grank);
                                            },
                                            Some((w0, br0)) => {
                                                lemma_rank_order_total(br0@, grank);
                                                if replace {
                                                    assert(w1 == i as int && br1 == grank);
                                                    assert(rank_lt(br0@, grank));
                                                } else {
                                                    assert(w1 == w0 as int && br1 == br0@);
                                                    assert(rank_le(grank, br0@));
                                                }
                                            },
                                        }
                                        assert(seven_of(*h, i as int) == gcards);
                                        assert forall|j: int, a: int, b: int, c: int, d: int, e: int|
                                            0 <= j < i + 1 && hand_live(*h, j) && valid_choice(
                                                seven_of(*h, j).len() as int,
                                                a,
                                                b,
                                                c,
                                                d,
                                                e,
                                            ) implies rank_le(
                                            #[trigger] choice_rank(seven_of(*h, j), a, b, c, d, e),
                                            br1,
                                        ) by {
                                            let x = choice_rank(seven_of(*h, j), a, b, c, d, e);
                                            if j == i as int {
                                                assert(rank_le(choice_rank(gcards, a, b, c, d, e), grank));
                                                match prev {
                                                    None => {},
                                                    Some((w0, br0)) => {
                                                        if !replace {
                                                            lemma_rank_le_trans(x, grank, br0@);
                                                        }
                                                    },
                                                }
                                            } else {
                                                match prev {
                                                    None => {
                                                        assert(!h.players_in_hand@[j]);
                                                    },
                                                    Some((w0, br0)) => {
                                                        assert(rank_le(x, br0@));
                                                        if replace {
                                                            lemma_rank_le_trans(x, br0@, grank);
                                                        }
                                                    },
                                                }
                                            }
                                        }
                                        assert forall|j: int, a: int, b: int, c: int, d: int, e: int|
                                            hand_live(*h, j) && j < w1 && valid_choice(
                                                seven_of(*h, j).len() as int,
                                                a,
                                                b,
                                                c,
                                                d,
                                                e,
                                            ) implies rank_lt(
                                            #[trigger] choice_rank(seven_of(*h, j), a, b, c, d, e),
                                            br1,
                                        ) by {
                                            let x = choice_rank(seven_of(*h, j), a, b, c, d, e);
                                            match prev {
                                                None => {
                                                    assert(!h.players_in_hand@[j]);
                                                },
                                                Some((w0, br0)) => {
                                                    if replace {
                                                        assert(rank_le(x, br0@));
                                                        lemma_rank_le_lt_trans(x, br0@, grank);
                                                    }
                                                },
                                            }
                                        }
                                    }
                                },
                                None => {
                                    return vstd::pervasive::unreached();
                                },
                            }
                        }
                        i += 1;
                    }
                    match best {
                        Some((w, br)) => {
                            winner = Some((w, Some(br)));
                        },
                        None => {
                            proof {
                                lemma_count_true_pos(h.players_in_hand@);
                            }
                            winner = vstd::pervasive::unreached();
                        },
                    }
                }
                proof {
                    assert(*h == old(self).active_hand.unwrap());
                }
            },
        }
        if let Some(tok) = &self.turn_task {
            tok.cancel();
        }
        self.turn_task = None;
        self.active_hand = None;
        match winner {
            None => Ok(
                FinishOutcome {
                    hand_id,
                    pot,
                    board: board_copy,
                    winner_seat: None,
                    winner_user: None,
                    winner_rank: None,
                },
            ),
            Some((w, rk)) => {
                let slot = self.seats[w];
                match slot {
                    Some(ps) => {
                        self.seats[w] = Some(PlayerSlot { chips: ps.chips + pot, ..ps });
                        Ok(
                            FinishOutcome {
                                hand_id,
                                pot,
                                board: board_copy,
                                winner_seat: Some(w),
                                winner_user: Some(ps.user_id),
                                winner_rank: rk,
                            },
                        )
                    },
                    None => Ok(
                        FinishOutcome {
                            hand_id,
                            pot,
                            board: board_copy,
                            winner_seat: Some(w),
                            winner_user: None,
                            winner_rank: rk,
                        },
                    ),
                }
            },
        }
    }
}


// ---------------------------------------------------------------------------
// Player actions.
// ---------------------------------------------------------------------------

/// What applying an action reports: the hand acted in, the acting seat,
/// the action as recorded, the seat on turn next, and the settlement
/// when the action left fewer than two live seats.
#[derive(Clone, Debug)]
pub struct ActionOutcome {
    pub hand_id: u128,
    pub seat: usize,
    pub kind: ActionKind,
    pub amount: i64,
    pub next_turn: Option<usize>,
    pub finish: Option<FinishOutcome>,
}

/// The acting seat of a player (meaningful where the player is seated).
pub open spec fn user_seat_of(seats: Seq<Option<PlayerSlot>>, u: u128) -> int {
    choose|s: int| is_user_seat(seats, u, s)
}

proof fn lemma_user_seat_unique(seats: Seq<Option<PlayerSlot>>, u: u128, s1: int, s2: int)
    requires
        is_user_seat(seats, u, s1),
        is_user_seat(seats, u, s2),
    ensures
        s1 == s2,
{
    if s1 < s2 {
        assert(!seat_holds(seats, u, s1));
    } else if s2 < s1 {
        assert(!seat_holds(seats, u, s2));
    }
}

/// The pot after the action: bets, raises and calls add the amount,
/// all-in adds the actor's whole stack, folds and checks move nothing.
pub open spec fn act_pot(h: HandState, chips_s: i64, kind: ActionKind, amount: i64) -> int {
    match kind {
        ActionKind::Bet | ActionKind::Raise | ActionKind::Call => h.pot + amount,
        ActionKind::AllIn => h.pot + chips_s,
        _ => h.pot as int,
    }
}

/// The live flags after the action: only a fold changes them.
pub open spec fn act_flags(h: HandState, s: int, kind: ActionKind) -> Seq<bool> {
    if kind == ActionKind::Fold {
        h.players_in_hand@.update(s, false)
    } else {
        h.players_in_hand@
    }
}

/// The seats after the action: bets, raises and calls deduct the amount
/// from the actor's stack, all-in zeroes it, the rest leave it alone.
pub open spec fn act_seats(
    seats: Seq<Option<PlayerSlot>>,
    s: int,
    kind: ActionKind,
    amount: i64,
) -> Seq<Option<PlayerSlot>> {
    match kind {
        ActionKind::Bet | ActionKind::Raise | ActionKind::Call => seats.update(
            s,
            Some(
                PlayerSlot {
                    chips: (seats[s].unwrap().chips - amount) as i64,
                    ..seats[s].unwrap()
                },
            ),
        ),
        ActionKind::AllIn => seats.update(
            s,
            Some(PlayerSlot { chips: 0, ..seats[s].unwrap() }),
        ),
        _ => seats,
    }
}

/// The bounds that keep the action's chip arithmetic inside `i64`: what
/// a bet adds to the pot and takes from the stack must fit, an all-in
/// pot must fit, and every live seat's stack plus the pot must fit, so
/// that a completed hand can credit its winner.
pub open spec fn act_guard(r: RoomState, user_id: u128, kind: ActionKind, amount: i64) -> bool {
    match r.active_hand {
        None => true,
        Some(h) => forall|s: int|
            #[trigger] is_user_seat(r.seats@, user_id, s) ==> {
                let chips_s = r.seats@[s].unwrap().chips;
                &&& ((kind == ActionKind::Bet || kind == ActionKind::Raise || kind
                    == ActionKind::Call) ==> 0 <= amount && h.pot + amount <= i64::MAX && i64::MIN
                    <= chips_s - amount)
                &&& (kind == ActionKind::AllIn ==> i64::MIN <= h.pot + chips_s && h.pot + chips_s
                    <= i64::MAX)
                &&& forall|i: int|
                    0 <= i < r.seats@.len() && hand_live(h, i) && #[trigger] r.seats@[i] is Some
                        ==> i64::MIN <= r.seats@[i].unwrap().chips + h.pot
                        && r.seats@[i].unwrap().chips + h.pot <= i64::MAX
            },
    }
}

/// What handling an action does. A player without a seat is refused
/// with `PlayerNotSeated`; without an active hand the action is refused
/// with `NoActiveHand`; a seat out of turn with `NotPlayersTurn`; an
/// unrecognized kind with `UnsupportedAction` — each refusal leaves the
/// room untouched. Otherwise the action's chip movement is applied, the
/// turn advances to the next live seat in circular order, and if fewer
/// than two seats remain live the hand is settled as `finish_rel` says,
/// from the state the action produced.
pub open spec fn act_rel(
    old_r: RoomState,
    new_r: RoomState,
    user_id: u128,
    kind: ActionKind,
    amount: i64,
    r: Result<ActionOutcome, GameError>,
) -> bool {
    if !user_seated(old_r.seats@, user_id) {
        r == Result::<ActionOutcome, GameError>::Err(GameError::PlayerNotSeated) && new_r == old_r
    } else {
        let s = user_seat_of(old_r.seats@, user_id);
        match old_r.active_hand {
            None => r == Result::<ActionOutcome, GameError>::Err(GameError::NoActiveHand) && new_r
                == old_r,
            Some(h) => {
                if !(h.current_turn == Some(s as usize)) {
                    r == Result::<ActionOutcome, GameError>::Err(GameError::NotPlayersTurn)
                        && new_r == old_r
                } else if kind == ActionKind::Other {
                    r == Result::<ActionOutcome, GameError>::Err(GameError::UnsupportedAction)
                        && new_r == old_r
                } else {
                    &&& r is Ok
                    &&& {
                        let out = r.unwrap();
                        let chips_s = old_r.seats@[s].unwrap().chips;
                        let pot2 = act_pot(h, chips_s, kind, amount);
                        let flags2 = act_flags(h, s, kind);
                        let seats2 = act_seats(old_r.seats@, s, kind, amount);
                        let next = spec_next_live(flags2, s);
                        &&& out.hand_id == h.id
                        &&& out.seat == s
                        &&& out.kind == kind
                        &&& out.amount == amount
                        &&& (match out.next_turn {
                            Some(t) => next == Some(t as int),
                            None => next is None,
                        })
                        &&& if count_true(flags2) <= 1 {
                            match out.finish {
                                Some(f) => exists|mid: RoomState|
                                    {
                                        &&& #[trigger] finish_rel(
                                            mid,
                                            new_r,
                                            Result::<FinishOutcome, GameError>::Ok(f),
                                        )
                                        &&& mid.room_id == old_r.room_id
                                        &&& mid.max_players == old_r.max_players
                                        &&& mid.dealer_index == old_r.dealer_index
                                        &&& mid.seats@ == seats2
                                        &&& mid.active_hand is Some
                                        &&& {
                                            let hm = mid.active_hand.unwrap();
                                            &&& hm.id == h.id
                                            &&& hm.started_at == h.started_at
                                            &&& hm.pot == pot2
                                            &&& hm.board@ == h.board@
                                            &&& hm.hole_cards@ == h.hole_cards@
                                            &&& hm.round == h.round
                                            &&& hm.players_in_hand@ == flags2
                                        }
                                    },
                                None => false,
                            }
                        } else {
                            &&& out.finish is None
                            &&& new_r.seats@ == seats2
                            &&& new_r.room_id == old_r.room_id
                            &&& new_r.max_players == old_r.max_players
                            &&& new_r.dealer_index == old_r.dealer_index
                            &&& new_r.turn_task is Some
                            &&& new_r.active_hand is Some
                            &&& {
                                let hn = new_r.active_hand.unwrap();
                                &&& hn.id == h.id
                                &&& hn.started_at == h.started_at
                                &&& hn.pot == pot2
                                &&& hn.board@ == h.board@
                                &&& hn.hole_cards@ == h.hole_cards@
                                &&& hn.round == h.round
                                &&& hn.players_in_hand@ == flags2
                                &&& (match hn.current_turn {
                                    Some(t) => next == Some(t as int),
                                    None => next is None,
                                })
                            }
                        }
                    }
                }
            },
        }
    }
}

impl RoomState {
    /// Applies one player action in turn order: folds drop the seat from
    /// the hand, checks move nothing, bets, raises and calls move the
    /// amount from the actor's stack to the pot, and all-in moves the
    /// whole stack. The turn then advances to the next live seat; if
    /// fewer than two seats stay live, the hand is settled at once and
    /// the single live seat, if any, is awarded the pot.
    pub fn handle_action(&mut self, user_id: u128, kind: ActionKind, amount: i64) -> (r: Result<
        ActionOutcome,
        GameError,
    >)
        requires
            old(self).wf(),
            act_guard(*old(self), user_id, kind, amount),
        ensures
            final(self).wf(),
            act_rel(*old(self), *final(self), user_id, kind, amount, r),
    {
        let s = match find_user_seat(&self.seats, user_id) {
            Some(s) => s,
            None => {
                return Err(GameError::PlayerNotSeated);
            },
        };
        proof {
            assert(seat_holds(self.seats@, user_id, s as int));
            assert(user_seated(self.seats@, user_id));
            let cs = user_seat_of(self.seats@, user_id);
            assert(is_user_seat(self.seats@, user_id, cs));
            lemma_user_seat_unique(self.seats@, user_id, cs, s as int);
        }
        let hand_id: u128;
        match &self.active_hand {
            None => {
                return Err(GameError::NoActiveHand);
            },
            Some(h) => {
                hand_id = h.id;
                let turn_ok = match h.current_turn {
                    Some(t) => t == s,
                    None => false,
                };
                if !turn_ok {
                    return Err(GameError::NotPlayersTurn);
                }
            },
        }
        if kind == ActionKind::Other {
            return Err(GameError::UnsupportedAction);
        }
        proof {
            assert(is_user_seat(old(self).seats@, user_id, s as int));
        }
        let ghost h0 = self.active_hand.unwrap();
        let ghost chips_s0 = self.seats@[s as int].unwrap().chips;
        match kind {
            ActionKind::Fold => {
                match &mut self.active_hand {
                    Some(h) => {
                        h.players_in_hand[s] = false;
                    },
                    None => {},
                }
            },
            ActionKind::Check => {},
            ActionKind::Bet | ActionKind::Raise | ActionKind::Call => {
                let ps = self.seats[s];
                match ps {
                    Some(mut p) => {
                        p.chips = p.chips - amount;
                        self.seats[s] = Some(p);
                    },
                    None => {},
                }
                match &mut self.active_hand {
                    Some(h) => {
                        h.pot = h.pot + amount;
                    },
                    None => {},
                }
            },
            ActionKind::AllIn => {
                let ps = self.seats[s];
                match ps {
                    Some(mut p) => {
                        let amt = p.chips;
                        p.chips = 0;
                        self.seats[s] = Some(p);
                        match &mut self.active_hand {
                            Some(h) => {
                                h.pot = h.pot + amt;
                            },
                            None => {},
                        }
                    },
                    None => {},
                }
            },
            ActionKind::Other => {},
        }
        proof {
            assert(self.seats@ == act_seats(old(self).seats@, s as int, kind, amount));
            assert(self.active_hand is Some);
            assert(self.active_hand.unwrap().players_in_hand@ == act_flags(h0, s as int, kind));
            assert(self.active_hand.unwrap().pot == act_pot(h0, chips_s0, kind, amount));
        }
        let next: Option<usize>;
        match &self.active_hand {
            Some(h) => {
                next = next_live_player(&h.players_in_hand, s);
            },
            None => {
                next = None;
            },
        }
        match &mut self.active_hand {
            Some(h) => {
                h.current_turn = next;
            },
            None => {},
        }
        proof {
            let flags2 = act_flags(h0, s as int, kind);
            lemma_first_live_props(flags2, s as int + 1, flags2.len() as int);
            lemma_first_live_props(flags2, 0, s as int + 1);
            assert(self.wf());
        }
        let alive: usize;
        match &self.active_hand {
            Some(h) => {
                alive = count_live(&h.players_in_hand);
            },
            None => {
                alive = 0;
            },
        }
        if alive <= 1 {
            let ghost mid = *self;
            proof {
                let flags2 = act_flags(h0, s as int, kind);
                let hmid = mid.active_hand.unwrap();
                assert forall|i: int|
                    0 <= i < mid.seats@.len() && hand_live(hmid, i) && #[trigger] mid.seats@[i]
                        is Some implies i64::MIN <= mid.seats@[i].unwrap().chips + hmid.pot
                    && mid.seats@[i].unwrap().chips + hmid.pot <= i64::MAX by {
                    if kind == ActionKind::Fold || kind == ActionKind::Check {
                        assert(hand_live(h0, i));
                        assert(mid.seats@[i] == old(self).seats@[i]);
                    } else {
                        assert(flags2 == h0.players_in_hand@);
                        assert(hand_live(h0, i));
                        if i != s as int {
                            assert(h0.players_in_hand@[s as int]);
                            lemma_two_true(
                                flags2,
                                if i < s as int {
                                    i
                                } else {
                                    s as int
                                },
                                if i < s as int {
                                    s as int
                                } else {
                                    i
                                },
                            );
                            lemma_true_count_pos(flags2, i);
                            assert(false);
                        }
                        assert(mid.seats@[i] == act_seats(
                            old(self).seats@,
                            s as int,
                            kind,
                            amount,
                        )[s as int]);
                    }
                }
            }
            let f = match self.finish_hand() {
                Ok(f) => f,
                Err(_) => {
                    return vstd::pervasive::unreached();
                },
            };
            return Ok(
                ActionOutcome { hand_id, seat: s, kind, amount, next_turn: next, finish: Some(f) },
            );
        }
        if let Some(tok) = &self.turn_task {
            tok.cancel();
        }
        self.turn_task = Some(CancellationToken::new());
        Ok(ActionOutcome { hand_id, seat: s, kind, amount, next_turn: next, finish: None })
    }
}

} // verus!
