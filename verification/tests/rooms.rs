use poker_core::cards::{Card, Suit};
use poker_core::errors::GameError;
use poker_core::manager::GameManager;
use poker_core::room::{
    action_kind_of, ActionKind, HandState, PlayerSlot, RoomState, Round,
};

fn c(rank: u8, suit: Suit) -> Card {
    Card { rank, suit }
}

#[test]
fn join_requested_seat_then_fallback() {
    let mut room = RoomState::new(7, 6);
    let r = room.join(100, Some(3));
    assert_eq!(r, Ok(3));
    assert!(room.seats[2].is_some());
    assert_eq!(room.seats[2].as_ref().unwrap().user_id, 100);
    assert_eq!(room.seats[2].as_ref().unwrap().chips, 1000);
    // A second request for the taken seat falls through to the lowest
    // free seat instead of failing.
    let r2 = room.join(101, Some(3));
    assert_eq!(r2, Ok(1));
    assert_eq!(room.seats[0].as_ref().unwrap().user_id, 101);
}

#[test]
fn join_without_request_takes_lowest_free_seat() {
    let mut room = RoomState::new(7, 6);
    assert_eq!(room.join(1, None), Ok(1));
    assert_eq!(room.join(2, None), Ok(2));
    assert_eq!(room.join(3, Some(6)), Ok(6));
    assert_eq!(room.join(4, None), Ok(3));
}

#[test]
fn join_full_room_fails() {
    let mut room = RoomState::new(7, 2);
    assert_eq!(room.join(1, None), Ok(1));
    assert_eq!(room.join(2, None), Ok(2));
    assert_eq!(room.join(3, None), Err(GameError::RoomFull));
}

#[test]
fn leave_frees_the_seat_and_is_idempotent() {
    let mut room = RoomState::new(7, 6);
    room.join(1, Some(2)).unwrap();
    room.leave(1);
    assert!(room.seats[1].is_none());
    room.leave(1);
    assert!(room.seats.iter().all(|s| s.is_none()));
}

#[test]
fn start_hand_deals_two_hole_cards_per_occupied_seat() {
    let mut room = RoomState::new(7, 6);
    room.join(1, Some(1)).unwrap();
    room.join(2, Some(4)).unwrap();
    let r = room.start_hand(42, 1_700_000_000_000);
    assert!(r.is_ok());
    let hand = room.active_hand.as_ref().unwrap();
    assert_eq!(hand.id, 42);
    assert_eq!(hand.pot, 0);
    assert!(hand.board.is_empty());
    assert_eq!(hand.round, Round::PreFlop);
    let mut dealt = 0;
    for (i, hc) in hand.hole_cards.iter().enumerate() {
        if room.seats[i].is_some() {
            assert!(hc.is_some());
            assert!(hand.players_in_hand[i]);
            dealt += 1;
        } else {
            assert!(hc.is_none());
            assert!(!hand.players_in_hand[i]);
        }
    }
    assert_eq!(dealt, 2);
    // The current turn points at a live seat.
    let t = hand.current_turn.expect("a seat is on turn");
    assert!(hand.players_in_hand[t]);
    // With no dealer set, the lowest occupied seat acts first.
    assert_eq!(t, 0);
}

#[test]
fn start_hand_twice_fails_without_overwriting() {
    let mut room = RoomState::new(7, 6);
    room.join(1, None).unwrap();
    room.join(2, None).unwrap();
    room.start_hand(1, 0).unwrap();
    let again = room.start_hand(2, 0);
    assert_eq!(again, Err(GameError::HandAlreadyActive));
    assert_eq!(room.active_hand.as_ref().unwrap().id, 1);
}

#[test]
fn fold_out_of_turn_fails_and_changes_nothing() {
    let mut room = RoomState::new(7, 6);
    room.join(1, Some(1)).unwrap();
    room.join(2, Some(2)).unwrap();
    room.start_hand(9, 0).unwrap();
    assert_eq!(room.active_hand.as_ref().unwrap().current_turn, Some(0));
    // Seat 2 (user 2) is not on turn.
    let r = room.handle_action(2, ActionKind::Fold, 0);
    assert_eq!(r.unwrap_err(), GameError::NotPlayersTurn);
    let hand = room.active_hand.as_ref().unwrap();
    assert_eq!(hand.pot, 0);
    assert!(hand.players_in_hand[1]);
    assert_eq!(room.seats[0].as_ref().unwrap().chips, 1000);
    assert_eq!(room.seats[1].as_ref().unwrap().chips, 1000);
}

#[test]
fn unseated_player_cannot_act() {
    let mut room = RoomState::new(7, 6);
    room.join(1, None).unwrap();
    room.join(2, None).unwrap();
    room.start_hand(9, 0).unwrap();
    let r = room.handle_action(77, ActionKind::Check, 0);
    assert_eq!(r.unwrap_err(), GameError::PlayerNotSeated);
}

#[test]
fn action_without_hand_fails() {
    let mut room = RoomState::new(7, 6);
    room.join(1, None).unwrap();
    let r = room.handle_action(1, ActionKind::Check, 0);
    assert_eq!(r.unwrap_err(), GameError::NoActiveHand);
}

#[test]
fn unrecognized_action_kind_is_unsupported() {
    let mut room = RoomState::new(7, 6);
    room.join(1, None).unwrap();
    room.join(2, None).unwrap();
    room.start_hand(9, 0).unwrap();
    let r = room.handle_action(1, ActionKind::Other, 0);
    assert_eq!(r.unwrap_err(), GameError::UnsupportedAction);
    assert!(room.active_hand.is_some());
}

#[test]
fn bet_moves_chips_into_the_pot_and_advances_the_turn() {
    let mut room = RoomState::new(7, 6);
    room.join(1, Some(1)).unwrap();
    room.join(2, Some(2)).unwrap();
    room.start_hand(9, 0).unwrap();
    let out = room.handle_action(1, ActionKind::Bet, 150).unwrap();
    assert_eq!(out.seat, 0);
    assert_eq!(out.next_turn, Some(1));
    assert!(out.finish.is_none());
    let hand = room.active_hand.as_ref().unwrap();
    assert_eq!(hand.pot, 150);
    assert_eq!(hand.current_turn, Some(1));
    assert_eq!(room.seats[0].as_ref().unwrap().chips, 850);
    assert_eq!(room.seats[1].as_ref().unwrap().chips, 1000);
}

#[test]
fn check_moves_no_chips() {
    let mut room = RoomState::new(7, 6);
    room.join(1, None).unwrap();
    room.join(2, None).unwrap();
    room.start_hand(9, 0).unwrap();
    let out = room.handle_action(1, ActionKind::Check, 0).unwrap();
    assert_eq!(out.next_turn, Some(1));
    let hand = room.active_hand.as_ref().unwrap();
    assert_eq!(hand.pot, 0);
    assert_eq!(room.seats[0].as_ref().unwrap().chips, 1000);
}

#[test]
fn allin_moves_the_whole_stack() {
    let mut room = RoomState::new(7, 6);
    room.join(1, None).unwrap();
    room.join(2, None).unwrap();
    room.join(3, None).unwrap();
    room.start_hand(9, 0).unwrap();
    room.handle_action(1, ActionKind::AllIn, 0).unwrap();
    let hand = room.active_hand.as_ref().unwrap();
    assert_eq!(hand.pot, 1000);
    assert_eq!(room.seats[0].as_ref().unwrap().chips, 0);
    assert_eq!(hand.current_turn, Some(1));
}

#[test]
fn folding_down_to_one_seat_awards_the_pot() {
    let mut room = RoomState::new(7, 6);
    room.join(1, Some(1)).unwrap();
    room.join(2, Some(2)).unwrap();
    room.start_hand(9, 0).unwrap();
    // Seat 1 bets 200, then seat 2 folds: the hand completes and the
    // bettor takes the pot back.
    room.handle_action(1, ActionKind::Bet, 200).unwrap();
    assert_eq!(room.seats[0].as_ref().unwrap().chips, 800);
    let out = room.handle_action(2, ActionKind::Fold, 0).unwrap();
    let fin = out.finish.expect("the hand completes");
    assert_eq!(fin.winner_seat, Some(0));
    assert_eq!(fin.winner_user, Some(1));
    assert_eq!(fin.pot, 200);
    assert!(fin.winner_rank.is_none());
    assert!(room.active_hand.is_none());
    assert_eq!(room.seats[0].as_ref().unwrap().chips, 1000);
    assert_eq!(room.seats[1].as_ref().unwrap().chips, 1000);
}

#[test]
fn showdown_pair_of_aces_beats_pair_of_kings() {
    // A finished board, two live seats, and a direct settlement.
    let mut room = RoomState::new(7, 6);
    room.join(1, Some(1)).unwrap();
    room.join(2, Some(2)).unwrap();
    let mut hole_cards = vec![None; 6];
    hole_cards[0] = Some((c(14, Suit::Clubs), c(14, Suit::Spades)));
    hole_cards[1] = Some((c(13, Suit::Hearts), c(13, Suit::Diamonds)));
    let mut players_in_hand = vec![false; 6];
    players_in_hand[0] = true;
    players_in_hand[1] = true;
    room.active_hand = Some(HandState {
        id: 5,
        started_at: 0,
        pot: 300,
        board: vec![
            c(2, Suit::Clubs),
            c(7, Suit::Diamonds),
            c(9, Suit::Hearts),
            c(11, Suit::Spades),
            c(14, Suit::Diamonds),
        ],
        hole_cards,
        current_turn: None,
        round: Round::River,
        players_in_hand,
    });
    let fin = room.finish_hand().unwrap();
    assert_eq!(fin.winner_seat, Some(0));
    assert_eq!(fin.winner_user, Some(1));
    assert_eq!(fin.pot, 300);
    let rank = fin.winner_rank.expect("a showdown ranks the winner");
    // The board ace makes the winner's aces three of a kind.
    assert_eq!(rank.category, 3);
    assert_eq!(rank.tiebreakers, vec![14, 11, 9]);
    assert!(room.active_hand.is_none());
    assert_eq!(room.seats[0].as_ref().unwrap().chips, 1300);
    assert_eq!(room.seats[1].as_ref().unwrap().chips, 1000);
}

#[test]
fn finish_without_hand_fails() {
    let mut room = RoomState::new(7, 6);
    assert_eq!(room.finish_hand().unwrap_err(), GameError::NoActiveHand);
}

#[test]
fn manager_routes_operations_by_room() {
    let mut gm = GameManager::new();
    assert_eq!(gm.start_hand(1), Err(GameError::RoomNotFound));
    assert_eq!(
        gm.handle_action(1, 1, ActionKind::Check, 0).unwrap_err(),
        GameError::RoomNotFound
    );
    assert_eq!(gm.finish_hand(1).unwrap_err(), GameError::RoomNotFound);
    assert_eq!(gm.leave_room(5, 1), Ok(()));

    assert_eq!(gm.join_room(10, 1, Some(3)), Ok(3));
    assert_eq!(gm.join_room(11, 1, None), Ok(1));
    let hand_id = gm.start_hand(1).unwrap();
    let out = gm.handle_action(11, 1, ActionKind::Bet, 50).unwrap();
    assert_eq!(out.hand_id, hand_id);
    assert_eq!(out.seat, 0);
    let out2 = gm.handle_action(10, 1, ActionKind::Fold, 0).unwrap();
    let fin = out2.finish.expect("one live seat ends the hand");
    assert_eq!(fin.winner_user, Some(11));
}

#[test]
fn ensure_room_is_idempotent() {
    let mut gm = GameManager::new();
    gm.ensure_room(9, 4);
    gm.join_room(1, 9, None).unwrap();
    gm.ensure_room(9, 4);
    let room = gm.rooms.get(&9).unwrap();
    assert_eq!(room.max_players, 4);
    assert!(room.seats[0].is_some());
}

#[test]
fn action_labels_parse_to_kinds() {
    assert_eq!(action_kind_of("fold"), ActionKind::Fold);
    assert_eq!(action_kind_of("check"), ActionKind::Check);
    assert_eq!(action_kind_of("bet"), ActionKind::Bet);
    assert_eq!(action_kind_of("raise"), ActionKind::Raise);
    assert_eq!(action_kind_of("call"), ActionKind::Call);
    assert_eq!(action_kind_of("allin"), ActionKind::AllIn);
    assert_eq!(action_kind_of("jump"), ActionKind::Other);
    assert_eq!(action_kind_of(""), ActionKind::Other);
}

#[test]
fn first_to_act_follows_the_dealer_circularly() {
    let mut room = RoomState::new(7, 6);
    room.join(1, Some(1)).unwrap();
    room.join(2, Some(5)).unwrap();
    room.dealer_index = Some(3);
    room.start_hand(9, 0).unwrap();
    // The first occupied seat after the dealer at index 3 is index 4.
    assert_eq!(room.active_hand.as_ref().unwrap().current_turn, Some(4));

    let mut room2 = RoomState::new(8, 6);
    room2.join(1, Some(1)).unwrap();
    room2.join(2, Some(2)).unwrap();
    room2.dealer_index = Some(4);
    room2.start_hand(9, 0).unwrap();
    // Nothing is occupied after index 4, so the scan wraps to index 0.
    assert_eq!(room2.active_hand.as_ref().unwrap().current_turn, Some(0));
}

#[test]
fn turn_wraps_past_the_last_seat() {
    let mut room = RoomState::new(7, 3);
    room.join(1, None).unwrap();
    room.join(2, None).unwrap();
    room.join(3, None).unwrap();
    room.start_hand(9, 0).unwrap();
    assert_eq!(room.handle_action(1, ActionKind::Check, 0).unwrap().next_turn, Some(1));
    assert_eq!(room.handle_action(2, ActionKind::Check, 0).unwrap().next_turn, Some(2));
    assert_eq!(room.handle_action(3, ActionKind::Check, 0).unwrap().next_turn, Some(0));
}

#[test]
fn folded_seats_are_skipped_by_the_turn() {
    let mut room = RoomState::new(7, 3);
    room.join(1, None).unwrap();
    room.join(2, None).unwrap();
    room.join(3, None).unwrap();
    room.start_hand(9, 0).unwrap();
    room.handle_action(1, ActionKind::Fold, 0).unwrap();
    // Seat 0 folded: after seat 1 acts, the turn skips to seat 2.
    let out = room.handle_action(2, ActionKind::Check, 0).unwrap();
    assert_eq!(out.next_turn, Some(2));
    let out2 = room.handle_action(3, ActionKind::Check, 0).unwrap();
    assert_eq!(out2.next_turn, Some(1));
}

#[test]
fn slot_records_its_seat() {
    let mut room = RoomState::new(3, 2);
    room.join(4, Some(2)).unwrap();
    let slot: &PlayerSlot = room.seats[1].as_ref().unwrap();
    assert_eq!(slot.seat, 1);
    assert!(slot.connected);
}
