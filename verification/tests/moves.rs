use deep_red::board::{
    EnPassanteVulnerability, GameState, Piece, PieceWithTeam, Play, RochadeAbility, Team,
    TilePosition,
};
use deep_red::moves::try_play;

fn sq(letter: usize, number: usize) -> TilePosition {
    TilePosition { letter, number }
}

fn put(state: &mut GameState, letter: usize, number: usize, piece: Piece, team: Team) {
    state.board[number][letter] = Some(PieceWithTeam { piece, team });
}

fn a_pawn() -> Piece {
    Piece::Pawn(EnPassanteVulnerability::Invulnerable)
}

fn targets(state: &GameState, origin: TilePosition) -> Vec<(usize, usize)> {
    let plays = Play::get_possible_plays_for_tile(origin, state);
    for play in &plays {
        assert_eq!(play.origin, origin);
    }
    plays.iter().map(|play| (play.target.letter, play.target.number)).collect()
}

fn sorted(mut squares: Vec<(usize, usize)>) -> Vec<(usize, usize)> {
    squares.sort();
    squares
}

fn alone(piece: Piece, team: Team, letter: usize, number: usize) -> GameState {
    let mut state = GameState::empty();
    state.turn = team;
    put(&mut state, letter, number, piece, team);
    state
}

#[test]
fn empty_board_has_no_plays_from_any_square() {
    let state = GameState::empty();
    for number in 0..8 {
        for letter in 0..8 {
            assert!(Play::get_possible_plays_for_tile(sq(letter, number), &state).is_empty());
        }
    }
    assert!(Play::get_all_possible_plays(&state).is_empty());
}

#[test]
fn invalid_origin_has_no_plays() {
    let state = GameState::new();
    assert!(Play::get_possible_plays_for_tile(sq(8, 0), &state).is_empty());
    assert!(Play::get_possible_plays_for_tile(sq(0, 8), &state).is_empty());
    assert!(Play::get_possible_plays_for_tile(sq(255, 255), &state).is_empty());
    assert!(Play::get_possible_plays_for_tile(sq(usize::MAX, 1), &state).is_empty());
}

#[test]
fn side_not_to_move_has_no_plays() {
    let state = GameState::new();
    for number in 6..8 {
        for letter in 0..8 {
            assert!(Play::get_possible_plays_for_tile(sq(letter, number), &state).is_empty());
        }
    }
    let mut black_to_move = GameState::new();
    black_to_move.turn = Team::Black;
    for number in 0..2 {
        for letter in 0..8 {
            assert!(
                Play::get_possible_plays_for_tile(sq(letter, number), &black_to_move).is_empty()
            );
        }
    }
}

#[test]
fn initial_pawn_has_single_and_double_step() {
    let state = GameState::new();
    let plays = Play::get_possible_plays_for_tile(sq(4, 1), &state);
    assert_eq!(
        plays,
        vec![
            Play { origin: sq(4, 1), target: sq(4, 2) },
            Play { origin: sq(4, 1), target: sq(4, 3) },
        ]
    );
}

#[test]
fn initial_knight_has_two_plays() {
    let state = GameState::new();
    assert_eq!(sorted(targets(&state, sq(1, 0))), vec![(0, 2), (2, 2)]);
}

#[test]
fn rook_alone_in_the_corner_has_fourteen_plays() {
    let state = alone(Piece::Rook(RochadeAbility::Able), Team::White, 0, 0);
    let found = targets(&state, sq(0, 0));
    assert_eq!(found.len(), 14);
    let expected: Vec<(usize, usize)> =
        (1..8).map(|n| (0, n)).chain((1..8).map(|l| (l, 0))).collect();
    assert_eq!(sorted(found), sorted(expected));
}

#[test]
fn rook_captures_the_first_blocker_on_each_line() {
    let mut state = alone(Piece::Rook(RochadeAbility::Able), Team::White, 0, 0);
    put(&mut state, 1, 1, a_pawn(), Team::Black);
    put(&mut state, 3, 0, a_pawn(), Team::Black);
    put(&mut state, 0, 2, a_pawn(), Team::Black);
    put(&mut state, 0, 5, a_pawn(), Team::Black);
    assert_eq!(
        sorted(targets(&state, sq(0, 0))),
        vec![(0, 1), (0, 2), (1, 0), (2, 0), (3, 0)]
    );
}

#[test]
fn rook_stops_before_a_piece_of_its_own_side() {
    let mut state = alone(Piece::Rook(RochadeAbility::Able), Team::White, 0, 0);
    put(&mut state, 3, 0, a_pawn(), Team::White);
    put(&mut state, 0, 1, a_pawn(), Team::White);
    assert_eq!(sorted(targets(&state, sq(0, 0))), vec![(1, 0), (2, 0)]);
}

#[test]
fn rook_plays_come_up_down_right_left() {
    let state = alone(Piece::Rook(RochadeAbility::Unable), Team::White, 1, 1);
    assert_eq!(
        targets(&state, sq(1, 1)),
        vec![
            (1, 2), (1, 3), (1, 4), (1, 5), (1, 6), (1, 7),
            (1, 0),
            (2, 1), (3, 1), (4, 1), (5, 1), (6, 1), (7, 1),
            (0, 1),
        ]
    );
}

#[test]
fn bishop_slides_on_the_diagonals_only() {
    let state = alone(Piece::Bishop, Team::White, 2, 1);
    assert_eq!(
        targets(&state, sq(2, 1)),
        vec![
            (3, 2), (4, 3), (5, 4), (6, 5), (7, 6),
            (1, 2), (0, 3),
            (3, 0),
            (1, 0),
        ]
    );
}

#[test]
fn queen_slides_on_all_eight_lines() {
    let state = alone(Piece::Queen, Team::Black, 3, 3);
    let found = targets(&state, sq(3, 3));
    assert_eq!(found.len(), 27);
    for (letter, number) in &found {
        let d_letter = (*letter as i32 - 3).abs();
        let d_number = (*number as i32 - 3).abs();
        assert!(d_letter == 0 || d_number == 0 || d_letter == d_number);
    }
    assert_eq!(&found[..4], &[(4, 4), (5, 5), (6, 6), (7, 7)]);
}

#[test]
fn queen_in_the_initial_position_is_shut_in() {
    let state = GameState::new();
    assert!(targets(&state, sq(3, 0)).is_empty());
    assert!(targets(&state, sq(0, 0)).is_empty());
    assert!(targets(&state, sq(2, 0)).is_empty());
    assert!(targets(&state, sq(4, 0)).is_empty());
}

#[test]
fn king_in_the_middle_has_eight_plays_in_order() {
    let state = alone(Piece::King(RochadeAbility::Able), Team::White, 4, 4);
    assert_eq!(
        targets(&state, sq(4, 4)),
        vec![(5, 5), (5, 4), (5, 3), (4, 3), (3, 3), (3, 4), (3, 5), (4, 5)]
    );
}

#[test]
fn king_in_a_corner_stays_on_the_board() {
    let state = alone(Piece::King(RochadeAbility::Able), Team::White, 0, 0);
    assert_eq!(sorted(targets(&state, sq(0, 0))), vec![(0, 1), (1, 0), (1, 1)]);
    let state = alone(Piece::King(RochadeAbility::Unable), Team::Black, 7, 7);
    assert_eq!(sorted(targets(&state, sq(7, 7))), vec![(6, 6), (6, 7), (7, 6)]);
}

#[test]
fn king_takes_enemies_and_spares_friends() {
    let mut state = alone(Piece::King(RochadeAbility::Able), Team::White, 4, 4);
    put(&mut state, 5, 5, a_pawn(), Team::White);
    put(&mut state, 3, 3, a_pawn(), Team::Black);
    let found = targets(&state, sq(4, 4));
    assert_eq!(found.len(), 7);
    assert!(!found.contains(&(5, 5)));
    assert!(found.contains(&(3, 3)));
}

#[test]
fn king_flag_does_not_change_its_plays() {
    let able = alone(Piece::King(RochadeAbility::Able), Team::White, 4, 0);
    let unable = alone(Piece::King(RochadeAbility::Unable), Team::White, 4, 0);
    assert_eq!(targets(&able, sq(4, 0)), targets(&unable, sq(4, 0)));
}

#[test]
fn knight_in_the_middle_has_eight_jumps_in_order() {
    let state = alone(Piece::Horse, Team::White, 3, 3);
    assert_eq!(
        targets(&state, sq(3, 3)),
        vec![(5, 4), (5, 2), (4, 5), (2, 5), (2, 1), (4, 1), (1, 2), (1, 4)]
    );
}

#[test]
fn knight_in_a_corner_stays_on_the_board() {
    let state = alone(Piece::Horse, Team::White, 0, 0);
    assert_eq!(sorted(targets(&state, sq(0, 0))), vec![(1, 2), (2, 1)]);
    let state = alone(Piece::Horse, Team::White, 7, 7);
    assert_eq!(sorted(targets(&state, sq(7, 7))), vec![(5, 6), (6, 5)]);
    let state = alone(Piece::Horse, Team::White, 6, 1);
    assert_eq!(sorted(targets(&state, sq(6, 1))), vec![(4, 0), (4, 2), (5, 3), (7, 3)]);
}

#[test]
fn knight_jumps_over_pieces() {
    let mut state = alone(Piece::Horse, Team::White, 3, 3);
    for (letter, number) in [(2, 2), (2, 3), (2, 4), (3, 2), (3, 4), (4, 2), (4, 3), (4, 4)] {
        put(&mut state, letter, number, a_pawn(), Team::Black);
    }
    assert_eq!(targets(&state, sq(3, 3)).len(), 8);
}

#[test]
fn knight_spares_friends_and_takes_enemies() {
    let mut state = alone(Piece::Horse, Team::White, 3, 3);
    put(&mut state, 5, 4, a_pawn(), Team::White);
    put(&mut state, 1, 2, a_pawn(), Team::Black);
    let found = targets(&state, sq(3, 3));
    assert_eq!(found.len(), 7);
    assert!(!found.contains(&(5, 4)));
    assert!(found.contains(&(1, 2)));
}

#[test]
fn black_pawn_moves_down_the_board() {
    let mut state = GameState::new();
    state.turn = Team::Black;
    assert_eq!(targets(&state, sq(4, 6)), vec![(4, 5), (4, 4)]);
}

#[test]
fn pawn_off_its_starting_rank_steps_once() {
    let state = alone(a_pawn(), Team::White, 4, 2);
    assert_eq!(targets(&state, sq(4, 2)), vec![(4, 3)]);
    let state = alone(a_pawn(), Team::Black, 4, 5);
    assert_eq!(targets(&state, sq(4, 5)), vec![(4, 4)]);
    let state = alone(a_pawn(), Team::White, 4, 6);
    assert_eq!(targets(&state, sq(4, 6)), vec![(4, 7)]);
    let state = alone(a_pawn(), Team::Black, 4, 1);
    assert_eq!(targets(&state, sq(4, 1)), vec![(4, 0)]);
}

#[test]
fn pawn_blocked_ahead_has_no_advance() {
    let mut state = alone(a_pawn(), Team::White, 4, 1);
    put(&mut state, 4, 2, a_pawn(), Team::Black);
    assert!(targets(&state, sq(4, 1)).is_empty());
    let mut state = alone(a_pawn(), Team::White, 4, 1);
    put(&mut state, 4, 2, a_pawn(), Team::White);
    assert!(targets(&state, sq(4, 1)).is_empty());
}

#[test]
fn pawn_double_step_needs_the_second_square_free() {
    let mut state = alone(a_pawn(), Team::White, 4, 1);
    put(&mut state, 4, 3, a_pawn(), Team::Black);
    assert_eq!(targets(&state, sq(4, 1)), vec![(4, 2)]);
    let mut state = alone(a_pawn(), Team::Black, 4, 6);
    put(&mut state, 4, 4, a_pawn(), Team::Black);
    assert_eq!(targets(&state, sq(4, 6)), vec![(4, 5)]);
}

#[test]
fn pawn_captures_diagonally_only_an_enemy() {
    let mut state = alone(a_pawn(), Team::White, 4, 3);
    put(&mut state, 3, 4, a_pawn(), Team::Black);
    put(&mut state, 5, 4, a_pawn(), Team::White);
    assert_eq!(targets(&state, sq(4, 3)), vec![(4, 4), (3, 4)]);
    let mut state = alone(a_pawn(), Team::White, 4, 3);
    put(&mut state, 3, 4, a_pawn(), Team::Black);
    put(&mut state, 5, 4, Piece::Queen, Team::Black);
    assert_eq!(targets(&state, sq(4, 3)), vec![(4, 4), (3, 4), (5, 4)]);
}

#[test]
fn pawn_does_not_capture_straight_ahead_or_backwards() {
    let mut state = alone(a_pawn(), Team::White, 4, 3);
    put(&mut state, 4, 4, a_pawn(), Team::Black);
    put(&mut state, 3, 2, a_pawn(), Team::Black);
    put(&mut state, 5, 2, a_pawn(), Team::Black);
    put(&mut state, 3, 3, a_pawn(), Team::Black);
    assert!(targets(&state, sq(4, 3)).is_empty());
}

#[test]
fn pawn_on_an_edge_file_captures_inwards_only() {
    let mut state = alone(a_pawn(), Team::White, 0, 3);
    put(&mut state, 1, 4, a_pawn(), Team::Black);
    assert_eq!(targets(&state, sq(0, 3)), vec![(0, 4), (1, 4)]);
    let mut state = alone(a_pawn(), Team::Black, 7, 4);
    put(&mut state, 6, 3, a_pawn(), Team::White);
    assert_eq!(targets(&state, sq(7, 4)), vec![(7, 3), (6, 3)]);
}

#[test]
fn pawn_on_the_last_rank_has_no_plays() {
    let state = alone(a_pawn(), Team::White, 4, 7);
    assert!(targets(&state, sq(4, 7)).is_empty());
    let state = alone(a_pawn(), Team::Black, 4, 0);
    assert!(targets(&state, sq(4, 0)).is_empty());
}

#[test]
fn pawn_flag_does_not_change_its_plays() {
    let plain = alone(a_pawn(), Team::White, 4, 1);
    let flagged = alone(Piece::Pawn(EnPassanteVulnerability::Vulnerable), Team::White, 4, 1);
    assert_eq!(targets(&plain, sq(4, 1)), targets(&flagged, sq(4, 1)));
}

#[test]
fn no_en_passant_onto_an_empty_square() {
    let mut state = alone(a_pawn(), Team::White, 4, 4);
    put(&mut state, 5, 4, Piece::Pawn(EnPassanteVulnerability::Vulnerable), Team::Black);
    assert_eq!(targets(&state, sq(4, 4)), vec![(4, 5)]);
}

#[test]
fn initial_position_has_twenty_plays() {
    let state = GameState::new();
    let plays = Play::get_all_possible_plays(&state);
    assert_eq!(plays.len(), 20);
    let mut black = GameState::new();
    black.turn = Team::Black;
    assert_eq!(Play::get_all_possible_plays(&black).len(), 20);
}

#[test]
fn all_plays_are_the_plays_of_each_square_in_walk_order() {
    let mut state = GameState::new();
    put(&mut state, 3, 3, Piece::Queen, Team::White);
    put(&mut state, 4, 4, Piece::Horse, Team::Black);
    let mut expected = Vec::new();
    for number in 0..8 {
        for letter in 0..8 {
            expected.extend(Play::get_possible_plays_for_tile(sq(letter, number), &state));
        }
    }
    assert_eq!(Play::get_all_possible_plays(&state), expected);
}

#[test]
fn all_plays_twice_gives_the_same_set() {
    let mut state = GameState::new();
    put(&mut state, 3, 3, Piece::Queen, Team::White);
    let key = |play: &Play| {
        (play.origin.number, play.origin.letter, play.target.number, play.target.letter)
    };
    let mut first: Vec<_> = Play::get_all_possible_plays(&state).iter().map(key).collect();
    let mut second: Vec<_> = Play::get_all_possible_plays(&state).iter().map(key).collect();
    first.sort();
    second.sort();
    assert_eq!(first, second);
    let copy = state;
    assert_eq!(Play::get_all_possible_plays(&state), Play::get_all_possible_plays(&copy));
}

#[test]
fn plays_have_no_duplicates_and_stay_on_the_board() {
    let mut state = GameState::new();
    put(&mut state, 3, 3, Piece::Queen, Team::White);
    put(&mut state, 4, 4, Piece::King(RochadeAbility::Unable), Team::White);
    put(&mut state, 2, 5, Piece::Horse, Team::White);
    let plays = Play::get_all_possible_plays(&state);
    for (i, play) in plays.iter().enumerate() {
        assert!(play.origin.is_valid());
        assert!(play.target.is_valid());
        assert_eq!(state.occupant(play.origin).map(|piece| piece.team), Some(Team::White));
        assert_ne!(state.occupant(play.target).map(|piece| piece.team), Some(Team::White));
        assert!(!plays[..i].contains(play));
    }
}

#[test]
fn generation_does_not_change_the_position() {
    let state = GameState::new();
    let copy = state;
    let _ = Play::get_all_possible_plays(&state);
    let _ = Play::get_possible_plays_for_tile(sq(1, 0), &state);
    assert_eq!(state, copy);
}

#[test]
fn try_play_makes_an_allowed_play() {
    let mut state = GameState::new();
    let play = Play { origin: sq(4, 1), target: sq(4, 3) };
    let expected = state.after(play);
    try_play(play, &mut state);
    assert_eq!(state, expected);
    assert_eq!(state.turn, Team::Black);
}

#[test]
fn try_play_leaves_the_position_on_a_play_that_is_not_allowed() {
    let start = GameState::new();
    for play in [
        Play { origin: sq(4, 1), target: sq(4, 4) },
        Play { origin: sq(4, 1), target: sq(3, 2) },
        Play { origin: sq(4, 6), target: sq(4, 5) },
        Play { origin: sq(4, 3), target: sq(4, 4) },
        Play { origin: sq(0, 0), target: sq(0, 1) },
        Play { origin: sq(8, 1), target: sq(4, 2) },
        Play { origin: sq(4, 1), target: sq(4, 9) },
        Play { origin: sq(4, 1), target: sq(4, 1) },
    ] {
        let mut state = start;
        try_play(play, &mut state);
        assert_eq!(state, start);
    }
}

#[test]
fn try_play_alternates_the_sides() {
    let mut state = GameState::new();
    try_play(Play { origin: sq(4, 1), target: sq(4, 3) }, &mut state);
    try_play(Play { origin: sq(3, 1), target: sq(3, 2) }, &mut state);
    assert_eq!(state.turn, Team::Black);
    assert_eq!(state.board[1][3], Some(PieceWithTeam { piece: a_pawn(), team: Team::White }));
    try_play(Play { origin: sq(1, 7), target: sq(2, 5) }, &mut state);
    assert_eq!(state.turn, Team::White);
    assert_eq!(state.board[5][2], Some(PieceWithTeam { piece: Piece::Horse, team: Team::Black }));
    assert_eq!(state.board[7][1], None);
}

#[test]
fn forward_step_and_pawn_start_of_each_side() {
    assert_eq!(Team::White.forward_step(), 1);
    assert_eq!(Team::Black.forward_step(), -1);
    assert_eq!(Team::White.pawn_start(), 1);
    assert_eq!(Team::Black.pawn_start(), 6);
}
