use deep_red::board::{
    EnPassanteVulnerability, GameState, Piece, PieceWithTeam, RochadeAbility, Team, TilePosition,
};
use deep_red::rays::Direction;

fn at(letter: usize, number: usize) -> TilePosition {
    TilePosition { letter, number }
}

fn black_pawn() -> Option<PieceWithTeam> {
    Some(PieceWithTeam {
        piece: Piece::Pawn(EnPassanteVulnerability::Invulnerable),
        team: Team::Black,
    })
}

fn white_rook() -> Option<PieceWithTeam> {
    Some(PieceWithTeam { piece: Piece::Rook(RochadeAbility::Able), team: Team::White })
}

const ALL: [Direction; 8] = [
    Direction::Up,
    Direction::Down,
    Direction::Left,
    Direction::Right,
    Direction::UpRight,
    Direction::UpLeft,
    Direction::DownRight,
    Direction::DownLeft,
];

#[test]
fn ray_from_an_invalid_origin_fails() {
    let state = GameState::new();
    for direction in ALL {
        assert_eq!(state.unblocked_tiles_in_direction(at(8, 0), direction), Err(()));
        assert_eq!(state.unblocked_tiles_in_direction(at(0, 8), direction), Err(()));
        assert_eq!(state.unblocked_tiles_in_direction(at(255, 255), direction), Err(()));
    }
}

#[test]
fn ray_from_a_valid_origin_succeeds() {
    let state = GameState::new();
    for number in 0..8 {
        for letter in 0..8 {
            for direction in ALL {
                assert!(state.unblocked_tiles_in_direction(at(letter, number), direction).is_ok());
            }
        }
    }
}

#[test]
fn ray_on_an_empty_board_runs_to_the_edge() {
    let state = GameState::empty();
    let up = state.unblocked_tiles_in_direction(at(0, 0), Direction::Up).unwrap();
    assert_eq!(up, (1..8).map(|number| at(0, number)).collect::<Vec<_>>());
    let right = state.unblocked_tiles_in_direction(at(0, 0), Direction::Right).unwrap();
    assert_eq!(right, (1..8).map(|letter| at(letter, 0)).collect::<Vec<_>>());
    let diagonal = state.unblocked_tiles_in_direction(at(0, 0), Direction::UpRight).unwrap();
    assert_eq!(diagonal, (1..8).map(|step| at(step, step)).collect::<Vec<_>>());
}

#[test]
fn ray_towards_the_edge_next_to_the_origin_is_empty() {
    let state = GameState::empty();
    for direction in [Direction::Down, Direction::Left, Direction::DownLeft, Direction::UpLeft] {
        assert_eq!(state.unblocked_tiles_in_direction(at(0, 0), direction), Ok(vec![]));
    }
    for direction in [Direction::Up, Direction::Right, Direction::UpRight, Direction::DownRight] {
        assert_eq!(state.unblocked_tiles_in_direction(at(7, 7), direction), Ok(vec![]));
    }
}

#[test]
fn each_direction_steps_by_its_own_offsets() {
    let state = GameState::empty();
    let first = |direction| state.unblocked_tiles_in_direction(at(3, 3), direction).unwrap()[0];
    assert_eq!(first(Direction::Up), at(3, 4));
    assert_eq!(first(Direction::Down), at(3, 2));
    assert_eq!(first(Direction::Left), at(2, 3));
    assert_eq!(first(Direction::Right), at(4, 3));
    assert_eq!(first(Direction::UpRight), at(4, 4));
    assert_eq!(first(Direction::UpLeft), at(2, 4));
    assert_eq!(first(Direction::DownRight), at(4, 2));
    assert_eq!(first(Direction::DownLeft), at(2, 2));
}

#[test]
fn ray_lengths_from_the_middle_of_an_empty_board() {
    let state = GameState::empty();
    let length = |direction| state.unblocked_tiles_in_direction(at(3, 2), direction).unwrap().len();
    assert_eq!(length(Direction::Up), 5);
    assert_eq!(length(Direction::Down), 2);
    assert_eq!(length(Direction::Left), 3);
    assert_eq!(length(Direction::Right), 4);
    assert_eq!(length(Direction::UpRight), 4);
    assert_eq!(length(Direction::UpLeft), 3);
    assert_eq!(length(Direction::DownRight), 2);
    assert_eq!(length(Direction::DownLeft), 2);
}

#[test]
fn ray_stops_at_and_includes_the_first_occupied_square() {
    let mut state = GameState::empty();
    state.board[3][0] = black_pawn();
    state.board[5][0] = black_pawn();
    let up = state.unblocked_tiles_in_direction(at(0, 0), Direction::Up).unwrap();
    assert_eq!(up, vec![at(0, 1), at(0, 2), at(0, 3)]);
}

#[test]
fn ray_stops_at_a_piece_of_either_side() {
    let mut state = GameState::empty();
    state.board[0][4] = white_rook();
    let right = state.unblocked_tiles_in_direction(at(0, 0), Direction::Right).unwrap();
    assert_eq!(right, vec![at(1, 0), at(2, 0), at(3, 0), at(4, 0)]);
}

#[test]
fn ray_blocked_on_the_next_square_has_one_square() {
    let mut state = GameState::empty();
    state.board[1][1] = black_pawn();
    let diagonal = state.unblocked_tiles_in_direction(at(0, 0), Direction::UpRight).unwrap();
    assert_eq!(diagonal, vec![at(1, 1)]);
}

#[test]
fn ray_ignores_what_stands_on_the_origin() {
    let mut state = GameState::empty();
    let bare = state.unblocked_tiles_in_direction(at(2, 2), Direction::Up).unwrap();
    state.board[2][2] = white_rook();
    let held = state.unblocked_tiles_in_direction(at(2, 2), Direction::Up).unwrap();
    assert_eq!(bare, held);
}

#[test]
fn ray_ignores_pieces_off_its_line() {
    let mut state = GameState::empty();
    state.board[1][1] = black_pawn();
    let up = state.unblocked_tiles_in_direction(at(0, 0), Direction::Up).unwrap();
    let right = state.unblocked_tiles_in_direction(at(0, 0), Direction::Right).unwrap();
    assert_eq!(up.len(), 7);
    assert_eq!(right.len(), 7);
}

#[test]
fn rook_rays_each_end_on_their_blocker() {
    let mut state = GameState::empty();
    state.board[0][0] = white_rook();
    state.board[0][3] = black_pawn();
    state.board[4][0] = black_pawn();
    let right = state.unblocked_tiles_in_direction(at(0, 0), Direction::Right).unwrap();
    let up = state.unblocked_tiles_in_direction(at(0, 0), Direction::Up).unwrap();
    assert_eq!(right, vec![at(1, 0), at(2, 0), at(3, 0)]);
    assert_eq!(up, vec![at(0, 1), at(0, 2), at(0, 3), at(0, 4)]);
    assert_eq!(right.last(), Some(&at(3, 0)));
    assert_eq!(up.last(), Some(&at(0, 4)));
}

#[test]
fn rays_never_leave_the_board_and_only_end_on_a_piece() {
    let state = GameState::new();
    for number in 0..8 {
        for letter in 0..8 {
            for direction in ALL {
                let tiles = state.unblocked_tiles_in_direction(at(letter, number), direction).unwrap();
                assert!(tiles.len() <= 7);
                for (i, tile) in tiles.iter().enumerate() {
                    assert!(tile.is_valid());
                    if i + 1 < tiles.len() {
                        assert_eq!(state.occupant(*tile), None);
                    }
                }
            }
        }
    }
}

#[test]
fn shifted_stays_on_the_board_or_is_none() {
    assert_eq!(at(0, 0).shifted(-1, 0), None);
    assert_eq!(at(0, 0).shifted(0, -1), None);
    assert_eq!(at(7, 7).shifted(1, 0), None);
    assert_eq!(at(7, 7).shifted(0, 1), None);
    assert_eq!(at(3, 4).shifted(2, -1), Some(at(5, 3)));
    assert_eq!(at(3, 4).shifted(0, 0), Some(at(3, 4)));
    assert_eq!(at(9, 4).shifted(-2, 0), Some(at(7, 4)));
    assert_eq!(at(usize::MAX, 0).shifted(-128, 0), None);
    assert_eq!(at(135, 135).shifted(-128, -128), Some(at(7, 7)));
    assert_eq!(at(136, 0).shifted(-128, 0), None);
}

#[test]
fn step_gives_the_offsets_of_each_direction() {
    assert_eq!(Direction::Up.step(), (0, 1));
    assert_eq!(Direction::Down.step(), (0, -1));
    assert_eq!(Direction::Left.step(), (-1, 0));
    assert_eq!(Direction::Right.step(), (1, 0));
    assert_eq!(Direction::UpRight.step(), (1, 1));
    assert_eq!(Direction::UpLeft.step(), (-1, 1));
    assert_eq!(Direction::DownRight.step(), (1, -1));
    assert_eq!(Direction::DownLeft.step(), (-1, -1));
}
