//! Laws of the generator: what holds of the plays of every position.
//!
//! Each law is stated over the same spec functions as the contracts of the
//! functions it is about, so that it speaks of what those functions return.

use vstd::prelude::*;
use crate::board::{on_board, GameState, Play, TilePosition};
use crate::moves::{is_king_step, is_knight_jump, king_offsets, knight_offsets};
use crate::rays::Direction;
use crate::rules::{jump_reaches, walk_index};

verus! {

/// Nothing stands on any square of the board.
pub open spec fn bare(state: GameState) -> bool {
    forall|letter: int, number: int| #[trigger] state.at(letter, number) is None
}

/// A king of the side to move stands on `origin`.
pub open spec fn king_to_move_on(state: GameState, origin: TilePosition) -> bool {
    state.has_mover_on(origin) && (state.on(origin) matches Some(mover) && mover.piece is King)
}

/// A knight of the side to move stands on `origin`.
pub open spec fn knight_to_move_on(state: GameState, origin: TilePosition) -> bool {
    state.has_mover_on(origin) && (state.on(origin) matches Some(mover) && mover.piece is Horse)
}

/// A pawn of the side to move stands on `origin`.
pub open spec fn pawn_to_move_on(state: GameState, origin: TilePosition) -> bool {
    state.has_mover_on(origin) && (state.on(origin) matches Some(mover) && mover.piece is Pawn)
}

/// On a board with nothing on it there is no play: none from any square, and
/// none at all.
pub proof fn empty_board_has_no_plays(state: GameState, square: TilePosition)
    requires
        bare(state),
    ensures
        state.plays_from(square) == Seq::<Play>::empty(),
        state.all_plays() == Seq::<Play>::empty(),
{
    assert(state.on(square) is None);
    state.lemma_all_plays();
    if state.all_plays().len() > 0 {
        let play = state.all_plays()[0];
        assert(state.all_plays().contains(play));
        assert(state.on(play.origin) is None);
    }
}

/// From a square that holds a piece of the side that is not to move there is
/// no play.
pub proof fn side_not_to_move_has_no_plays(state: GameState, square: TilePosition)
    requires
        state.on(square) matches Some(occupant) && occupant.team == state.turn.opponent(),
    ensures
        state.plays_from(square) == Seq::<Play>::empty(),
{
}

/// The plays of a king are the plays to the squares of the board that lie one
/// of its eight offsets away and hold no piece of its own side: each of them,
/// and nothing else.  In particular no play leads off the board.
pub proof fn king_plays_are_its_admitted_offsets(
    state: GameState,
    origin: TilePosition,
    play: Play,
)
    requires
        king_to_move_on(state, origin),
    ensures
        state.plays_from(origin).contains(play) <==> play.origin == origin && state.admits_tile(
            state.turn,
            play.target,
        ) && exists|i: int|
            0 <= i < king_offsets().len() && jump_reaches(
                origin,
                #[trigger] king_offsets()[i],
                play.target,
            ),
        state.plays_from(origin).contains(play) <==> play.origin == origin && state.admits_tile(
            state.turn,
            play.target,
        ) && is_king_step(
            play.target.letter - origin.letter,
            play.target.number - origin.number,
        ),
        state.plays_from(origin).contains(play) ==> play.target.valid(),
{
    state.lemma_jumps_contain(origin, state.turn, king_offsets(), play);
    GameState::lemma_king_offsets(origin, play.target);
}

/// The plays of a knight are the plays to the squares of the board that lie
/// one of its eight offsets away and hold no piece of its own side: each of
/// them, and nothing else.  In particular no play leads off the board.
pub proof fn knight_plays_are_its_admitted_offsets(
    state: GameState,
    origin: TilePosition,
    play: Play,
)
    requires
        knight_to_move_on(state, origin),
    ensures
        state.plays_from(origin).contains(play) <==> play.origin == origin && state.admits_tile(
            state.turn,
            play.target,
        ) && exists|i: int|
            0 <= i < knight_offsets().len() && jump_reaches(
                origin,
                #[trigger] knight_offsets()[i],
                play.target,
            ),
        state.plays_from(origin).contains(play) <==> play.origin == origin && state.admits_tile(
            state.turn,
            play.target,
        ) && is_knight_jump(
            play.target.letter - origin.letter,
            play.target.number - origin.number,
        ),
        state.plays_from(origin).contains(play) ==> play.target.valid(),
{
    state.lemma_jumps_contain(origin, state.turn, knight_offsets(), play);
    GameState::lemma_knight_offsets(origin, play.target);
}

/// A ray stops at the first occupied square and includes it: no square of a
/// ray but the last is occupied, and if the line holds a piece, the ray ends
/// on the square of the nearest one.  A ray that does not end on an occupied
/// square ends at the edge of the board.
pub proof fn ray_stops_at_first_occupied_square(
    state: GameState,
    origin: TilePosition,
    direction: Direction,
)
    requires
        origin.valid(),
    ensures
        state.is_ray(origin, direction, state.ray(origin, direction)),
        forall|i: int|
            0 <= i < state.ray(origin, direction).len() - 1 ==> state.on(
                #[trigger] state.ray(origin, direction)[i],
            ) is None,
        forall|steps: int| #[trigger]
            state.clear_to(origin, direction, steps) && state.seen(origin, direction, steps) is Some
                ==> state.ray(origin, direction).len() == steps && state.ray(
                origin,
                direction,
            ).last() == direction.tile_at(origin, steps),
        state.ray(origin, direction).len() > 0 && state.on(state.ray(origin, direction).last())
            is None ==> !direction.reaches(origin, state.ray(origin, direction).len() as int + 1),
{
    let ray = state.ray(origin, direction);
    state.lemma_ray_is_ray(origin, direction);
    assert forall|i: int| 0 <= i < ray.len() - 1 implies state.on(#[trigger] ray[i]) is None by {
        assert(direction.reaches(origin, i + 1));
        assert(state.seen(origin, direction, i + 1) is None);
    }
    assert forall|steps: int| #[trigger]
        state.clear_to(origin, direction, steps) && state.seen(
            origin,
            direction,
            steps,
        ) is Some implies ray.len() == steps && ray.last() == direction.tile_at(origin, steps) by {
        if steps > ray.len() {
            assert(ray.len() > 0 ==> state.seen(origin, direction, ray.len() as int) is None);
            assert(direction.reaches(origin, ray.len() as int + 1));
        }
    }
    if ray.len() > 0 {
        assert(direction.reaches(origin, ray.len() as int));
    }
}

/// What is seen from a square in a direction is one list and no other: two
/// lists that both meet `is_ray` are equal.
pub proof fn ray_is_determined(
    state: GameState,
    origin: TilePosition,
    direction: Direction,
    one: Seq<TilePosition>,
    other: Seq<TilePosition>,
)
    requires
        origin.valid(),
        state.is_ray(origin, direction, one),
        state.is_ray(origin, direction, other),
    ensures
        one == other,
{
    if one.len() < other.len() {
        assert(direction.reaches(origin, one.len() as int + 1));
        assert(one.len() > 0 ==> state.seen(origin, direction, one.len() as int) is None);
    }
    if other.len() < one.len() {
        assert(direction.reaches(origin, other.len() as int + 1));
        assert(other.len() > 0 ==> state.seen(origin, direction, other.len() as int) is None);
    }
    assert(one =~= other);
}

/// A pawn is offered the step of two ranks exactly if it stands on its side's
/// starting rank and the square ahead of it and the square behind that one
/// are both empty.
pub proof fn pawn_double_step_needs_start_rank_and_two_free_squares(
    state: GameState,
    origin: TilePosition,
    play: Play,
)
    requires
        pawn_to_move_on(state, origin),
        play.origin == origin,
        play.target.letter == origin.letter,
        play.target.number == origin.number + 2 * state.turn.forward(),
    ensures
        state.plays_from(origin).contains(play) <==> origin.number == state.turn.pawn_rank()
            && state.is_free(origin.letter as int, origin.number + state.turn.forward())
            && state.is_free(origin.letter as int, origin.number + 2 * state.turn.forward()),
{
    state.lemma_pawn_plays_contain(origin, state.turn, play);
}

/// A pawn is offered the step of one rank exactly if the square ahead of it
/// is on the board and empty.
pub proof fn pawn_single_step_needs_a_free_square(
    state: GameState,
    origin: TilePosition,
    play: Play,
)
    requires
        pawn_to_move_on(state, origin),
        play.origin == origin,
        play.target.letter == origin.letter,
        play.target.number == origin.number + state.turn.forward(),
    ensures
        state.plays_from(origin).contains(play) <==> state.is_free(
            origin.letter as int,
            origin.number + state.turn.forward(),
        ),
{
    state.lemma_pawn_plays_contain(origin, state.turn, play);
}

/// A pawn is offered a step diagonally ahead exactly if the square there is
/// on the board and holds a piece of the other side.
pub proof fn pawn_diagonal_step_needs_an_opposing_piece(
    state: GameState,
    origin: TilePosition,
    play: Play,
)
    requires
        pawn_to_move_on(state, origin),
        play.origin == origin,
        play.target.letter == origin.letter + 1 || play.target.letter == origin.letter - 1,
        play.target.number == origin.number + state.turn.forward(),
    ensures
        state.plays_from(origin).contains(play) <==> play.target.valid() && (state.on(
            play.target,
        ) matches Some(taken) && taken.team == state.turn.opponent()),
{
    state.lemma_pawn_plays_contain(origin, state.turn, play);
}

/// A pawn is offered nothing but these steps: one or two ranks ahead on its
/// file, or one rank ahead on a neighbouring file.
pub proof fn pawn_plays_lead_ahead(state: GameState, origin: TilePosition, play: Play)
    requires
        pawn_to_move_on(state, origin),
        state.plays_from(origin).contains(play),
    ensures
        play.origin == origin,
        play.target.valid(),
        ({
            let d_letter = play.target.letter - origin.letter;
            let d_number = play.target.number - origin.number;
            ||| d_letter == 0 && d_number == state.turn.forward()
            ||| d_letter == 0 && d_number == 2 * state.turn.forward()
            ||| (d_letter == 1 || d_letter == -1) && d_number == state.turn.forward()
        }),
{
    state.lemma_pawn_plays_contain(origin, state.turn, play);
}

/// A play leads to one position only: two positions that both meet
/// `leads_to` for the same play are equal.
pub proof fn play_leads_to_one_position(
    state: GameState,
    play: Play,
    one: GameState,
    other: GameState,
)
    requires
        state.leads_to(play, one),
        state.leads_to(play, other),
    ensures
        one == other,
{
    positions_that_agree_are_equal(one, other);
}

/// Making a play changes at most the two squares it names: every other
/// square holds afterwards what it held before.
pub proof fn play_touches_two_squares(
    state: GameState,
    play: Play,
    next: GameState,
    letter: int,
    number: int,
)
    requires
        state.leads_to(play, next),
        !(letter == play.origin.letter && number == play.origin.number),
        !(letter == play.target.letter && number == play.target.number),
    ensures
        next.at(letter, number) == state.at(letter, number),
{
    assert(next.at(letter, number) == state.at_after(play, letter, number));
}

/// A position is its turn and what its 64 squares hold: two positions that
/// agree on both are equal.
pub proof fn positions_that_agree_are_equal(one: GameState, other: GameState)
    requires
        one.turn == other.turn,
        forall|letter: int, number: int| #[trigger]
            one.at(letter, number) == other.at(letter, number),
    ensures
        one == other,
{
    assert forall|number: int| 0 <= number < 8 implies one.board[number] == other.board[number] by {
        assert forall|letter: int| 0 <= letter < 8 implies one.board[number][letter]
            == other.board[number][letter] by {
            assert(one.at(letter, number) == other.at(letter, number));
        }
        assert(one.board[number] =~= other.board[number]);
    }
    assert(one.board =~= other.board);
}

/// The plays of a position depend on the position alone: positions that
/// agree on the turn and on every square have the same plays, in the same
/// order, and so the same set of plays.
pub proof fn plays_depend_on_the_position_alone(one: GameState, other: GameState)
    requires
        one.turn == other.turn,
        forall|letter: int, number: int| #[trigger]
            one.at(letter, number) == other.at(letter, number),
    ensures
        one.all_plays() == other.all_plays(),
        one.all_plays().to_set() == other.all_plays().to_set(),
        forall|square: TilePosition| #[trigger]
            one.plays_from(square) == other.plays_from(square),
{
    positions_that_agree_are_equal(one, other);
}

/// The plays of the whole board are the plays from its squares: a play is
/// among them exactly if it is among the plays from its origin, a square of
/// the board.
pub proof fn all_plays_are_the_plays_from_each_square(state: GameState, play: Play)
    ensures
        state.all_plays().contains(play) <==> play.origin.valid() && state.plays_from(
            play.origin,
        ).contains(play),
{
    state.lemma_all_plays();
    state.lemma_plays_from(play.origin);
}

/// The plays of the whole board come in the order in which the board is
/// walked, rank by rank and within a rank file by file: a play never comes
/// before a play from an earlier square.
pub proof fn all_plays_follow_the_walk(state: GameState, earlier: int, later: int)
    requires
        0 <= earlier <= later < state.all_plays().len(),
    ensures
        walk_index(state.all_plays()[earlier].origin) <= walk_index(
            state.all_plays()[later].origin,
        ),
{
    state.lemma_plays_of_first_ordered(64);
}

/// Every generated play obeys the rules of movement; in particular it stays
/// on the board, starts from a piece of the side to move and does not land
/// on a piece of that side.
pub proof fn plays_stay_on_the_board(state: GameState, play: Play)
    requires
        state.all_plays().contains(play),
    ensures
        state.pseudo_legal(play),
        on_board(play.origin.letter as int, play.origin.number as int),
        on_board(play.target.letter as int, play.target.number as int),
        state.has_mover_on(play.origin),
        !(state.on(play.target) matches Some(taken) && taken.team == state.turn),
{
    state.lemma_all_plays();
}

} // verus!
