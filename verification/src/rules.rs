//! The rules of movement, stated square by square, and the proof that the
//! generated plays are exactly the plays that the rules allow.

use vstd::prelude::*;
use vstd::seq_lib::{
    lemma_no_dup_in_concat,
    lemma_seq_concat_contains_all_elements,
    lemma_seq_contains_after_push,
};
use crate::board::{on_board, tile, GameState, Piece, Play, Team, TilePosition};
use crate::moves::{
    bishop_directions,
    is_king_step,
    is_knight_jump,
    king_offsets,
    knight_offsets,
    queen_directions,
    rook_directions,
};
use crate::rays::Direction;

verus! {

/// The jump by `offset` from `origin` stays on the board and ends on `target`.
pub open spec fn jump_reaches(origin: TilePosition, offset: (i8, i8), target: TilePosition) -> bool {
    on_board(origin.letter + offset.0, origin.number + offset.1) && target == tile(
        origin.letter + offset.0,
        origin.number + offset.1,
    )
}

/// The place of a square in the order in which the board is walked: rank by
/// rank, and within a rank file by file.
pub open spec fn walk_index(square: TilePosition) -> int {
    8 * square.number + square.letter
}

impl GameState {
    /// A piece of `team` may land on the square `target`.
    pub open spec fn admits_tile(&self, team: Team, target: TilePosition) -> bool {
        self.admits(team, target.letter as int, target.number as int)
    }

    /// A pawn of `team` may go from `origin` to `target`, both on the board:
    /// one rank ahead on its file if that square is empty; two ranks ahead on
    /// its file if it stands on its starting rank and both squares are empty;
    /// one rank ahead on a neighbouring file if an opposing piece stands
    /// there.
    pub open spec fn pawn_may(&self, team: Team, origin: TilePosition, target: TilePosition) -> bool {
        let d_letter = target.letter - origin.letter;
        let d_number = target.number - origin.number;
        let ahead = origin.number + team.forward();
        ||| d_letter == 0 && d_number == team.forward() && self.on(target) is None
        ||| d_letter == 0 && d_number == 2 * team.forward() && origin.number == team.pawn_rank()
            && self.at(origin.letter as int, ahead) is None && self.on(target) is None
        ||| (d_letter == 1 || d_letter == -1) && d_number == team.forward() && self.holds_enemy_of(
            team,
            target.letter as int,
            target.number as int,
        )
    }

    /// The play obeys the rules of movement in this position: it leads from a
    /// square of the board on which a piece of the side to move stands to a
    /// square of the board on which no piece of that side stands, and the way
    /// from the one to the other is one that this kind of piece can go.
    pub open spec fn pseudo_legal(&self, play: Play) -> bool {
        let origin = play.origin;
        let target = play.target;
        let d_letter = target.letter - origin.letter;
        let d_number = target.number - origin.number;
        &&& origin.valid()
        &&& target.valid()
        &&& self.on(origin) matches Some(mover)
        &&& mover.team == self.turn
        &&& self.admits_tile(mover.team, target)
        &&& match mover.piece {
            Piece::Pawn(_) => self.pawn_may(mover.team, origin, target),
            Piece::King(_) => is_king_step(d_letter, d_number),
            Piece::Horse => is_knight_jump(d_letter, d_number),
            Piece::Rook(_) => exists|direction: Direction|
                direction.is_orthogonal() && #[trigger] self.slides_to(origin, direction, target),
            Piece::Bishop => exists|direction: Direction|
                direction.is_diagonal() && #[trigger] self.slides_to(origin, direction, target),
            Piece::Queen => exists|direction: Direction| #[trigger]
                self.slides_to(origin, direction, target),
        }
    }

    /// A play is among the landings on `tiles` exactly if it starts at
    /// `origin` and leads to one of `tiles` on which the piece may land.
    pub proof fn lemma_landings_contain(
        &self,
        origin: TilePosition,
        team: Team,
        tiles: Seq<TilePosition>,
        play: Play,
    )
        ensures
            self.landings(origin, team, tiles).contains(play) <==> play.origin == origin
                && tiles.contains(play.target) && self.admits_tile(team, play.target),
        decreases tiles.len(),
    {
        if tiles.len() > 0 {
            let earlier = self.landings(origin, team, tiles.drop_last());
            self.lemma_landings_contain(origin, team, tiles.drop_last(), play);
            assert(tiles == tiles.drop_last().push(tiles.last()));
            lemma_seq_contains_after_push(tiles.drop_last(), tiles.last(), play.target);
            lemma_seq_contains_after_push(earlier, Play { origin, target: tiles.last() }, play);
        }
    }

    /// Landings on squares of which no two are the same are plays of which no
    /// two are the same.
    pub proof fn lemma_landings_distinct(
        &self,
        origin: TilePosition,
        team: Team,
        tiles: Seq<TilePosition>,
    )
        requires
            tiles.no_duplicates(),
        ensures
            self.landings(origin, team, tiles).no_duplicates(),
        decreases tiles.len(),
    {
        if tiles.len() > 0 {
            let earlier = self.landings(origin, team, tiles.drop_last());
            let last = Play { origin, target: tiles.last() };
            self.lemma_landings_distinct(origin, team, tiles.drop_last());
            self.lemma_landings_contain(origin, team, tiles.drop_last(), last);
            if tiles.drop_last().contains(tiles.last()) {
                let i = choose|i: int| 0 <= i < tiles.drop_last().len() && tiles.drop_last()[i] == tiles.last();
                assert(tiles[i] == tiles[tiles.len() - 1]);
            }
            assert forall|i: int| 0 <= i < earlier.len() implies earlier[i] != last by {
                assert(earlier.contains(earlier[i]));
            }
        }
    }

    /// A play is among the jumps by `offsets` exactly if it starts at
    /// `origin` and one of the offsets leads to its target, a square on which
    /// the piece may land.
    pub proof fn lemma_jumps_contain(
        &self,
        origin: TilePosition,
        team: Team,
        offsets: Seq<(i8, i8)>,
        play: Play,
    )
        ensures
            self.jumps(origin, team, offsets).contains(play) <==> play.origin == origin
                && self.admits_tile(team, play.target) && exists|i: int|
                0 <= i < offsets.len() && jump_reaches(origin, #[trigger] offsets[i], play.target),
        decreases offsets.len(),
    {
        if offsets.len() > 0 {
            let fewer = offsets.drop_last();
            let earlier = self.jumps(origin, team, fewer);
            let letter = origin.letter + offsets.last().0;
            let number = origin.number + offsets.last().1;
            self.lemma_jumps_contain(origin, team, fewer, play);
            lemma_seq_contains_after_push(earlier, Self::play_to(origin, letter, number), play);
            let among_fewer = exists|i: int|
                0 <= i < fewer.len() && jump_reaches(origin, #[trigger] fewer[i], play.target);
            let among_all = exists|i: int|
                0 <= i < offsets.len() && jump_reaches(origin, #[trigger] offsets[i], play.target);
            assert(among_all <==> among_fewer || jump_reaches(origin, offsets.last(), play.target)) by {
                if among_fewer {
                    let i = choose|i: int|
                        0 <= i < fewer.len() && jump_reaches(origin, #[trigger] fewer[i], play.target);
                    assert(jump_reaches(origin, offsets[i], play.target));
                }
                if jump_reaches(origin, offsets.last(), play.target) {
                    assert(jump_reaches(origin, offsets[offsets.len() - 1], play.target));
                }
                if among_all {
                    let i = choose|i: int|
                        0 <= i < offsets.len() && jump_reaches(origin, #[trigger] offsets[i], play.target);
                    if i < fewer.len() {
                        assert(jump_reaches(origin, fewer[i], play.target));
                    }
                }
            }
        }
    }

    /// Jumps by offsets of which no two are the same are plays of which no
    /// two are the same.
    pub proof fn lemma_jumps_distinct(&self, origin: TilePosition, team: Team, offsets: Seq<(i8, i8)>)
        requires
            offsets.no_duplicates(),
        ensures
            self.jumps(origin, team, offsets).no_duplicates(),
        decreases offsets.len(),
    {
        if offsets.len() > 0 {
            let fewer = offsets.drop_last();
            let earlier = self.jumps(origin, team, fewer);
            let letter = origin.letter + offsets.last().0;
            let number = origin.number + offsets.last().1;
            let last = Self::play_to(origin, letter, number);
            self.lemma_jumps_distinct(origin, team, fewer);
            if self.admits(team, letter, number) {
                self.lemma_jumps_contain(origin, team, fewer, last);
                if earlier.contains(last) {
                    let i = choose|i: int|
                        0 <= i < fewer.len() && jump_reaches(origin, #[trigger] fewer[i], last.target);
                    assert(offsets[i] == offsets[offsets.len() - 1]);
                }
                assert forall|i: int| 0 <= i < earlier.len() implies earlier[i] != last by {
                    assert(earlier.contains(earlier[i]));
                }
            }
        }
    }

    /// A play is among the slides along `directions` exactly if it starts at
    /// `origin` and its target, a square on which the piece may land, can be
    /// slid to along one of the directions.
    pub proof fn lemma_slides_contain(
        &self,
        origin: TilePosition,
        team: Team,
        directions: Seq<Direction>,
        play: Play,
    )
        requires
            origin.valid(),
        ensures
            self.slides(origin, team, directions).contains(play) <==> play.origin == origin
                && self.admits_tile(team, play.target) && exists|i: int|
                0 <= i < directions.len() && self.slides_to(
                    origin,
                    #[trigger] directions[i],
                    play.target,
                ),
        decreases directions.len(),
    {
        if directions.len() > 0 {
            let fewer = directions.drop_last();
            let earlier = self.slides(origin, team, fewer);
            let ray = self.ray(origin, directions.last());
            self.lemma_slides_contain(origin, team, fewer, play);
            self.lemma_landings_contain(origin, team, ray, play);
            self.lemma_ray_contains(origin, directions.last(), play.target);
            lemma_seq_concat_contains_all_elements(
                earlier,
                self.landings(origin, team, ray),
                play,
            );
            let among_fewer = exists|i: int|
                0 <= i < fewer.len() && self.slides_to(origin, #[trigger] fewer[i], play.target);
            let among_all = exists|i: int|
                0 <= i < directions.len() && self.slides_to(
                    origin,
                    #[trigger] directions[i],
                    play.target,
                );
            assert(among_all <==> among_fewer || self.slides_to(
                origin,
                directions.last(),
                play.target,
            )) by {
                if among_fewer {
                    let i = choose|i: int|
                        0 <= i < fewer.len() && self.slides_to(
                            origin,
                            #[trigger] fewer[i],
                            play.target,
                        );
                    assert(self.slides_to(origin, directions[i], play.target));
                }
                if self.slides_to(origin, directions.last(), play.target) {
                    assert(self.slides_to(origin, directions[directions.len() - 1], play.target));
                }
                if among_all {
                    let i = choose|i: int|
                        0 <= i < directions.len() && self.slides_to(
                            origin,
                            #[trigger] directions[i],
                            play.target,
                        );
                    if i < fewer.len() {
                        assert(self.slides_to(origin, fewer[i], play.target));
                    }
                }
            }
        }
    }

    /// Slides along directions of which no two are the same are plays of
    /// which no two are the same.
    pub proof fn lemma_slides_distinct(
        &self,
        origin: TilePosition,
        team: Team,
        directions: Seq<Direction>,
    )
        requires
            origin.valid(),
            directions.no_duplicates(),
        ensures
            self.slides(origin, team, directions).no_duplicates(),
        decreases directions.len(),
    {
        if directions.len() > 0 {
            let fewer = directions.drop_last();
            let earlier = self.slides(origin, team, fewer);
            let ray = self.ray(origin, directions.last());
            let landed = self.landings(origin, team, ray);
            self.lemma_slides_distinct(origin, team, fewer);
            self.lemma_ray_bounds(origin, directions.last());
            self.lemma_landings_distinct(origin, team, ray);
            assert forall|i: int, j: int| 0 <= i < earlier.len() && 0 <= j < landed.len() implies earlier[i]
                != landed[j] by {
                let play = earlier[i];
                assert(earlier.contains(play));
                if play == landed[j] {
                    assert(landed.contains(play));
                    self.lemma_slides_contain(origin, team, fewer, play);
                    self.lemma_landings_contain(origin, team, ray, play);
                    let k = choose|k: int|
                        0 <= k < fewer.len() && self.slides_to(origin, #[trigger] fewer[k], play.target);
                    assert(directions[k] != directions[directions.len() - 1]);
                    self.lemma_ray_contains(origin, fewer[k], play.target);
                    self.lemma_rays_apart(origin, fewer[k], directions.last(), play.target);
                }
            }
            lemma_no_dup_in_concat(earlier, landed);
        }
    }

    /// A play is among the plays of a pawn exactly if it starts at `origin`
    /// and leads to a square of the board to which the pawn may go.
    pub proof fn lemma_pawn_plays_contain(&self, origin: TilePosition, team: Team, play: Play)
        requires
            origin.valid(),
        ensures
            self.pawn_plays(origin, team).contains(play) <==> play.origin == origin
                && play.target.valid() && self.pawn_may(team, origin, play.target),
    {
        let advances = self.pawn_advances(origin, team);
        let low = self.pawn_capture(origin, team, -1);
        let high = self.pawn_capture(origin, team, 1);
        lemma_seq_concat_contains_all_elements(advances + low, high, play);
        lemma_seq_concat_contains_all_elements(advances, low, play);
        Self::lemma_short_contains(advances, play);
        Self::lemma_short_contains(low, play);
        Self::lemma_short_contains(high, play);
    }

    /// No two plays of a pawn are the same.
    pub proof fn lemma_pawn_plays_distinct(&self, origin: TilePosition, team: Team)
        requires
            origin.valid(),
        ensures
            self.pawn_plays(origin, team).no_duplicates(),
    {
        let advances = self.pawn_advances(origin, team);
        let low = self.pawn_capture(origin, team, -1);
        let high = self.pawn_capture(origin, team, 1);
        lemma_no_dup_in_concat(advances, low);
        lemma_no_dup_in_concat(advances + low, high);
    }

    /// What a sequence of at most two elements contains.
    proof fn lemma_short_contains(plays: Seq<Play>, play: Play)
        requires
            plays.len() <= 2,
        ensures
            plays.contains(play) <==> (plays.len() >= 1 && plays[0] == play) || (plays.len() >= 2
                && plays[1] == play),
    {
    }

    /// The offsets of a king lead from a square of the board to the squares of
    /// the board that are one king step away, and to no others.
    pub proof fn lemma_king_offsets(origin: TilePosition, target: TilePosition)
        requires
            origin.valid(),
        ensures
            (exists|i: int|
                0 <= i < king_offsets().len() && jump_reaches(
                    origin,
                    #[trigger] king_offsets()[i],
                    target,
                )) <==> target.valid() && is_king_step(
                target.letter - origin.letter,
                target.number - origin.number,
            ),
            king_offsets().no_duplicates(),
    {
        let offsets = king_offsets();
        if target.valid() && is_king_step(
            target.letter - origin.letter,
            target.number - origin.number,
        ) {
            assert(jump_reaches(origin, offsets[0], target) || jump_reaches(
                origin,
                offsets[1],
                target,
            ) || jump_reaches(origin, offsets[2], target) || jump_reaches(origin, offsets[3], target)
                || jump_reaches(origin, offsets[4], target) || jump_reaches(
                origin,
                offsets[5],
                target,
            ) || jump_reaches(origin, offsets[6], target) || jump_reaches(origin, offsets[7], target));
        }
    }

    /// The offsets of a knight lead from a square of the board to the squares
    /// of the board that are one knight jump away, and to no others.
    pub proof fn lemma_knight_offsets(origin: TilePosition, target: TilePosition)
        requires
            origin.valid(),
        ensures
            (exists|i: int|
                0 <= i < knight_offsets().len() && jump_reaches(
                    origin,
                    #[trigger] knight_offsets()[i],
                    target,
                )) <==> target.valid() && is_knight_jump(
                target.letter - origin.letter,
                target.number - origin.number,
            ),
            knight_offsets().no_duplicates(),
    {
        let offsets = knight_offsets();
        if target.valid() && is_knight_jump(
            target.letter - origin.letter,
            target.number - origin.number,
        ) {
            assert(jump_reaches(origin, offsets[0], target) || jump_reaches(
                origin,
                offsets[1],
                target,
            ) || jump_reaches(origin, offsets[2], target) || jump_reaches(origin, offsets[3], target)
                || jump_reaches(origin, offsets[4], target) || jump_reaches(
                origin,
                offsets[5],
                target,
            ) || jump_reaches(origin, offsets[6], target) || jump_reaches(origin, offsets[7], target));
        }
    }

    /// The lines of a rook are the orthogonal directions, those of a bishop
    /// the diagonal ones, those of a queen all eight; no list names a
    /// direction twice.
    pub proof fn lemma_directions(direction: Direction)
        ensures
            rook_directions().contains(direction) <==> direction.is_orthogonal(),
            bishop_directions().contains(direction) <==> direction.is_diagonal(),
            queen_directions().contains(direction),
            rook_directions().no_duplicates(),
            bishop_directions().no_duplicates(),
            queen_directions().no_duplicates(),
    {
        let rook = rook_directions();
        let bishop = bishop_directions();
        let queen = queen_directions();
        assert(rook[0] == Direction::Up && rook[1] == Direction::Down && rook[2] == Direction::Right
            && rook[3] == Direction::Left);
        assert(bishop[0] == Direction::UpRight && bishop[1] == Direction::UpLeft && bishop[2]
            == Direction::DownRight && bishop[3] == Direction::DownLeft);
        lemma_seq_concat_contains_all_elements(bishop, rook, direction);
        lemma_no_dup_in_concat(bishop, rook);
    }

    /// A square can be slid to along one of the listed directions exactly if
    /// it can be slid to along some direction that the list contains.
    proof fn lemma_slides_along(
        &self,
        origin: TilePosition,
        directions: Seq<Direction>,
        target: TilePosition,
    )
        ensures
            (exists|i: int|
                0 <= i < directions.len() && self.slides_to(
                    origin,
                    #[trigger] directions[i],
                    target,
                )) <==> (exists|direction: Direction|
                directions.contains(direction) && #[trigger] self.slides_to(
                    origin,
                    direction,
                    target,
                )),
    {
        if exists|i: int|
            0 <= i < directions.len() && self.slides_to(origin, #[trigger] directions[i], target) {
            let i = choose|i: int|
                0 <= i < directions.len() && self.slides_to(
                    origin,
                    #[trigger] directions[i],
                    target,
                );
            assert(directions.contains(directions[i]));
        }
        if exists|direction: Direction|
            directions.contains(direction) && #[trigger] self.slides_to(origin, direction, target) {
            let direction = choose|direction: Direction|
                directions.contains(direction) && #[trigger] self.slides_to(
                    origin,
                    direction,
                    target,
                );
            let i = choose|i: int| 0 <= i < directions.len() && directions[i] == direction;
            assert(self.slides_to(origin, directions[i], target));
        }
    }

    /// The generated plays from a square are exactly the plays from that
    /// square that obey the rules of movement.
    pub proof fn lemma_plays_from_contain(&self, origin: TilePosition, play: Play)
        ensures
            self.plays_from(origin).contains(play) <==> play.origin == origin && self.pseudo_legal(
                play,
            ),
    {
        let target = play.target;
        match self.on(origin) {
            Some(mover) if origin.valid() && mover.team == self.turn => {
                let team = mover.team;
                match mover.piece {
                    Piece::Pawn(_) => {
                        self.lemma_pawn_plays_contain(origin, team, play);
                    },
                    Piece::King(_) => {
                        self.lemma_jumps_contain(origin, team, king_offsets(), play);
                        Self::lemma_king_offsets(origin, target);
                    },
                    Piece::Horse => {
                        self.lemma_jumps_contain(origin, team, knight_offsets(), play);
                        Self::lemma_knight_offsets(origin, target);
                    },
                    Piece::Rook(_) => {
                        self.lemma_slides_contain(origin, team, rook_directions(), play);
                        self.lemma_slides_along(origin, rook_directions(), target);
                        assert forall|direction: Direction|
                            rook_directions().contains(direction)
                                <==> direction.is_orthogonal() by {
                            Self::lemma_directions(direction);
                        }
                    },
                    Piece::Bishop => {
                        self.lemma_slides_contain(origin, team, bishop_directions(), play);
                        self.lemma_slides_along(origin, bishop_directions(), target);
                        assert forall|direction: Direction|
                            bishop_directions().contains(direction)
                                <==> direction.is_diagonal() by {
                            Self::lemma_directions(direction);
                        }
                    },
                    Piece::Queen => {
                        self.lemma_slides_contain(origin, team, queen_directions(), play);
                        self.lemma_slides_along(origin, queen_directions(), target);
                        assert forall|direction: Direction|
                            queen_directions().contains(direction) by {
                            Self::lemma_directions(direction);
                        }
                    },
                }
            },
            _ => {},
        }
    }

    /// No two of the generated plays from a square are the same.
    pub proof fn lemma_plays_from_distinct(&self, origin: TilePosition)
        ensures
            self.plays_from(origin).no_duplicates(),
    {
        match self.on(origin) {
            Some(mover) if origin.valid() && mover.team == self.turn => {
                let team = mover.team;
                Self::lemma_king_offsets(origin, origin);
                Self::lemma_knight_offsets(origin, origin);
                Self::lemma_directions(Direction::Up);
                match mover.piece {
                    Piece::Pawn(_) => self.lemma_pawn_plays_distinct(origin, team),
                    Piece::King(_) => self.lemma_jumps_distinct(origin, team, king_offsets()),
                    Piece::Horse => self.lemma_jumps_distinct(origin, team, knight_offsets()),
                    Piece::Rook(_) => self.lemma_slides_distinct(origin, team, rook_directions()),
                    Piece::Bishop => self.lemma_slides_distinct(origin, team, bishop_directions()),
                    Piece::Queen => self.lemma_slides_distinct(origin, team, queen_directions()),
                }
            },
            _ => {},
        }
    }

    /// The plays generated from the first `count` squares of the walk are the
    /// plays that obey the rules and start on one of those squares.
    pub proof fn lemma_plays_of_first_contain(&self, count: nat, play: Play)
        requires
            count <= 64,
        ensures
            self.plays_of_first(count).contains(play) <==> walk_index(play.origin) < count
                && self.pseudo_legal(play),
        decreases count,
    {
        if count > 0 {
            let index = (count - 1) as nat;
            let square = tile(index as int % 8, index as int / 8);
            self.lemma_plays_of_first_contain(index, play);
            self.lemma_plays_from_contain(square, play);
            lemma_seq_concat_contains_all_elements(
                self.plays_of_first(index),
                self.plays_from(square),
                play,
            );
        }
    }

    /// No two of the plays generated from the first `count` squares of the
    /// walk are the same.
    pub proof fn lemma_plays_of_first_distinct(&self, count: nat)
        requires
            count <= 64,
        ensures
            self.plays_of_first(count).no_duplicates(),
        decreases count,
    {
        if count > 0 {
            let index = (count - 1) as nat;
            let square = tile(index as int % 8, index as int / 8);
            let earlier = self.plays_of_first(index);
            let here = self.plays_from(square);
            self.lemma_plays_of_first_distinct(index);
            self.lemma_plays_from_distinct(square);
            assert forall|i: int, j: int| 0 <= i < earlier.len() && 0 <= j < here.len() implies earlier[i]
                != here[j] by {
                assert(earlier.contains(earlier[i]));
                assert(here.contains(here[j]));
                self.lemma_plays_of_first_contain(index, earlier[i]);
                self.lemma_plays_from_contain(square, here[j]);
            }
            lemma_no_dup_in_concat(earlier, here);
        }
    }

    /// The plays generated from the first `count` squares of the walk come in
    /// the order of the walk, each from one of those squares.
    pub proof fn lemma_plays_of_first_ordered(&self, count: nat)
        requires
            count <= 64,
        ensures
            forall|i: int|
                0 <= i < self.plays_of_first(count).len() ==> walk_index(
                    (#[trigger] self.plays_of_first(count)[i]).origin,
                ) < count,
            forall|i: int, j: int|
                0 <= i <= j < self.plays_of_first(count).len() ==> walk_index(
                    (#[trigger] self.plays_of_first(count)[i]).origin,
                ) <= walk_index((#[trigger] self.plays_of_first(count)[j]).origin),
        decreases count,
    {
        if count > 0 {
            let index = (count - 1) as nat;
            let square = tile(index as int % 8, index as int / 8);
            let earlier = self.plays_of_first(index);
            let here = self.plays_from(square);
            let both = self.plays_of_first(count);
            self.lemma_plays_of_first_ordered(index);
            assert(both == earlier + here);
            assert forall|i: int| 0 <= i < both.len() implies walk_index(
                (#[trigger] both[i]).origin,
            ) < count && (i >= earlier.len() ==> walk_index(both[i].origin) == index) by {
                if i < earlier.len() {
                    assert(both[i] == earlier[i]);
                } else {
                    assert(both[i] == here[i - earlier.len()]);
                    assert(here.contains(here[i - earlier.len()]));
                    self.lemma_plays_from_contain(square, both[i]);
                }
            }
            assert forall|i: int, j: int| 0 <= i <= j < both.len() implies walk_index(
                (#[trigger] both[i]).origin,
            ) <= walk_index((#[trigger] both[j]).origin) by {
                if j < earlier.len() {
                    assert(both[i] == earlier[i]);
                    assert(both[j] == earlier[j]);
                }
            }
        }
    }

    /// The plays generated from the whole board are exactly the plays that
    /// obey the rules of movement, each once.
    pub proof fn lemma_all_plays(&self)
        ensures
            forall|play: Play| #[trigger] self.all_plays().contains(play) <==> self.pseudo_legal(play),
            self.all_plays().no_duplicates(),
    {
        assert forall|play: Play| #[trigger]
            self.all_plays().contains(play) <==> self.pseudo_legal(play) by {
            self.lemma_plays_of_first_contain(64, play);
        }
        self.lemma_plays_of_first_distinct(64);
    }

    /// The plays generated from one square are exactly the plays from it that
    /// obey the rules of movement, each once.
    pub proof fn lemma_plays_from(&self, origin: TilePosition)
        ensures
            forall|play: Play| #[trigger]
                self.plays_from(origin).contains(play) <==> play.origin == origin
                    && self.pseudo_legal(play),
            self.plays_from(origin).no_duplicates(),
    {
        assert forall|play: Play| #[trigger]
            self.plays_from(origin).contains(play) <==> play.origin == origin && self.pseudo_legal(
                play,
            ) by {
            self.lemma_plays_from_contain(origin, play);
        }
        self.lemma_plays_from_distinct(origin);
    }
}

} // verus!
