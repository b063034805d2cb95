//! Move generation: the plays that the rules of movement allow from one
//! square, or from all of them.
//!
//! The plays are pseudo-legal: they obey how each piece moves and what blocks
//! it, and take no account of check.

use vstd::prelude::*;
use crate::board::{tile, GameState, Piece, Play, Team, TilePosition};
use crate::rays::Direction;

verus! {

/// The eight steps of a king, as changes of file and rank, in the order in
/// which they are tried.
pub open spec fn king_offsets() -> Seq<(i8, i8)> {
    seq![
        (1i8, 1i8),
        (1i8, 0i8),
        (1i8, -1i8),
        (0i8, -1i8),
        (-1i8, -1i8),
        (-1i8, 0i8),
        (-1i8, 1i8),
        (0i8, 1i8),
    ]
}

/// The eight jumps of a knight, as changes of file and rank, in the order in
/// which they are tried.
pub open spec fn knight_offsets() -> Seq<(i8, i8)> {
    seq![
        (2i8, 1i8),
        (2i8, -1i8),
        (1i8, 2i8),
        (-1i8, 2i8),
        (-1i8, -2i8),
        (1i8, -2i8),
        (-2i8, -1i8),
        (-2i8, 1i8),
    ]
}

/// The lines of a rook, in the order in which they are searched.
pub open spec fn rook_directions() -> Seq<Direction> {
    seq![Direction::Up, Direction::Down, Direction::Right, Direction::Left]
}

/// The lines of a bishop, in the order in which they are searched.
pub open spec fn bishop_directions() -> Seq<Direction> {
    seq![Direction::UpRight, Direction::UpLeft, Direction::DownRight, Direction::DownLeft]
}

/// The lines of a queen: those of a bishop, then those of a rook.
pub open spec fn queen_directions() -> Seq<Direction> {
    bishop_directions() + rook_directions()
}

/// The change of file and rank is one step of a king.
pub open spec fn is_king_step(d_letter: int, d_number: int) -> bool {
    -1 <= d_letter <= 1 && -1 <= d_number <= 1 && !(d_letter == 0 && d_number == 0)
}

/// The change of file and rank is one jump of a knight.
pub open spec fn is_knight_jump(d_letter: int, d_number: int) -> bool {
    ||| (d_letter == 1 || d_letter == -1) && (d_number == 2 || d_number == -2)
    ||| (d_letter == 2 || d_letter == -2) && (d_number == 1 || d_number == -1)
}

impl Team {
    /// The change of rank of one pawn step, as a machine integer.
    pub fn forward_step(self) -> (step: i8)
        ensures
            step == self.forward(),
    {
        match self {
            Team::White => 1,
            Team::Black => -1,
        }
    }

    /// The rank on which this side's pawns start, as a machine integer.
    pub fn pawn_start(self) -> (rank: usize)
        ensures
            rank == self.pawn_rank(),
    {
        match self {
            Team::White => 1,
            Team::Black => 6,
        }
    }
}

impl GameState {
    /// The play from `origin` to the square at the given coordinates.
    pub open spec fn play_to(origin: TilePosition, letter: int, number: int) -> Play {
        Play { origin, target: tile(letter, number) }
    }

    /// Of the given squares, in order, those on which a piece of `team` may
    /// land, each as the play that takes it there from `origin`.
    pub open spec fn landings(
        &self,
        origin: TilePosition,
        team: Team,
        tiles: Seq<TilePosition>,
    ) -> Seq<Play>
        decreases tiles.len(),
    {
        if tiles.len() == 0 {
            Seq::empty()
        } else {
            let earlier = self.landings(origin, team, tiles.drop_last());
            let target = tiles.last();
            if self.admits(team, target.letter as int, target.number as int) {
                earlier.push(Play { origin, target })
            } else {
                earlier
            }
        }
    }

    /// The plays of a piece of `team` that jumps from `origin` by each of the
    /// given offsets in turn: one play for every offset that leads to a square
    /// of the board not held by the same side.
    pub open spec fn jumps(
        &self,
        origin: TilePosition,
        team: Team,
        offsets: Seq<(i8, i8)>,
    ) -> Seq<Play>
        decreases offsets.len(),
    {
        if offsets.len() == 0 {
            Seq::empty()
        } else {
            let earlier = self.jumps(origin, team, offsets.drop_last());
            let letter = origin.letter + offsets.last().0;
            let number = origin.number + offsets.last().1;
            if self.admits(team, letter, number) {
                earlier.push(Self::play_to(origin, letter, number))
            } else {
                earlier
            }
        }
    }

    /// The plays of a piece of `team` that slides from `origin` along each of
    /// the given directions in turn: along each, the squares of the ray on
    /// which it may land.
    pub open spec fn slides(
        &self,
        origin: TilePosition,
        team: Team,
        directions: Seq<Direction>,
    ) -> Seq<Play>
        decreases directions.len(),
    {
        if directions.len() == 0 {
            Seq::empty()
        } else {
            self.slides(origin, team, directions.drop_last()) + self.landings(
                origin,
                team,
                self.ray(origin, directions.last()),
            )
        }
    }

    /// The forward plays of a pawn of `team` on `origin`: one step onto an
    /// empty square and, from the pawns' starting rank, a second step onto
    /// another empty square.
    pub open spec fn pawn_advances(&self, origin: TilePosition, team: Team) -> Seq<Play> {
        let letter = origin.letter as int;
        let ahead = origin.number + team.forward();
        let beyond = ahead + team.forward();
        if !self.is_free(letter, ahead) {
            Seq::empty()
        } else if origin.number == team.pawn_rank() && self.is_free(letter, beyond) {
            seq![Self::play_to(origin, letter, ahead), Self::play_to(origin, letter, beyond)]
        } else {
            seq![Self::play_to(origin, letter, ahead)]
        }
    }

    /// The capture of a pawn of `team` on `origin` towards the file `side`
    /// files away (`-1` or `1`): a play there is if an opposing piece stands
    /// diagonally ahead on that side.
    pub open spec fn pawn_capture(&self, origin: TilePosition, team: Team, side: int) -> Seq<Play> {
        let letter = origin.letter + side;
        let ahead = origin.number + team.forward();
        if self.holds_enemy_of(team, letter, ahead) {
            seq![Self::play_to(origin, letter, ahead)]
        } else {
            Seq::empty()
        }
    }

    /// The plays of a pawn of `team` on `origin`: its advances, then its
    /// capture towards the lower files, then its capture towards the higher.
    pub open spec fn pawn_plays(&self, origin: TilePosition, team: Team) -> Seq<Play> {
        self.pawn_advances(origin, team) + self.pawn_capture(origin, team, -1) + self.pawn_capture(
            origin,
            team,
            1,
        )
    }

    /// `origin` is a square of the board and a piece of the side to move
    /// stands on it.
    pub open spec fn has_mover_on(&self, origin: TilePosition) -> bool {
        origin.valid() && (self.on(origin) matches Some(mover) && mover.team == self.turn)
    }

    /// The plays from `origin`, in the order in which they are generated.
    /// There are none unless `origin` is a square of the board that holds a
    /// piece of the side to move; then they are those of that piece.
    pub open spec fn plays_from(&self, origin: TilePosition) -> Seq<Play> {
        match self.on(origin) {
            Some(mover) if origin.valid() && mover.team == self.turn => match mover.piece {
                Piece::Pawn(_) => self.pawn_plays(origin, mover.team),
                Piece::King(_) => self.jumps(origin, mover.team, king_offsets()),
                Piece::Horse => self.jumps(origin, mover.team, knight_offsets()),
                Piece::Rook(_) => self.slides(origin, mover.team, rook_directions()),
                Piece::Bishop => self.slides(origin, mover.team, bishop_directions()),
                Piece::Queen => self.slides(origin, mover.team, queen_directions()),
            },
            _ => Seq::empty(),
        }
    }

    /// The plays from the first `count` squares of the board, taken rank by
    /// rank and within a rank file by file.
    pub open spec fn plays_of_first(&self, count: nat) -> Seq<Play>
        decreases count,
    {
        if count == 0 {
            Seq::empty()
        } else {
            let index = count - 1;
            self.plays_of_first(index as nat) + self.plays_from(tile(index % 8, index / 8))
        }
    }

    /// The plays from all 64 squares, rank by rank and within a rank file by
    /// file.
    pub open spec fn all_plays(&self) -> Seq<Play> {
        self.plays_of_first(64)
    }

    /// Tells whether a piece of `team` may land on `target`.
    fn may_land(&self, team: Team, target: TilePosition) -> (allowed: bool)
        ensures
            allowed == self.admits(team, target.letter as int, target.number as int),
    {
        target.is_valid() && match self.occupant(target) {
            Some(other) => other.team != team,
            None => true,
        }
    }

    /// Appends to `plays` the plays from `origin` to those of `tiles` on which
    /// a piece of `team` may land.
    fn push_landings(
        &self,
        plays: &mut Vec<Play>,
        origin: TilePosition,
        team: Team,
        tiles: &Vec<TilePosition>,
    )
        ensures
            final(plays)@ == old(plays)@ + self.landings(origin, team, tiles@),
    {
        let mut i: usize = 0;
        while i < tiles.len()
            invariant
                i <= tiles.len(),
                plays@ == old(plays)@ + self.landings(origin, team, tiles@.take(i as int)),
            decreases tiles.len() - i,
        {
            let target = tiles[i];
            proof {
                assert(tiles@.take(i + 1).drop_last() == tiles@.take(i as int));
            }
            if self.may_land(team, target) {
                plays.push(Play { origin, target });
            }
            i = i + 1;
        }
        proof {
            assert(tiles@.take(tiles.len() as int) == tiles@);
        }
    }

    /// Appends to `plays` the jumps of a piece of `team` from `origin` by the
    /// given offsets.
    fn push_jumps(
        &self,
        plays: &mut Vec<Play>,
        origin: TilePosition,
        team: Team,
        offsets: &[(i8, i8)],
    )
        ensures
            final(plays)@ == old(plays)@ + self.jumps(origin, team, offsets@),
    {
        let mut i: usize = 0;
        while i < offsets.len()
            invariant
                i <= offsets.len(),
                plays@ == old(plays)@ + self.jumps(origin, team, offsets@.take(i as int)),
            decreases offsets.len() - i,
        {
            let (d_letter, d_number) = offsets[i];
            proof {
                assert(offsets@.take(i + 1).drop_last() == offsets@.take(i as int));
            }
            match origin.shifted(d_letter, d_number) {
                Some(target) => {
                    if self.may_land(team, target) {
                        plays.push(Play { origin, target });
                    }
                },
                None => {},
            }
            i = i + 1;
        }
        proof {
            assert(offsets@.take(offsets.len() as int) == offsets@);
        }
    }

    /// Appends to `plays` the slides of a piece of `team` from `origin` along
    /// the given directions.
    fn push_slides(
        &self,
        plays: &mut Vec<Play>,
        origin: TilePosition,
        team: Team,
        directions: &[Direction],
    )
        requires
            origin.valid(),
        ensures
            final(plays)@ == old(plays)@ + self.slides(origin, team, directions@),
    {
        let mut i: usize = 0;
        while i < directions.len()
            invariant
                i <= directions.len(),
                origin.valid(),
                plays@ == old(plays)@ + self.slides(origin, team, directions@.take(i as int)),
            decreases directions.len() - i,
        {
            proof {
                assert(directions@.take(i + 1).drop_last() == directions@.take(i as int));
            }
            match self.unblocked_tiles_in_direction(origin, directions[i]) {
                Ok(tiles) => {
                    self.push_landings(plays, origin, team, &tiles);
                },
                Err(_) => {},
            }
            i = i + 1;
        }
        proof {
            assert(directions@.take(directions.len() as int) == directions@);
        }
    }

    /// Appends to `plays` the plays of a pawn of `team` on `origin`.
    fn push_pawn_plays(&self, plays: &mut Vec<Play>, origin: TilePosition, team: Team)
        requires
            origin.valid(),
        ensures
            final(plays)@ == old(plays)@ + self.pawn_plays(origin, team),
    {
        let forward = team.forward_step();
        match origin.shifted(0, forward) {
            Some(ahead) => {
                if self.occupant(ahead).is_none() {
                    plays.push(Play { origin, target: ahead });
                    if origin.number == team.pawn_start() {
                        match origin.shifted(0, 2 * forward) {
                            Some(beyond) => {
                                if self.occupant(beyond).is_none() {
                                    plays.push(Play { origin, target: beyond });
                                }
                            },
                            None => {},
                        }
                    }
                }
            },
            None => {},
        }
        assert(plays@ == old(plays)@ + self.pawn_advances(origin, team));
        self.push_pawn_capture(plays, origin, team, -1);
        self.push_pawn_capture(plays, origin, team, 1);
    }

    /// Appends to `plays` the capture of a pawn of `team` on `origin` towards
    /// the given side, if there is one.
    fn push_pawn_capture(&self, plays: &mut Vec<Play>, origin: TilePosition, team: Team, side: i8)
        ensures
            final(plays)@ == old(plays)@ + self.pawn_capture(origin, team, side as int),
    {
        match origin.shifted(side, team.forward_step()) {
            Some(target) => {
                match self.occupant(target) {
                    Some(other) => {
                        if other.team != team {
                            plays.push(Play { origin, target });
                        }
                    },
                    None => {},
                }
            },
            None => {},
        }
    }
}

impl Play {
    /// Lists the plays from one square.
    ///
    /// The list is empty if `origin` is off the board, if nothing stands on
    /// it, or if what stands on it belongs to the side that is not to move.
    /// Otherwise it holds the plays of the piece on `origin`.
    pub fn get_possible_plays_for_tile(origin: TilePosition, game_state: &GameState) -> (plays: Vec<
        Play,
    >)
        ensures
            plays@ == game_state.plays_from(origin),
            !game_state.has_mover_on(origin) ==> plays@.len() == 0,
            forall|play: Play| #[trigger]
                plays@.contains(play) <==> play.origin == origin && game_state.pseudo_legal(play),
            plays@.no_duplicates(),
    {
        proof {
            game_state.lemma_plays_from(origin);
        }
        let mut plays: Vec<Play> = Vec::new();
        if !origin.is_valid() {
            return plays;
        }
        match game_state.occupant(origin) {
            None => {},
            Some(mover) => {
                if mover.team == game_state.turn {
                    let team = mover.team;
                    match mover.piece {
                        Piece::Pawn(_) => {
                            game_state.push_pawn_plays(&mut plays, origin, team);
                        },
                        Piece::King(_) => {
                            let offsets: [(i8, i8); 8] = [
                                (1, 1),
                                (1, 0),
                                (1, -1),
                                (0, -1),
                                (-1, -1),
                                (-1, 0),
                                (-1, 1),
                                (0, 1),
                            ];
                            assert(offsets@ == king_offsets());
                            game_state.push_jumps(&mut plays, origin, team, &offsets);
                        },
                        Piece::Horse => {
                            let offsets: [(i8, i8); 8] = [
                                (2, 1),
                                (2, -1),
                                (1, 2),
                                (-1, 2),
                                (-1, -2),
                                (1, -2),
                                (-2, -1),
                                (-2, 1),
                            ];
                            assert(offsets@ == knight_offsets());
                            game_state.push_jumps(&mut plays, origin, team, &offsets);
                        },
                        Piece::Rook(_) => {
                            let directions: [Direction; 4] = [
                                Direction::Up,
                                Direction::Down,
                                Direction::Right,
                                Direction::Left,
                            ];
                            assert(directions@ == rook_directions());
                            game_state.push_slides(&mut plays, origin, team, &directions);
                        },
                        Piece::Bishop => {
                            let directions: [Direction; 4] = [
                                Direction::UpRight,
                                Direction::UpLeft,
                                Direction::DownRight,
                                Direction::DownLeft,
                            ];
                            assert(directions@ == bishop_directions());
                            game_state.push_slides(&mut plays, origin, team, &directions);
                        },
                        Piece::Queen => {
                            let directions: [Direction; 8] = [
                                Direction::UpRight,
                                Direction::UpLeft,
                                Direction::DownRight,
                                Direction::DownLeft,
                                Direction::Up,
                                Direction::Down,
                                Direction::Right,
                                Direction::Left,
                            ];
                            assert(directions@ == queen_directions());
                            game_state.push_slides(&mut plays, origin, team, &directions);
                        },
                    }
                }
            },
        }
        plays
    }

    /// Lists the plays from every square of the board, rank by rank and within
    /// a rank file by file.
    pub fn get_all_possible_plays(game_state: &GameState) -> (plays: Vec<Play>)
        ensures
            plays@ == game_state.all_plays(),
            forall|play: Play| #[trigger] plays@.contains(play) <==> game_state.pseudo_legal(play),
            plays@.no_duplicates(),
    {
        proof {
            game_state.lemma_all_plays();
        }
        let mut plays: Vec<Play> = Vec::new();
        let mut number: usize = 0;
        while number < 8
            invariant
                number <= 8,
                plays@ == game_state.plays_of_first((8 * number) as nat),
            decreases 8 - number,
        {
            let mut letter: usize = 0;
            while letter < 8
                invariant
                    number < 8,
                    letter <= 8,
                    plays@ == game_state.plays_of_first((8 * number + letter) as nat),
                decreases 8 - letter,
            {
                let position = TilePosition { number, letter };
                let mut found = Self::get_possible_plays_for_tile(position, game_state);
                plays.append(&mut found);
                letter = letter + 1;
            }
            number = number + 1;
        }
        plays
    }
}

/// Tells whether `play` occurs in `plays`.
fn lists(plays: &Vec<Play>, play: Play) -> (found: bool)
    ensures
        found == plays@.contains(play),
{
    let mut i: usize = 0;
    while i < plays.len()
        invariant
            i <= plays.len(),
            forall|j: int| 0 <= j < i ==> plays@[j] != play,
        decreases plays.len() - i,
    {
        if plays[i] == play {
            return true;
        }
        i = i + 1;
    }
    false
}

/// Makes `play` if the rules of movement allow it, and leaves the position as
/// it is if they do not.
///
/// The play is allowed exactly if it is one of the plays generated from its
/// origin.  If it is, the position becomes the one that the play leads to;
/// otherwise nothing changes, the turn included.
pub fn try_play(play: Play, game_state: &mut GameState)
    ensures
        old(game_state).pseudo_legal(play) ==> old(game_state).leads_to(play, *final(game_state)),
        !old(game_state).pseudo_legal(play) ==> *final(game_state) == *old(game_state),
{
    let plays = Play::get_possible_plays_for_tile(play.origin, game_state);
    if lists(&plays, play) {
        *game_state = game_state.after(play);
    }
}

} // verus!
