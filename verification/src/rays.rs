//! Directions and ray casts: the squares a sliding piece sees along one line.

use vstd::prelude::*;
use crate::board::{on_board, tile, GameState, PieceWithTeam, TilePosition};

verus! {

/// The eight compass directions.  `Up` is towards higher ranks, `Right` is
/// towards higher files.
#[derive(Clone, Copy, PartialEq, Eq, Debug, Structural)]
pub enum Direction {
    Up,
    Down,
    Left,
    Right,
    UpRight,
    UpLeft,
    DownRight,
    DownLeft,
}

impl Direction {
    /// The change of file made by one step.
    pub open spec fn letter_step(self) -> int {
        match self {
            Direction::Up | Direction::Down => 0,
            Direction::Left | Direction::UpLeft | Direction::DownLeft => -1,
            Direction::Right | Direction::UpRight | Direction::DownRight => 1,
        }
    }

    /// The change of rank made by one step.
    pub open spec fn number_step(self) -> int {
        match self {
            Direction::Left | Direction::Right => 0,
            Direction::Down | Direction::DownLeft | Direction::DownRight => -1,
            Direction::Up | Direction::UpLeft | Direction::UpRight => 1,
        }
    }

    /// The direction runs along a rank or a file.
    pub open spec fn is_orthogonal(self) -> bool {
        self.letter_step() == 0 || self.number_step() == 0
    }

    /// The direction runs along a diagonal.
    pub open spec fn is_diagonal(self) -> bool {
        !self.is_orthogonal()
    }

    /// The file reached `steps` steps away from `origin`.
    pub open spec fn letter_at(self, origin: TilePosition, steps: int) -> int {
        match self {
            Direction::Up | Direction::Down => origin.letter as int,
            Direction::Left | Direction::UpLeft | Direction::DownLeft => origin.letter - steps,
            Direction::Right | Direction::UpRight | Direction::DownRight => origin.letter + steps,
        }
    }

    /// The rank reached `steps` steps away from `origin`.
    pub open spec fn number_at(self, origin: TilePosition, steps: int) -> int {
        match self {
            Direction::Left | Direction::Right => origin.number as int,
            Direction::Down | Direction::DownLeft | Direction::DownRight => origin.number - steps,
            Direction::Up | Direction::UpLeft | Direction::UpRight => origin.number + steps,
        }
    }

    /// `steps` steps away from `origin` there still is a square.
    pub open spec fn reaches(self, origin: TilePosition, steps: int) -> bool {
        on_board(self.letter_at(origin, steps), self.number_at(origin, steps))
    }

    /// The square `steps` steps away from `origin`, where there is one.
    pub open spec fn tile_at(self, origin: TilePosition, steps: int) -> TilePosition
        recommends
            self.reaches(origin, steps),
    {
        tile(self.letter_at(origin, steps), self.number_at(origin, steps))
    }

    /// The change of file and of rank made by one step.
    pub fn step(self) -> (delta: (i8, i8))
        ensures
            delta.0 == self.letter_step(),
            delta.1 == self.number_step(),
    {
        match self {
            Direction::Up => (0, 1),
            Direction::Down => (0, -1),
            Direction::Left => (-1, 0),
            Direction::Right => (1, 0),
            Direction::UpRight => (1, 1),
            Direction::UpLeft => (-1, 1),
            Direction::DownRight => (1, -1),
            Direction::DownLeft => (-1, -1),
        }
    }
}

/// One coordinate moved by a signed amount, if it stays on the board.
fn shifted_coordinate(coordinate: usize, delta: i8) -> (moved: Option<usize>)
    ensures
        moved == if 0 <= coordinate + delta <= 7 {
            Some((coordinate + delta) as usize)
        } else {
            None
        },
{
    if coordinate > 135 {
        None
    } else {
        let sum: i16 = coordinate as i16 + delta as i16;
        if 0 <= sum && sum <= 7 {
            Some(sum as usize)
        } else {
            None
        }
    }
}

impl TilePosition {
    /// The square that lies `d_letter` files and `d_number` ranks away, if
    /// there is one.  The sums are formed in signed arithmetic and only a
    /// result on the board is turned back into a square.
    pub fn shifted(&self, d_letter: i8, d_number: i8) -> (moved: Option<TilePosition>)
        ensures
            moved == if on_board(self.letter + d_letter, self.number + d_number) {
                Some(tile(self.letter + d_letter, self.number + d_number))
            } else {
                None
            },
    {
        match (shifted_coordinate(self.letter, d_letter), shifted_coordinate(self.number, d_number)) {
            (Some(letter), Some(number)) => Some(TilePosition { letter, number }),
            _ => None,
        }
    }
}

impl GameState {
    /// What stands `steps` steps away from `origin` in the given direction.
    pub open spec fn seen(
        &self,
        origin: TilePosition,
        direction: Direction,
        steps: int,
    ) -> Option<PieceWithTeam> {
        self.at(direction.letter_at(origin, steps), direction.number_at(origin, steps))
    }

    /// The line from `origin` is open up to distance `steps`: there is a
    /// square at that distance and every square before it is empty.
    pub open spec fn clear_to(&self, origin: TilePosition, direction: Direction, steps: int) -> bool {
        &&& 1 <= steps <= 7
        &&& direction.reaches(origin, steps)
        &&& forall|nearer: int| 1 <= nearer < steps ==> #[trigger] self.seen(origin, direction, nearer) is None
    }

    /// `target` lies on the line from `origin` in the given direction, within
    /// seven steps, with nothing but empty squares between the two.
    pub open spec fn slides_to(
        &self,
        origin: TilePosition,
        direction: Direction,
        target: TilePosition,
    ) -> bool {
        exists|steps: int| #[trigger]
            self.clear_to(origin, direction, steps) && target == direction.tile_at(origin, steps)
    }

    /// The squares seen from `origin` in the given direction, nearest first,
    /// beginning with the one at distance `from`.
    pub open spec fn ray_from(
        &self,
        origin: TilePosition,
        direction: Direction,
        from: int,
    ) -> Seq<TilePosition>
        decreases 8 - from,
    {
        if from < 1 || from > 7 || !direction.reaches(origin, from) {
            Seq::empty()
        } else if self.seen(origin, direction, from) is Some {
            seq![direction.tile_at(origin, from)]
        } else {
            seq![direction.tile_at(origin, from)] + self.ray_from(origin, direction, from + 1)
        }
    }

    /// The squares seen from `origin` in the given direction, nearest first:
    /// the run of empty squares and, if the run ends at a piece rather than at
    /// the edge, the square of that piece.
    pub open spec fn ray(&self, origin: TilePosition, direction: Direction) -> Seq<TilePosition> {
        self.ray_from(origin, direction, 1)
    }

    /// `tiles` is what is seen from `origin` in the given direction: the
    /// squares at distances 1, 2, ... in order, all but the last of them
    /// empty, ending at the first occupied square or else at the edge.
    pub open spec fn is_ray(
        &self,
        origin: TilePosition,
        direction: Direction,
        tiles: Seq<TilePosition>,
    ) -> bool {
        &&& forall|steps: int| 1 <= steps <= tiles.len() ==> #[trigger] direction.reaches(origin, steps)
        &&& forall|i: int|
            0 <= i < tiles.len() ==> #[trigger] tiles[i] == direction.tile_at(origin, i + 1)
        &&& forall|steps: int|
            1 <= steps < tiles.len() ==> #[trigger] self.seen(origin, direction, steps) is None
        &&& {
            ||| tiles.len() > 0 && self.seen(origin, direction, tiles.len() as int) is Some
            ||| !direction.reaches(origin, tiles.len() as int + 1)
        }
    }

    /// Casts a ray: walks from `origin` in the given direction and collects
    /// the squares passed, up to and including the first occupied one, or up
    /// to the edge of the board.  Fails exactly when `origin` is not on the
    /// board.
    pub fn unblocked_tiles_in_direction(
        &self,
        origin: TilePosition,
        direction: Direction,
    ) -> (cast: Result<Vec<TilePosition>, ()>)
        ensures
            cast is Ok <==> origin.valid(),
            cast matches Ok(tiles) ==> tiles@ == self.ray(origin, direction) && self.is_ray(
                origin,
                direction,
                tiles@,
            ),
    {
        if !origin.is_valid() {
            return Err(());
        }
        let (d_letter, d_number) = direction.step();
        let mut tiles: Vec<TilePosition> = Vec::new();
        let mut current = origin;
        let mut steps: u8 = 1;
        while steps <= 7
            invariant_except_break
                1 <= steps <= 8,
                origin.valid(),
                d_letter == direction.letter_step(),
                d_number == direction.number_step(),
                current == direction.tile_at(origin, steps - 1),
                direction.reaches(origin, steps - 1),
                tiles@ + self.ray_from(origin, direction, steps as int) == self.ray(
                    origin,
                    direction,
                ),
            ensures
                tiles@ == self.ray(origin, direction),
            decreases 8 - steps,
        {
            match current.shifted(d_letter, d_number) {
                None => {
                    break ;
                },
                Some(target) => {
                    tiles.push(target);
                    if self.occupant(target).is_some() {
                        break ;
                    }
                    current = target;
                    steps = steps + 1;
                },
            }
        }
        proof {
            self.lemma_ray_is_ray(origin, direction);
        }
        Ok(tiles)
    }

    /// The squares that `ray_from` lists from distance `from` on are those at
    /// distances `from`, `from + 1`, ... in order; all but the last are empty;
    /// and the list ends at an occupied square or where the board ends.
    pub proof fn lemma_ray_from_shape(&self, origin: TilePosition, direction: Direction, from: int)
        requires
            origin.valid(),
            1 <= from <= 8,
        ensures
            forall|steps: int|
                from <= steps < from + self.ray_from(origin, direction, from).len()
                    ==> #[trigger] direction.reaches(origin, steps),
            forall|i: int|
                0 <= i < self.ray_from(origin, direction, from).len() ==> #[trigger] self.ray_from(
                    origin,
                    direction,
                    from,
                )[i] == direction.tile_at(origin, from + i),
            forall|steps: int|
                from <= steps < from + self.ray_from(origin, direction, from).len() - 1
                    ==> #[trigger] self.seen(origin, direction, steps) is None,
            ({
                let reach = from + self.ray_from(origin, direction, from).len();
                ||| reach > from && self.seen(origin, direction, reach - 1) is Some
                ||| !direction.reaches(origin, reach)
            }),
        decreases 8 - from,
    {
        let tiles = self.ray_from(origin, direction, from);
        if from <= 7 && direction.reaches(origin, from) && self.seen(origin, direction, from) is None {
            self.lemma_ray_from_shape(origin, direction, from + 1);
            let rest = self.ray_from(origin, direction, from + 1);
            assert(tiles == seq![direction.tile_at(origin, from)] + rest);
            assert forall|i: int| 0 <= i < tiles.len() implies #[trigger] tiles[i]
                == direction.tile_at(origin, from + i) by {
                if i > 0 {
                    assert(tiles[i] == rest[i - 1]);
                }
            }
        }
    }

    /// What `ray` lists is a ray in the sense of `is_ray`.
    pub proof fn lemma_ray_is_ray(&self, origin: TilePosition, direction: Direction)
        requires
            origin.valid(),
        ensures
            self.is_ray(origin, direction, self.ray(origin, direction)),
    {
        self.lemma_ray_from_shape(origin, direction, 1);
    }

    /// A ray from a square of the board has at most seven squares, all of
    /// them on the board and no two the same.
    pub proof fn lemma_ray_bounds(&self, origin: TilePosition, direction: Direction)
        requires
            origin.valid(),
        ensures
            self.ray(origin, direction).len() <= 7,
            forall|i: int|
                0 <= i < self.ray(origin, direction).len() ==> (#[trigger] self.ray(
                    origin,
                    direction,
                )[i]).valid(),
            self.ray(origin, direction).no_duplicates(),
    {
        self.lemma_ray_is_ray(origin, direction);
        let tiles = self.ray(origin, direction);
        if tiles.len() > 7 {
            assert(direction.reaches(origin, 8));
        }
        assert forall|i: int| 0 <= i < tiles.len() implies (#[trigger] tiles[i]).valid() by {
            assert(direction.reaches(origin, i + 1));
        }
        assert forall|i: int, j: int| 0 <= i < tiles.len() && 0 <= j < tiles.len() && i != j implies tiles[i]
            != tiles[j] by {
            assert(direction.reaches(origin, i + 1));
            assert(direction.reaches(origin, j + 1));
        }
    }

    /// The squares of a ray are exactly the squares that can be slid to: a
    /// square is listed if and only if it lies on the line and every square
    /// before it is empty.  Nothing behind the first occupied square is
    /// listed, and that square itself is.
    pub proof fn lemma_ray_contains(
        &self,
        origin: TilePosition,
        direction: Direction,
        target: TilePosition,
    )
        requires
            origin.valid(),
        ensures
            self.ray(origin, direction).contains(target) <==> self.slides_to(
                origin,
                direction,
                target,
            ),
    {
        self.lemma_ray_is_ray(origin, direction);
        self.lemma_ray_bounds(origin, direction);
        let tiles = self.ray(origin, direction);
        if tiles.contains(target) {
            let i = choose|i: int| 0 <= i < tiles.len() && tiles[i] == target;
            assert(direction.reaches(origin, i + 1));
            assert(self.clear_to(origin, direction, i + 1));
        }
        if self.slides_to(origin, direction, target) {
            let steps = choose|steps: int| #[trigger]
                self.clear_to(origin, direction, steps) && target == direction.tile_at(
                    origin,
                    steps,
                );
            if steps > tiles.len() {
                assert(tiles.len() > 0 ==> self.seen(origin, direction, tiles.len() as int) is None);
                assert(direction.reaches(origin, tiles.len() as int + 1));
            }
            assert(tiles[steps - 1] == target);
        }
    }

    /// Rays from one square in two different directions share no square.
    pub proof fn lemma_rays_apart(
        &self,
        origin: TilePosition,
        one: Direction,
        other: Direction,
        target: TilePosition,
    )
        requires
            origin.valid(),
            one != other,
        ensures
            !(self.ray(origin, one).contains(target) && self.ray(origin, other).contains(target)),
    {
        self.lemma_ray_contains(origin, one, target);
        self.lemma_ray_contains(origin, other, target);
    }
}

} // verus!
