//! The board model: teams, pieces, squares and positions.
//!
//! A position is a plain value: whose turn it is and an 8x8 grid of optional
//! occupants, indexed `[number][letter]` (rank first, file second).  All
//! contracts speak of a position through [`GameState::at`], which reads a
//! square by integer coordinates and answers `None` for any coordinate that is
//! off the board.

use core::ops::Not;
use vstd::prelude::*;

verus! {

/// One of the two sides of a game.
#[derive(Clone, Copy, PartialEq, Eq, Debug, Hash, Structural)]
pub enum Team {
    Black,
    White,
}

/// Whether a pawn could be captured en passant.  Carried by the data, read by
/// no rule.
#[derive(Clone, Copy, PartialEq, Eq, Debug, Hash, Structural)]
pub enum EnPassanteVulnerability {
    Vulnerable,
    Invulnerable,
}

/// Whether a king or rook could still castle.  Carried by the data, read by no
/// rule.
#[derive(Clone, Copy, PartialEq, Eq, Debug, Hash, Structural)]
pub enum RochadeAbility {
    Able,
    Unable,
}

/// The six kinds of piece.
#[derive(Clone, Copy, PartialEq, Eq, Debug, Hash, Structural)]
pub enum Piece {
    King(RochadeAbility),
    Queen,
    Rook(RochadeAbility),
    Bishop,
    Horse,
    Pawn(EnPassanteVulnerability),
}

/// What stands on an occupied square.
#[derive(Clone, Copy, PartialEq, Eq, Debug, Hash, Structural)]
pub struct PieceWithTeam {
    pub piece: Piece,
    pub team: Team,
}

/// A square named by its file (`letter`) and rank (`number`), both counted
/// from zero.  Any pair of numbers can be written down; only those with both
/// coordinates in `0..=7` name a square of the board.
#[derive(Clone, Copy, PartialEq, Eq, Debug, Structural)]
pub struct TilePosition {
    pub letter: usize,
    pub number: usize,
}

/// A move: the square a piece leaves and the square it lands on.  It says
/// nothing else: not what moves, nor what is taken.
#[derive(Clone, Copy, PartialEq, Eq, Debug, Structural)]
pub struct Play {
    pub origin: TilePosition,
    pub target: TilePosition,
}

/// A snapshot of a game: the side to move and the occupancy of the 64 squares,
/// `board[number][letter]`.
#[derive(Clone, Copy, PartialEq, Eq, Debug)]
pub struct GameState {
    pub turn: Team,
    pub board: [[Option<PieceWithTeam>; 8]; 8],
}

/// Both coordinates lie on the board.
pub open spec fn on_board(letter: int, number: int) -> bool {
    0 <= letter <= 7 && 0 <= number <= 7
}

/// The square with the given coordinates, for coordinates on the board.
pub open spec fn tile(letter: int, number: int) -> TilePosition
    recommends
        on_board(letter, number),
{
    TilePosition { letter: letter as usize, number: number as usize }
}

impl Team {
    /// The other side.
    pub open spec fn opponent(self) -> Team {
        match self {
            Team::White => Team::Black,
            Team::Black => Team::White,
        }
    }

    /// The change of rank of one pawn step: white pawns climb, black pawns
    /// descend.
    pub open spec fn forward(self) -> int {
        match self {
            Team::White => 1,
            Team::Black => -1,
        }
    }

    /// The rank on which this side's pawns start, and from which alone they
    /// may step twice.
    pub open spec fn pawn_rank(self) -> int {
        match self {
            Team::White => 1,
            Team::Black => 6,
        }
    }

    /// The rank on which this side's officers start.
    pub open spec fn home_rank(self) -> int {
        match self {
            Team::White => 0,
            Team::Black => 7,
        }
    }
}

impl vstd::std_specs::ops::NotSpecImpl for Team {
    open spec fn obeys_not_spec() -> bool {
        true
    }

    open spec fn not_req(self) -> bool {
        true
    }

    open spec fn not_spec(self) -> Team {
        self.opponent()
    }
}

impl core::ops::Not for Team {
    type Output = Team;

    /// Negation swaps the two sides.
    fn not(self) -> (other: Team)
        ensures
            other == self.opponent(),
    {
        match self {
            Team::White => Team::Black,
            Team::Black => Team::White,
        }
    }
}

impl TilePosition {
    /// The square lies on the board.
    pub open spec fn valid(&self) -> bool {
        self.letter <= 7 && self.number <= 7
    }

    /// Tells whether the square lies on the board.
    #[verifier::when_used_as_spec(valid)]
    pub fn is_valid(&self) -> (valid: bool)
        ensures
            valid == self.valid(),
    {
        self.letter <= 7 && self.number <= 7
    }
}

impl GameState {
    /// The occupant of the square at the given coordinates; `None` where the
    /// square is empty and where the coordinates are off the board.
    pub open spec fn at(&self, letter: int, number: int) -> Option<PieceWithTeam> {
        if on_board(letter, number) {
            self.board[number][letter]
        } else {
            None
        }
    }

    /// The occupant of a square named by a `TilePosition`.
    pub open spec fn on(&self, tile: TilePosition) -> Option<PieceWithTeam> {
        self.at(tile.letter as int, tile.number as int)
    }

    /// The square is on the board and nothing stands on it.
    pub open spec fn is_free(&self, letter: int, number: int) -> bool {
        on_board(letter, number) && self.at(letter, number) is None
    }

    /// A piece of the other side than `team` stands on the square.
    pub open spec fn holds_enemy_of(&self, team: Team, letter: int, number: int) -> bool {
        self.at(letter, number) matches Some(other) && other.team != team
    }

    /// A piece of `team` may land on the square: it is on the board and no
    /// piece of the same side stands on it.
    pub open spec fn admits(&self, team: Team, letter: int, number: int) -> bool {
        on_board(letter, number) && (self.at(letter, number) matches Some(other) ==> other.team
            != team)
    }

    /// Reads a square, answering `None` for a square that is off the board.
    #[verifier::when_used_as_spec(on)]
    pub fn occupant(&self, tile: TilePosition) -> (found: Option<PieceWithTeam>)
        ensures
            found == self.on(tile),
    {
        if tile.is_valid() {
            self.board[tile.number][tile.letter]
        } else {
            None
        }
    }

    /// What stands at the given coordinates once `play` has been made: nothing
    /// on the square the play leaves, what stood on that square on the square
    /// it reaches, and what stood there before everywhere else.  A play that
    /// leaves from off the board carries nothing, and one that leads off the
    /// board puts nothing down.
    pub open spec fn at_after(&self, play: Play, letter: int, number: int) -> Option<
        PieceWithTeam,
    > {
        if !on_board(letter, number) {
            None
        } else if letter == play.origin.letter && number == play.origin.number {
            None
        } else if letter == play.target.letter && number == play.target.number {
            self.on(play.origin)
        } else {
            self.at(letter, number)
        }
    }

    /// `next` is the position that `play` leads to from this one: the turn
    /// has passed to the other side, and every square holds what `at_after`
    /// says.
    pub open spec fn leads_to(&self, play: Play, next: GameState) -> bool {
        &&& next.turn == self.turn.opponent()
        &&& forall|letter: int, number: int| #[trigger]
            next.at(letter, number) == self.at_after(play, letter, number)
    }

    /// The position that `play` leads to.
    ///
    /// The turn passes to the other side, the square that the play leaves is
    /// cleared, the square that it reaches receives what stood on the square
    /// it left (nothing, if that square was empty), and no other square
    /// changes.  The play is not held against the rules of movement: whether
    /// it is one of the plays of this position is for the caller to ask first.
    pub fn after(&self, play: Play) -> (next: GameState)
        ensures
            self.leads_to(play, next),
    {
        let mut next: GameState = *self;
        next.turn = self.turn.not();
        let moved = self.occupant(play.origin);
        if play.target.is_valid() {
            next.board[play.target.number][play.target.letter] = moved;
        }
        if play.origin.is_valid() {
            next.board[play.origin.number][play.origin.letter] = None;
        }
        next
    }

    /// The board with nothing on it, white to move.
    pub fn empty() -> (state: GameState)
        ensures
            state.turn == Team::White,
            forall|letter: int, number: int| state.at(letter, number) is None,
    {
        GameState { turn: Team::White, board: [[None; 8]; 8] }
    }

    /// The position from which a game starts, white to move: on each side's
    /// home rank its officers, in front of them its pawns, nothing between.
    pub fn new() -> (state: GameState)
        ensures
            state.turn == Team::White,
            forall|letter: int, number: int|
                state.at(letter, number) == initial_occupant(letter, number),
    {
        let vacant: [Option<PieceWithTeam>; 8] = [None; 8];
        GameState {
            turn: Team::White,
            board: [
                officers(Team::White),
                pawns(Team::White),
                vacant,
                vacant,
                vacant,
                vacant,
                pawns(Team::Black),
                officers(Team::Black),
            ],
        }
    }
}

/// The officer that starts a game on the given file.
pub open spec fn initial_officer(letter: int) -> Piece {
    if letter == 0 || letter == 7 {
        Piece::Rook(RochadeAbility::Able)
    } else if letter == 1 || letter == 6 {
        Piece::Horse
    } else if letter == 2 || letter == 5 {
        Piece::Bishop
    } else if letter == 3 {
        Piece::Queen
    } else {
        Piece::King(RochadeAbility::Able)
    }
}

/// What stands at the given coordinates when a game starts.
pub open spec fn initial_occupant(letter: int, number: int) -> Option<PieceWithTeam> {
    if !on_board(letter, number) {
        None
    } else if number == Team::White.home_rank() {
        Some(PieceWithTeam { piece: initial_officer(letter), team: Team::White })
    } else if number == Team::White.pawn_rank() {
        Some(
            PieceWithTeam {
                piece: Piece::Pawn(EnPassanteVulnerability::Invulnerable),
                team: Team::White,
            },
        )
    } else if number == Team::Black.pawn_rank() {
        Some(
            PieceWithTeam {
                piece: Piece::Pawn(EnPassanteVulnerability::Invulnerable),
                team: Team::Black,
            },
        )
    } else if number == Team::Black.home_rank() {
        Some(PieceWithTeam { piece: initial_officer(letter), team: Team::Black })
    } else {
        None
    }
}

/// A home rank at the start of a game: the officers of `team`, file by file.
fn officers(team: Team) -> (rank: [Option<PieceWithTeam>; 8])
    ensures
        forall|letter: int|
            0 <= letter <= 7 ==> #[trigger] rank[letter] == Some(
                PieceWithTeam { piece: initial_officer(letter), team },
            ),
{
    [
        Some(PieceWithTeam { piece: Piece::Rook(RochadeAbility::Able), team }),
        Some(PieceWithTeam { piece: Piece::Horse, team }),
        Some(PieceWithTeam { piece: Piece::Bishop, team }),
        Some(PieceWithTeam { piece: Piece::Queen, team }),
        Some(PieceWithTeam { piece: Piece::King(RochadeAbility::Able), team }),
        Some(PieceWithTeam { piece: Piece::Bishop, team }),
        Some(PieceWithTeam { piece: Piece::Horse, team }),
        Some(PieceWithTeam { piece: Piece::Rook(RochadeAbility::Able), team }),
    ]
}

/// A rank of pawns at the start of a game: eight pawns of `team`.
fn pawns(team: Team) -> (rank: [Option<PieceWithTeam>; 8])
    ensures
        forall|letter: int|
            0 <= letter <= 7 ==> #[trigger] rank[letter] == Some(
                PieceWithTeam { piece: Piece::Pawn(EnPassanteVulnerability::Invulnerable), team },
            ),
{
    [Some(PieceWithTeam { piece: Piece::Pawn(EnPassanteVulnerability::Invulnerable), team }); 8]
}

} // verus!
