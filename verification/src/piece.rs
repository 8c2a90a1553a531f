//! The value types of the engine: board occupants, move records,
//! and the castling-rights flags.

use vstd::prelude::*;

verus! {

/// A board occupant.  `id` encodes the piece kind: 0 empty, 1 pawn,
/// 2 rook, 3 knight, 4 bishop, 5 queen, 6 king.  `team` is -1 for
/// White, 1 for Black, and 0 for an empty square.
#[derive(Copy, Clone, PartialEq, Eq, Structural, Debug)]
pub struct Piece {
    pub id: i8,
    pub team: i8,
    /// Set once the piece has moved; gates the pawn double step.
    pub moved: bool,
    /// True exactly while an enemy pawn may take this pawn en passant.
    pub moved_twice: bool,
}

/// The well-formedness of a single square's contents: kind and side in
/// range, empty squares have no side and no history, and only a pawn
/// can be flagged as having just made a double step.
pub open spec fn valid_piece(p: Piece) -> bool {
    0 <= p.id <= 6 && -1 <= p.team <= 1
        && (p.id == 0 <==> p.team == 0)
        && (p.moved_twice ==> p.id == 1)
        && (p.id == 0 ==> !p.moved && !p.moved_twice)
}

impl Piece {
    /// A freshly created piece of the given kind and side.
    pub fn new(id: i8, color: i8) -> (p: Piece)
        requires
            -1 <= color <= 1,
        ensures
            p == (Piece { id, team: color, moved: false, moved_twice: false }),
    {
        Piece { id, team: color, moved: false, moved_twice: false }
    }

    /// A white piece of the given kind.
    pub fn white(id: i8) -> (p: Piece)
        requires
            1 <= id <= 6,
        ensures
            p == (Piece { id, team: -1i8, moved: false, moved_twice: false }),
            valid_piece(p),
    {
        Self::new(id, -1)
    }

    /// A black piece of the given kind.
    pub fn black(id: i8) -> (p: Piece)
        requires
            1 <= id <= 6,
        ensures
            p == (Piece { id, team: 1, moved: false, moved_twice: false }),
            valid_piece(p),
    {
        Self::new(id, 1)
    }

    /// The contents of an empty square.
    pub fn empty() -> (p: Piece)
        ensures
            p == empty_piece(),
            valid_piece(p),
    {
        Self::new(0, 0)
    }
}

/// The contents of an empty square, as a spec value.
pub open spec fn empty_piece() -> Piece {
    Piece { id: 0, team: 0, moved: false, moved_twice: false }
}

/// How a move affects the board beyond relocating the mover.
#[derive(Copy, Clone, PartialEq, Eq, Structural, Debug)]
pub enum MoveKind {
    /// A move onto an empty square.
    Plain,
    /// A pawn double step; makes the pawn capturable en passant.
    TwoStep,
    /// A pawn capture that lands behind the captured pawn.
    EnPassant,
    /// A capture onto the captured piece's square.
    Capture,
    /// King-side castling: the king's two-square walk towards its rook.
    CastleKing,
    /// Queen-side castling.
    CastleQueen,
}

/// One move: origin square, destination square, and its kind.
/// Files (`fx`, `tx`) and ranks (`fy`, `ty`) each run from 0 to 7;
/// rank 0 is Black's home rank, rank 7 White's.
#[derive(Copy, Clone, PartialEq, Eq, Structural, Debug)]
pub struct Mv {
    pub fx: usize,
    pub fy: usize,
    pub tx: usize,
    pub ty: usize,
    pub kind: MoveKind,
}

/// The four castling permissions, each lost permanently once the king
/// or the matching rook leaves its home square.
#[derive(Copy, Clone, PartialEq, Eq, Structural, Debug)]
pub struct CastleRights {
    pub wk: bool,
    pub wq: bool,
    pub bk: bool,
    pub bq: bool,
}

} // verus!
