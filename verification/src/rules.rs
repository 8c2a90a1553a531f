//! The mathematical model of the game: geometric pseudo-move
//! predicates per piece kind, the attack relation, the exact board
//! effect of a committed move, and what it means for a move to be
//! legal (pseudo-legal and leaving one's own king safe).

use vstd::prelude::*;
use crate::piece::{CastleRights, MoveKind, Mv, Piece, empty_piece, valid_piece};

verus! {

/// Both coordinates on the 8x8 grid.
pub open spec fn on_board(x: int, y: int) -> bool {
    0 <= x < 8 && 0 <= y < 8
}

/// The occupant of square (x, y); the board is a flat row-major
/// sequence of 64 pieces, rank 0 first.
pub open spec fn at(b: Seq<Piece>, x: int, y: int) -> Piece {
    b[y * 8 + x]
}

pub open spec fn empty_at(b: Seq<Piece>, x: int, y: int) -> bool {
    at(b, x, y).id == 0
}

pub open spec fn side_at(b: Seq<Piece>, x: int, y: int) -> int {
    at(b, x, y).team as int
}

pub open spec fn kind_id_at(b: Seq<Piece>, x: int, y: int) -> int {
    at(b, x, y).id as int
}

pub open spec fn enemy_at(b: Seq<Piece>, x: int, y: int, team: int) -> bool {
    side_at(b, x, y) == -team
}

/// A full board: 64 squares, each well-formed.
pub open spec fn valid_board(b: Seq<Piece>) -> bool {
    b.len() == 64 && (forall|i: int| 0 <= i < 64 ==> valid_piece(#[trigger] b[i]))
}

pub open spec fn abs_d(d: int) -> int {
    if d < 0 { -d } else { d }
}

/// What the destination square must hold, by move kind, for the
/// ordinary (non-castling, non-pawn-special) moves.
pub open spec fn target_ok(b: Seq<Piece>, tx: int, ty: int, kind: MoveKind, team: int) -> bool {
    match kind {
        MoveKind::Plain => empty_at(b, tx, ty),
        MoveKind::Capture => enemy_at(b, tx, ty, team),
        _ => false,
    }
}

/// A single fixed-offset destination: on the board and suiting the
/// move kind.
pub open spec fn step_ok(b: Seq<Piece>, tx: int, ty: int, kind: MoveKind, team: int) -> bool {
    on_board(tx, ty) && target_ok(b, tx, ty, kind, team)
}

/// The i-th step from (fx, fy) along direction (dx, dy) is a real,
/// empty square.
pub open spec fn ray_step_empty(b: Seq<Piece>, fx: int, fy: int, dx: int, dy: int, i: int) -> bool {
    on_board(fx + i * dx, fy + i * dy) && empty_at(b, fx + i * dx, fy + i * dy)
}

/// Every square strictly between the origin and the n-th step along
/// direction (dx, dy) is empty.
pub open spec fn ray_clear(b: Seq<Piece>, fx: int, fy: int, dx: int, dy: int, n: int) -> bool {
    forall|i: int| 1 <= i < n ==> #[trigger] ray_step_empty(b, fx, fy, dx, dy, i)
}

/// (tx, ty) is the n-th step from (fx, fy) along direction (dx, dy).
pub open spec fn ray_hit(fx: int, fy: int, dx: int, dy: int, tx: int, ty: int, n: int) -> bool {
    n >= 1 && tx == fx + n * dx && ty == fy + n * dy
}

/// A sliding move along one direction: the target is some step along
/// the ray, all squares before it are empty, and the target square
/// suits the move kind.
pub open spec fn ray_ok(
    b: Seq<Piece>, fx: int, fy: int, dx: int, dy: int,
    tx: int, ty: int, kind: MoveKind, team: int,
) -> bool {
    on_board(tx, ty) && target_ok(b, tx, ty, kind, team)
        && exists|n: int| #[trigger] ray_hit(fx, fy, dx, dy, tx, ty, n) && ray_clear(b, fx, fy, dx, dy, n)
}

pub open spec fn rook_geom(b: Seq<Piece>, fx: int, fy: int, tx: int, ty: int, kind: MoveKind, team: int) -> bool {
    ray_ok(b, fx, fy, 1, 0, tx, ty, kind, team)
        || ray_ok(b, fx, fy, -1, 0, tx, ty, kind, team)
        || ray_ok(b, fx, fy, 0, 1, tx, ty, kind, team)
        || ray_ok(b, fx, fy, 0, -1, tx, ty, kind, team)
}

pub open spec fn bishop_geom(b: Seq<Piece>, fx: int, fy: int, tx: int, ty: int, kind: MoveKind, team: int) -> bool {
    ray_ok(b, fx, fy, 1, 1, tx, ty, kind, team)
        || ray_ok(b, fx, fy, 1, -1, tx, ty, kind, team)
        || ray_ok(b, fx, fy, -1, 1, tx, ty, kind, team)
        || ray_ok(b, fx, fy, -1, -1, tx, ty, kind, team)
}

pub open spec fn knight_geom(b: Seq<Piece>, fx: int, fy: int, tx: int, ty: int, kind: MoveKind, team: int) -> bool {
    on_board(tx, ty) && target_ok(b, tx, ty, kind, team)
        && ((abs_d(tx - fx) == 2 && abs_d(ty - fy) == 1) || (abs_d(tx - fx) == 1 && abs_d(ty - fy) == 2))
}

pub open spec fn king_step_geom(b: Seq<Piece>, fx: int, fy: int, tx: int, ty: int, kind: MoveKind, team: int) -> bool {
    on_board(tx, ty) && target_ok(b, tx, ty, kind, team)
        && abs_d(tx - fx) <= 1 && abs_d(ty - fy) <= 1 && !(tx == fx && ty == fy)
}

/// Pawns move towards rank 0 when White (team -1) and towards rank 7
/// when Black (team 1), so the forward rank offset equals the team.
pub open spec fn pawn_geom(b: Seq<Piece>, fx: int, fy: int, tx: int, ty: int, kind: MoveKind, team: int) -> bool {
    on_board(tx, ty) && match kind {
        MoveKind::Plain => tx == fx && ty == fy + team && empty_at(b, tx, ty),
        MoveKind::TwoStep => tx == fx && ty == fy + 2 * team && !at(b, fx, fy).moved
            && empty_at(b, fx, fy + team) && empty_at(b, tx, ty),
        MoveKind::Capture => (tx == fx - 1 || tx == fx + 1) && ty == fy + team
            && enemy_at(b, tx, ty, team),
        MoveKind::EnPassant => (tx == fx - 1 || tx == fx + 1) && ty == fy + team
            && empty_at(b, tx, ty) && enemy_at(b, tx, fy, team) && at(b, tx, fy).moved_twice,
        _ => false,
    }
}

/// A pseudo move that could strike its destination square: every move
/// but castling (a castle only ever lands on an empty square of the
/// mover's own back rank, so it threatens nothing).
pub open spec fn attack_ok(b: Seq<Piece>, fx: int, fy: int, tx: int, ty: int, kind: MoveKind, team: int) -> bool {
    on_board(fx, fy) && team != 0 && side_at(b, fx, fy) == team
        && {
            let id = kind_id_at(b, fx, fy);
            if id == 1 { pawn_geom(b, fx, fy, tx, ty, kind, team) }
            else if id == 2 { rook_geom(b, fx, fy, tx, ty, kind, team) }
            else if id == 3 { knight_geom(b, fx, fy, tx, ty, kind, team) }
            else if id == 4 { bishop_geom(b, fx, fy, tx, ty, kind, team) }
            else if id == 5 { rook_geom(b, fx, fy, tx, ty, kind, team) || bishop_geom(b, fx, fy, tx, ty, kind, team) }
            else if id == 6 { king_step_geom(b, fx, fy, tx, ty, kind, team) }
            else { false }
        }
}

/// The home rank of a side: 7 for White, 0 for Black.
pub open spec fn home_rank(team: int) -> int {
    if team == -1 { 7 } else { 0 }
}

pub open spec fn kingside_right(cr: CastleRights, team: int) -> bool {
    if team == -1 { cr.wk } else { cr.bk }
}

pub open spec fn queenside_right(cr: CastleRights, team: int) -> bool {
    if team == -1 { cr.wq } else { cr.bq }
}

/// A rook of the given side stands on square (x, y).
pub open spec fn rook_home_at(b: Seq<Piece>, x: int, y: int, team: int) -> bool {
    kind_id_at(b, x, y) == 2 && side_at(b, x, y) == team
}

/// King-side castling geometry: the right is still held, king and rook
/// stand on their home squares, and the squares between them are empty.
/// King safety along the walk is the legality filter's concern.
pub open spec fn castle_k_geom(b: Seq<Piece>, cr: CastleRights, fx: int, fy: int, tx: int, ty: int, team: int) -> bool {
    let r = home_rank(team);
    kingside_right(cr, team) && fx == 4 && fy == r && tx == 6 && ty == r
        && rook_home_at(b, 7, r, team) && empty_at(b, 5, r) && empty_at(b, 6, r)
}

pub open spec fn castle_q_geom(b: Seq<Piece>, cr: CastleRights, fx: int, fy: int, tx: int, ty: int, team: int) -> bool {
    let r = home_rank(team);
    queenside_right(cr, team) && fx == 4 && fy == r && tx == 2 && ty == r
        && rook_home_at(b, 0, r, team) && empty_at(b, 1, r) && empty_at(b, 2, r) && empty_at(b, 3, r)
}

/// The full pseudo-move relation: geometrically possible for the piece
/// on the origin square, ignoring king safety.
pub open spec fn pseudo_ok(b: Seq<Piece>, cr: CastleRights, fx: int, fy: int, tx: int, ty: int, kind: MoveKind, team: int) -> bool {
    attack_ok(b, fx, fy, tx, ty, kind, team)
        || (on_board(fx, fy) && team != 0 && side_at(b, fx, fy) == team && kind_id_at(b, fx, fy) == 6
            && ((kind == MoveKind::CastleKing && castle_k_geom(b, cr, fx, fy, tx, ty, team))
                || (kind == MoveKind::CastleQueen && castle_q_geom(b, cr, fx, fy, tx, ty, team))))
}

/// `pseudo_ok`, phrased over a move record.
pub open spec fn pseudo_mv(b: Seq<Piece>, cr: CastleRights, m: Mv, team: int) -> bool {
    m.fx < 8 && m.fy < 8 && m.tx < 8 && m.ty < 8
        && pseudo_ok(b, cr, m.fx as int, m.fy as int, m.tx as int, m.ty as int, m.kind, team)
}

/// `pseudo_mv`, for a move leaving a given origin square.
pub open spec fn pseudo_from(b: Seq<Piece>, cr: CastleRights, x: int, y: int, m: Mv, team: int) -> bool {
    m.fx as int == x && m.fy as int == y && pseudo_mv(b, cr, m, team)
}

/// Some piece of `team` has a pseudo move that strikes (tx, ty).
pub open spec fn attacked(b: Seq<Piece>, tx: int, ty: int, team: int) -> bool {
    exists|fx: int, fy: int, kind: MoveKind| #[trigger] attack_ok(b, fx, fy, tx, ty, kind, team)
}

/// A king of `team` stands on flat square i.
pub open spec fn king_at(b: Seq<Piece>, i: int, team: int) -> bool {
    0 <= i < 64 && b[i].id == 6 && b[i].team as int == team
}

pub open spec fn has_king(b: Seq<Piece>, team: int) -> bool {
    exists|i: int| #[trigger] king_at(b, i, team)
}

pub open spec fn unique_king(b: Seq<Piece>, team: int) -> bool {
    forall|i: int, j: int| #[trigger] king_at(b, i, team) && #[trigger] king_at(b, j, team) ==> i == j
}

/// Exactly one king per side.
pub open spec fn kings_ok(b: Seq<Piece>) -> bool {
    has_king(b, -1) && unique_king(b, -1) && has_king(b, 1) && unique_king(b, 1)
}

/// The flat square of `team`'s king (well-defined under `kings_ok`).
pub open spec fn king_sq(b: Seq<Piece>, team: int) -> int {
    choose|i: int| king_at(b, i, team)
}

/// `team`'s king is not attacked by the other side.
pub open spec fn king_safe(b: Seq<Piece>, team: int) -> bool {
    !attacked(b, king_sq(b, team) % 8, king_sq(b, team) / 8, -team)
}

pub open spec fn clear_twice(p: Piece) -> Piece {
    Piece { moved_twice: false, ..p }
}

/// The exact contents of flat square i after move m commits: the mover
/// lands on its destination with its history flags updated, the origin
/// empties, captures (including the en-passant one, which sits beside
/// the destination) empty their square, castling relocates the rook,
/// and every other square merely loses its en-passant eligibility.
pub open spec fn apply_at(b: Seq<Piece>, m: Mv, i: int) -> Piece {
    let p = at(b, m.fx as int, m.fy as int);
    let r = home_rank(p.team as int);
    let from = m.fy as int * 8 + m.fx as int;
    let to = m.ty as int * 8 + m.tx as int;
    if i == to {
        Piece { id: p.id, team: p.team, moved: true, moved_twice: m.kind == MoveKind::TwoStep }
    } else if i == from {
        empty_piece()
    } else if m.kind == MoveKind::EnPassant && i == m.fy as int * 8 + m.tx as int {
        empty_piece()
    } else if m.kind == MoveKind::CastleKing && i == r * 8 + 7 {
        empty_piece()
    } else if m.kind == MoveKind::CastleKing && i == r * 8 + 5 {
        Piece { moved: true, moved_twice: false, ..b[r * 8 + 7] }
    } else if m.kind == MoveKind::CastleQueen && i == r * 8 {
        empty_piece()
    } else if m.kind == MoveKind::CastleQueen && i == r * 8 + 3 {
        Piece { moved: true, moved_twice: false, ..b[r * 8] }
    } else {
        clear_twice(b[i])
    }
}

/// The whole board after move m commits.
pub open spec fn apply_spec(b: Seq<Piece>, m: Mv) -> Seq<Piece> {
    Seq::new(64, |i: int| apply_at(b, m, i))
}

/// After the hypothetical application of m, the mover's king is not
/// attacked.
pub open spec fn king_safe_after(b: Seq<Piece>, m: Mv, team: int) -> bool {
    king_safe(apply_spec(b, m), team)
}

/// For a castle, the king's own square and both squares of its walk
/// must be free of enemy attack on the current board.
pub open spec fn castle_path_safe(b: Seq<Piece>, m: Mv, team: int) -> bool {
    let r = home_rank(team);
    match m.kind {
        MoveKind::CastleKing =>
            !attacked(b, 4, r, -team) && !attacked(b, 5, r, -team) && !attacked(b, 6, r, -team),
        MoveKind::CastleQueen =>
            !attacked(b, 4, r, -team) && !attacked(b, 3, r, -team) && !attacked(b, 2, r, -team),
        _ => true,
    }
}

/// A move the engine will offer: pseudo-legal, never onto a king
/// (such a move could only arise from a position the engine itself
/// never produces), safe along a castle's walk, and leaving the
/// mover's own king unattacked.
pub open spec fn legal_move(b: Seq<Piece>, cr: CastleRights, m: Mv, team: int) -> bool {
    pseudo_mv(b, cr, m, team)
        && kind_id_at(b, m.tx as int, m.ty as int) != 6
        && castle_path_safe(b, m, team)
        && king_safe_after(b, m, team)
}

/// Replaying a log of (square, prior contents) pairs, most recent
/// first, on top of board b.
pub open spec fn undo_fold(b: Seq<Piece>, log: Seq<(usize, Piece)>) -> Seq<Piece>
    decreases log.len(),
{
    if log.len() == 0 {
        b
    } else {
        undo_fold(b.update(log.last().0 as int, log.last().1), log.drop_last())
    }
}

/// Castling rights after a commit onto board b2 by `mover`: a right
/// survives only while its rook still stands at home and the king has
/// not been the one to move.  The conjunction makes every right
/// monotone: once false, false for the rest of the game.
pub open spec fn next_rights(b2: Seq<Piece>, cr: CastleRights, mover: Piece) -> CastleRights {
    CastleRights {
        wk: cr.wk && rook_home_at(b2, 7, 7, -1) && !(mover.id == 6 && mover.team == -1),
        wq: cr.wq && rook_home_at(b2, 0, 7, -1) && !(mover.id == 6 && mover.team == -1),
        bk: cr.bk && rook_home_at(b2, 7, 0, 1) && !(mover.id == 6 && mover.team == 1),
        bq: cr.bq && rook_home_at(b2, 0, 0, 1) && !(mover.id == 6 && mover.team == 1),
    }
}

/// The rank a pawn of `team` promotes on: 0 for White, 7 for Black.
pub open spec fn promo_rank(team: int) -> int {
    if team == -1 { 0 } else { 7 }
}

/// The back-rank piece kind of file x in the starting position.
pub open spec fn start_id(x: int) -> int {
    if x == 0 || x == 7 { 2 }
    else if x == 1 || x == 6 { 3 }
    else if x == 2 || x == 5 { 4 }
    else if x == 3 { 5 }
    else { 6 }
}

/// The occupant of flat square i in the standard starting position.
pub open spec fn start_piece(i: int) -> Piece {
    let x = i % 8;
    let y = i / 8;
    let id: i8 = if y == 0 || y == 7 { start_id(x) as i8 } else if y == 1 || y == 6 { 1 } else { 0 };
    let team: i8 = if y <= 1 { 1 } else if y >= 6 { -1i8 } else { 0 };
    Piece { id, team, moved: false, moved_twice: false }
}

/// The standard starting position.
pub open spec fn start_board() -> Seq<Piece> {
    Seq::new(64, |i: int| start_piece(i))
}

} // verus!
