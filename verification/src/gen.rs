//! The pseudo-move generator: per piece kind, the set of geometrically
//! reachable destinations from a given origin, with each produced list
//! proved to contain exactly the moves the geometric predicates allow.

use vstd::prelude::*;
use crate::piece::{CastleRights, MoveKind, Mv, Piece};
use crate::rules::{
    at, attack_ok, attacked, bishop_geom, castle_k_geom, castle_q_geom, empty_at, enemy_at,
    king_step_geom, knight_geom, on_board, pawn_geom, pseudo_from, ray_clear, ray_hit, ray_ok,
    ray_step_empty, rook_geom, side_at, step_ok, target_ok, valid_board,
};

verus! {

/// Both indices name a real square.
pub fn within_board(x: i8, y: i8) -> (r: bool)
    ensures
        r == on_board(x as int, y as int),
{
    x < 8 && x > -1 && y < 8 && y > -1
}

/// The square holds nothing.
pub fn empty_tile(board: &Vec<Piece>, x: usize, y: usize) -> (r: bool)
    requires
        board@.len() == 64,
        x < 8,
        y < 8,
    ensures
        r == empty_at(board@, x as int, y as int),
{
    board[y * 8 + x].id == 0
}

/// The square holds a piece of the other side.
pub fn enemy_tile(board: &Vec<Piece>, x: usize, y: usize, team: i8) -> (r: bool)
    requires
        board@.len() == 64,
        x < 8,
        y < 8,
        team == -1 || team == 1,
    ensures
        r == enemy_at(board@, x as int, y as int, team as int),
{
    board[y * 8 + x].team == -team
}

pub proof fn lemma_contains_push(s: Seq<Mv>, e: Mv, m: Mv)
    ensures
        s.push(e).contains(m) <==> (s.contains(m) || m == e),
{
    if s.push(e).contains(m) {
        let i = choose|i: int| 0 <= i < s.push(e).len() && s.push(e)[i] == m;
        if i < s.len() {
            assert(s[i] == m);
        }
    }
    if s.contains(m) {
        let i = choose|i: int| 0 <= i < s.len() && s[i] == m;
        assert(s.push(e)[i] == m);
    }
    if m == e {
        assert(s.push(e)[s.len() as int] == m);
    }
}

/// Offer the single square one fixed offset away, when it is on the
/// board and empty (a plain move) or enemy-held (a capture).
fn try_step(board: &Vec<Piece>, x: usize, y: usize, dx: i8, dy: i8, team: i8, moves: &mut Vec<Mv>)
    requires
        valid_board(board@),
        x < 8,
        y < 8,
        -2 <= dx <= 2,
        -2 <= dy <= 2,
        team == -1 || team == 1,
    ensures
        forall|m: Mv| final(moves)@.contains(m) <==> (old(moves)@.contains(m)
            || (m.fx == x && m.fy == y && m.tx < 8 && m.ty < 8
                && m.tx as int == x + dx && m.ty as int == y + dy
                && step_ok(board@, x + dx, y + dy, m.kind, team as int))),
{
    let cx = x as i8 + dx;
    let cy = y as i8 + dy;
    if within_board(cx, cy) {
        let ux = cx as usize;
        let uy = cy as usize;
        if enemy_tile(board, ux, uy, team) {
            let e = Mv { fx: x, fy: y, tx: ux, ty: uy, kind: MoveKind::Capture };
            let ghost prev = moves@;
            moves.push(e);
            proof {
                assert forall|m: Mv| moves@.contains(m) <==> (prev.contains(m) || m == e) by {
                    lemma_contains_push(prev, e, m);
                }
            }
        } else if empty_tile(board, ux, uy) {
            let e = Mv { fx: x, fy: y, tx: ux, ty: uy, kind: MoveKind::Plain };
            let ghost prev = moves@;
            moves.push(e);
            proof {
                assert forall|m: Mv| moves@.contains(m) <==> (prev.contains(m) || m == e) by {
                    lemma_contains_push(prev, e, m);
                }
            }
        }
    }
    proof {
        assert forall|m: Mv| moves@.contains(m) <==> (old(moves)@.contains(m)
            || (m.fx == x && m.fy == y && m.tx < 8 && m.ty < 8
                && m.tx as int == x + dx && m.ty as int == y + dy
                && step_ok(board@, x + dx, y + dy, m.kind, team as int))) by {
            lemma_contains_push(old(moves)@, m, m);
        }
    }
}

/// The pawn's single forward step onto an empty square.
fn try_pawn_fwd(board: &Vec<Piece>, x: usize, y: usize, team: i8, moves: &mut Vec<Mv>)
    requires
        valid_board(board@),
        x < 8,
        y < 8,
        team == -1 || team == 1,
    ensures
        forall|m: Mv| final(moves)@.contains(m) <==> (old(moves)@.contains(m)
            || (m.fx == x && m.fy == y && m.tx < 8 && m.ty < 8 && m.kind == MoveKind::Plain
                && pawn_geom(board@, x as int, y as int, m.tx as int, m.ty as int, MoveKind::Plain, team as int))),
{
    let cy = y as i8 + team;
    if within_board(x as i8, cy) {
        let uy = cy as usize;
        if empty_tile(board, x, uy) {
            let e = Mv { fx: x, fy: y, tx: x, ty: uy, kind: MoveKind::Plain };
            let ghost prev = moves@;
            moves.push(e);
            proof {
                assert forall|m: Mv| moves@.contains(m) <==> (prev.contains(m) || m == e) by {
                    lemma_contains_push(prev, e, m);
                }
            }
        }
    }
    proof {
        assert forall|m: Mv| moves@.contains(m) <==> (old(moves)@.contains(m)
            || (m.fx == x && m.fy == y && m.tx < 8 && m.ty < 8 && m.kind == MoveKind::Plain
                && pawn_geom(board@, x as int, y as int, m.tx as int, m.ty as int, MoveKind::Plain, team as int))) by {
            lemma_contains_push(old(moves)@, m, m);
        }
    }
}

/// The pawn's double step from its start square, over and onto empty
/// squares.
fn try_pawn_dbl(board: &Vec<Piece>, x: usize, y: usize, team: i8, moves: &mut Vec<Mv>)
    requires
        valid_board(board@),
        x < 8,
        y < 8,
        team == -1 || team == 1,
    ensures
        forall|m: Mv| final(moves)@.contains(m) <==> (old(moves)@.contains(m)
            || (m.fx == x && m.fy == y && m.tx < 8 && m.ty < 8 && m.kind == MoveKind::TwoStep
                && pawn_geom(board@, x as int, y as int, m.tx as int, m.ty as int, MoveKind::TwoStep, team as int))),
{
    let cy1 = y as i8 + team;
    let cy2 = y as i8 + 2 * team;
    if within_board(x as i8, cy2) && !board[y * 8 + x].moved {
        let uy1 = cy1 as usize;
        let uy2 = cy2 as usize;
        if empty_tile(board, x, uy1) && empty_tile(board, x, uy2) {
            let e = Mv { fx: x, fy: y, tx: x, ty: uy2, kind: MoveKind::TwoStep };
            let ghost prev = moves@;
            moves.push(e);
            proof {
                assert forall|m: Mv| moves@.contains(m) <==> (prev.contains(m) || m == e) by {
                    lemma_contains_push(prev, e, m);
                }
            }
        }
    }
    proof {
        assert forall|m: Mv| moves@.contains(m) <==> (old(moves)@.contains(m)
            || (m.fx == x && m.fy == y && m.tx < 8 && m.ty < 8 && m.kind == MoveKind::TwoStep
                && pawn_geom(board@, x as int, y as int, m.tx as int, m.ty as int, MoveKind::TwoStep, team as int))) by {
            lemma_contains_push(old(moves)@, m, m);
        }
    }
}

/// The pawn's diagonal capture towards file offset dx.
fn try_pawn_cap(board: &Vec<Piece>, x: usize, y: usize, dx: i8, team: i8, moves: &mut Vec<Mv>)
    requires
        valid_board(board@),
        x < 8,
        y < 8,
        dx == -1 || dx == 1,
        team == -1 || team == 1,
    ensures
        forall|m: Mv| final(moves)@.contains(m) <==> (old(moves)@.contains(m)
            || (m.fx == x && m.fy == y && m.tx < 8 && m.ty < 8 && m.kind == MoveKind::Capture
                && m.tx as int == x + dx
                && pawn_geom(board@, x as int, y as int, m.tx as int, m.ty as int, MoveKind::Capture, team as int))),
{
    let cx = x as i8 + dx;
    let cy = y as i8 + team;
    if within_board(cx, cy) {
        let ux = cx as usize;
        let uy = cy as usize;
        if enemy_tile(board, ux, uy, team) {
            let e = Mv { fx: x, fy: y, tx: ux, ty: uy, kind: MoveKind::Capture };
            let ghost prev = moves@;
            moves.push(e);
            proof {
                assert forall|m: Mv| moves@.contains(m) <==> (prev.contains(m) || m == e) by {
                    lemma_contains_push(prev, e, m);
                }
            }
        }
    }
    proof {
        assert forall|m: Mv| moves@.contains(m) <==> (old(moves)@.contains(m)
            || (m.fx == x && m.fy == y && m.tx < 8 && m.ty < 8 && m.kind == MoveKind::Capture
                && m.tx as int == x + dx
                && pawn_geom(board@, x as int, y as int, m.tx as int, m.ty as int, MoveKind::Capture, team as int))) by {
            lemma_contains_push(old(moves)@, m, m);
        }
    }
}

/// The pawn's en-passant capture towards file offset dx: the landing
/// square is empty and the enemy pawn that just double-stepped stands
/// beside the mover.
fn try_pawn_ep(board: &Vec<Piece>, x: usize, y: usize, dx: i8, team: i8, moves: &mut Vec<Mv>)
    requires
        valid_board(board@),
        x < 8,
        y < 8,
        dx == -1 || dx == 1,
        team == -1 || team == 1,
    ensures
        forall|m: Mv| final(moves)@.contains(m) <==> (old(moves)@.contains(m)
            || (m.fx == x && m.fy == y && m.tx < 8 && m.ty < 8 && m.kind == MoveKind::EnPassant
                && m.tx as int == x + dx
                && pawn_geom(board@, x as int, y as int, m.tx as int, m.ty as int, MoveKind::EnPassant, team as int))),
{
    let cx = x as i8 + dx;
    let cy = y as i8 + team;
    if within_board(cx, cy) {
        let ux = cx as usize;
        let uy = cy as usize;
        if empty_tile(board, ux, uy) && enemy_tile(board, ux, y, team) && board[y * 8 + ux].moved_twice {
            let e = Mv { fx: x, fy: y, tx: ux, ty: uy, kind: MoveKind::EnPassant };
            let ghost prev = moves@;
            moves.push(e);
            proof {
                assert forall|m: Mv| moves@.contains(m) <==> (prev.contains(m) || m == e) by {
                    lemma_contains_push(prev, e, m);
                }
            }
        }
    }
    proof {
        assert forall|m: Mv| moves@.contains(m) <==> (old(moves)@.contains(m)
            || (m.fx == x && m.fy == y && m.tx < 8 && m.ty < 8 && m.kind == MoveKind::EnPassant
                && m.tx as int == x + dx
                && pawn_geom(board@, x as int, y as int, m.tx as int, m.ty as int, MoveKind::EnPassant, team as int))) by {
            lemma_contains_push(old(moves)@, m, m);
        }
    }
}

/// All pawn moves from one square: forward steps, captures, and the
/// en-passant captures.
pub fn gen_pawn_move(board: &Vec<Piece>, x: usize, y: usize, team: i8, moves: &mut Vec<Mv>)
    requires
        valid_board(board@),
        x < 8,
        y < 8,
        team == -1 || team == 1,
    ensures
        forall|m: Mv| final(moves)@.contains(m) <==> (old(moves)@.contains(m)
            || (m.fx == x && m.fy == y && m.tx < 8 && m.ty < 8
                && pawn_geom(board@, x as int, y as int, m.tx as int, m.ty as int, m.kind, team as int))),
{
    try_pawn_fwd(board, x, y, team, moves);
    try_pawn_dbl(board, x, y, team, moves);
    try_pawn_cap(board, x, y, -1, team, moves);
    try_pawn_cap(board, x, y, 1, team, moves);
    try_pawn_ep(board, x, y, -1, team, moves);
    try_pawn_ep(board, x, y, 1, team, moves);
}

/// The knight's eight leaps.
pub fn gen_knight_move(board: &Vec<Piece>, x: usize, y: usize, team: i8, moves: &mut Vec<Mv>)
    requires
        valid_board(board@),
        x < 8,
        y < 8,
        team == -1 || team == 1,
    ensures
        forall|m: Mv| final(moves)@.contains(m) <==> (old(moves)@.contains(m)
            || (m.fx == x && m.fy == y && m.tx < 8 && m.ty < 8
                && knight_geom(board@, x as int, y as int, m.tx as int, m.ty as int, m.kind, team as int))),
{
    try_step(board, x, y, 2, 1, team, moves);
    try_step(board, x, y, 2, -1, team, moves);
    try_step(board, x, y, -2, 1, team, moves);
    try_step(board, x, y, -2, -1, team, moves);
    try_step(board, x, y, 1, 2, team, moves);
    try_step(board, x, y, -1, 2, team, moves);
    try_step(board, x, y, 1, -2, team, moves);
    try_step(board, x, y, -1, -2, team, moves);
}

/// The king's eight adjacent steps, plus castling when the right is
/// held, king and rook stand at home, and the squares between are
/// empty.  Whether the walk is safe is the legality filter's concern.
pub fn gen_king_move(board: &Vec<Piece>, cr: CastleRights, x: usize, y: usize, team: i8, moves: &mut Vec<Mv>)
    requires
        valid_board(board@),
        x < 8,
        y < 8,
        team == -1 || team == 1,
    ensures
        forall|m: Mv| final(moves)@.contains(m) <==> (old(moves)@.contains(m)
            || (m.fx == x && m.fy == y && m.tx < 8 && m.ty < 8
                && (king_step_geom(board@, x as int, y as int, m.tx as int, m.ty as int, m.kind, team as int)
                    || (m.kind == MoveKind::CastleKing
                        && castle_k_geom(board@, cr, x as int, y as int, m.tx as int, m.ty as int, team as int))
                    || (m.kind == MoveKind::CastleQueen
                        && castle_q_geom(board@, cr, x as int, y as int, m.tx as int, m.ty as int, team as int))))),
{
    try_step(board, x, y, 1, 0, team, moves);
    try_step(board, x, y, 1, -1, team, moves);
    try_step(board, x, y, 0, -1, team, moves);
    try_step(board, x, y, -1, -1, team, moves);
    try_step(board, x, y, -1, 0, team, moves);
    try_step(board, x, y, 1, 1, team, moves);
    try_step(board, x, y, 0, 1, team, moves);
    try_step(board, x, y, -1, 1, team, moves);

    try_castle_k(board, cr, x, y, team, moves);
    try_castle_q(board, cr, x, y, team, moves);
}

/// The plain move reached at the i-th step of a ray.
spec fn ray_move_at(x: int, y: int, dx: int, dy: int, i: int) -> Mv {
    Mv {
        fx: x as usize,
        fy: y as usize,
        tx: (x + i * dx) as usize,
        ty: (y + i * dy) as usize,
        kind: MoveKind::Plain,
    }
}

pub proof fn lemma_contains_concat(a: Seq<Mv>, b: Seq<Mv>, m: Mv)
    ensures
        (a + b).contains(m) <==> (a.contains(m) || b.contains(m)),
{
    if (a + b).contains(m) {
        let i = choose|i: int| 0 <= i < (a + b).len() && (a + b)[i] == m;
        if i < a.len() {
            assert(a[i] == m);
        } else {
            assert(b[i - a.len()] == m);
        }
    }
    if a.contains(m) {
        let i = choose|i: int| 0 <= i < a.len() && a[i] == m;
        assert((a + b)[i] == m);
    }
    if b.contains(m) {
        let i = choose|i: int| 0 <= i < b.len() && b[i] == m;
        assert((a + b)[a.len() + i] == m);
    }
}

/// The collected list extends `base` by exactly the ray's reachable
/// destinations.
spec fn ray_result_ok(
    b: Seq<Piece>, base: Seq<Mv>, cur: Seq<Mv>,
    x: int, y: int, dx: int, dy: int, team: int,
) -> bool {
    forall|m: Mv| #[trigger] cur.contains(m) <==> (base.contains(m)
        || (m.fx as int == x && m.fy as int == y && m.tx < 8 && m.ty < 8
            && ray_ok(b, x, y, dx, dy, m.tx as int, m.ty as int, m.kind, team)))
}

/// Walk one sliding direction: offer each empty square, stop at the
/// first occupied one, offering it too when it is enemy-held.
fn ray_moves(board: &Vec<Piece>, x: usize, y: usize, dx: i8, dy: i8, team: i8, moves: &mut Vec<Mv>)
    requires
        valid_board(board@),
        x < 8,
        y < 8,
        -1 <= dx <= 1,
        -1 <= dy <= 1,
        !(dx == 0 && dy == 0),
        team == -1 || team == 1,
    ensures
        forall|m: Mv| final(moves)@.contains(m) <==> (old(moves)@.contains(m)
            || (m.fx == x && m.fy == y && m.tx < 8 && m.ty < 8
                && ray_ok(board@, x as int, y as int, dx as int, dy as int,
                    m.tx as int, m.ty as int, m.kind, team as int))),
{
    let ghost base = moves@;
    let ghost stepmv: spec_fn(int) -> Mv =
        |i: int| ray_move_at(x as int, y as int, dx as int, dy as int, i + 1);
    let mut cx: i8 = x as i8 + dx;
    let mut cy: i8 = y as i8 + dy;
    let mut done = false;
    let ghost mut n: int = 1;
    while !done
        invariant
            valid_board(board@),
            x < 8,
            y < 8,
            -1 <= dx <= 1,
            -1 <= dy <= 1,
            !(dx == 0 && dy == 0),
            team == -1 || team == 1,
            1 <= n <= 8,
            cx as int == x + n * (dx as int),
            cy as int == y + n * (dy as int),
            -2 <= cx <= 8,
            -2 <= cy <= 8,
            stepmv == (|i: int| ray_move_at(x as int, y as int, dx as int, dy as int, i + 1)),
            forall|i: int| 1 <= i < n
                ==> #[trigger] ray_step_empty(board@, x as int, y as int, dx as int, dy as int, i),
            !done ==> moves@ == base + Seq::new((n - 1) as nat, stepmv),
            done ==> ray_result_ok(board@, base, moves@, x as int, y as int,
                dx as int, dy as int, team as int),
        decreases (if done { 0int } else { 10 - n }),
    {
        if !within_board(cx, cy) {
            // the ray has left the board; nothing at or past step n exists
            proof {
                assert forall|m: Mv| #[trigger] moves@.contains(m) <==> (base.contains(m)
                    || (m.fx as int == x as int && m.fy as int == y as int && m.tx < 8 && m.ty < 8
                        && ray_ok(board@, x as int, y as int, dx as int, dy as int,
                            m.tx as int, m.ty as int, m.kind, team as int))) by {
                    ray_exit_iff(board@, base, moves@, x as int, y as int, dx as int, dy as int,
                        team as int, n, m, 0);
                }
                assert(ray_result_ok(board@, base, moves@, x as int, y as int,
                    dx as int, dy as int, team as int));
            }
            done = true;
        } else {
            let ux = cx as usize;
            let uy = cy as usize;
            if enemy_tile(board, ux, uy, team) {
                let e = Mv { fx: x, fy: y, tx: ux, ty: uy, kind: MoveKind::Capture };
                let ghost prev = moves@;
                moves.push(e);
                proof {
                    assert forall|m: Mv| #[trigger] moves@.contains(m) <==> (base.contains(m)
                        || (m.fx as int == x as int && m.fy as int == y as int && m.tx < 8 && m.ty < 8
                            && ray_ok(board@, x as int, y as int, dx as int, dy as int,
                                m.tx as int, m.ty as int, m.kind, team as int))) by {
                        lemma_contains_push(prev, e, m);
                        ray_exit_iff(board@, base, prev, x as int, y as int, dx as int, dy as int,
                            team as int, n, m, 1);
                    }
                    assert(ray_result_ok(board@, base, moves@, x as int, y as int,
                        dx as int, dy as int, team as int));
                }
                done = true;
            } else if empty_tile(board, ux, uy) {
                let e = Mv { fx: x, fy: y, tx: ux, ty: uy, kind: MoveKind::Plain };
                let ghost prev = moves@;
                moves.push(e);
                proof {
                    assert(e == stepmv(n - 1));
                    assert(Seq::new(n as nat, stepmv) =~= Seq::new((n - 1) as nat, stepmv).push(stepmv(n - 1)));
                    assert(moves@ =~= base + Seq::new(n as nat, stepmv));
                    assert(n <= 7) by (nonlinear_arith)
                        requires
                            1 <= n,
                            0 <= (x as int) && (x as int) < 8,
                            0 <= (y as int) && (y as int) < 8,
                            -1 <= (dx as int) && (dx as int) <= 1,
                            -1 <= (dy as int) && (dy as int) <= 1,
                            !(dx as int == 0 && dy as int == 0),
                            0 <= (x as int) + n * (dx as int) && (x as int) + n * (dx as int) < 8,
                            0 <= (y as int) + n * (dy as int) && (y as int) + n * (dy as int) < 8,
                    ;
                    assert((n + 1) * (dx as int) == n * (dx as int) + dx as int) by (nonlinear_arith);
                    assert((n + 1) * (dy as int) == n * (dy as int) + dy as int) by (nonlinear_arith);
                }
                cx = cx + dx;
                cy = cy + dy;
                proof {
                    n = n + 1;
                    assert(ray_step_empty(board@, x as int, y as int, dx as int, dy as int, n - 1));
                }
            } else {
                // blocked by a piece that cannot be captured
                proof {
                    assert forall|m: Mv| #[trigger] moves@.contains(m) <==> (base.contains(m)
                        || (m.fx as int == x as int && m.fy as int == y as int && m.tx < 8 && m.ty < 8
                            && ray_ok(board@, x as int, y as int, dx as int, dy as int,
                                m.tx as int, m.ty as int, m.kind, team as int))) by {
                        ray_exit_iff(board@, base, moves@, x as int, y as int, dx as int, dy as int,
                            team as int, n, m, 2);
                    }
                    assert(ray_result_ok(board@, base, moves@, x as int, y as int,
                        dx as int, dy as int, team as int));
                }
                done = true;
            }
        }
    }
    proof {
        assert forall|m: Mv| moves@.contains(m) <==> (old(moves)@.contains(m)
            || (m.fx == x && m.fy == y && m.tx < 8 && m.ty < 8
                && ray_ok(board@, x as int, y as int, dx as int, dy as int,
                    m.tx as int, m.ty as int, m.kind, team as int))) by {
            lemma_contains_push(old(moves)@, m, m);
        }
    }
}

/// At a ray's stopping point, the collected moves are exactly the
/// `ray_ok` destinations.  `stop` encodes why the walk ended: 0 the
/// step left the board, 1 it hit an enemy piece (the capture is pushed
/// by the caller), 2 it hit a piece that cannot be taken.
proof fn ray_exit_iff(
    b: Seq<Piece>, base: Seq<Mv>, cur: Seq<Mv>,
    x: int, y: int, dx: int, dy: int, team: int, n: int, m: Mv, stop: int,
)
    requires
        valid_board(b),
        0 <= x < 8,
        0 <= y < 8,
        -1 <= dx <= 1,
        -1 <= dy <= 1,
        !(dx == 0 && dy == 0),
        team == -1 || team == 1,
        1 <= n <= 8,
        0 <= stop <= 2,
        forall|i: int| 1 <= i < n ==> #[trigger] ray_step_empty(b, x, y, dx, dy, i),
        cur == base + Seq::new((n - 1) as nat,
            |i: int| ray_move_at(x, y, dx, dy, i + 1)),
        stop == 0 ==> !on_board(x + n * dx, y + n * dy),
        stop == 1 ==> on_board(x + n * dx, y + n * dy) && enemy_at(b, x + n * dx, y + n * dy, team),
        stop == 2 ==> on_board(x + n * dx, y + n * dy) && !enemy_at(b, x + n * dx, y + n * dy, team)
            && !empty_at(b, x + n * dx, y + n * dy),
    ensures
        stop != 1 ==> (cur.contains(m) <==> (base.contains(m)
            || (m.fx as int == x && m.fy as int == y && m.tx < 8 && m.ty < 8
                && ray_ok(b, x, y, dx, dy, m.tx as int, m.ty as int, m.kind, team)))),
        stop == 1 ==> ((cur.contains(m)
                || m == (Mv { fx: x as usize, fy: y as usize,
                    tx: (x + n * dx) as usize, ty: (y + n * dy) as usize, kind: MoveKind::Capture }))
            <==> (base.contains(m)
                || (m.fx as int == x && m.fy as int == y && m.tx < 8 && m.ty < 8
                    && ray_ok(b, x, y, dx, dy, m.tx as int, m.ty as int, m.kind, team)))),
{
    let plains = Seq::new((n - 1) as nat, |i: int| ray_move_at(x, y, dx, dy, i + 1));
    lemma_contains_concat(base, plains, m);
    let cap = Mv { fx: x as usize, fy: y as usize,
        tx: (x + n * dx) as usize, ty: (y + n * dy) as usize, kind: MoveKind::Capture };

    // Every collected plain move is a genuine ray move.
    if plains.contains(m) {
        let i = choose|i: int| 0 <= i < plains.len() && plains[i] == m;
        let k = i + 1;
        assert(ray_step_empty(b, x, y, dx, dy, k));
        assert(m == ray_move_at(x, y, dx, dy, k));
        assert(ray_hit(x, y, dx, dy, m.tx as int, m.ty as int, k));
        assert(ray_clear(b, x, y, dx, dy, k));
        assert(ray_ok(b, x, y, dx, dy, m.tx as int, m.ty as int, m.kind, team));
    }

    // The pushed capture, when the walk stopped on an enemy piece.
    if stop == 1 && m == cap {
        assert(ray_hit(x, y, dx, dy, m.tx as int, m.ty as int, n));
        assert(ray_clear(b, x, y, dx, dy, n));
        assert(ray_ok(b, x, y, dx, dy, m.tx as int, m.ty as int, m.kind, team));
    }

    // Conversely: a ray_ok destination is collected (or is the capture).
    if m.fx as int == x && m.fy as int == y && m.tx < 8 && m.ty < 8
        && ray_ok(b, x, y, dx, dy, m.tx as int, m.ty as int, m.kind, team) {
        let k = choose|k: int| #[trigger] ray_hit(x, y, dx, dy, m.tx as int, m.ty as int, k)
            && ray_clear(b, x, y, dx, dy, k);
        if k > n {
            assert(ray_step_empty(b, x, y, dx, dy, n));
            assert(false);
        } else if k == n {
            if stop == 0 {
                assert(!on_board(m.tx as int, m.ty as int));
                assert(false);
            } else if stop == 1 {
                // the step-n square holds an enemy piece, so only the capture fits
                assert(!empty_at(b, x + n * dx, y + n * dy));
                assert(m == cap);
            } else {
                assert(!target_ok(b, m.tx as int, m.ty as int, m.kind, team));
                assert(false);
            }
        } else {
            // an intermediate square: empty, so a plain move, and collected
            assert(ray_step_empty(b, x, y, dx, dy, k));
            assert(m.kind == MoveKind::Plain);
            assert(m == ray_move_at(x, y, dx, dy, k));
            assert(plains[k - 1] == m);
            assert(plains.contains(m));
        }
    }
}

/// Offer king-side castling when its conditions are met.
fn try_castle_k(board: &Vec<Piece>, cr: CastleRights, x: usize, y: usize, team: i8, moves: &mut Vec<Mv>)
    requires
        valid_board(board@),
        x < 8,
        y < 8,
        team == -1 || team == 1,
    ensures
        forall|m: Mv| final(moves)@.contains(m) <==> (old(moves)@.contains(m)
            || (m.fx == x && m.fy == y && m.tx < 8 && m.ty < 8 && m.kind == MoveKind::CastleKing
                && castle_k_geom(board@, cr, x as int, y as int, m.tx as int, m.ty as int, team as int))),
{
    let r: usize = if team == -1 { 7 } else { 0 };
    if x == 4 && y == r {
        let kr = if team == -1 { cr.wk } else { cr.bk };
        let rook_k = board[r * 8 + 7];
        if kr && rook_k.id == 2 && rook_k.team == team && empty_tile(board, 5, r) && empty_tile(board, 6, r) {
            let e = Mv { fx: x, fy: y, tx: 6, ty: r, kind: MoveKind::CastleKing };
            let ghost prev = moves@;
            moves.push(e);
            proof {
                assert forall|m: Mv| moves@.contains(m) <==> (prev.contains(m) || m == e) by {
                    lemma_contains_push(prev, e, m);
                }
            }
        }
    }
    proof {
        assert forall|m: Mv| moves@.contains(m) <==> (old(moves)@.contains(m)
            || (m.fx == x && m.fy == y && m.tx < 8 && m.ty < 8 && m.kind == MoveKind::CastleKing
                && castle_k_geom(board@, cr, x as int, y as int, m.tx as int, m.ty as int, team as int))) by {
            lemma_contains_push(old(moves)@, m, m);
        }
    }
}

/// Offer queen-side castling when its conditions are met.
fn try_castle_q(board: &Vec<Piece>, cr: CastleRights, x: usize, y: usize, team: i8, moves: &mut Vec<Mv>)
    requires
        valid_board(board@),
        x < 8,
        y < 8,
        team == -1 || team == 1,
    ensures
        forall|m: Mv| final(moves)@.contains(m) <==> (old(moves)@.contains(m)
            || (m.fx == x && m.fy == y && m.tx < 8 && m.ty < 8 && m.kind == MoveKind::CastleQueen
                && castle_q_geom(board@, cr, x as int, y as int, m.tx as int, m.ty as int, team as int))),
{
    let r: usize = if team == -1 { 7 } else { 0 };
    if x == 4 && y == r {
        let qr = if team == -1 { cr.wq } else { cr.bq };
        let rook_q = board[r * 8];
        if qr && rook_q.id == 2 && rook_q.team == team
            && empty_tile(board, 1, r) && empty_tile(board, 2, r) && empty_tile(board, 3, r) {
            let e = Mv { fx: x, fy: y, tx: 2, ty: r, kind: MoveKind::CastleQueen };
            let ghost prev = moves@;
            moves.push(e);
            proof {
                assert forall|m: Mv| moves@.contains(m) <==> (prev.contains(m) || m == e) by {
                    lemma_contains_push(prev, e, m);
                }
            }
        }
    }
    proof {
        assert forall|m: Mv| moves@.contains(m) <==> (old(moves)@.contains(m)
            || (m.fx == x && m.fy == y && m.tx < 8 && m.ty < 8 && m.kind == MoveKind::CastleQueen
                && castle_q_geom(board@, cr, x as int, y as int, m.tx as int, m.ty as int, team as int))) by {
            lemma_contains_push(old(moves)@, m, m);
        }
    }
}

/// Rook moves: the four orthogonal rays.
pub fn gen_rook_move(board: &Vec<Piece>, x: usize, y: usize, team: i8, moves: &mut Vec<Mv>)
    requires
        valid_board(board@),
        x < 8,
        y < 8,
        team == -1 || team == 1,
    ensures
        forall|m: Mv| final(moves)@.contains(m) <==> (old(moves)@.contains(m)
            || (m.fx == x && m.fy == y && m.tx < 8 && m.ty < 8
                && rook_geom(board@, x as int, y as int, m.tx as int, m.ty as int, m.kind, team as int))),
{
    ray_moves(board, x, y, 1, 0, team, moves);
    ray_moves(board, x, y, -1, 0, team, moves);
    ray_moves(board, x, y, 0, 1, team, moves);
    ray_moves(board, x, y, 0, -1, team, moves);
}

/// Bishop moves: the four diagonal rays.
pub fn gen_bishop_move(board: &Vec<Piece>, x: usize, y: usize, team: i8, moves: &mut Vec<Mv>)
    requires
        valid_board(board@),
        x < 8,
        y < 8,
        team == -1 || team == 1,
    ensures
        forall|m: Mv| final(moves)@.contains(m) <==> (old(moves)@.contains(m)
            || (m.fx == x && m.fy == y && m.tx < 8 && m.ty < 8
                && bishop_geom(board@, x as int, y as int, m.tx as int, m.ty as int, m.kind, team as int))),
{
    ray_moves(board, x, y, 1, 1, team, moves);
    ray_moves(board, x, y, 1, -1, team, moves);
    ray_moves(board, x, y, -1, 1, team, moves);
    ray_moves(board, x, y, -1, -1, team, moves);
}

/// Queen moves: the rook and bishop rays together.
pub fn gen_queen_move(board: &Vec<Piece>, x: usize, y: usize, team: i8, moves: &mut Vec<Mv>)
    requires
        valid_board(board@),
        x < 8,
        y < 8,
        team == -1 || team == 1,
    ensures
        forall|m: Mv| final(moves)@.contains(m) <==> (old(moves)@.contains(m)
            || (m.fx == x && m.fy == y && m.tx < 8 && m.ty < 8
                && (rook_geom(board@, x as int, y as int, m.tx as int, m.ty as int, m.kind, team as int)
                    || bishop_geom(board@, x as int, y as int, m.tx as int, m.ty as int, m.kind, team as int)))),
{
    gen_rook_move(board, x, y, team, moves);
    gen_bishop_move(board, x, y, team, moves);
}

/// All pseudo moves of the piece standing on (x, y).
pub fn piece_moves(board: &Vec<Piece>, cr: CastleRights, x: usize, y: usize, team: i8) -> (r: Vec<Mv>)
    requires
        valid_board(board@),
        x < 8,
        y < 8,
        team == -1 || team == 1,
        side_at(board@, x as int, y as int) == team as int,
    ensures
        forall|m: Mv| r@.contains(m) <==> pseudo_from(board@, cr, x as int, y as int, m, team as int),
{
    let mut moves: Vec<Mv> = Vec::new();
    let id = board[y * 8 + x].id;
    if id == 1 {
        gen_pawn_move(board, x, y, team, &mut moves);
    } else if id == 2 {
        gen_rook_move(board, x, y, team, &mut moves);
    } else if id == 3 {
        gen_knight_move(board, x, y, team, &mut moves);
    } else if id == 4 {
        gen_bishop_move(board, x, y, team, &mut moves);
    } else if id == 5 {
        gen_queen_move(board, x, y, team, &mut moves);
    } else {
        gen_king_move(board, cr, x, y, team, &mut moves);
    }
    moves
}

/// Whether some piece of `team` has a pseudo move striking (x, y).
/// Castling moves are skipped in the scan: they only ever land on an
/// empty square of the mover's own back rank and so threaten nothing.
pub fn square_attacked(board: &Vec<Piece>, cr: CastleRights, x: usize, y: usize, team: i8) -> (r: bool)
    requires
        valid_board(board@),
        x < 8,
        y < 8,
        team == -1 || team == 1,
    ensures
        r == attacked(board@, x as int, y as int, team as int),
{
    let mut j: usize = 0;
    while j < 64
        invariant
            valid_board(board@),
            x < 8,
            y < 8,
            team == -1 || team == 1,
            j <= 64,
            forall|fx: int, fy: int, kind: MoveKind| 0 <= fx < 8 && 0 <= fy < 8 && fy * 8 + fx < j
                ==> !#[trigger] attack_ok(board@, fx, fy, x as int, y as int, kind, team as int),
        decreases 64 - j,
    {
        let fx = j % 8;
        let fy = j / 8;
        if board[j].team == team {
            let ms = piece_moves(board, cr, fx, fy, team);
            let mut k: usize = 0;
            while k < ms.len()
                invariant
                    valid_board(board@),
                    x < 8,
                    y < 8,
                    fx < 8,
                    fy < 8,
                    team == -1 || team == 1,
                    k <= ms@.len(),
                    forall|m: Mv| ms@.contains(m)
                        <==> pseudo_from(board@, cr, fx as int, fy as int, m, team as int),
                    forall|i: int| 0 <= i < k ==> !((#[trigger] ms@[i]).tx == x && ms@[i].ty == y
                        && ms@[i].kind != MoveKind::CastleKing && ms@[i].kind != MoveKind::CastleQueen),
                decreases ms@.len() - k,
            {
                let m = ms[k];
                if m.tx == x && m.ty == y
                    && !(m.kind == MoveKind::CastleKing) && !(m.kind == MoveKind::CastleQueen) {
                    proof {
                        assert(ms@.contains(m));
                        assert(attack_ok(board@, fx as int, fy as int, x as int, y as int,
                            m.kind, team as int));
                    }
                    return true;
                }
                k += 1;
            }
            proof {
                assert forall|kind: MoveKind|
                    !attack_ok(board@, fx as int, fy as int, x as int, y as int, kind, team as int) by {
                    if attack_ok(board@, fx as int, fy as int, x as int, y as int, kind, team as int) {
                        let m = Mv { fx: fx, fy: fy, tx: x, ty: y, kind: kind };
                        assert(pseudo_from(board@, cr, fx as int, fy as int, m, team as int));
                        assert(ms@.contains(m));
                        let i = choose|i: int| 0 <= i < ms@.len() && ms@[i] == m;
                        assert(false);
                    }
                }
            }
        } else {
            proof {
                assert forall|kind: MoveKind|
                    !attack_ok(board@, fx as int, fy as int, x as int, y as int, kind, team as int) by {
                }
            }
        }
        j += 1;
    }
    proof {
        if attacked(board@, x as int, y as int, team as int) {
            let (fx, fy, kind) = choose|fx: int, fy: int, kind: MoveKind|
                #[trigger] attack_ok(board@, fx, fy, x as int, y as int, kind, team as int);
            assert(false);
        }
    }
    false
}

} // verus!
