//! Writing a move's board effect, and reverting it exactly.
//!
//! The legality filter applies each candidate move to the real board,
//! checks king safety, and must then restore the board bit for bit.
//! Every write is recorded in an undo log of (square, prior contents)
//! pairs; replaying the log in reverse provably restores the prior
//! board.

use vstd::prelude::*;
use crate::piece::{CastleRights, MoveKind, Mv, Piece, empty_piece, valid_piece};
use crate::rules::{
    apply_at, apply_spec, at, clear_twice, empty_at, has_king, home_rank, king_at, king_sq,
    kind_id_at, kings_ok, pseudo_mv, ray_clear, ray_hit, rook_home_at, side_at, undo_fold,
    unique_king, valid_board,
};

verus! {

/// Coordinate facts the board writer needs about a move: origin and
/// destination distinct, and the fixed squares of the special kinds
/// where the board effect expects them.
pub open spec fn mv_shape(b: Seq<Piece>, m: Mv) -> bool {
    let r = home_rank(at(b, m.fx as int, m.fy as int).team as int);
    m.fx < 8 && m.fy < 8 && m.tx < 8 && m.ty < 8
        && !(m.fx == m.tx && m.fy == m.ty)
        && (m.kind == MoveKind::EnPassant ==> m.tx != m.fx && m.ty != m.fy)
        && (m.kind == MoveKind::CastleKing ==> m.fx == 4 && m.tx == 6 && m.fy as int == r && m.ty as int == r)
        && (m.kind == MoveKind::CastleQueen ==> m.fx == 4 && m.tx == 2 && m.fy as int == r && m.ty as int == r)
}

/// Every pseudo move has the shape the board writer relies on.
pub proof fn lemma_pseudo_shape(b: Seq<Piece>, cr: CastleRights, m: Mv, team: int)
    requires
        pseudo_mv(b, cr, m, team),
    ensures
        mv_shape(b, m),
{
    let fx = m.fx as int;
    let fy = m.fy as int;
    let tx = m.tx as int;
    let ty = m.ty as int;
    if ray_ok_any(b, fx, fy, tx, ty, m.kind, team) {
        ray_neq(b, fx, fy, tx, ty, m.kind, team);
    }
}

/// The union of the eight sliding directions, used only to organize
/// the shape proof.
spec fn ray_ok_any(b: Seq<Piece>, fx: int, fy: int, tx: int, ty: int, kind: MoveKind, team: int) -> bool {
    crate::rules::rook_geom(b, fx, fy, tx, ty, kind, team)
        || crate::rules::bishop_geom(b, fx, fy, tx, ty, kind, team)
}

proof fn ray_neq(b: Seq<Piece>, fx: int, fy: int, tx: int, ty: int, kind: MoveKind, team: int)
    requires
        ray_ok_any(b, fx, fy, tx, ty, kind, team),
    ensures
        !(tx == fx && ty == fy),
{
    if crate::rules::ray_ok(b, fx, fy, 1, 0, tx, ty, kind, team) {
        let n = choose|n: int| #[trigger] ray_hit(fx, fy, 1, 0, tx, ty, n) && ray_clear(b, fx, fy, 1, 0, n);
        assert(tx == fx + n);
    } else if crate::rules::ray_ok(b, fx, fy, -1, 0, tx, ty, kind, team) {
        let n = choose|n: int| #[trigger] ray_hit(fx, fy, -1, 0, tx, ty, n) && ray_clear(b, fx, fy, -1, 0, n);
        assert(tx == fx - n);
    } else if crate::rules::ray_ok(b, fx, fy, 0, 1, tx, ty, kind, team) {
        let n = choose|n: int| #[trigger] ray_hit(fx, fy, 0, 1, tx, ty, n) && ray_clear(b, fx, fy, 0, 1, n);
        assert(ty == fy + n);
    } else if crate::rules::ray_ok(b, fx, fy, 0, -1, tx, ty, kind, team) {
        let n = choose|n: int| #[trigger] ray_hit(fx, fy, 0, -1, tx, ty, n) && ray_clear(b, fx, fy, 0, -1, n);
        assert(ty == fy - n);
    } else if crate::rules::ray_ok(b, fx, fy, 1, 1, tx, ty, kind, team) {
        let n = choose|n: int| #[trigger] ray_hit(fx, fy, 1, 1, tx, ty, n) && ray_clear(b, fx, fy, 1, 1, n);
        assert(tx == fx + n);
    } else if crate::rules::ray_ok(b, fx, fy, 1, -1, tx, ty, kind, team) {
        let n = choose|n: int| #[trigger] ray_hit(fx, fy, 1, -1, tx, ty, n) && ray_clear(b, fx, fy, 1, -1, n);
        assert(tx == fx + n);
    } else if crate::rules::ray_ok(b, fx, fy, -1, 1, tx, ty, kind, team) {
        let n = choose|n: int| #[trigger] ray_hit(fx, fy, -1, 1, tx, ty, n) && ray_clear(b, fx, fy, -1, 1, n);
        assert(tx == fx - n);
    } else {
        let n = choose|n: int| #[trigger] ray_hit(fx, fy, -1, -1, tx, ty, n) && ray_clear(b, fx, fy, -1, -1, n);
        assert(tx == fx - n);
    }
}

/// The undo log only names real squares.
pub open spec fn log_ok(log: Seq<(usize, Piece)>) -> bool {
    forall|k: int| 0 <= k < log.len() ==> (#[trigger] log[k]).0 < 64
}

/// One write, with its prior contents recorded.
fn set_sq(board: &mut Vec<Piece>, log: &mut Vec<(usize, Piece)>, i: usize, p: Piece)
    requires
        i < old(board)@.len(),
    ensures
        final(board)@ == old(board)@.update(i as int, p),
        final(log)@ == old(log)@.push((i, old(board)@[i as int])),
{
    let prior = board[i];
    log.push((i, prior));
    board[i] = p;
}

/// Recording a square's prior contents before overwriting it keeps the
/// undo replay an exact inverse.
pub proof fn lemma_undo_step(b: Seq<Piece>, log: Seq<(usize, Piece)>, i: usize, v: Piece)
    requires
        (i as int) < b.len(),
    ensures
        undo_fold(b.update(i as int, v), log.push((i, b[i as int]))) == undo_fold(b, log),
{
    let b2 = b.update(i as int, v);
    let log2 = log.push((i, b[i as int]));
    assert(log2.drop_last() =~= log);
    assert(b2.update(i as int, b[i as int]) =~= b);
    assert(undo_fold(b2, log2) == undo_fold(b2.update(i as int, b[i as int]), log2.drop_last()));
}

/// Apply move m to the board, producing exactly `apply_spec`, and an
/// undo log that restores the prior board.
pub fn apply_move(board: &mut Vec<Piece>, m: Mv, cr: Ghost<CastleRights>, team: Ghost<int>) -> (log: Vec<(usize, Piece)>)
    requires
        old(board)@.len() == 64,
        pseudo_mv(old(board)@, cr@, m, team@),
    ensures
        final(board)@ == apply_spec(old(board)@, m),
        final(board)@.len() == 64,
        undo_fold(final(board)@, log@) == old(board)@,
        log_ok(log@),
{
    proof {
        lemma_pseudo_shape(old(board)@, cr@, m, team@);
    }
    let ghost orig = board@;
    let mut log: Vec<(usize, Piece)> = Vec::new();

    // Clear every en-passant flag; the mover's own flags are rebuilt below.
    let mut i: usize = 0;
    while i < 64
        invariant
            board@.len() == 64,
            i <= 64,
            undo_fold(board@, log@) == orig,
            log_ok(log@),
            forall|j: int| 0 <= j < i ==> board@[j] == clear_twice(orig[j]),
            forall|j: int| i <= j < 64 ==> board@[j] == orig[j],
        decreases 64 - i,
    {
        let cur = board[i];
        if cur.moved_twice {
            let ghost pb = board@;
            let ghost pl = log@;
            set_sq(board, &mut log, i, Piece { id: cur.id, team: cur.team, moved: cur.moved, moved_twice: false });
            proof {
                lemma_undo_step(pb, pl, i, Piece { id: cur.id, team: cur.team, moved: cur.moved, moved_twice: false });
            }
        }
        i += 1;
    }

    let from: usize = m.fy * 8 + m.fx;
    let to: usize = m.ty * 8 + m.tx;
    let p = board[from];
    let mover = Piece {
        id: p.id,
        team: p.team,
        moved: true,
        moved_twice: m.kind == MoveKind::TwoStep,
    };

    let ghost pb = board@;
    let ghost pl = log@;
    set_sq(board, &mut log, from, Piece::empty());
    proof { lemma_undo_step(pb, pl, from, empty_piece()); }

    let ghost pb = board@;
    let ghost pl = log@;
    set_sq(board, &mut log, to, mover);
    proof { lemma_undo_step(pb, pl, to, mover); }

    if m.kind == MoveKind::EnPassant {
        let ep: usize = m.fy * 8 + m.tx;
        let ghost pb = board@;
        let ghost pl = log@;
        set_sq(board, &mut log, ep, Piece::empty());
        proof { lemma_undo_step(pb, pl, ep, empty_piece()); }
    } else if m.kind == MoveKind::CastleKing {
        let r: usize = if p.team == -1 { 7 } else { 0 };
        let rf: usize = r * 8 + 7;
        let rt: usize = r * 8 + 5;
        let rook = board[rf];
        let moved_rook = Piece { id: rook.id, team: rook.team, moved: true, moved_twice: false };
        let ghost pb = board@;
        let ghost pl = log@;
        set_sq(board, &mut log, rf, Piece::empty());
        proof { lemma_undo_step(pb, pl, rf, empty_piece()); }
        let ghost pb = board@;
        let ghost pl = log@;
        set_sq(board, &mut log, rt, moved_rook);
        proof { lemma_undo_step(pb, pl, rt, moved_rook); }
    } else if m.kind == MoveKind::CastleQueen {
        let r: usize = if p.team == -1 { 7 } else { 0 };
        let rf: usize = r * 8;
        let rt: usize = r * 8 + 3;
        let rook = board[rf];
        let moved_rook = Piece { id: rook.id, team: rook.team, moved: true, moved_twice: false };
        let ghost pb = board@;
        let ghost pl = log@;
        set_sq(board, &mut log, rf, Piece::empty());
        proof { lemma_undo_step(pb, pl, rf, empty_piece()); }
        let ghost pb = board@;
        let ghost pl = log@;
        set_sq(board, &mut log, rt, moved_rook);
        proof { lemma_undo_step(pb, pl, rt, moved_rook); }
    }

    proof {
        assert(board@ =~= apply_spec(orig, m));
    }
    log
}

/// Replay the undo log, restoring the board the log was taken from.
pub fn revert_move(board: &mut Vec<Piece>, log: Vec<(usize, Piece)>, orig: Ghost<Seq<Piece>>)
    requires
        old(board)@.len() == 64,
        log_ok(log@),
        undo_fold(old(board)@, log@) == orig@,
    ensures
        final(board)@ == orig@,
        final(board)@.len() == 64,
{
    let mut log = log;
    while log.len() > 0
        invariant
            board@.len() == 64,
            log_ok(log@),
            undo_fold(board@, log@) == orig@,
        decreases log.len(),
    {
        let entry = log.pop().unwrap();
        board[entry.0] = entry.1;
    }
}


/// A committed move keeps the board well-formed and moves kings only
/// where the mover itself is the king: the destination never holds a
/// king, an en-passant capture removes a pawn, and castling relocates
/// a rook.
pub proof fn lemma_apply_kings(b: Seq<Piece>, cr: CastleRights, m: Mv, team: int)
    requires
        valid_board(b),
        kings_ok(b),
        pseudo_mv(b, cr, m, team),
        kind_id_at(b, m.tx as int, m.ty as int) != 6,
    ensures
        valid_board(apply_spec(b, m)),
        kings_ok(apply_spec(b, m)),
        at(b, m.fx as int, m.fy as int).id == 6
            ==> king_sq(apply_spec(b, m), team) == m.ty as int * 8 + m.tx as int,
        at(b, m.fx as int, m.fy as int).id != 6
            ==> king_sq(apply_spec(b, m), team) == king_sq(b, team),
        king_sq(apply_spec(b, m), -team) == king_sq(b, -team),
{
    lemma_pseudo_shape(b, cr, m, team);
    let b2 = apply_spec(b, m);
    let fx = m.fx as int;
    let fy = m.fy as int;
    let tx = m.tx as int;
    let ty = m.ty as int;
    let from = fy * 8 + fx;
    let to = ty * 8 + tx;
    let p = at(b, fx, fy);
    let r = home_rank(team);
    assert(side_at(b, fx, fy) == team);
    assert(team == -1 || team == 1);
    assert(p == b[from]);
    assert(valid_piece(b[from]));

    if m.kind == MoveKind::TwoStep {
        // only the pawn geometry admits a double step
        if kind_id_at(b, fx, fy) != 1 {
            assert(false);
        }
    }
    if m.kind == MoveKind::EnPassant {
        if kind_id_at(b, fx, fy) != 1 {
            assert(false);
        }
        assert(at(b, tx, fy).moved_twice);
        assert(valid_piece(b[fy * 8 + tx]));
        assert(at(b, tx, fy).id == 1);
    }
    if m.kind == MoveKind::CastleKing {
        assert(rook_home_at(b, 7, r, team));
        assert(empty_at(b, 5, r));
        assert(fy == r && ty == r && fx == 4 && tx == 6);
    }
    if m.kind == MoveKind::CastleQueen {
        assert(rook_home_at(b, 0, r, team));
        assert(empty_at(b, 3, r));
        assert(fy == r && ty == r && fx == 4 && tx == 2);
    }

    assert forall|i: int| 0 <= i < 64 implies valid_piece(#[trigger] b2[i]) by {
        assert(b2[i] == apply_at(b, m, i));
        assert(valid_piece(b[i]));
    }

    lemma_apply_kings_side(b, cr, m, team, -1);
    lemma_apply_kings_side(b, cr, m, team, 1);
}

/// `king_sq` names the unique king square.
pub proof fn lemma_king_sq_of(b: Seq<Piece>, t: int)
    requires
        has_king(b, t),
        unique_king(b, t),
    ensures
        king_at(b, king_sq(b, t), t),
{
    let w = choose|i: int| king_at(b, i, t);
    assert(king_at(b, w, t));
}

proof fn lemma_apply_kings_side(b: Seq<Piece>, cr: CastleRights, m: Mv, team: int, t: int)
    requires
        valid_board(b),
        kings_ok(b),
        pseudo_mv(b, cr, m, team),
        kind_id_at(b, m.tx as int, m.ty as int) != 6,
        mv_shape(b, m),
        t == -1 || t == 1,
        m.kind == MoveKind::EnPassant ==> at(b, m.tx as int, m.fy as int).id == 1,
        m.kind == MoveKind::CastleKing ==> rook_home_at(b, 7, home_rank(team), team)
            && m.fy as int == home_rank(team) && m.ty as int == home_rank(team)
            && empty_at(b, 5, home_rank(team)),
        m.kind == MoveKind::CastleQueen ==> rook_home_at(b, 0, home_rank(team), team)
            && m.fy as int == home_rank(team) && m.ty as int == home_rank(team)
            && empty_at(b, 3, home_rank(team)),
    ensures
        has_king(apply_spec(b, m), t),
        unique_king(apply_spec(b, m), t),
        (t == team && at(b, m.fx as int, m.fy as int).id == 6)
            ==> king_sq(apply_spec(b, m), t) == m.ty as int * 8 + m.tx as int,
        !(t == team && at(b, m.fx as int, m.fy as int).id == 6)
            ==> king_sq(apply_spec(b, m), t) == king_sq(b, t),
{
    let b2 = apply_spec(b, m);
    let fx = m.fx as int;
    let fy = m.fy as int;
    let tx = m.tx as int;
    let ty = m.ty as int;
    let from = fy * 8 + fx;
    let to = ty * 8 + tx;
    let p = at(b, fx, fy);
    let r = home_rank(team);
    assert(side_at(b, fx, fy) == team);
    assert(team == -1 || team == 1);
    lemma_king_sq_of(b, t);
    let k = king_sq(b, t);

    if t == team && p.id == 6 {
        assert(king_at(b, from, t));
        assert(k == from);
        assert(b2[to] == apply_at(b, m, to));
        assert(king_at(b2, to, t));
        assert forall|i: int| #[trigger] king_at(b2, i, t) implies i == to by {
            assert(b2[i] == apply_at(b, m, i));
            if i != to {
                assert(king_at(b, i, t));
                assert(i == k);
                assert(false);
            }
        }
        lemma_king_sq_of(b2, t);
        assert(king_sq(b2, t) == to);
    } else {
        // the king of side t stands still; none of the touched squares is it
        assert(b[k].id == 6 && b[k].team as int == t);
        assert(k != to);
        if k == from {
            assert(false);
        }
        assert(b2[k] == apply_at(b, m, k));
        assert(king_at(b2, k, t));
        assert forall|i: int| #[trigger] king_at(b2, i, t) implies i == k by {
            assert(b2[i] == apply_at(b, m, i));
            if i == to {
                assert(b2[to].id == p.id && b2[to].team == p.team);
                assert(false);
            } else if i != k {
                assert(king_at(b, i, t));
                assert(false);
            }
        }
        lemma_king_sq_of(b2, t);
        assert(king_sq(b2, t) == k);
    }
}


/// Changing one square's occupant to another non-king piece keeps the
/// board well-formed and both kings in place.
pub proof fn lemma_update_nonking(b: Seq<Piece>, idx: int, np: Piece)
    requires
        valid_board(b),
        kings_ok(b),
        0 <= idx < 64,
        valid_piece(np),
        b[idx].id != 6,
        np.id != 6,
    ensures
        valid_board(b.update(idx, np)),
        kings_ok(b.update(idx, np)),
        king_sq(b.update(idx, np), -1) == king_sq(b, -1),
        king_sq(b.update(idx, np), 1) == king_sq(b, 1),
{
    let b2 = b.update(idx, np);
    assert forall|i: int| 0 <= i < 64 implies valid_piece(#[trigger] b2[i]) by {
        assert(valid_piece(b[i]));
    }
    lemma_update_nonking_side(b, idx, np, -1);
    lemma_update_nonking_side(b, idx, np, 1);
}

proof fn lemma_update_nonking_side(b: Seq<Piece>, idx: int, np: Piece, t: int)
    requires
        valid_board(b),
        kings_ok(b),
        0 <= idx < 64,
        b[idx].id != 6,
        np.id != 6,
        t == -1 || t == 1,
    ensures
        has_king(b.update(idx, np), t),
        unique_king(b.update(idx, np), t),
        king_sq(b.update(idx, np), t) == king_sq(b, t),
{
    let b2 = b.update(idx, np);
    lemma_king_sq_of(b, t);
    let k = king_sq(b, t);
    assert(k != idx);
    assert(king_at(b2, k, t));
    assert forall|i: int| #[trigger] king_at(b2, i, t) implies i == k by {
        if i != idx {
            assert(king_at(b, i, t));
        }
    }
    lemma_king_sq_of(b2, t);
}

} // verus!
