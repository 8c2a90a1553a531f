//! Engine-wide laws, stated and proved once: what attacks an occupied
//! square, when two boards agree on every capture threat, and that a
//! request's origin and destination determine the move.

use vstd::prelude::*;
use crate::board::ChessBoard;
use crate::piece::{CastleRights, MoveKind, Mv, Piece};
use crate::rules::{
    attack_ok, attacked, bishop_geom, empty_at, king_at, king_safe, king_sq, kings_ok,
    pseudo_mv, ray_clear, ray_hit, ray_ok, ray_step_empty, rook_geom, valid_board,
};

verus! {

/// In every well-formed engine state, exactly one king per side
/// stands on the board.
pub proof fn lemma_one_king_each(s: ChessBoard)
    requires
        s.wf(),
    ensures
        kings_ok(s.board@),
{
}

/// A pseudo move that strikes an occupied square is a capture: every
/// other kind demands an empty destination.
pub proof fn lemma_occupied_attack_is_capture(
    b: Seq<Piece>, fx: int, fy: int, tx: int, ty: int, kind: MoveKind, team: int,
)
    requires
        attack_ok(b, fx, fy, tx, ty, kind, team),
        !empty_at(b, tx, ty),
    ensures
        kind == MoveKind::Capture,
{
}

/// Two boards with the same occupancy, the same sides everywhere, and
/// identical pieces for the attacking side admit the same capture
/// threats: a capture reads only occupancy, the target's side, and the
/// attacker's own kind.
pub proof fn lemma_capture_attacks_same(b1: Seq<Piece>, b2: Seq<Piece>, atk: int)
    requires
        b1.len() == 64,
        b2.len() == 64,
        forall|i: int| 0 <= i < 64 ==> (#[trigger] b2[i]).team == b1[i].team,
        forall|i: int| 0 <= i < 64 ==> ((#[trigger] b2[i]).id == 0 <==> b1[i].id == 0),
        forall|i: int| 0 <= i < 64 && b1[i].team as int == atk ==> #[trigger] b2[i] == b1[i],
    ensures
        forall|fx: int, fy: int, tx: int, ty: int|
            attack_ok(b1, fx, fy, tx, ty, MoveKind::Capture, atk)
                == #[trigger] attack_ok(b2, fx, fy, tx, ty, MoveKind::Capture, atk),
{
    assert forall|fx: int, fy: int, tx: int, ty: int|
        attack_ok(b1, fx, fy, tx, ty, MoveKind::Capture, atk)
            == #[trigger] attack_ok(b2, fx, fy, tx, ty, MoveKind::Capture, atk) by {
        if 0 <= fx < 8 && 0 <= fy < 8 {
            assert(b2[fy * 8 + fx].team == b1[fy * 8 + fx].team);
            lemma_capture_rays_same(b1, b2, fx, fy, tx, ty, atk, 1, 0);
            lemma_capture_rays_same(b1, b2, fx, fy, tx, ty, atk, -1, 0);
            lemma_capture_rays_same(b1, b2, fx, fy, tx, ty, atk, 0, 1);
            lemma_capture_rays_same(b1, b2, fx, fy, tx, ty, atk, 0, -1);
            lemma_capture_rays_same(b1, b2, fx, fy, tx, ty, atk, 1, 1);
            lemma_capture_rays_same(b1, b2, fx, fy, tx, ty, atk, 1, -1);
            lemma_capture_rays_same(b1, b2, fx, fy, tx, ty, atk, -1, 1);
            lemma_capture_rays_same(b1, b2, fx, fy, tx, ty, atk, -1, -1);
        }
    }
}

proof fn lemma_capture_rays_same(
    b1: Seq<Piece>, b2: Seq<Piece>, fx: int, fy: int, tx: int, ty: int, atk: int, dx: int, dy: int,
)
    requires
        b1.len() == 64,
        b2.len() == 64,
        forall|i: int| 0 <= i < 64 ==> (#[trigger] b2[i]).team == b1[i].team,
        forall|i: int| 0 <= i < 64 ==> ((#[trigger] b2[i]).id == 0 <==> b1[i].id == 0),
    ensures
        ray_ok(b1, fx, fy, dx, dy, tx, ty, MoveKind::Capture, atk)
            == ray_ok(b2, fx, fy, dx, dy, tx, ty, MoveKind::Capture, atk),
{
    if ray_ok(b1, fx, fy, dx, dy, tx, ty, MoveKind::Capture, atk) {
        let n = choose|n: int| #[trigger] ray_hit(fx, fy, dx, dy, tx, ty, n)
            && ray_clear(b1, fx, fy, dx, dy, n);
        assert forall|i: int| 1 <= i < n implies #[trigger] ray_step_empty(b2, fx, fy, dx, dy, i) by {
            assert(ray_step_empty(b1, fx, fy, dx, dy, i));
        }
        assert(ray_hit(fx, fy, dx, dy, tx, ty, n) && ray_clear(b2, fx, fy, dx, dy, n));
    }
    if ray_ok(b2, fx, fy, dx, dy, tx, ty, MoveKind::Capture, atk) {
        let n = choose|n: int| #[trigger] ray_hit(fx, fy, dx, dy, tx, ty, n)
            && ray_clear(b2, fx, fy, dx, dy, n);
        assert forall|i: int| 1 <= i < n implies #[trigger] ray_step_empty(b1, fx, fy, dx, dy, i) by {
            assert(ray_step_empty(b2, fx, fy, dx, dy, i));
        }
        assert(ray_hit(fx, fy, dx, dy, tx, ty, n) && ray_clear(b1, fx, fy, dx, dy, n));
    }
}

/// King safety carries over between boards that agree on occupancy,
/// on every square's side, and on the attacker's pieces, as long as
/// the king stands on the same square.
pub proof fn lemma_king_safe_transfer(b1: Seq<Piece>, b2: Seq<Piece>, t: int)
    requires
        valid_board(b1),
        valid_board(b2),
        kings_ok(b1),
        kings_ok(b2),
        king_sq(b2, t) == king_sq(b1, t),
        t == -1 || t == 1,
        forall|i: int| 0 <= i < 64 ==> (#[trigger] b2[i]).team == b1[i].team,
        forall|i: int| 0 <= i < 64 ==> ((#[trigger] b2[i]).id == 0 <==> b1[i].id == 0),
        forall|i: int| 0 <= i < 64 && b1[i].team as int == -t ==> #[trigger] b2[i] == b1[i],
        king_safe(b1, t),
    ensures
        king_safe(b2, t),
{
    let k = king_sq(b1, t);
    crate::apply::lemma_king_sq_of(b1, t);
    crate::apply::lemma_king_sq_of(b2, t);
    let kx = k % 8;
    let ky = k / 8;
    assert(king_at(b1, k, t));
    assert(ky * 8 + kx == k);
    if attacked(b2, kx, ky, -t) {
        let (fx, fy, kind) = choose|fx: int, fy: int, kind: MoveKind|
            #[trigger] attack_ok(b2, fx, fy, kx, ky, kind, -t);
        assert(!empty_at(b2, kx, ky));
        lemma_occupied_attack_is_capture(b2, fx, fy, kx, ky, kind, -t);
        lemma_capture_attacks_same(b1, b2, -t);
        assert(attack_ok(b1, fx, fy, kx, ky, MoveKind::Capture, -t));
        assert(attacked(b1, kx, ky, -t));
        assert(false);
    }
}

/// An origin and a destination determine the move: no two distinct
/// pseudo moves share both squares.  A move request therefore names
/// its move unambiguously.
pub proof fn lemma_move_kind_unique(b: Seq<Piece>, cr: CastleRights, m1: Mv, m2: Mv, team: int)
    requires
        valid_board(b),
        pseudo_mv(b, cr, m1, team),
        pseudo_mv(b, cr, m2, team),
        m1.fx == m2.fx && m1.fy == m2.fy && m1.tx == m2.tx && m1.ty == m2.ty,
    ensures
        m1 == m2,
{
    let fx = m1.fx as int;
    let fy = m1.fy as int;
    let tx = m1.tx as int;
    let ty = m1.ty as int;
    lemma_kind_determined(b, cr, fx, fy, tx, ty, m1.kind, team);
    lemma_kind_determined(b, cr, fx, fy, tx, ty, m2.kind, team);
}

/// Each kind a pseudo move can carry is pinned by the board contents
/// at its two squares.
proof fn lemma_kind_determined(
    b: Seq<Piece>, cr: CastleRights, fx: int, fy: int, tx: int, ty: int, kind: MoveKind, team: int,
)
    requires
        valid_board(b),
        crate::rules::pseudo_ok(b, cr, fx, fy, tx, ty, kind, team),
    ensures
        kind == kind_for(b, fx, fy, tx, ty, team),
{
    let id = crate::rules::kind_id_at(b, fx, fy);
    if kind == MoveKind::Plain || kind == MoveKind::Capture {
        if id == 2 || id == 4 || id == 5 {
            lemma_sliding_target(b, fx, fy, tx, ty, kind, team);
        }
    }
    if kind == MoveKind::CastleKing || kind == MoveKind::CastleQueen {
        assert(!attack_ok(b, fx, fy, tx, ty, kind, team));
        assert(abs_d_ge2(fx, tx));
    }
}

/// The kind that a pseudo move between two given squares must carry.
spec fn kind_for(b: Seq<Piece>, fx: int, fy: int, tx: int, ty: int, team: int) -> MoveKind {
    if crate::rules::kind_id_at(b, fx, fy) == 6 && abs_d_ge2(fx, tx) {
        if tx == 6 { MoveKind::CastleKing } else { MoveKind::CastleQueen }
    } else if crate::rules::kind_id_at(b, fx, fy) == 1 {
        if tx == fx && ty == fy + 2 * team { MoveKind::TwoStep }
        else if crate::rules::enemy_at(b, tx, ty, team) { MoveKind::Capture }
        else if tx != fx { MoveKind::EnPassant }
        else { MoveKind::Plain }
    } else {
        if crate::rules::enemy_at(b, tx, ty, team) { MoveKind::Capture } else { MoveKind::Plain }
    }
}

spec fn abs_d_ge2(a: int, b: int) -> bool {
    a - b >= 2 || b - a >= 2
}

/// A sliding move's target square tells plain moves and captures
/// apart: it is empty for the one and enemy-held for the other.
proof fn lemma_sliding_target(
    b: Seq<Piece>, fx: int, fy: int, tx: int, ty: int, kind: MoveKind, team: int,
)
    requires
        rook_geom(b, fx, fy, tx, ty, kind, team) || bishop_geom(b, fx, fy, tx, ty, kind, team),
    ensures
        crate::rules::target_ok(b, tx, ty, kind, team),
{
}

} // verus!
