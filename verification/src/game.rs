//! The game controller: committing a requested move, resolving a
//! pawn promotion, and the coordinate-notation entry point.

use vstd::prelude::*;
use crate::apply::{apply_move, lemma_apply_kings, lemma_update_nonking};
use crate::board::{ChessBoard, same_state};
use crate::piece::{CastleRights, MoveKind, Mv, Piece};
use vstd::string::StringSliceAdditionalSpecFns;
use crate::rules::{
    apply_spec, at, king_safe, legal_move, next_rights, promo_rank, side_at,
};

verus! {

/// Move record m leads from flat square `from` to flat square `to`.
pub open spec fn mv_is(m: Mv, from: int, to: int) -> bool {
    m.fy * 8 + m.fx == from && m.ty * 8 + m.tx == to
}

/// The request names squares in range, distinct, no promotion is
/// pending, and the move stands in the current legal-move index.
pub open spec fn accepts(pre: ChessBoard, from: int, to: int) -> bool {
    0 <= from < 64 && 0 <= to < 64 && from != to && !pre.promoting
        && (exists|k: int| 0 <= k < pre.move_list@.len()
            && mv_is(#[trigger] pre.move_list@[k], from, to))
}

/// The committed pawn reached its last rank, so the game blocks until
/// the promotion is resolved.
pub open spec fn promo_triggered(b2: Seq<Piece>, m: Mv, team: int) -> bool {
    at(b2, m.tx as int, m.ty as int).id == 1 && m.ty as int == promo_rank(team)
}

/// The full effect of committing move m: the board changes exactly by
/// `apply_spec`, the castling rights are re-derived monotonically, and
/// either a promotion becomes pending (turn held, index untouched) or
/// the turn flips, the index is rebuilt for the new side, and the game
/// ends exactly when that index is empty.
pub open spec fn commit_rel(pre: ChessBoard, post: ChessBoard, m: Mv) -> bool {
    let b2 = apply_spec(pre.board@, m);
    let team = pre.turn_team();
    let mover = at(pre.board@, m.fx as int, m.fy as int);
    post.board@ == b2
        && post.rights == next_rights(b2, pre.rights, mover)
        && (if promo_triggered(b2, m, team) {
            post.white_turn == pre.white_turn
                && post.promoting
                && post.promoting_index == (m.tx, m.ty)
                && post.game_ended == pre.game_ended
                && post.move_list@ == pre.move_list@
        } else {
            post.white_turn == !pre.white_turn
                && !post.promoting
                && (forall|mm: Mv| post.move_list@.contains(mm)
                    <==> legal_move(b2, post.rights, mm, -team))
                && post.game_ended == (pre.game_ended || post.move_list@.len() == 0)
        })
}

/// What a move request does: rejected requests change nothing, and an
/// accepted one commits per `commit_rel`, never leaves the mover's own
/// king capturable, and leaves at most the arriving pawn flagged as
/// capturable en passant.
pub open spec fn move_outcome(pre: ChessBoard, post: ChessBoard, from: int, to: int, r: bool) -> bool {
    (r <==> accepts(pre, from, to))
        && (!r ==> same_state(post, pre))
        && (r ==> (exists|m: Mv| #[trigger] pre.move_list@.contains(m) && mv_is(m, from, to)
            && commit_rel(pre, post, m)))
        && (r ==> king_safe(post.board@, pre.turn_team()))
        && (r ==> (forall|i: int| 0 <= i < 64 && #[trigger] post.board@[i].moved_twice ==> i == to))
}

/// Castling rights after a commit, as `next_rights` prescribes.
fn next_rights_exec(board: &Vec<Piece>, cr: CastleRights, mover: Piece) -> (r: CastleRights)
    requires
        board@.len() == 64,
    ensures
        r == next_rights(board@, cr, mover),
{
    let wkm = mover.id == 6 && mover.team == -1;
    let bkm = mover.id == 6 && mover.team == 1;
    let a = board[63];
    let b = board[56];
    let c = board[7];
    let d = board[0];
    CastleRights {
        wk: cr.wk && a.id == 2 && a.team == -1 && !wkm,
        wq: cr.wq && b.id == 2 && b.team == -1 && !wkm,
        bk: cr.bk && c.id == 2 && c.team == 1 && !bkm,
        bq: cr.bq && d.id == 2 && d.team == 1 && !bkm,
    }
}

impl ChessBoard {
    /// Attempt the move from one flat square (0..64, rank 0 first) to
    /// another.  Returns true exactly when the move stood in the
    /// legal-move index; a rejected request leaves the state untouched.
    pub fn move_by_index(&mut self, from: usize, to: usize) -> (r: bool)
        requires
            old(self).wf(),
        ensures
            final(self).wf(),
            move_outcome(*old(self), *final(self), from as int, to as int, r),
            !old(self).rights.wk ==> !final(self).rights.wk,
            !old(self).rights.wq ==> !final(self).rights.wq,
            !old(self).rights.bk ==> !final(self).rights.bk,
            !old(self).rights.bq ==> !final(self).rights.bq,
            old(self).game_ended ==> final(self).game_ended,
    {
        if from > 63 || to > 63 || from == to {
            return false;
        }
        if self.promoting {
            return false;
        }
        let fx = from % 8;
        let fy = from / 8;
        let tx = to % 8;
        let ty = to / 8;
        let team: i8 = if self.white_turn { -1 } else { 1 };
        let p = self.board[from];
        if p.team == -1 && !self.white_turn {
            proof {
                lemma_no_move_from_wrong_side(*self, from as int, to as int);
            }
            return false;
        }
        if p.team == 1 && self.white_turn {
            proof {
                lemma_no_move_from_wrong_side(*self, from as int, to as int);
            }
            return false;
        }

        // look the request up in the legal-move index
        let mut found = false;
        let mut kind = MoveKind::Plain;
        let mut i: usize = 0;
        while i < self.move_list.len() && !found
            invariant
                i <= self.move_list@.len(),
                found ==> i < self.move_list@.len()
                    && (#[trigger] self.move_list@[i as int]).fx == fx
                    && self.move_list@[i as int].fy == fy
                    && self.move_list@[i as int].tx == tx
                    && self.move_list@[i as int].ty == ty
                    && kind == self.move_list@[i as int].kind,
                !found ==> (forall|k: int| 0 <= k < i ==> !((#[trigger] self.move_list@[k]).fx == fx
                    && self.move_list@[k].fy == fy
                    && self.move_list@[k].tx == tx && self.move_list@[k].ty == ty)),
            decreases self.move_list@.len() - i + (if found { 0int } else { 1int }),
        {
            let m = self.move_list[i];
            if m.fx == fx && m.fy == fy && m.tx == tx && m.ty == ty {
                found = true;
                kind = m.kind;
            } else {
                i += 1;
            }
        }
        if !found {
            proof {
                assert forall|k: int| 0 <= k < self.move_list@.len()
                    implies !mv_is(#[trigger] self.move_list@[k], from as int, to as int) by {
                    let mm = self.move_list@[k];
                    assert(legal_move(self.board@, self.rights, mm, self.turn_team()));
                }
            }
            return false;
        }
        let m = Mv { fx, fy, tx, ty, kind };
        proof {
            assert(self.move_list@[i as int] == m);
            assert(self.move_list@.contains(m));
            assert(legal_move(self.board@, self.rights, m, self.turn_team()));
            assert(mv_is(m, from as int, to as int));
            assert(accepts(*self, from as int, to as int));
        }

        let ghost pre = *self;
        proof {
            lemma_apply_kings(pre.board@, pre.rights, m, pre.turn_team());
        }
        let _log = apply_move(&mut self.board, m, Ghost(pre.rights), Ghost(team as int));
        self.rights = next_rights_exec(&self.board, self.rights, p);

        let dest = self.board[to];
        if dest.id == 1 && ((dest.team == -1 && ty == 0) || (dest.team == 1 && ty == 7)) {
            self.promoting = true;
            self.promoting_index = (tx, ty);
            proof {
                assert(promo_triggered(self.board@, m, pre.turn_team()));
                assert(commit_rel(pre, *self, m));
                assert(pre.move_list@.contains(m));
            }
            return true;
        }

        self.white_turn = !self.white_turn;
        let empty = self.gen_moves();
        if empty {
            self.game_ended = true;
        }
        proof {
            assert(!promo_triggered(self.board@, m, pre.turn_team()));
            assert(commit_rel(pre, *self, m));
            assert(pre.move_list@.contains(m));
            assert forall|k: int| 0 <= k < self.move_list@.len()
                implies legal_move(self.board@, self.rights, #[trigger] self.move_list@[k],
                    self.turn_team()) by {
                assert(self.move_list@.contains(self.move_list@[k]));
            }
        }
        true
    }

    /// Resolve a pending promotion by giving the blocked pawn the
    /// requested kind (2 rook, 3 knight, 4 bishop, 5 queen), then
    /// proceed as a normal commit: the turn flips and the index is
    /// rebuilt.  Returns false, changing nothing, when no promotion is
    /// pending or the kind is not allowed.
    pub fn promote(&mut self, id: i8) -> (r: bool)
        requires
            old(self).wf(),
        ensures
            final(self).wf(),
            r <==> (old(self).promoting && 1 < id < 6),
            !r ==> same_state(*final(self), *old(self)),
            r ==> final(self).board@ == old(self).board@.update(
                old(self).promoting_index.1 as int * 8 + old(self).promoting_index.0 as int,
                (Piece {
                    id: id,
                    team: old(self).board@[old(self).promoting_index.1 as int * 8
                        + old(self).promoting_index.0 as int].team,
                    moved: old(self).board@[old(self).promoting_index.1 as int * 8
                        + old(self).promoting_index.0 as int].moved,
                    moved_twice: false,
                })),
            r ==> final(self).white_turn == !old(self).white_turn && !final(self).promoting,
            r ==> final(self).rights == old(self).rights,
            r ==> (forall|mm: Mv| final(self).move_list@.contains(mm)
                <==> legal_move(final(self).board@, old(self).rights, mm, -old(self).turn_team())),
            r ==> final(self).game_ended
                == (old(self).game_ended || final(self).move_list@.len() == 0),
            r ==> king_safe(final(self).board@, old(self).turn_team()),
            !old(self).rights.wk ==> !final(self).rights.wk,
            !old(self).rights.wq ==> !final(self).rights.wq,
            !old(self).rights.bk ==> !final(self).rights.bk,
            !old(self).rights.bq ==> !final(self).rights.bq,
            old(self).game_ended ==> final(self).game_ended,
    {
        if self.promoting && id < 6 && id > 1 {
            let (px, py) = self.promoting_index;
            let idx = py * 8 + px;
            let p0 = self.board[idx];
            let np = Piece { id, team: p0.team, moved: p0.moved, moved_twice: false };
            proof {
                lemma_update_nonking(self.board@, idx as int, np);
            }
            let ghost b1 = self.board@;
            self.board[idx] = np;
            proof {
                crate::laws::lemma_king_safe_transfer(b1, self.board@, self.turn_team());
            }
            self.promoting = false;
            self.promoting_index = (usize::MAX, usize::MAX);
            self.white_turn = !self.white_turn;
            let empty = self.gen_moves();
            if empty {
                self.game_ended = true;
            }
            proof {
                assert forall|k: int| 0 <= k < self.move_list@.len()
                    implies legal_move(self.board@, self.rights, #[trigger] self.move_list@[k],
                        self.turn_team()) by {
                    assert(self.move_list@.contains(self.move_list@[k]));
                }
            }
            return true;
        }
        false
    }
}

/// No legal move leaves a square the side to move does not own.
proof fn lemma_no_move_from_wrong_side(s: ChessBoard, from: int, to: int)
    requires
        s.wf(),
        0 <= from < 64,
        !s.promoting,
        at(s.board@, from % 8, from / 8).team as int != s.turn_team(),
    ensures
        !accepts(s, from, to),
{
    if accepts(s, from, to) {
        let k = choose|k: int| 0 <= k < s.move_list@.len()
            && mv_is(#[trigger] s.move_list@[k], from, to);
        let m = s.move_list@[k];
        assert(legal_move(s.board@, s.rights, m, s.turn_team()));
        assert(side_at(s.board@, m.fx as int, m.fy as int) == s.turn_team());
        assert(m.fy * 8 + m.fx == from);
        assert(m.fx as int == from % 8 && m.fy as int == from / 8);
        assert(false);
    }
}

/// The file index (0..8) a coordinate letter names, or -1; upper and
/// lower case are both accepted.
pub open spec fn file_of_byte(c: u8) -> int {
    if 97 <= c <= 104 { c - 97 } else if 65 <= c <= 72 { c - 65 } else { -1 }
}

/// The board row (0..8, rank 8 first) a rank digit names, or -1.
pub open spec fn row_of_byte(c: u8) -> int {
    if 49 <= c <= 56 { 56 - c } else { -1 }
}

/// The flat square a two-byte coordinate such as "e2" names, or -1
/// when the text is malformed.
pub open spec fn parse_square(s: Seq<u8>) -> int {
    if s.len() == 2 && file_of_byte(s[0]) >= 0 && row_of_byte(s[1]) >= 0 {
        row_of_byte(s[1]) * 8 + file_of_byte(s[0])
    } else {
        -1
    }
}

/// Parse one coordinate such as "e2" into a flat square index.
fn parse_square_str(s: &str) -> (r: Option<usize>)
    ensures
        match r {
            Some(i) => parse_square(s.spec_bytes()) == i && i < 64,
            None => parse_square(s.spec_bytes()) == -1,
        },
{
    if s.len() != 2 {
        return None;
    }
    let bs = s.as_bytes();
    let c0 = bs[0];
    let c1 = bs[1];
    let f: usize = if 97 <= c0 && c0 <= 104 {
        (c0 - 97) as usize
    } else if 65 <= c0 && c0 <= 72 {
        (c0 - 65) as usize
    } else {
        return None;
    };
    if 49 <= c1 && c1 <= 56 {
        let row = (56 - c1) as usize;
        Some(row * 8 + f)
    } else {
        None
    }
}

impl ChessBoard {
    /// Attempt a move given in coordinate notation: a file letter
    /// `a`..`h` (either case) followed by a rank digit `1`..`8`, for
    /// each of origin and destination.  Malformed coordinates are
    /// rejected without touching the state; well-formed ones behave
    /// exactly as `move_by_index` on the named squares.
    pub fn move_by_algebraic(&mut self, from: &str, to: &str) -> (r: bool)
        requires
            old(self).wf(),
        ensures
            final(self).wf(),
            (parse_square(from.spec_bytes()) == -1 || parse_square(to.spec_bytes()) == -1)
                ==> (!r && same_state(*final(self), *old(self))),
            (parse_square(from.spec_bytes()) >= 0 && parse_square(to.spec_bytes()) >= 0)
                ==> move_outcome(*old(self), *final(self),
                    parse_square(from.spec_bytes()), parse_square(to.spec_bytes()), r),
            !old(self).rights.wk ==> !final(self).rights.wk,
            !old(self).rights.wq ==> !final(self).rights.wq,
            !old(self).rights.bk ==> !final(self).rights.bk,
            !old(self).rights.bq ==> !final(self).rights.bq,
            old(self).game_ended ==> final(self).game_ended,
    {
        let pf = parse_square_str(from);
        let pt = parse_square_str(to);
        match (pf, pt) {
            (Some(f), Some(t)) => self.move_by_index(f, t),
            _ => false,
        }
    }
}

} // verus!
