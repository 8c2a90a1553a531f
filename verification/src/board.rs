//! The engine state: the board, the turn and rights bookkeeping, and
//! the legal-move index, together with the legality filter that
//! rebuilds the index after every commit.

use vstd::prelude::*;
use crate::apply::{apply_move, lemma_apply_kings, lemma_king_sq_of, revert_move};
use crate::gen::{lemma_contains_concat, piece_moves, square_attacked};
use crate::piece::{CastleRights, MoveKind, Mv, Piece};
use crate::rules::{
    at, castle_path_safe, has_king, king_at, king_safe, king_safe_after, king_sq, kind_id_at,
    kings_ok, legal_move, promo_rank, pseudo_mv, side_at, start_board, start_piece,
    unique_king, valid_board,
};

verus! {

/// The engine: board, global flags, and the cached legal-move index
/// for the side to move, rebuilt wholesale after every commit.
pub struct ChessBoard {
    pub board: Vec<Piece>,
    pub game_ended: bool,
    pub white_turn: bool,
    pub rights: CastleRights,
    pub promoting: bool,
    pub promoting_index: (usize, usize),
    pub move_list: Vec<Mv>,
}

/// Two engine states agree on every observable part.
pub open spec fn same_state(a: ChessBoard, b: ChessBoard) -> bool {
    a.board@ == b.board@
        && a.game_ended == b.game_ended
        && a.white_turn == b.white_turn
        && a.rights == b.rights
        && a.promoting == b.promoting
        && a.promoting_index == b.promoting_index
        && a.move_list@ == b.move_list@
}

impl ChessBoard {
    /// The side to move: -1 while White plays, 1 while Black does.
    pub open spec fn turn_team(self) -> int {
        if self.white_turn { -1 } else { 1 }
    }

    /// The engine's invariant: a well-formed board with exactly one
    /// king per side, an index that only offers legal moves, and,
    /// while a promotion is pending, the blocked pawn on its last
    /// rank with the mover's king already proven safe.
    pub open spec fn wf(self) -> bool {
        valid_board(self.board@)
            && kings_ok(self.board@)
            && (!self.promoting ==> (forall|i: int| 0 <= i < self.move_list@.len()
                ==> legal_move(self.board@, self.rights, #[trigger] self.move_list@[i], self.turn_team())))
            && (self.promoting ==> {
                let px = self.promoting_index.0;
                let py = self.promoting_index.1;
                px < 8 && py < 8
                    && at(self.board@, px as int, py as int).id == 1
                    && side_at(self.board@, px as int, py as int) == self.turn_team()
                    && py as int == promo_rank(self.turn_team())
                    && king_safe(self.board@, self.turn_team())
            })
    }

    /// Whether the game has ended (the side to move has no legal move).
    pub fn is_game_ended(&self) -> (r: bool)
        ensures
            r == self.game_ended,
    {
        self.game_ended
    }

    /// Whether a pawn is waiting to be promoted.
    pub fn can_promote(&self) -> (r: bool)
        ensures
            r == self.promoting,
    {
        self.promoting
    }

    /// The side to move: true while White plays.
    pub fn get_player(&self) -> (r: bool)
        ensures
            r == self.white_turn,
    {
        self.white_turn
    }

    /// The four castling rights, as (white king-side, white queen-side,
    /// black king-side, black queen-side).
    pub fn castling_rights(&self) -> (r: (bool, bool, bool, bool))
        ensures
            r == (self.rights.wk, self.rights.wq, self.rights.bk, self.rights.bq),
    {
        (self.rights.wk, self.rights.wq, self.rights.bk, self.rights.bq)
    }

    /// A flat copy of the board for rendering: 64 entries of
    /// (piece kind, side), rank 0 first.
    pub fn get_board(&self) -> (r: Vec<(i8, i8)>)
        requires
            self.board@.len() == 64,
        ensures
            r@.len() == 64,
            forall|i: int| 0 <= i < 64
                ==> #[trigger] r@[i] == (self.board@[i].id, self.board@[i].team),
    {
        let mut b: Vec<(i8, i8)> = Vec::new();
        let mut i: usize = 0;
        while i < 64
            invariant
                self.board@.len() == 64,
                i <= 64,
                b@.len() == i,
                forall|j: int| 0 <= j < i
                    ==> #[trigger] b@[j] == (self.board@[j].id, self.board@[j].team),
            decreases 64 - i,
        {
            let p = self.board[i];
            b.push((p.id, p.team));
            i += 1;
        }
        b
    }

    /// Hypothetically apply move m, report whether the mover's own
    /// king would be safe, and restore the board exactly.
    pub fn probe_move(&mut self, m: Mv) -> (safe: bool)
        requires
            valid_board(old(self).board@),
            kings_ok(old(self).board@),
            pseudo_mv(old(self).board@, old(self).rights, m, old(self).turn_team()),
            kind_id_at(old(self).board@, m.tx as int, m.ty as int) != 6,
        ensures
            same_state(*final(self), *old(self)),
            safe == king_safe_after(old(self).board@, m, old(self).turn_team()),
    {
        let team: i8 = if self.white_turn { -1 } else { 1 };
        let ghost orig = self.board@;
        proof {
            lemma_apply_kings(orig, self.rights, m, team as int);
        }
        let log = apply_move(&mut self.board, m, Ghost(self.rights), Ghost(team as int));
        let k = find_king(&self.board, team);
        let kx = k % 8;
        let ky = k / 8;
        let hit = square_attacked(&self.board, self.rights, kx, ky, -team);
        revert_move(&mut self.board, log, Ghost(orig));
        !hit
    }

    /// Rebuild the legal-move index for the side to move; report
    /// whether it came out empty (no legal move exists).
    pub(crate) fn gen_moves(&mut self) -> (r: bool)
        requires
            valid_board(old(self).board@),
            kings_ok(old(self).board@),
        ensures
            final(self).board@ == old(self).board@,
            final(self).rights == old(self).rights,
            final(self).white_turn == old(self).white_turn,
            final(self).game_ended == old(self).game_ended,
            final(self).promoting == old(self).promoting,
            final(self).promoting_index == old(self).promoting_index,
            forall|m: Mv| final(self).move_list@.contains(m)
                <==> legal_move(old(self).board@, old(self).rights, m, old(self).turn_team()),
            r == (final(self).move_list@.len() == 0),
    {
        let team: i8 = if self.white_turn { -1 } else { 1 };
        let ghost b0 = self.board@;
        let ghost cr0 = self.rights;

        // every pseudo move of every piece of the side to move
        let mut pseudo: Vec<Mv> = Vec::new();
        let mut j: usize = 0;
        while j < 64
            invariant
                valid_board(self.board@),
                kings_ok(self.board@),
                self.board@ == b0,
                self.rights == cr0,
                team == -1 || team == 1,
                team as int == self.turn_team(),
                j <= 64,
                forall|m: Mv| #[trigger] pseudo@.contains(m)
                    <==> (m.fy * 8 + m.fx < j && pseudo_mv(b0, cr0, m, team as int)),
            decreases 64 - j,
        {
            let fx = j % 8;
            let fy = j / 8;
            if self.board[j].team == team {
                let mut ms = piece_moves(&self.board, self.rights, fx, fy, team);
                let ghost prev = pseudo@;
                let ghost msv = ms@;
                pseudo.append(&mut ms);
                proof {
                    assert forall|m: Mv| #[trigger] pseudo@.contains(m)
                        <==> (prev.contains(m) || msv.contains(m)) by {
                        lemma_contains_concat(prev, msv, m);
                    }
                }
            }
            j += 1;
        }

        // keep the moves that survive the king-safety filter
        let mut legal: Vec<Mv> = Vec::new();
        let mut i: usize = 0;
        while i < pseudo.len()
            invariant
                valid_board(self.board@),
                kings_ok(self.board@),
                self.board@ == b0,
                self.rights == cr0,
                self.white_turn == old(self).white_turn,
                self.game_ended == old(self).game_ended,
                self.promoting == old(self).promoting,
                self.promoting_index == old(self).promoting_index,
                team == -1 || team == 1,
                team as int == self.turn_team(),
                i <= pseudo@.len(),
                forall|m: Mv| #[trigger] pseudo@.contains(m) <==> pseudo_mv(b0, cr0, m, team as int),
                forall|m: Mv| #[trigger] legal@.contains(m)
                    <==> (pseudo@.take(i as int).contains(m) && legal_move(b0, cr0, m, team as int)),
            decreases pseudo@.len() - i,
        {
            let m = pseudo[i];
            proof {
                assert(pseudo@.contains(m));
            }
            let ghost prev = legal@;
            let mut keep = false;
            if self.board[m.ty * 8 + m.tx].id != 6 {
                let path_ok = if m.kind == MoveKind::CastleKing {
                    let r: usize = if team == -1 { 7 } else { 0 };
                    !square_attacked(&self.board, self.rights, 4, r, -team)
                        && !square_attacked(&self.board, self.rights, 5, r, -team)
                        && !square_attacked(&self.board, self.rights, 6, r, -team)
                } else if m.kind == MoveKind::CastleQueen {
                    let r: usize = if team == -1 { 7 } else { 0 };
                    !square_attacked(&self.board, self.rights, 4, r, -team)
                        && !square_attacked(&self.board, self.rights, 3, r, -team)
                        && !square_attacked(&self.board, self.rights, 2, r, -team)
                } else {
                    true
                };
                proof {
                    assert(path_ok == castle_path_safe(b0, m, team as int));
                }
                if path_ok {
                    if self.probe_move(m) {
                        keep = true;
                    }
                }
            }
            if keep {
                legal.push(m);
            }
            proof {
                assert(pseudo@.take(i + 1 as int) =~= pseudo@.take(i as int).push(m));
                assert(keep == legal_move(b0, cr0, m, team as int));
                assert forall|mm: Mv| #[trigger] legal@.contains(mm)
                    <==> (pseudo@.take(i + 1 as int).contains(mm)
                        && legal_move(b0, cr0, mm, team as int)) by {
                    crate::gen::lemma_contains_push(prev, m, mm);
                    crate::gen::lemma_contains_push(pseudo@.take(i as int), m, mm);
                }
            }
            i += 1;
        }
        proof {
            assert(pseudo@.take(pseudo@.len() as int) =~= pseudo@);
        }
        let empty = legal.len() == 0;
        self.move_list = legal;
        empty
    }

    /// A fresh game in the standard starting position: White to move,
    /// all castling rights granted, no pending promotion.
    pub fn new() -> (r: ChessBoard)
        ensures
            r.wf(),
            r.board@ == start_board(),
            r.white_turn,
            !r.game_ended,
            !r.promoting,
            r.rights == (CastleRights { wk: true, wq: true, bk: true, bq: true }),
            forall|m: Mv| r.move_list@.contains(m)
                <==> legal_move(start_board(), CastleRights { wk: true, wq: true, bk: true, bq: true }, m, -1),
    {
        let mut board: Vec<Piece> = Vec::new();
        let mut i: usize = 0;
        while i < 64
            invariant
                i <= 64,
                board@.len() == i,
                forall|j: int| 0 <= j < i ==> #[trigger] board@[j] == start_piece(j),
            decreases 64 - i,
        {
            board.push(start_piece_at(i));
            i += 1;
        }
        proof {
            assert(board@ =~= start_board());
            lemma_start_board_ok();
        }
        let mut cb = ChessBoard {
            board,
            game_ended: false,
            white_turn: true,
            rights: CastleRights { wk: true, wq: true, bk: true, bq: true },
            promoting: false,
            promoting_index: (usize::MAX, usize::MAX),
            move_list: Vec::new(),
        };
        cb.gen_moves();
        proof {
            assert forall|i: int| 0 <= i < cb.move_list@.len()
                implies legal_move(cb.board@, cb.rights, #[trigger] cb.move_list@[i], cb.turn_team()) by {
                assert(cb.move_list@.contains(cb.move_list@[i]));
            }
        }
        cb
    }

    /// Reinitialize in place to the standard starting position,
    /// discarding all flags and rebuilding the move index.
    pub fn reset(&mut self)
        ensures
            final(self).wf(),
            final(self).board@ == start_board(),
            final(self).white_turn,
            !final(self).game_ended,
            !final(self).promoting,
            final(self).rights == (CastleRights { wk: true, wq: true, bk: true, bq: true }),
            forall|m: Mv| final(self).move_list@.contains(m)
                <==> legal_move(start_board(), CastleRights { wk: true, wq: true, bk: true, bq: true }, m, -1),
    {
        *self = ChessBoard::new();
    }
}

/// The occupant of flat square i in the starting position.
fn start_piece_at(i: usize) -> (p: Piece)
    requires
        i < 64,
    ensures
        p == start_piece(i as int),
{
    let x = i % 8;
    let y = i / 8;
    let team: i8 = if y <= 1 { 1 } else if y >= 6 { -1 } else { 0 };
    let id: i8 = if y == 0 || y == 7 {
        if x == 0 || x == 7 { 2 }
        else if x == 1 || x == 6 { 3 }
        else if x == 2 || x == 5 { 4 }
        else if x == 3 { 5 }
        else { 6 }
    } else if y == 1 || y == 6 {
        1
    } else {
        0
    };
    Piece { id, team, moved: false, moved_twice: false }
}

/// The starting position is well-formed with one king per side.
proof fn lemma_start_board_ok()
    ensures
        valid_board(start_board()),
        kings_ok(start_board()),
{
    let b = start_board();
    assert forall|i: int| 0 <= i < 64 implies valid_piece_at(b, i) by {
        assert(b[i] == start_piece(i));
    }
    assert(king_at(b, 60, -1));
    assert(king_at(b, 4, 1));
    assert forall|i: int, j: int| #[trigger] king_at(b, i, -1) && #[trigger] king_at(b, j, -1) implies i == j by {
        assert(b[i] == start_piece(i));
        assert(b[j] == start_piece(j));
    }
    assert forall|i: int, j: int| #[trigger] king_at(b, i, 1) && #[trigger] king_at(b, j, 1) implies i == j by {
        assert(b[i] == start_piece(i));
        assert(b[j] == start_piece(j));
    }
}

/// Helper wording for the start-board validity proof.
spec fn valid_piece_at(b: Seq<Piece>, i: int) -> bool {
    crate::piece::valid_piece(b[i])
}

/// Find the one king of `team`.
fn find_king(board: &Vec<Piece>, team: i8) -> (k: usize)
    requires
        board@.len() == 64,
        team == -1 || team == 1,
        has_king(board@, team as int),
        unique_king(board@, team as int),
    ensures
        k < 64,
        king_at(board@, k as int, team as int),
        k as int == king_sq(board@, team as int),
{
    let mut j: usize = 0;
    while j < 64
        invariant
            board@.len() == 64,
            team == -1 || team == 1,
            has_king(board@, team as int),
            unique_king(board@, team as int),
            j <= 64,
            forall|i: int| 0 <= i < j ==> !king_at(board@, i, team as int),
        decreases 64 - j,
    {
        let p = board[j];
        if p.id == 6 && p.team == team {
            proof {
                assert(king_at(board@, j as int, team as int));
                lemma_king_sq_of(board@, team as int);
            }
            return j;
        }
        proof {
            assert(!king_at(board@, j as int, team as int));
        }
        j += 1;
    }
    proof {
        let w = choose|i: int| king_at(board@, i, team as int);
        assert(king_at(board@, w, team as int));
        assert(false);
    }
    0
}

} // verus!
