use chess_engine::board::ChessBoard;
use chess_engine::piece::{MoveKind, Mv};

#[test]
fn new_board_layout() {
    let b = ChessBoard::new();
    let snap = b.get_board();
    assert_eq!(snap.len(), 64);
    // black back rank
    assert_eq!(snap[0], (2, 1));
    assert_eq!(snap[1], (3, 1));
    assert_eq!(snap[2], (4, 1));
    assert_eq!(snap[3], (5, 1));
    assert_eq!(snap[4], (6, 1));
    assert_eq!(snap[5], (4, 1));
    assert_eq!(snap[6], (3, 1));
    assert_eq!(snap[7], (2, 1));
    // pawns
    for x in 0..8 {
        assert_eq!(snap[8 + x], (1, 1));
        assert_eq!(snap[48 + x], (1, -1));
    }
    // empty middle
    for i in 16..48 {
        assert_eq!(snap[i], (0, 0));
    }
    // white back rank
    assert_eq!(snap[56], (2, -1));
    assert_eq!(snap[60], (6, -1));
    assert_eq!(snap[63], (2, -1));
}

#[test]
fn initial_flags() {
    let b = ChessBoard::new();
    assert!(!b.is_game_ended());
    assert!(!b.can_promote());
    assert!(b.get_player());
    assert_eq!(b.castling_rights(), (true, true, true, true));
}

#[test]
fn reset_restores_start() {
    let mut b = ChessBoard::new();
    assert!(b.move_by_algebraic("e2", "e4"));
    assert!(!b.get_player());
    b.reset();
    let fresh = ChessBoard::new();
    assert_eq!(b.get_board(), fresh.get_board());
    assert!(b.get_player());
    assert!(!b.is_game_ended());
    assert_eq!(b.castling_rights(), (true, true, true, true));
    // the rebuilt index accepts moves again
    assert!(b.move_by_algebraic("e2", "e4"));
}

#[test]
fn out_of_range_rejected() {
    let mut b = ChessBoard::new();
    let before = b.get_board();
    assert!(!b.move_by_index(64, 0));
    assert!(!b.move_by_index(0, 64));
    assert!(!b.move_by_index(12, 12));
    assert_eq!(b.get_board(), before);
    assert!(b.get_player());
}

#[test]
fn wrong_side_rejected() {
    let mut b = ChessBoard::new();
    let before = b.get_board();
    // Black may not open the game
    assert!(!b.move_by_algebraic("e7", "e5"));
    // an empty origin is rejected
    assert!(!b.move_by_algebraic("e4", "e5"));
    assert_eq!(b.get_board(), before);
}

#[test]
fn pawn_moves() {
    let mut b = ChessBoard::new();
    assert!(b.move_by_algebraic("e2", "e3"));
    let mut c = ChessBoard::new();
    assert!(c.move_by_algebraic("e2", "e4"));
    // a pawn cannot jump three ranks
    let mut d = ChessBoard::new();
    assert!(!d.move_by_algebraic("e2", "e5"));
}

#[test]
fn pawn_blocked_by_enemy() {
    let mut b = ChessBoard::new();
    assert!(b.move_by_algebraic("e2", "e4"));
    assert!(b.move_by_algebraic("e7", "e5"));
    // head-on pawns block each other, and a pawn never captures forward
    assert!(!b.move_by_algebraic("e4", "e5"));
}

#[test]
fn knight_moves() {
    let mut b = ChessBoard::new();
    assert!(b.move_by_algebraic("g1", "f3"));
    let mut c = ChessBoard::new();
    assert!(!c.move_by_algebraic("g1", "g3"));
}

#[test]
fn rook_cannot_pass_through_pieces() {
    let mut b = ChessBoard::new();
    assert!(!b.move_by_algebraic("a1", "a3"));
}

#[test]
fn pawn_capture() {
    let mut b = ChessBoard::new();
    assert!(b.move_by_algebraic("e2", "e4"));
    assert!(b.move_by_algebraic("d7", "d5"));
    assert!(b.move_by_algebraic("e4", "d5"));
    let snap = b.get_board();
    // d5 now holds the white pawn; d7 is empty
    assert_eq!(snap[27], (1, -1));
    assert_eq!(snap[11], (0, 0));
}

#[test]
fn malformed_notation_rejected() {
    let mut b = ChessBoard::new();
    let before = b.get_board();
    assert!(!b.move_by_algebraic("e9", "e4"));
    assert!(!b.move_by_algebraic("", "e4"));
    assert!(!b.move_by_algebraic("e", "e4"));
    assert!(!b.move_by_algebraic("e2", "x5"));
    assert!(!b.move_by_algebraic("e2e", "e4"));
    assert_eq!(b.get_board(), before);
    // upper-case files are accepted
    assert!(b.move_by_algebraic("E2", "E4"));
}

#[test]
fn probe_leaves_board_unchanged() {
    // the legality filter's simulate-then-revert, observed from outside
    let mut b = ChessBoard::new();
    let before = b.get_board();
    let mv = Mv { fx: 4, fy: 6, tx: 4, ty: 5, kind: MoveKind::Plain };
    let safe = b.probe_move(mv);
    assert!(safe);
    assert_eq!(b.get_board(), before);
    assert!(b.get_player());
}

#[test]
fn promote_without_pending_promotion_fails() {
    let mut b = ChessBoard::new();
    let before = b.get_board();
    assert!(!b.promote(5));
    assert_eq!(b.get_board(), before);
    assert!(b.get_player());
}

#[test]
fn probe_reports_an_unsafe_move() {
    let mut b = ChessBoard::new();
    assert!(b.move_by_algebraic("e2", "e4"));
    assert!(b.move_by_algebraic("e7", "e5"));
    assert!(b.move_by_algebraic("d1", "h5"));
    let before = b.get_board();
    // Black probing f7-f6: it would open the queen's diagonal to e8
    let mv = Mv { fx: 5, fy: 1, tx: 5, ty: 2, kind: MoveKind::Plain };
    let safe = b.probe_move(mv);
    assert!(!safe);
    assert_eq!(b.get_board(), before);
}
