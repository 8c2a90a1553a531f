use chess_engine::board::ChessBoard;

#[test]
fn opening_sequence_alternates_sides() {
    let mut b = ChessBoard::new();
    assert!(b.move_by_algebraic("e2", "e4"));
    assert!(!b.get_player());
    assert!(b.move_by_algebraic("e7", "e5"));
    assert!(b.get_player());
    assert!(b.move_by_algebraic("g1", "f3"));
    assert!(!b.get_player());
    assert!(!b.is_game_ended());
}

#[test]
fn kingside_castle_relocates_rook_and_revokes_rights() {
    let mut b = ChessBoard::new();
    assert!(b.move_by_algebraic("e2", "e4"));
    assert!(b.move_by_algebraic("a7", "a6"));
    assert!(b.move_by_algebraic("g1", "f3"));
    assert!(b.move_by_algebraic("b7", "b6"));
    assert!(b.move_by_algebraic("f1", "e2"));
    assert!(b.move_by_algebraic("c7", "c6"));
    // the king walks two squares; the h-rook lands beside it
    assert!(b.move_by_algebraic("e1", "g1"));
    let snap = b.get_board();
    assert_eq!(snap[62], (6, -1)); // g1: king
    assert_eq!(snap[61], (2, -1)); // f1: rook
    assert_eq!(snap[63], (0, 0)); // h1 empty
    assert_eq!(snap[60], (0, 0)); // e1 empty
    let (wk, wq, bk, bq) = b.castling_rights();
    assert!(!wk && !wq);
    assert!(bk && bq);
}

#[test]
fn queenside_castle() {
    let mut b = ChessBoard::new();
    assert!(b.move_by_algebraic("d2", "d4"));
    assert!(b.move_by_algebraic("a7", "a6"));
    assert!(b.move_by_algebraic("b1", "c3"));
    assert!(b.move_by_algebraic("b7", "b6"));
    assert!(b.move_by_algebraic("c1", "f4"));
    assert!(b.move_by_algebraic("c7", "c6"));
    assert!(b.move_by_algebraic("d1", "d2"));
    assert!(b.move_by_algebraic("d7", "d6"));
    assert!(b.move_by_algebraic("e1", "c1"));
    let snap = b.get_board();
    assert_eq!(snap[58], (6, -1)); // c1: king
    assert_eq!(snap[59], (2, -1)); // d1: rook
    assert_eq!(snap[56], (0, 0)); // a1 empty
    assert_eq!(snap[60], (0, 0)); // e1 empty
    let (wk, wq, _, _) = b.castling_rights();
    assert!(!wk && !wq);
}

#[test]
fn moved_rook_loses_its_right_for_good() {
    let mut b = ChessBoard::new();
    assert!(b.move_by_algebraic("h2", "h4"));
    assert!(b.move_by_algebraic("a7", "a6"));
    assert!(b.move_by_algebraic("h1", "h3"));
    assert!(b.move_by_algebraic("b7", "b6"));
    // the rook returns home, but the right stays lost
    assert!(b.move_by_algebraic("h3", "h1"));
    assert!(b.move_by_algebraic("c7", "c6"));
    let (wk, wq, _, _) = b.castling_rights();
    assert!(!wk);
    assert!(wq);
    // clear f1 and g1, then confirm the castle is refused
    assert!(b.move_by_algebraic("g1", "f3"));
    assert!(b.move_by_algebraic("d7", "d6"));
    assert!(b.move_by_algebraic("g2", "g3"));
    assert!(b.move_by_algebraic("e7", "e6"));
    assert!(b.move_by_algebraic("f1", "g2"));
    assert!(b.move_by_algebraic("f7", "f6"));
    assert!(!b.move_by_algebraic("e1", "g1"));
}

#[test]
fn en_passant_capture() {
    let mut b = ChessBoard::new();
    assert!(b.move_by_algebraic("e2", "e4"));
    assert!(b.move_by_algebraic("a7", "a6"));
    assert!(b.move_by_algebraic("e4", "e5"));
    assert!(b.move_by_algebraic("d7", "d5"));
    // capture the pawn that just double-stepped, landing behind it
    assert!(b.move_by_algebraic("e5", "d6"));
    let snap = b.get_board();
    assert_eq!(snap[19], (1, -1)); // d6: the capturing pawn
    assert_eq!(snap[27], (0, 0)); // d5: captured pawn removed
    assert_eq!(snap[28], (0, 0)); // e5 vacated
}

#[test]
fn en_passant_lasts_one_ply() {
    let mut b = ChessBoard::new();
    assert!(b.move_by_algebraic("e2", "e4"));
    assert!(b.move_by_algebraic("a7", "a6"));
    assert!(b.move_by_algebraic("e4", "e5"));
    assert!(b.move_by_algebraic("d7", "d5"));
    // an intervening move by each side spends the opportunity
    assert!(b.move_by_algebraic("h2", "h3"));
    assert!(b.move_by_algebraic("h7", "h6"));
    assert!(!b.move_by_algebraic("e5", "d6"));
}

#[test]
fn promotion_blocks_until_resolved() {
    let mut b = ChessBoard::new();
    assert!(b.move_by_algebraic("h2", "h4"));
    assert!(b.move_by_algebraic("a7", "a6"));
    assert!(b.move_by_algebraic("h4", "h5"));
    assert!(b.move_by_algebraic("a6", "a5"));
    assert!(b.move_by_algebraic("h5", "h6"));
    assert!(b.move_by_algebraic("a5", "a4"));
    assert!(b.move_by_algebraic("h6", "g7"));
    assert!(b.move_by_algebraic("a4", "a3"));
    // the pawn reaches the last rank by taking the rook
    assert!(b.move_by_algebraic("g7", "h8"));
    assert!(b.can_promote());
    // the mover keeps the turn until the promotion is resolved
    assert!(b.get_player());
    // every move attempt is rejected while the promotion is pending
    assert!(!b.move_by_algebraic("e2", "e4"));
    assert!(!b.move_by_algebraic("a3", "a2"));
    // only rook, knight, bishop or queen are valid targets
    assert!(!b.promote(0));
    assert!(!b.promote(1));
    assert!(!b.promote(6));
    assert!(b.promote(5));
    let snap = b.get_board();
    assert_eq!(snap[7], (5, -1)); // h8 now holds a white queen
    assert!(!b.get_player()); // and it is Black's turn
    assert!(!b.can_promote());
    assert!(b.move_by_algebraic("a3", "b2"));
}

#[test]
fn checkmate_empties_the_index_and_ends_the_game() {
    let mut b = ChessBoard::new();
    assert!(b.move_by_algebraic("f2", "f3"));
    assert!(b.move_by_algebraic("e7", "e5"));
    assert!(b.move_by_algebraic("g2", "g4"));
    // the queen mates along the exposed diagonal
    assert!(b.move_by_algebraic("d8", "h4"));
    assert!(b.is_game_ended());
    // no further move is accepted: the index is empty
    assert!(!b.move_by_algebraic("a2", "a3"));
    assert!(!b.move_by_algebraic("e1", "f2"));
}

#[test]
fn own_king_may_not_be_left_in_check() {
    let mut b = ChessBoard::new();
    assert!(b.move_by_algebraic("e2", "e4"));
    assert!(b.move_by_algebraic("e7", "e5"));
    assert!(b.move_by_algebraic("d1", "h5"));
    // moving the f-pawn would open the h5 queen's diagonal to e8
    assert!(!b.move_by_algebraic("f7", "f6"));
    // a quiet move elsewhere is still fine
    assert!(b.move_by_algebraic("b8", "c6"));
}

#[test]
fn castle_through_an_attacked_square_is_refused() {
    let mut b = ChessBoard::new();
    assert!(b.move_by_algebraic("e2", "e4"));
    assert!(b.move_by_algebraic("b7", "b6"));
    assert!(b.move_by_algebraic("f1", "c4"));
    assert!(b.move_by_algebraic("c8", "a6"));
    assert!(b.move_by_algebraic("g1", "f3"));
    // the black bishop takes on c4 and now covers f1
    assert!(b.move_by_algebraic("a6", "c4"));
    // f1 and g1 are empty and the right is held, yet the king may not
    // pass through the attacked f1
    assert!(!b.move_by_algebraic("e1", "g1"));
    // the game goes on normally
    assert!(b.move_by_algebraic("b1", "c3"));
}

#[test]
fn stalemate_empties_the_index_and_ends_the_game() {
    let mut b = ChessBoard::new();
    assert!(b.move_by_algebraic("e2", "e3"));
    assert!(b.move_by_algebraic("a7", "a5"));
    assert!(b.move_by_algebraic("d1", "h5"));
    assert!(b.move_by_algebraic("a8", "a6"));
    assert!(b.move_by_algebraic("h5", "a5"));
    assert!(b.move_by_algebraic("h7", "h5"));
    assert!(b.move_by_algebraic("a5", "c7"));
    assert!(b.move_by_algebraic("a6", "h6"));
    assert!(b.move_by_algebraic("h2", "h4"));
    assert!(b.move_by_algebraic("f7", "f6"));
    assert!(b.move_by_algebraic("c7", "d7"));
    assert!(b.move_by_algebraic("e8", "f7"));
    assert!(b.move_by_algebraic("d7", "b7"));
    assert!(b.move_by_algebraic("d8", "d3"));
    assert!(b.move_by_algebraic("b7", "b8"));
    assert!(b.move_by_algebraic("d3", "h7"));
    assert!(b.move_by_algebraic("b8", "c8"));
    assert!(b.move_by_algebraic("f7", "g6"));
    // Black still has a king, a queen, pawns and more, but not one
    // legal move: the engine reports the game ended
    assert!(b.move_by_algebraic("c8", "e6"));
    assert!(b.is_game_ended());
    assert!(!b.move_by_algebraic("g6", "h7"));
}
