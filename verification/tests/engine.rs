use chess_engine::board::Board;
use chess_engine::game::{EngineError, Game, GameStatus};
use chess_engine::piece::{Color, Piece, PieceKind};

fn piece(col: Color, kind: PieceKind) -> Piece {
    Piece::Occupied(col, kind)
}

fn empty_grid() -> Vec<Piece> {
    vec![Piece::Empty; 64]
}

fn put(g: &mut Vec<Piece>, c: usize, r: usize, p: Piece) {
    g[r * 8 + c] = p;
}

fn board_from(g: Vec<Piece>) -> Board {
    Board::from_grid(g, false, false, false, false, false, false).expect("grid should be admissible")
}

fn has(v: &Vec<(usize, usize)>, c: usize, r: usize) -> bool {
    v.iter().any(|&q| q == (c, r))
}

#[test]
fn start_double_push_legal_but_not_triple() {
    let mut b = Board::new();
    let mv = b.get_legal_moves_for_piece(4, 6);
    assert!(has(&mv, 4, 5));
    assert!(has(&mv, 4, 4));
    assert!(!has(&mv, 4, 3));
    assert_eq!(mv.len(), 2);
}

#[test]
fn empty_square_has_no_moves() {
    let mut b = Board::new();
    assert!(b.get_legal_moves_for_piece(4, 4).is_empty());
    assert!(b.get_legal_moves_for_piece(0, 3).is_empty());
}

#[test]
fn pawn_captures_diagonally_and_black_pushes_down() {
    let mut g = empty_grid();
    put(&mut g, 4, 4, piece(Color::White, PieceKind::Pawn));
    put(&mut g, 3, 3, piece(Color::Black, PieceKind::Pawn));
    put(&mut g, 4, 1, piece(Color::Black, PieceKind::Pawn));
    put(&mut g, 0, 7, piece(Color::White, PieceKind::King));
    put(&mut g, 7, 0, piece(Color::Black, PieceKind::King));
    let mut b = board_from(g);
    let white_pawn = b.get_legal_moves_for_piece(4, 4);
    assert!(has(&white_pawn, 4, 3), "one step forward onto an empty square");
    assert!(has(&white_pawn, 3, 3), "capture toward the queenside");
    assert!(!has(&white_pawn, 5, 3), "no capture onto an empty square");
    assert!(!has(&white_pawn, 4, 2), "no double push away from the start row");
    assert_eq!(white_pawn.len(), 2);
    let black_pawn = b.get_legal_moves_for_piece(4, 1);
    assert!(has(&black_pawn, 4, 2));
    assert!(has(&black_pawn, 4, 3), "double push from Black's start row");
    assert_eq!(black_pawn.len(), 2);
}

#[test]
fn queen_in_the_open_has_every_line_move_once() {
    let mut g = empty_grid();
    put(&mut g, 3, 3, piece(Color::White, PieceKind::Queen));
    put(&mut g, 7, 0, piece(Color::White, PieceKind::King));
    put(&mut g, 0, 7, piece(Color::Black, PieceKind::King));
    let mut b = board_from(g);
    let mv = b.get_legal_moves_for_piece(3, 3);
    // 7 rank squares + 7 file squares + 7 on one diagonal + 6 on the
    // other, each exactly once.
    assert_eq!(mv.len(), 27);
    for i in 0..mv.len() {
        for j in 0..mv.len() {
            if i != j {
                assert_ne!(mv[i], mv[j]);
            }
        }
    }
}

#[test]
fn castling_both_sides_available() {
    let mut g = empty_grid();
    put(&mut g, 0, 7, piece(Color::White, PieceKind::Rook));
    put(&mut g, 4, 7, piece(Color::White, PieceKind::King));
    put(&mut g, 7, 7, piece(Color::White, PieceKind::Rook));
    put(&mut g, 4, 0, piece(Color::Black, PieceKind::King));
    let mut b = board_from(g);
    let mv = b.get_legal_moves_for_piece(4, 7);
    assert!(has(&mv, 6, 7), "kingside castle should be offered");
    assert!(has(&mv, 2, 7), "queenside castle should be offered");
}

#[test]
fn promotion_yields_queen_moves() {
    let mut g = empty_grid();
    put(&mut g, 0, 1, piece(Color::White, PieceKind::Pawn));
    put(&mut g, 7, 7, piece(Color::White, PieceKind::King));
    put(&mut g, 7, 0, piece(Color::Black, PieceKind::King));
    let b = board_from(g);
    let mut game = Game::from_position(b, Color::White);
    assert!(game.handle_click(0, 1).is_ok());
    assert!(game.handle_click(0, 0).is_ok());
    assert_eq!(game.piece_at(0, 0), piece(Color::White, PieceKind::Queen));
    assert_eq!(game.piece_at(0, 1), Piece::Empty);
    // Black escapes the fresh queen's check along the back rank.
    assert!(game.handle_click(7, 0).is_ok());
    assert!(game.handle_click(7, 1).is_ok());
    // The promoted piece now moves as a queen, not as a pawn.
    assert!(game.handle_click(0, 0).is_ok());
    let mut dests: Vec<(usize, usize)> = Vec::new();
    for i in 0..game.legal_count() {
        dests.push(game.legal_destination(i));
    }
    assert!(has(&dests, 0, 7), "queen slides the full file");
    assert!(has(&dests, 7, 0), "queen slides the full rank");
    assert!(has(&dests, 4, 4), "queen slides the full diagonal");
    assert!(!has(&dests, 1, 2), "no knight-shaped move");
}

#[test]
fn legality_probe_restores_board() {
    let mut b = Board::new();
    let snapshot = |b: &Board| {
        let mut cells = Vec::new();
        for r in 0..8 {
            for c in 0..8 {
                cells.push(b.piece_at(c, r));
            }
        }
        (
            cells,
            b.king_coords(Color::White),
            b.king_coords(Color::Black),
            b.king_has_moved(Color::White),
            b.king_has_moved(Color::Black),
            b.queenside_rook_has_moved(Color::White),
            b.kingside_rook_has_moved(Color::White),
            b.queenside_rook_has_moved(Color::Black),
            b.kingside_rook_has_moved(Color::Black),
        )
    };
    let before = snapshot(&b);
    assert!(b.is_legal_move(4, 6, 4, 4));
    assert_eq!(snapshot(&b), before);
    assert!(b.is_legal_move(0, 1, 0, 2));
    assert_eq!(snapshot(&b), before);
    assert!(!b.is_legal_move(0, 0, 0, 1));
    assert_eq!(snapshot(&b), before);
    for _ in 0..5 {
        b.is_legal_move(4, 7, 4, 6);
        assert_eq!(snapshot(&b), before);
    }
}

#[test]
fn knight_cannot_capture_own_pawn() {
    let mut b = Board::new();
    let mv = b.get_legal_moves_for_piece(1, 7);
    assert!(has(&mv, 0, 5));
    assert!(has(&mv, 2, 5));
    assert!(!has(&mv, 3, 6), "own pawn square must be excluded");
    assert_eq!(mv.len(), 2);
}

#[test]
fn pinned_rook_moves_only_along_the_pin() {
    let mut g = empty_grid();
    put(&mut g, 4, 7, piece(Color::White, PieceKind::King));
    put(&mut g, 4, 5, piece(Color::White, PieceKind::Rook));
    put(&mut g, 4, 0, piece(Color::Black, PieceKind::Rook));
    put(&mut g, 0, 7, piece(Color::Black, PieceKind::King));
    let mut b = board_from(g);
    let mv = b.get_legal_moves_for_piece(4, 5);
    assert!(has(&mv, 4, 0), "capturing the pinning rook is legal");
    assert!(has(&mv, 4, 4));
    assert!(has(&mv, 4, 6));
    assert!(!has(&mv, 3, 5), "leaving the pin file exposes the king");
    assert!(!has(&mv, 5, 5), "leaving the pin file exposes the king");
    assert_eq!(mv.len(), 6);
}

#[test]
fn check_forces_every_piece_to_address_it() {
    // White king on an open file staring at a black rook: every white
    // move must block the file, capture the rook, or step off it.
    let mut g = empty_grid();
    put(&mut g, 4, 7, piece(Color::White, PieceKind::King));
    put(&mut g, 7, 3, piece(Color::White, PieceKind::Rook));
    put(&mut g, 4, 0, piece(Color::Black, PieceKind::Rook));
    put(&mut g, 0, 0, piece(Color::Black, PieceKind::King));
    let mut b = board_from(g);
    let rook_moves = b.get_legal_moves_for_piece(7, 3);
    assert!(has(&rook_moves, 4, 3), "blocking the check is the rook's only move");
    assert_eq!(rook_moves.len(), 1);
    let king_moves = b.get_legal_moves_for_piece(4, 7);
    assert!(has(&king_moves, 3, 6));
    assert!(has(&king_moves, 3, 7));
    assert!(has(&king_moves, 5, 6));
    assert!(has(&king_moves, 5, 7));
    assert!(!has(&king_moves, 4, 6), "staying on the attacked file is illegal");
    assert!(!has(&king_moves, 2, 7), "no castling out of check");
    assert!(!has(&king_moves, 6, 7), "no castling out of check");
    assert_eq!(king_moves.len(), 4);
}

#[test]
fn castling_gated_by_flags_and_blockers() {
    let base = |extra: Option<(usize, usize, Piece)>| {
        let mut g = empty_grid();
        put(&mut g, 0, 7, piece(Color::White, PieceKind::Rook));
        put(&mut g, 4, 7, piece(Color::White, PieceKind::King));
        put(&mut g, 7, 7, piece(Color::White, PieceKind::Rook));
        put(&mut g, 4, 0, piece(Color::Black, PieceKind::King));
        if let Some((c, r, p)) = extra {
            put(&mut g, c, r, p);
        }
        g
    };
    // King already moved: neither side castles.
    let mut b = Board::from_grid(base(None), true, false, false, false, false, false).unwrap();
    let mv = b.get_legal_moves_for_piece(4, 7);
    assert!(!has(&mv, 6, 7));
    assert!(!has(&mv, 2, 7));
    // Kingside rook moved: only queenside remains.
    let mut b = Board::from_grid(base(None), false, false, false, true, false, false).unwrap();
    let mv = b.get_legal_moves_for_piece(4, 7);
    assert!(!has(&mv, 6, 7));
    assert!(has(&mv, 2, 7));
    // A piece on the b-file blocks queenside even though the king's
    // own path is clear.
    let mut b = board_from(base(Some((1, 7, piece(Color::White, PieceKind::Knight)))));
    let mv = b.get_legal_moves_for_piece(4, 7);
    assert!(has(&mv, 6, 7));
    assert!(!has(&mv, 2, 7));
    // A piece between king and kingside rook blocks that side.
    let mut b = board_from(base(Some((5, 7, piece(Color::White, PieceKind::Bishop)))));
    let mv = b.get_legal_moves_for_piece(4, 7);
    assert!(!has(&mv, 6, 7));
    assert!(has(&mv, 2, 7));
}

#[test]
fn castling_moves_king_and_rook() {
    let mut g = empty_grid();
    put(&mut g, 0, 7, piece(Color::White, PieceKind::Rook));
    put(&mut g, 4, 7, piece(Color::White, PieceKind::King));
    put(&mut g, 7, 7, piece(Color::White, PieceKind::Rook));
    put(&mut g, 4, 0, piece(Color::Black, PieceKind::King));
    let kingside_board = board_from(g.clone());
    let mut game = Game::from_position(kingside_board, Color::White);
    assert!(game.handle_click(4, 7).is_ok());
    assert!(game.handle_click(6, 7).is_ok());
    assert_eq!(game.piece_at(6, 7), piece(Color::White, PieceKind::King));
    assert_eq!(game.piece_at(5, 7), piece(Color::White, PieceKind::Rook));
    assert_eq!(game.piece_at(7, 7), Piece::Empty);
    assert_eq!(game.piece_at(4, 7), Piece::Empty);
    assert!(game.board.king_has_moved(Color::White));
    assert_eq!(game.current_turn(), Color::Black);

    let queenside_board = board_from(g);
    let mut game = Game::from_position(queenside_board, Color::White);
    assert!(game.handle_click(4, 7).is_ok());
    assert!(game.handle_click(2, 7).is_ok());
    assert_eq!(game.piece_at(2, 7), piece(Color::White, PieceKind::King));
    assert_eq!(game.piece_at(3, 7), piece(Color::White, PieceKind::Rook));
    assert_eq!(game.piece_at(0, 7), Piece::Empty);
    assert_eq!(game.piece_at(4, 7), Piece::Empty);
}

#[test]
fn pinned_piece_still_attacks() {
    // The black rook is pinned against its own king, yet its squares
    // still count as attacked for check purposes.
    let mut g = empty_grid();
    put(&mut g, 4, 0, piece(Color::Black, PieceKind::King));
    put(&mut g, 4, 3, piece(Color::Black, PieceKind::Rook));
    put(&mut g, 4, 5, piece(Color::White, PieceKind::Rook));
    put(&mut g, 4, 7, piece(Color::White, PieceKind::King));
    let mut b = board_from(g);
    assert!(b.is_square_attacked(0, 3, Color::Black));
    assert!(b.is_square_attacked(4, 4, Color::Black));
    // And indeed the pinned rook may not leave the file.
    let mv = b.get_legal_moves_for_piece(4, 3);
    assert!(!has(&mv, 0, 3));
    assert!(has(&mv, 4, 4));
}

#[test]
fn capturing_promotion_also_yields_queen() {
    let mut g = empty_grid();
    put(&mut g, 1, 1, piece(Color::White, PieceKind::Pawn));
    put(&mut g, 0, 0, piece(Color::Black, PieceKind::Rook));
    put(&mut g, 7, 7, piece(Color::White, PieceKind::King));
    put(&mut g, 7, 1, piece(Color::Black, PieceKind::King));
    let b = board_from(g);
    let mut game = Game::from_position(b, Color::White);
    assert!(game.handle_click(1, 1).is_ok());
    assert!(game.handle_click(0, 0).is_ok());
    assert_eq!(game.piece_at(0, 0), piece(Color::White, PieceKind::Queen));
    assert_eq!(game.piece_at(1, 1), Piece::Empty);
}

#[test]
fn back_rank_checkmate_ends_game() {
    let mut g = empty_grid();
    put(&mut g, 0, 0, piece(Color::Black, PieceKind::King));
    put(&mut g, 0, 2, piece(Color::White, PieceKind::King));
    put(&mut g, 7, 0, piece(Color::White, PieceKind::Rook));
    let b = board_from(g);
    let mut game = Game::from_position(b, Color::Black);
    game.refresh_outcome();
    assert_eq!(game.status(), GameStatus::WhiteWins);
}

#[test]
fn stalemate_draws_game() {
    let mut g = empty_grid();
    put(&mut g, 0, 0, piece(Color::Black, PieceKind::King));
    put(&mut g, 2, 1, piece(Color::White, PieceKind::Queen));
    put(&mut g, 5, 5, piece(Color::White, PieceKind::King));
    let b = board_from(g);
    let mut game = Game::from_position(b, Color::Black);
    game.refresh_outcome();
    assert_eq!(game.status(), GameStatus::Draw);
}

#[test]
fn game_continues_while_moves_exist() {
    let mut game = Game::new();
    game.start();
    game.refresh_outcome();
    assert_eq!(game.status(), GameStatus::InProgress);
    // Being in check is not an outcome while an escape exists.
    let mut g = empty_grid();
    put(&mut g, 4, 7, piece(Color::White, PieceKind::King));
    put(&mut g, 4, 0, piece(Color::Black, PieceKind::Rook));
    put(&mut g, 0, 0, piece(Color::Black, PieceKind::King));
    let mut checked = Game::from_position(board_from(g), Color::White);
    checked.refresh_outcome();
    assert_eq!(checked.status(), GameStatus::InProgress);
}

#[test]
fn out_of_range_click_rejected() {
    let mut game = Game::new();
    game.start();
    assert_eq!(game.handle_click(8, 0), Err(EngineError::InvalidCoordinate));
    assert_eq!(game.handle_click(0, 9), Err(EngineError::InvalidCoordinate));
    assert_eq!(game.status(), GameStatus::InProgress);
}

#[test]
fn king_capture_flags_invariant_violation() {
    let mut g = empty_grid();
    put(&mut g, 0, 0, piece(Color::White, PieceKind::Rook));
    put(&mut g, 7, 0, piece(Color::Black, PieceKind::King));
    put(&mut g, 0, 7, piece(Color::White, PieceKind::King));
    let b = board_from(g);
    let mut game = Game::from_position(b, Color::White);
    assert!(game.handle_click(0, 0).is_ok());
    assert_eq!(game.handle_click(7, 0), Err(EngineError::InternalInvariantViolation));
    // The board is untouched: the engine halted instead of erasing a
    // king.
    assert_eq!(game.piece_at(7, 0), piece(Color::Black, PieceKind::King));
    assert_eq!(game.piece_at(0, 0), piece(Color::White, PieceKind::Rook));
    assert_eq!(game.current_turn(), Color::White);
}

#[test]
fn selection_protocol_follows_clicks() {
    let mut game = Game::new();
    game.start();
    // Clicking an empty square or an opponent's piece selects nothing.
    assert!(game.handle_click(4, 4).is_ok());
    assert_eq!(game.selection(), None);
    assert!(game.handle_click(0, 1).is_ok());
    assert_eq!(game.selection(), None);
    // Clicking an own piece selects it and fills the cache.
    assert!(game.handle_click(4, 6).is_ok());
    assert_eq!(game.selection(), Some((4, 6)));
    assert_eq!(game.legal_count(), 2);
    // Clicking the selected square again deselects.
    assert!(game.handle_click(4, 6).is_ok());
    assert_eq!(game.selection(), None);
    assert_eq!(game.legal_count(), 0);
    // Clicking another own piece re-selects.
    assert!(game.handle_click(4, 6).is_ok());
    assert!(game.handle_click(0, 6).is_ok());
    assert_eq!(game.selection(), Some((0, 6)));
    // Clicking a cached legal destination applies the move and flips
    // the turn.
    assert!(game.handle_click(4, 6).is_ok());
    assert!(game.handle_click(4, 5).is_ok());
    assert_eq!(game.selection(), None);
    assert_eq!(game.piece_at(4, 6), Piece::Empty);
    assert_eq!(game.piece_at(4, 5), piece(Color::White, PieceKind::Pawn));
    assert_eq!(game.current_turn(), Color::Black);
    // A click that is neither own piece nor legal destination only
    // deselects.
    assert!(game.handle_click(4, 1).is_ok());
    assert_eq!(game.selection(), Some((4, 1)));
    assert!(game.handle_click(7, 7).is_ok());
    assert_eq!(game.selection(), None);
    assert_eq!(game.piece_at(7, 7), piece(Color::White, PieceKind::Rook));
}

#[test]
fn lifecycle_transitions() {
    let mut game = Game::new();
    assert_eq!(game.status(), GameStatus::NotStarted);
    game.start();
    assert_eq!(game.status(), GameStatus::InProgress);
    // Restart is only honored from a finished game.
    game.request_restart();
    assert_eq!(game.status(), GameStatus::InProgress);
    game.quit();
    assert_eq!(game.status(), GameStatus::Quitting);

    let mut g = empty_grid();
    put(&mut g, 0, 0, piece(Color::Black, PieceKind::King));
    put(&mut g, 0, 2, piece(Color::White, PieceKind::King));
    put(&mut g, 7, 0, piece(Color::White, PieceKind::Rook));
    let mut finished = Game::from_position(board_from(g), Color::Black);
    finished.refresh_outcome();
    assert_eq!(finished.status(), GameStatus::WhiteWins);
    finished.request_restart();
    assert_eq!(finished.status(), GameStatus::Restarting);
    finished.reset();
    assert_eq!(finished.status(), GameStatus::NotStarted);
    assert_eq!(finished.piece_at(4, 6), piece(Color::White, PieceKind::Pawn));
    assert_eq!(finished.piece_at(4, 7), piece(Color::White, PieceKind::King));
}

#[test]
fn attack_detector_on_start_position() {
    let b = Board::new();
    assert!(b.is_square_attacked(2, 2, Color::Black), "knight on b8 covers c6");
    assert!(b.is_square_attacked(5, 2, Color::Black), "pawn on e7 covers f6");
    assert!(!b.is_square_attacked(4, 4, Color::Black));
    assert!(b.is_square_attacked(5, 5, Color::White), "pawn on e2 covers f3");
    assert!(b.is_square_attacked(4, 5, Color::White), "pawns cover e3");
    assert!(!b.is_square_attacked(0, 4, Color::White));
}

#[test]
fn from_grid_refuses_wrong_king_counts() {
    assert!(Board::from_grid(empty_grid(), false, false, false, false, false, false).is_none());
    let mut g = empty_grid();
    put(&mut g, 0, 0, piece(Color::Black, PieceKind::King));
    put(&mut g, 4, 4, piece(Color::White, PieceKind::King));
    put(&mut g, 5, 5, piece(Color::White, PieceKind::King));
    assert!(Board::from_grid(g, false, false, false, false, false, false).is_none());
    let mut g2 = empty_grid();
    put(&mut g2, 0, 0, piece(Color::Black, PieceKind::King));
    put(&mut g2, 4, 4, piece(Color::White, PieceKind::King));
    assert!(Board::from_grid(g2, false, false, false, false, false, false).is_some());
}

#[test]
fn moved_flags_set_by_first_move() {
    let mut game = Game::new();
    game.start();
    // Push a pawn to free the king's rook, shuffle the rook out and
    // back, and watch the kingside flag latch.
    assert!(game.handle_click(7, 6).is_ok());
    assert!(game.handle_click(7, 4).is_ok());
    assert!(game.handle_click(0, 1).is_ok());
    assert!(game.handle_click(0, 2).is_ok());
    assert!(game.handle_click(7, 7).is_ok());
    assert!(game.handle_click(7, 5).is_ok());
    assert!(game.board.kingside_rook_has_moved(Color::White));
    assert!(!game.board.queenside_rook_has_moved(Color::White));
    assert!(!game.board.king_has_moved(Color::White));
}
