use chess_perft::board::Board;
use chess_perft::square::Square;
use chess_perft::transposition_table::TranspositionTable;

#[test]
fn transposition_table_basic_usage() {
    let mut tt = TranspositionTable::<1024>::new();
    let board = Board::from_fen(b"rnbqkbnr/pppppppp/8/8/8/8/PPPPPPPP/RNBQKBNR w KQkq - 0 1");

    assert_eq!(tt.get(&board, 3), None);

    tt.add(&board, 3, 10);
    assert_eq!(tt.get(&board, 3), Some(10));
    assert_eq!(tt.get(&board, 4), None);
}

#[test]
fn transposition_table_misses_other_position() {
    let mut tt = TranspositionTable::<1024>::new();
    let board = Board::from_fen(b"rnbqkbnr/pppppppp/8/8/8/8/PPPPPPPP/RNBQKBNR w KQkq - 0 1");
    let other = Board::from_fen(b"rnbqkbnr/pppppppp/8/8/8/8/PPPPPPPP/RNBQKBNR b KQkq - 0 1");
    tt.add(&board, 3, 10);
    assert_eq!(tt.get(&other, 3), None);
    tt.clean();
    assert_eq!(tt.get(&board, 3), None);
}

#[test]
fn remove_piece_affects_hash() {
    let mut board = Board::from_fen(b"rnbqkbnr/pppppppp/8/8/8/8/PPPPPPPP/RNBQKBNR w KQkq - 0 1");
    let hash_1 = board.hash();

    board.remove_piece(Square::from_index(0));
    let hash_2 = board.hash();
    assert_ne!(hash_1, hash_2);
}

#[test]
fn side_to_move_affects_hash() {
    let board_1 = Board::from_fen(b"rnbqkbnr/pppppppp/8/8/8/8/PPPPPPPP/RNBQKBNR w KQkq - 0 1");
    let board_2 = Board::from_fen(b"rnbqkbnr/pppppppp/8/8/8/8/PPPPPPPP/RNBQKBNR b KQkq - 0 1");

    assert_ne!(board_1.hash(), board_2.hash());
}

#[test]
fn en_passant_file_affects_hash() {
    let board_1 = Board::from_fen(b"rnbqkbnr/pppppppp/8/8/3P4/8/PPP1PPPP/RNBQKBNR b KQkq - 0 1");
    let board_2 = Board::from_fen(b"rnbqkbnr/pppppppp/8/8/3P4/8/PPP1PPPP/RNBQKBNR b KQkq d3 0 1");

    assert_ne!(board_1.hash(), board_2.hash());
}

#[test]
fn castling_rights_affects_hash() {
    let board_1 = Board::from_fen(b"rnbqkbnr/pppppppp/8/8/8/8/PPPPPPPP/RNBQKBNR w KQkq - 0 1");
    let board_2 = Board::from_fen(b"rnbqkbnr/pppppppp/8/8/8/8/PPPPPPPP/RNBQKBNR w - - 0 1");

    assert_ne!(board_1.hash(), board_2.hash());
}

#[test]
fn regression_1() {
    let board_1 = Board::from_fen(b"7r/2p5/8/KP1p4/5p1k/8/3RP1P1/8 w - - 0 1");
    let board_2 = Board::from_fen(b"7r/2p5/3p4/KP6/5p1k/8/3RP1P1/8 w - - 4 1");

    assert_ne!(board_1.hash(), board_2.hash());
}

#[test]
fn empty_board_hash_is_zero() {
    assert_eq!(Board::empty().hash().0, 0);
}
