use chess_perft::board::Board;
use chess_perft::castling::CastlingRights;
use chess_perft::chess_move::Move;
use chess_perft::color::Color;
use chess_perft::move_generator::{MoveBuffer, MoveGenerator};
use chess_perft::piece::{Dignity, Piece};
use chess_perft::rand::FastRng;
use chess_perft::square::{File, Square};

fn sq(name: &str) -> Square {
    let b = name.as_bytes();
    Square::from_fen(b[0], b[1])
}

fn white(d: Dignity) -> Piece {
    Piece::new(Color::White, d)
}

fn black(d: Dignity) -> Piece {
    Piece::new(Color::Black, d)
}

fn generate(fen: &[u8]) -> MoveBuffer {
    let board = Board::from_fen(fen);
    let movegen = MoveGenerator::new();
    let mut buffer = MoveBuffer::new();
    movegen.generate(&board, &mut buffer);
    buffer
}

fn quiet(a: &str, b: &str) -> Move {
    Move::quiet(sq(a), sq(b))
}

fn capture(a: &str, b: &str, d: Dignity) -> Move {
    Move::capture(sq(a), sq(b), d)
}

#[test]
fn move_generator_startpos() {
    let buffer = generate(b"rnbqkbnr/pppppppp/8/8/8/8/PPPPPPPP/RNBQKBNR w KQkq - 0 1");

    for f in ["a", "b", "c", "d", "e", "f", "g", "h"] {
        let from = format!("{f}2");
        assert!(buffer.contains(Move::pawn_double(sq(&from), sq(&format!("{f}4")))));
        assert!(buffer.contains(Move::pawn_single(sq(&from), sq(&format!("{f}3")))));
    }

    assert!(buffer.contains(quiet("b1", "a3")));
    assert!(buffer.contains(quiet("b1", "c3")));
    assert!(buffer.contains(quiet("g1", "f3")));
    assert!(buffer.contains(quiet("g1", "h3")));

    assert_eq!(buffer.len(), 20);
}

#[test]
fn move_generator_pawn_blocks() {
    let buffer = generate(b"8/4p3/3pPp2/p1pP1Pp1/PpP3P1/1P5p/7P/8 w - - 0 1");

    assert_eq!(buffer.len(), 0);
}

#[test]
fn move_generator_pawn_doubles() {
    let buffer = generate(b"8/8/5P2/4P3/3P4/2P5/1P6/8 w - - 0 1");

    assert!(buffer.contains(Move::pawn_double(sq("b2"), sq("b4"))));
    assert!(buffer.contains(Move::pawn_single(sq("b2"), sq("b3"))));
    assert!(buffer.contains(Move::pawn_single(sq("c3"), sq("c4"))));
    assert!(buffer.contains(Move::pawn_single(sq("d4"), sq("d5"))));
    assert!(buffer.contains(Move::pawn_single(sq("e5"), sq("e6"))));
    assert!(buffer.contains(Move::pawn_single(sq("f6"), sq("f7"))));

    assert_eq!(buffer.len(), 6);
}

#[test]
fn move_generator_pawn_captures() {
    let buffer = generate(b"8/8/8/2ppp3/3P4/8/8/8 w - - 0 1");

    assert!(buffer.contains(capture("d4", "e5", Dignity::Pawn)));
    assert!(buffer.contains(capture("d4", "c5", Dignity::Pawn)));

    assert_eq!(buffer.len(), 2);
}

#[test]
fn move_generator_pawn_en_passant() {
    let buffer = generate(b"8/8/8/4PpP1/8/8/8/8 w - f6 0 1");

    assert!(buffer.contains(quiet("e5", "e6")));
    assert!(buffer.contains(quiet("g5", "g6")));
    assert!(buffer.contains(Move::en_passant(sq("e5"), sq("f6"))));
    assert!(buffer.contains(Move::en_passant(sq("g5"), sq("f6"))));

    assert_eq!(buffer.len(), 4);
}

#[test]
fn move_generator_pawn_promotions() {
    let buffer = generate(b"8/3P4/8/8/8/8/8/8 w - - 0 1");

    for d in [Dignity::Knight, Dignity::Bishop, Dignity::Rook, Dignity::Queen] {
        assert!(buffer.contains(Move::promotion(sq("d7"), sq("d8"), d)));
    }

    assert_eq!(buffer.len(), 4);
}

#[test]
fn move_generator_pawn_promotion_captures() {
    let buffer = generate(b"2nkn3/3P4/8/8/8/8/8/8 w - - 0 1");

    for d in [Dignity::Knight, Dignity::Bishop, Dignity::Rook, Dignity::Queen] {
        assert!(buffer.contains(Move::promotion_capture(sq("d7"), sq("c8"), Dignity::Knight, d)));
        assert!(buffer.contains(Move::promotion_capture(sq("d7"), sq("e8"), Dignity::Knight, d)));
    }

    assert_eq!(buffer.len(), 8);
}

#[test]
fn move_generator_black_pawns() {
    let buffer = generate(b"8/pp6/R7/8/3pP3/8/2p5/3N4 b - e3 0 1");

    assert!(buffer.contains(Move::pawn_single(sq("b7"), sq("b6"))));
    assert!(buffer.contains(Move::pawn_double(sq("b7"), sq("b5"))));
    assert!(buffer.contains(capture("b7", "a6", Dignity::Rook)));

    for d in [Dignity::Knight, Dignity::Bishop, Dignity::Rook, Dignity::Queen] {
        assert!(buffer.contains(Move::promotion(sq("c2"), sq("c1"), d)));
        assert!(buffer.contains(Move::promotion_capture(sq("c2"), sq("d1"), Dignity::Knight, d)));
    }

    assert!(buffer.contains(Move::pawn_single(sq("d4"), sq("d3"))));
    assert!(buffer.contains(Move::en_passant(sq("d4"), sq("e3"))));

    assert_eq!(buffer.len(), 13);
}



#[test]
fn king_side_castling() {
    let buffer = generate(b"8/8/8/8/8/8/PPPPPPPP/RNBQK2R w KQkq - 0 1");

    assert!(buffer.contains(Move::king_side_castling(sq("e1"), sq("g1"))));
    assert_eq!(buffer.len(), 22);

    let buffer = generate(b"8/8/8/8/8/8/PPPPPPPP/RNBQK2R w Qkq - 0 1");

    assert!(!buffer.contains(Move::king_side_castling(sq("e1"), sq("g1"))));
    assert_eq!(buffer.len(), 21);

    let buffer = generate(b"8/8/8/8/8/8/PPPPPPPP/RNBQK3 w KQkq - 0 1");

    assert!(!buffer.contains(Move::king_side_castling(sq("e1"), sq("g1"))));
    assert_eq!(buffer.len(), 19);
}

#[test]
fn king_side_castle() {
    let buffer = generate(b"8/8/8/8/8/8/PPPPPPPP/RNBQK2R w KQkq - 0 1");

    assert!(buffer.contains(Move::king_side_castling(sq("e1"), sq("g1"))));
    assert_eq!(buffer.len(), 22);

    let buffer = generate(b"8/8/8/8/8/8/PPPPPPPP/RNBQK2R w Qkq - 0 1");

    assert!(!buffer.contains(Move::king_side_castling(sq("e1"), sq("g1"))));
    assert_eq!(buffer.len(), 21);

    let buffer = generate(b"8/8/8/8/8/8/PPPPPPPP/RNBQK3 w KQkq - 0 1");

    assert!(!buffer.contains(Move::king_side_castling(sq("e1"), sq("g1"))));
    assert_eq!(buffer.len(), 19);
}

#[test]
fn queen_side_castling() {
    let buffer = generate(b"8/8/8/8/8/8/PPPPPPPP/R3KBNR w KQkq - 0 1");
    assert!(buffer.contains(Move::queen_side_castling(sq("e1"), sq("c1"))));

    for fen_no_castling in [
        &b"8/8/8/8/8/8/PPPPPPPP/R3KBNR w Kkq - 0 1"[..],
        &b"8/8/8/8/8/8/PPPPPPPP/4KBNR w KQkq - 0 1"[..],
        &b"8/8/8/8/8/8/PPPPPPPP/RN2KBNR w KQkq - 0 1"[..],
        &b"8/8/8/8/8/8/PPPPPPPP/R1B1KBNR w KQkq - 0 1"[..],
        &b"8/8/8/8/8/8/PPPPPPPP/R2QKBNR w KQkq - 0 1"[..],
    ] {
        let buffer = generate(fen_no_castling);
        assert!(!buffer.contains(Move::queen_side_castling(sq("e1"), sq("c1"))));
    }
}

#[test]
fn queen_side_castle() {
    let buffer = generate(b"8/8/8/8/8/8/PPPPPPPP/R3KBNR w KQkq - 0 1");
    assert!(buffer.contains(Move::queen_side_castling(sq("e1"), sq("c1"))));

    for fen_no_castling in [
        &b"8/8/8/8/8/8/PPPPPPPP/R3KBNR w Kkq - 0 1"[..],
        &b"8/8/8/8/8/8/PPPPPPPP/4KBNR w KQkq - 0 1"[..],
        &b"8/8/8/8/8/8/PPPPPPPP/RN2KBNR w KQkq - 0 1"[..],
        &b"8/8/8/8/8/8/PPPPPPPP/R1B1KBNR w KQkq - 0 1"[..],
        &b"8/8/8/8/8/8/PPPPPPPP/R2QKBNR w KQkq - 0 1"[..],
    ] {
        let buffer = generate(fen_no_castling);
        assert!(!buffer.contains(Move::queen_side_castling(sq("e1"), sq("c1"))));
    }
}

#[test]
fn move_generator_knights() {
    let buffer = generate(b"8/8/4p3/8/1p1N4/1P6/8/8 w - - 0 1");

    for to in ["f5", "f3", "e2", "c2", "b5", "c6"] {
        assert!(buffer.contains(quiet("d4", to)));
    }
    assert!(buffer.contains(capture("d4", "e6", Dignity::Pawn)));

    assert_eq!(buffer.len(), 7);
}

#[test]
fn move_generator_bishop() {
    let buffer = generate(b"8/8/5r2/8/3B4/8/5B2/8 w - - 0 1");

    for to in ["c5", "b6", "a7", "c3", "b2", "a1", "e5", "e3"] {
        assert!(buffer.contains(quiet("d4", to)));
    }
    assert!(buffer.contains(capture("d4", "f6", Dignity::Rook)));

    for to in ["e3", "e1", "g1", "g3", "h4"] {
        assert!(buffer.contains(quiet("f2", to)));
    }

    assert_eq!(buffer.len(), 14);
}

#[test]
fn move_generator_rook() {
    let buffer = generate(b"8/8/8/1n6/8/8/1R4R1/8 w - - 0 1");

    for to in ["b1", "b3", "b4", "a2", "c2", "d2", "e2", "f2"] {
        assert!(buffer.contains(quiet("b2", to)));
    }
    assert!(buffer.contains(capture("b2", "b5", Dignity::Knight)));

    for to in ["c2", "d2", "e2", "f2", "h2", "g1", "g3", "g4", "g5", "g6", "g7", "g8"] {
        assert!(buffer.contains(quiet("g2", to)));
    }

    assert_eq!(buffer.len(), 21);
}

#[test]
fn move_generator_queen() {
    let buffer = generate(b"8/n7/3p1b2/8/1k1Q1r2/2q1n3/3p4/8 w - - 0 1");

    for to in ["d5", "e5", "e4", "d3", "c4", "c5", "b6"] {
        assert!(buffer.contains(quiet("d4", to)));
    }
    assert!(buffer.contains(capture("d4", "d6", Dignity::Pawn)));
    assert!(buffer.contains(capture("d4", "f6", Dignity::Bishop)));
    assert!(buffer.contains(capture("d4", "f4", Dignity::Rook)));
    assert!(buffer.contains(capture("d4", "e3", Dignity::Knight)));
    assert!(buffer.contains(capture("d4", "d2", Dignity::Pawn)));
    assert!(buffer.contains(capture("d4", "c3", Dignity::Queen)));
    assert!(buffer.contains(capture("d4", "b4", Dignity::King)));
    assert!(buffer.contains(capture("d4", "a7", Dignity::Knight)));

    assert_eq!(buffer.len(), 15);
}

#[test]
fn move_generator_king() {
    let buffer = generate(b"8/8/8/8/5n2/4K3/8/8 w - - 0 1");

    for to in ["f3", "f2", "e2", "d2", "d3", "d4", "e4"] {
        assert!(buffer.contains(quiet("e3", to)));
    }
    assert!(buffer.contains(capture("e3", "f4", Dignity::Knight)));

    assert_eq!(buffer.len(), 8);
}

#[test]
fn move_generator_fuzz_generation() {
    let mut rng = FastRng(0x5851_f42d_4c95_7f2d);
    let movegen = MoveGenerator::new();
    let mut buffer = MoveBuffer::new();

    for _ in 0..11_010 {
        let board = Board::rand(&mut rng);
        buffer.reset();

        if !board.has_possible_pawn_structure()
            || !board.has_possible_en_passant_square()
            || !board.has_possible_kings_setup()
        {
            continue;
        }

        movegen.generate(&board, &mut buffer);
    }
}

fn make(fen: &[u8], chess_move: Move) -> (Board, bool) {
    let mut board = Board::from_fen(fen);
    let movegen = MoveGenerator::new();
    let legal = movegen.make_move(&mut board, chess_move);
    (board, legal)
}

#[test]
fn move_generator_make_move_quiet() {
    let (board, legal) = make(
        b"rnbqkbnr/pppppppp/8/8/8/8/PPPPPPPP/RNBQKBNR w KQkq - 0 1",
        quiet("e2", "e4"),
    );

    assert!(legal);
    assert_eq!(board.side_to_move(), Color::Black);
    assert_eq!(board.piece(sq("e2")), Piece::empty());
    assert_eq!(board.piece(sq("e4")), white(Dignity::Pawn));
}

#[test]
fn move_generator_make_move_promotion() {
    let (board, legal) = make(
        b"k7/3P4/8/8/8/8/8/K7 w - - 0 1",
        Move::promotion(sq("d7"), sq("d8"), Dignity::Queen),
    );

    assert!(legal);
    assert_eq!(board.piece(sq("d7")), Piece::empty());
    assert_eq!(board.piece(sq("d8")), white(Dignity::Queen));
}

#[test]
fn move_generator_make_move_capture() {
    let (board, legal) = make(b"k7/8/8/5r2/4P3/8/8/K7 w - - 0 1", capture("e4", "f5", Dignity::Rook));

    assert!(legal);
    assert_eq!(board.piece(sq("e4")), Piece::empty());
    assert_eq!(board.piece(sq("f5")), white(Dignity::Pawn));
}



#[test]
fn make_move_king_side_castling() {
    let (board, legal) = make(
        b"rnbqkbnr/pppppppp/8/8/8/8/PPPPPPPP/RNBQK2R w KQkq - 0 1",
        Move::king_side_castling(sq("e1"), sq("g1")),
    );

    assert!(legal);
    assert_eq!(board.piece(sq("e1")), Piece::empty());
    assert_eq!(board.piece(sq("h1")), Piece::empty());
    assert_eq!(board.piece(sq("g1")), white(Dignity::King));
    assert_eq!(board.piece(sq("f1")), white(Dignity::Rook));
}

#[test]
fn make_move_king_side_castle() {
    let (board, legal) = make(
        b"rnbqkbnr/pppppppp/8/8/8/8/PPPPPPPP/RNBQK2R w KQkq - 0 1",
        Move::king_side_castling(sq("e1"), sq("g1")),
    );

    assert!(legal);
    assert_eq!(board.piece(sq("e1")), Piece::empty());
    assert_eq!(board.piece(sq("h1")), Piece::empty());
    assert_eq!(board.piece(sq("g1")), white(Dignity::King));
    assert_eq!(board.piece(sq("f1")), white(Dignity::Rook));
}

#[test]
fn make_move_queen_side_castling() {
    let (board, legal) = make(
        b"rnbqkbnr/pppppppp/8/8/8/8/PPPPPPPP/R3KBNR w KQkq - 0 1",
        Move::queen_side_castling(sq("e1"), sq("c1")),
    );

    assert!(legal);
    assert_eq!(board.piece(sq("e1")), Piece::empty());
    assert_eq!(board.piece(sq("a1")), Piece::empty());
    assert_eq!(board.piece(sq("c1")), white(Dignity::King));
    assert_eq!(board.piece(sq("d1")), white(Dignity::Rook));
}

#[test]
fn make_move_queen_side_castle() {
    let (board, legal) = make(
        b"rnbqkbnr/pppppppp/8/8/8/8/PPPPPPPP/R3KBNR w KQkq - 0 1",
        Move::queen_side_castling(sq("e1"), sq("c1")),
    );

    assert!(legal);
    assert_eq!(board.piece(sq("e1")), Piece::empty());
    assert_eq!(board.piece(sq("a1")), Piece::empty());
    assert_eq!(board.piece(sq("c1")), white(Dignity::King));
    assert_eq!(board.piece(sq("d1")), white(Dignity::Rook));
}

#[test]
fn move_generator_make_move_en_passant() {
    let (board, legal) = make(b"k7/8/8/5Pp1/8/8/8/K7 w - g6 0 1", Move::en_passant(sq("f5"), sq("g6")));

    assert!(legal);
    assert_eq!(board.piece(sq("f5")), Piece::empty());
    assert_eq!(board.piece(sq("g6")), white(Dignity::Pawn));
    assert_eq!(board.piece(sq("g5")), Piece::empty());
}

#[test]
fn move_generator_make_move_legality_direct_check() {
    let (_, legal) = make(b"3r4/8/8/8/8/8/8/3KN3 w - - 0 1", quiet("e1", "f3"));

    assert!(!legal);
}

#[test]
fn move_generator_make_move_legality_pinned_piece() {
    let (_, legal) = make(b"3r4/8/8/8/8/8/3N4/3K4 w - - 0 1", quiet("d2", "e4"));

    assert!(!legal);
}

#[test]
fn move_generator_make_move_legality_en_passant_pin() {
    let (_, legal) = make(b"8/8/8/2KPp2q/8/8/8/8 w - e6 0 1", Move::en_passant(sq("d5"), sq("e6")));

    assert!(!legal);
}



#[test]
fn make_move_legality_king_side_castling() {
    for fen in [
        &b"4r3/8/8/8/8/8/8/R3K2R w KQkq - 0 1"[..],
        &b"5r2/8/8/8/8/8/8/R3K2R w KQkq - 0 1"[..],
        &b"6r1/8/8/8/8/8/8/R3K2R w KQkq - 0 1"[..],
    ] {
        let (_, legal) = make(fen, Move::king_side_castling(sq("e1"), sq("g1")));
        assert!(!legal);
    }
}

#[test]
fn make_move_legality_king_side_castle() {
    for fen in [
        &b"4r3/8/8/8/8/8/8/R3K2R w KQkq - 0 1"[..],
        &b"5r2/8/8/8/8/8/8/R3K2R w KQkq - 0 1"[..],
        &b"6r1/8/8/8/8/8/8/R3K2R w KQkq - 0 1"[..],
    ] {
        let (_, legal) = make(fen, Move::king_side_castling(sq("e1"), sq("g1")));
        assert!(!legal);
    }
}

#[test]
fn make_move_legality_queen_side_castling() {
    for fen in [
        &b"4r3/8/8/8/8/8/8/R3K2R w KQkq - 0 1"[..],
        &b"3r4/8/8/8/8/8/8/R3K2R w KQkq - 0 1"[..],
        &b"2r5/8/8/8/8/8/8/R3K2R w KQkq - 0 1"[..],
    ] {
        let (_, legal) = make(fen, Move::queen_side_castling(sq("e1"), sq("c1")));
        assert!(!legal);
    }
}

#[test]
fn make_move_legality_queen_side_castle() {
    for fen in [
        &b"4r3/8/8/8/8/8/8/R3K2R w KQkq - 0 1"[..],
        &b"3r4/8/8/8/8/8/8/R3K2R w KQkq - 0 1"[..],
        &b"2r5/8/8/8/8/8/8/R3K2R w KQkq - 0 1"[..],
    ] {
        let (_, legal) = make(fen, Move::queen_side_castling(sq("e1"), sq("c1")));
        assert!(!legal);
    }
}

#[test]
fn make_move_king_move_resets_castling_rights() {
    let (board, _) = make(
        b"rnbqkbnr/pppppppp/8/8/8/8/PPPPPPPP/R3K2R w KQkq - 0 1",
        Move::queen_side_castling(sq("e1"), sq("c1")),
    );
    assert!(!board.castling_rights().is_allowed(CastlingRights::king_side(Color::White)));
    assert!(!board.castling_rights().is_allowed(CastlingRights::queen_side(Color::White)));
}

#[test]
fn make_move_rook_move_resets_castling_rights() {
    let (board, _) = make(b"rnbqkbnr/pppppppp/8/8/8/8/PPPPPPPP/R3K2R w KQkq - 0 1", quiet("a1", "a2"));
    assert!(board.castling_rights().is_allowed(CastlingRights::king_side(Color::White)));
    assert!(!board.castling_rights().is_allowed(CastlingRights::queen_side(Color::White)));
}

#[test]
fn make_move_rook_capture_resets_castling_rights() {
    let (board, _) = make(b"rnbqkbnr/8/8/8/8/8/8/R3K2R b KQkq - 0 1", capture("h8", "h1", Dignity::Rook));
    assert!(!board.castling_rights().is_allowed(CastlingRights::king_side(Color::White)));
    assert!(board.castling_rights().is_allowed(CastlingRights::queen_side(Color::White)));
}

#[test]
fn make_move_resets_en_passant_square() {
    let (board, _) = make(b"rnbqkbnr/8/8/8/8/8/8/R3K2R b KQkq e3 0 1", capture("h8", "h1", Dignity::Rook));

    assert_eq!(board.en_passant_file(), File::en_passant_none());
}

#[test]
fn make_move_double_pawn_sets_en_passant_square() {
    let (board, _) = make(
        b"rnbqkbnr/pppppppp/8/8/8/8/PPPPPPPP/RNBQKBNR w KQkq - 0 1",
        Move::pawn_double(sq("d2"), sq("d4")),
    );

    assert_eq!(board.en_passant_file(), File::from_index(3));
}

#[test]
fn make_move_capture_resets_halfmove_clock() {
    let fen = b"1k2r3/8/8/8/4B3/8/2P5/5K2 b - - 13 1";
    assert_eq!(Board::from_fen(fen).halfmove_clock(), 13);
    let (board, _) = make(fen, capture("e8", "e4", Dignity::Bishop));

    assert_eq!(board.halfmove_clock(), 0);
}

#[test]
fn make_move_pawn_move_resets_halfmove_clock() {
    let fen = b"1k2r3/8/8/8/4B3/8/2P5/5K2 w - - 15 1";
    assert_eq!(Board::from_fen(fen).halfmove_clock(), 15);
    let (board, _) = make(fen, Move::pawn_single(sq("c2"), sq("c3")));

    assert_eq!(board.halfmove_clock(), 0);
}

#[test]
fn make_move_moves_increase_halfmove_clock() {
    let fen = b"1k2r3/8/8/8/4B3/8/2P5/5K2 b - - 15 1";
    assert_eq!(Board::from_fen(fen).halfmove_clock(), 15);
    let (board, _) = make(fen, quiet("e8", "e5"));

    assert_eq!(board.halfmove_clock(), 16);
}

#[test]
fn unmake_move_restores_side_to_move() {
    let mut board = Board::from_fen(b"4k3/8/8/8/8/8/8/R3K3 w KQkq - 0 1");
    let chess_move = quiet("a1", "c1");
    let movegen = MoveGenerator::new();
    let _ = movegen.make_move(&mut board, chess_move);
    assert_eq!(board.side_to_move(), Color::Black);

    movegen.unmake_move(&mut board, chess_move);
    assert_eq!(board.side_to_move(), Color::White);
}

fn make_unmake(fen: &[u8], chess_move: Move) -> (Board, bool) {
    let mut board = Board::from_fen(fen);
    let movegen = MoveGenerator::new();
    let legal = movegen.make_move(&mut board, chess_move);
    movegen.unmake_move(&mut board, chess_move);
    (board, legal)
}

#[test]
fn move_generator_unmake_move_quiet() {
    let (board, legal) = make_unmake(b"4k3/8/8/8/8/8/8/R3K3 w KQkq - 0 1", quiet("a1", "c1"));

    assert!(legal);
    assert_eq!(board.piece(sq("c1")), Piece::empty());
    assert_eq!(board.piece(sq("a1")), white(Dignity::Rook));
}

#[test]
fn unmake_move_capture() {
    let (board, legal) = make_unmake(b"4k3/8/8/8/8/8/8/R1b1K3 w KQkq - 0 1", capture("a1", "c1", Dignity::Bishop));

    assert!(legal);
    assert_eq!(board.piece(sq("c1")), black(Dignity::Bishop));
    assert_eq!(board.piece(sq("a1")), white(Dignity::Rook));
}

#[test]
fn unmake_move_promotion() {
    let (board, legal) = make_unmake(
        b"8/4P3/8/8/8/8/8/1K6 w - - 0 1",
        Move::promotion(sq("e7"), sq("e8"), Dignity::Queen),
    );

    assert!(legal);
    assert_eq!(board.piece(sq("e7")), white(Dignity::Pawn));
    assert_eq!(board.piece(sq("e8")), Piece::empty());
}

#[test]
fn unmake_move_castling_moves_rook() {
    let mut board = Board::from_fen(b"rnbqkbnr/pppppppp/8/8/8/8/PPPPPPPP/R3K2R w KQkq - 0 1");
    let chess_move = Move::queen_side_castling(sq("e1"), sq("c1"));

    let movegen = MoveGenerator::new();
    let legal = movegen.make_move(&mut board, chess_move);

    assert!(legal);
    movegen.unmake_move(&mut board, chess_move);

    assert_eq!(board.piece(sq("e1")), white(Dignity::King));
    assert_eq!(board.piece(sq("a1")), white(Dignity::Rook));
    assert_eq!(board.piece(sq("c1")), Piece::empty());
    assert_eq!(board.piece(sq("d1")), Piece::empty());

    let chess_move = Move::king_side_castling(sq("e1"), sq("g1"));
    let legal = movegen.make_move(&mut board, chess_move);

    assert!(legal);
    movegen.unmake_move(&mut board, chess_move);

    assert_eq!(board.piece(sq("e1")), white(Dignity::King));
    assert_eq!(board.piece(sq("h1")), white(Dignity::Rook));
    assert_eq!(board.piece(sq("g1")), Piece::empty());
    assert_eq!(board.piece(sq("f1")), Piece::empty());
}

#[test]
fn unmake_move_restores_castling_rights() {
    let (board, _) = make_unmake(
        b"rnbqkbnr/pppppppp/8/8/8/8/PPPPPPPP/R3K2R w KQkq - 0 1",
        Move::queen_side_castling(sq("e1"), sq("c1")),
    );

    assert!(board.castling_rights().is_allowed(CastlingRights::king_side(Color::White)));
    assert!(board.castling_rights().is_allowed(CastlingRights::queen_side(Color::White)));
}

#[test]
fn unmake_move_restores_en_passant_captured_pawn() {
    let (board, _) = make_unmake(b"k7/8/8/5Pp1/8/8/8/K7 w - g6 0 1", Move::en_passant(sq("f5"), sq("g6")));

    assert_eq!(board.piece(sq("g5")), black(Dignity::Pawn));
}

#[test]
fn unmake_move_restores_en_passant_square() {
    let (board, _) = make_unmake(b"k7/8/8/5Pp1/8/8/8/K7 w - g6 0 1", Move::en_passant(sq("f5"), sq("g6")));

    assert_eq!(board.en_passant_file(), File::from_index(6));
}

#[test]
fn unmake_move_restores_halfmove_clock() {
    let (board, _) = make_unmake(b"1k2r3/8/8/8/4B3/8/2P5/5K2 b - - 13 1", capture("e8", "e4", Dignity::Bishop));

    assert_eq!(board.halfmove_clock(), 13);
}

#[test]
fn fuzz_make_unmake() {
    let mut rng = FastRng(0x6a09_e667_f3bc_c908);
    let movegen = MoveGenerator::new();
    let mut buffer = MoveBuffer::new();

    for _ in 0..11_010 {
        let mut board = Board::rand(&mut rng);
        buffer.reset();

        if !board.has_possible_pawn_structure()
            || !board.has_possible_en_passant_square()
            || !board.has_possible_kings_setup()
        {
            continue;
        }

        let before = board;
        let hash = board.hash();
        movegen.generate(&board, &mut buffer);

        for i in 0..buffer.len() {
            let chess_move = buffer.get(i);
            let _legal = movegen.make_move(&mut board, chess_move);
            movegen.unmake_move(&mut board, chess_move);
            assert_eq!(board.hash(), hash);
            assert_eq!(board.placement(), before.placement());
        }
    }
}

#[test]
fn startpos() {
    let buffer = generate(b"rnbqkbnr/pppppppp/8/8/8/8/PPPPPPPP/RNBQKBNR w KQkq - 0 1");

    for f in ["a", "b", "c", "d", "e", "f", "g", "h"] {
        let from = format!("{f}2");
        assert!(buffer.contains(Move::pawn_double(sq(&from), sq(&format!("{f}4")))));
        assert!(buffer.contains(Move::pawn_single(sq(&from), sq(&format!("{f}3")))));
    }

    assert!(buffer.contains(quiet("b1", "a3")));
    assert!(buffer.contains(quiet("b1", "c3")));
    assert!(buffer.contains(quiet("g1", "f3")));
    assert!(buffer.contains(quiet("g1", "h3")));

    assert_eq!(buffer.len(), 20);
}
#[test]
fn pawn_blocks() {
    let buffer = generate(b"8/4p3/3pPp2/p1pP1Pp1/PpP3P1/1P5p/7P/8 w - - 0 1");

    assert_eq!(buffer.len(), 0);
}
#[test]
fn pawn_doubles() {
    let buffer = generate(b"8/8/5P2/4P3/3P4/2P5/1P6/8 w - - 0 1");

    assert!(buffer.contains(Move::pawn_double(sq("b2"), sq("b4"))));
    assert!(buffer.contains(Move::pawn_single(sq("b2"), sq("b3"))));
    assert!(buffer.contains(Move::pawn_single(sq("c3"), sq("c4"))));
    assert!(buffer.contains(Move::pawn_single(sq("d4"), sq("d5"))));
    assert!(buffer.contains(Move::pawn_single(sq("e5"), sq("e6"))));
    assert!(buffer.contains(Move::pawn_single(sq("f6"), sq("f7"))));

    assert_eq!(buffer.len(), 6);
}
#[test]
fn pawn_captures() {
    let buffer = generate(b"8/8/8/2ppp3/3P4/8/8/8 w - - 0 1");

    assert!(buffer.contains(capture("d4", "e5", Dignity::Pawn)));
    assert!(buffer.contains(capture("d4", "c5", Dignity::Pawn)));

    assert_eq!(buffer.len(), 2);
}
#[test]
fn pawn_en_passant() {
    let buffer = generate(b"8/8/8/4PpP1/8/8/8/8 w - f6 0 1");

    assert!(buffer.contains(quiet("e5", "e6")));
    assert!(buffer.contains(quiet("g5", "g6")));
    assert!(buffer.contains(Move::en_passant(sq("e5"), sq("f6"))));
    assert!(buffer.contains(Move::en_passant(sq("g5"), sq("f6"))));

    assert_eq!(buffer.len(), 4);
}
#[test]
fn pawn_promotions() {
    let buffer = generate(b"8/3P4/8/8/8/8/8/8 w - - 0 1");

    for d in [Dignity::Knight, Dignity::Bishop, Dignity::Rook, Dignity::Queen] {
        assert!(buffer.contains(Move::promotion(sq("d7"), sq("d8"), d)));
    }

    assert_eq!(buffer.len(), 4);
}
#[test]
fn pawn_promotion_captures() {
    let buffer = generate(b"2nkn3/3P4/8/8/8/8/8/8 w - - 0 1");

    for d in [Dignity::Knight, Dignity::Bishop, Dignity::Rook, Dignity::Queen] {
        assert!(buffer.contains(Move::promotion_capture(sq("d7"), sq("c8"), Dignity::Knight, d)));
        assert!(buffer.contains(Move::promotion_capture(sq("d7"), sq("e8"), Dignity::Knight, d)));
    }

    assert_eq!(buffer.len(), 8);
}
#[test]
fn black_pawns() {
    let buffer = generate(b"8/pp6/R7/8/3pP3/8/2p5/3N4 b - e3 0 1");

    assert!(buffer.contains(Move::pawn_single(sq("b7"), sq("b6"))));
    assert!(buffer.contains(Move::pawn_double(sq("b7"), sq("b5"))));
    assert!(buffer.contains(capture("b7", "a6", Dignity::Rook)));

    for d in [Dignity::Knight, Dignity::Bishop, Dignity::Rook, Dignity::Queen] {
        assert!(buffer.contains(Move::promotion(sq("c2"), sq("c1"), d)));
        assert!(buffer.contains(Move::promotion_capture(sq("c2"), sq("d1"), Dignity::Knight, d)));
    }

    assert!(buffer.contains(Move::pawn_single(sq("d4"), sq("d3"))));
    assert!(buffer.contains(Move::en_passant(sq("d4"), sq("e3"))));

    assert_eq!(buffer.len(), 13);
}
#[test]
fn knights() {
    let buffer = generate(b"8/8/4p3/8/1p1N4/1P6/8/8 w - - 0 1");

    for to in ["f5", "f3", "e2", "c2", "b5", "c6"] {
        assert!(buffer.contains(quiet("d4", to)));
    }
    assert!(buffer.contains(capture("d4", "e6", Dignity::Pawn)));

    assert_eq!(buffer.len(), 7);
}
#[test]
fn bishop() {
    let buffer = generate(b"8/8/5r2/8/3B4/8/5B2/8 w - - 0 1");

    for to in ["c5", "b6", "a7", "c3", "b2", "a1", "e5", "e3"] {
        assert!(buffer.contains(quiet("d4", to)));
    }
    assert!(buffer.contains(capture("d4", "f6", Dignity::Rook)));

    for to in ["e3", "e1", "g1", "g3", "h4"] {
        assert!(buffer.contains(quiet("f2", to)));
    }

    assert_eq!(buffer.len(), 14);
}
#[test]
fn rook() {
    let buffer = generate(b"8/8/8/1n6/8/8/1R4R1/8 w - - 0 1");

    for to in ["b1", "b3", "b4", "a2", "c2", "d2", "e2", "f2"] {
        assert!(buffer.contains(quiet("b2", to)));
    }
    assert!(buffer.contains(capture("b2", "b5", Dignity::Knight)));

    for to in ["c2", "d2", "e2", "f2", "h2", "g1", "g3", "g4", "g5", "g6", "g7", "g8"] {
        assert!(buffer.contains(quiet("g2", to)));
    }

    assert_eq!(buffer.len(), 21);
}
#[test]
fn queen() {
    let buffer = generate(b"8/n7/3p1b2/8/1k1Q1r2/2q1n3/3p4/8 w - - 0 1");

    for to in ["d5", "e5", "e4", "d3", "c4", "c5", "b6"] {
        assert!(buffer.contains(quiet("d4", to)));
    }
    assert!(buffer.contains(capture("d4", "d6", Dignity::Pawn)));
    assert!(buffer.contains(capture("d4", "f6", Dignity::Bishop)));
    assert!(buffer.contains(capture("d4", "f4", Dignity::Rook)));
    assert!(buffer.contains(capture("d4", "e3", Dignity::Knight)));
    assert!(buffer.contains(capture("d4", "d2", Dignity::Pawn)));
    assert!(buffer.contains(capture("d4", "c3", Dignity::Queen)));
    assert!(buffer.contains(capture("d4", "b4", Dignity::King)));
    assert!(buffer.contains(capture("d4", "a7", Dignity::Knight)));

    assert_eq!(buffer.len(), 15);
}
#[test]
fn king() {
    let buffer = generate(b"8/8/8/8/5n2/4K3/8/8 w - - 0 1");

    for to in ["f3", "f2", "e2", "d2", "d3", "d4", "e4"] {
        assert!(buffer.contains(quiet("e3", to)));
    }
    assert!(buffer.contains(capture("e3", "f4", Dignity::Knight)));

    assert_eq!(buffer.len(), 8);
}
#[test]
fn make_move_quiet() {
    let (board, legal) = make(
        b"rnbqkbnr/pppppppp/8/8/8/8/PPPPPPPP/RNBQKBNR w KQkq - 0 1",
        quiet("e2", "e4"),
    );

    assert!(legal);
    assert_eq!(board.side_to_move(), Color::Black);
    assert_eq!(board.piece(sq("e2")), Piece::empty());
    assert_eq!(board.piece(sq("e4")), white(Dignity::Pawn));
}
#[test]
fn make_move_legality_direct_check() {
    let (_, legal) = make(b"3r4/8/8/8/8/8/8/3KN3 w - - 0 1", quiet("e1", "f3"));

    assert!(!legal);
}
#[test]
fn make_move_legality_pinned_piece() {
    let (_, legal) = make(b"3r4/8/8/8/8/8/3N4/3K4 w - - 0 1", quiet("d2", "e4"));

    assert!(!legal);
}
#[test]
fn make_move_legality_en_passant_pin() {
    let (_, legal) = make(b"8/8/8/2KPp2q/8/8/8/8 w - e6 0 1", Move::en_passant(sq("d5"), sq("e6")));

    assert!(!legal);
}
#[test]
fn unmake_move_quiet() {
    let (board, legal) = make_unmake(b"4k3/8/8/8/8/8/8/R3K3 w KQkq - 0 1", quiet("a1", "c1"));

    assert!(legal);
    assert_eq!(board.piece(sq("c1")), Piece::empty());
    assert_eq!(board.piece(sq("a1")), white(Dignity::Rook));
}
#[test]
fn make_move_promotion() {
    let (board, legal) = make(
        b"8/3P4/8/8/8/8/8/8 w - - 0 1",
        Move::promotion(sq("d7"), sq("d8"), Dignity::Queen),
    );

    assert!(legal);
    assert_eq!(board.piece(sq("d7")), Piece::empty());
    assert_eq!(board.piece(sq("d8")), white(Dignity::Queen));
}

#[test]
fn make_move_capture() {
    let (board, legal) = make(b"8/8/8/5r2/4P3/8/8/8 w - - 0 1", capture("e4", "f5", Dignity::Rook));

    assert!(legal);
    assert_eq!(board.piece(sq("e4")), Piece::empty());
    assert_eq!(board.piece(sq("f5")), white(Dignity::Pawn));
}

#[test]
fn make_move_en_passant() {
    let (board, legal) = make(b"8/8/8/5Pp1/8/8/8/8 w - g6 0 1", Move::en_passant(sq("f5"), sq("g6")));

    assert!(legal);
    assert_eq!(board.piece(sq("f5")), Piece::empty());
    assert_eq!(board.piece(sq("g6")), white(Dignity::Pawn));
    assert_eq!(board.piece(sq("g5")), Piece::empty());
}
