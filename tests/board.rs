use chess_perft::board::Board;
use chess_perft::buffer::FenBuffer;
use chess_perft::castling::CastlingRights;
use chess_perft::color::Color;
use chess_perft::piece::{Dignity, Piece};
use chess_perft::rand::FastRng;
use chess_perft::square::{File, Square};

fn sq(name: &str) -> Square {
    let b = name.as_bytes();
    Square::from_fen(b[0], b[1])
}

fn white(d: Dignity) -> Piece {
    Piece::new(Color::White, d)
}

fn black(d: Dignity) -> Piece {
    Piece::new(Color::Black, d)
}

fn to_fen(board: &Board) -> Vec<u8> {
    let mut buffer = FenBuffer::new();
    board.fen(&mut buffer);
    buffer.as_slice().to_vec()
}

#[test]
fn board_from_fen_empty() {
    let board = Board::from_fen(b"8/8/8/8/8/8/8/8 w - - 0 1");
    assert_eq!(board, Board::empty());
    assert_eq!(board.piece(sq("a1")), Piece::empty());
}

#[test]
fn board_from_fen_startpos() {
    let board = Board::from_fen(b"rnbqkbnr/pppppppp/8/8/8/8/PPPPPPPP/RNBQKBNR w KQkq - 0 1");

    assert_eq!(board.piece(sq("a1")), white(Dignity::Rook));
    assert_eq!(board.piece(sq("b1")), white(Dignity::Knight));
    assert_eq!(board.piece(sq("c1")), white(Dignity::Bishop));
    assert_eq!(board.piece(sq("d1")), white(Dignity::Queen));
    assert_eq!(board.piece(sq("e1")), white(Dignity::King));
    assert_eq!(board.piece(sq("f1")), white(Dignity::Bishop));
    assert_eq!(board.piece(sq("g1")), white(Dignity::Knight));
    assert_eq!(board.piece(sq("h1")), white(Dignity::Rook));

    for file in ["a2", "b2", "c2", "d2", "e2", "f2", "g2", "h2"] {
        assert_eq!(board.piece(sq(file)), white(Dignity::Pawn));
    }
    for file in ["a7", "b7", "c7", "d7", "e7", "f7", "g7", "h7"] {
        assert_eq!(board.piece(sq(file)), black(Dignity::Pawn));
    }

    assert_eq!(board.piece(sq("a8")), black(Dignity::Rook));
    assert_eq!(board.piece(sq("b8")), black(Dignity::Knight));
    assert_eq!(board.piece(sq("c8")), black(Dignity::Bishop));
    assert_eq!(board.piece(sq("d8")), black(Dignity::Queen));
    assert_eq!(board.piece(sq("e8")), black(Dignity::King));
    assert_eq!(board.piece(sq("f8")), black(Dignity::Bishop));
    assert_eq!(board.piece(sq("g8")), black(Dignity::Knight));
    assert_eq!(board.piece(sq("h8")), black(Dignity::Rook));
}

#[test]
fn board_from_fen_side_to_move() {
    for (fen, expected) in [
        (b"8/8/8/8/8/8/8/8 w - - 0 1", Color::White),
        (b"8/8/8/8/8/8/8/8 b - - 0 1", Color::Black),
    ] {
        let board = Board::from_fen(fen);
        assert_eq!(board.side_to_move(), expected);
    }
}

#[test]
fn board_from_fen_castling() {
    for (fen, expected) in [
        (&b"8/8/8/8/8/8/8/8 w - - 0 1"[..], CastlingRights::none()),
        (&b"8/8/8/8/8/8/8/8 w KQkq - 0 1"[..], CastlingRights::all()),
        (&b"8/8/8/8/8/8/8/8 w K - 0 1"[..], CastlingRights::king_side(Color::White)),
        (&b"8/8/8/8/8/8/8/8 w k - 0 1"[..], CastlingRights::king_side(Color::Black)),
    ] {
        let board = Board::from_fen(fen);
        assert_eq!(board.castling_rights(), expected);
    }
}

#[test]
fn board_from_fen_en_passant() {
    for (fen, expected) in [
        (&b"8/8/8/8/8/8/8/8 b - - 0 1"[..], File::en_passant_none()),
        (&b"8/8/8/8/8/8/8/8 b - e3 0 1"[..], File::from_index(4)),
        (&b"8/8/8/8/8/8/8/8 w - c6 0 1"[..], File::from_index(2)),
    ] {
        let board = Board::from_fen(fen);
        assert_eq!(board.en_passant_file(), expected);
    }
}

#[test]
fn board_from_fen_halfmove_clock() {
    for (fen, expected) in [
        (&b"8/8/8/8/8/8/8/8 w - - 0 1"[..], 0),
        (&b"8/8/8/8/8/8/8/8 w - - 123 1"[..], 123),
        (&b"8/8/8/8/8/8/8/8 w - - 999 1"[..], 999),
        (&b"8/8/8/8/8/8/8/8 w - - 100 1"[..], 100),
    ] {
        let board = Board::from_fen(fen);
        assert_eq!(board.halfmove_clock(), expected);
    }
}

#[test]
fn board_to_fen_startpos() {
    let fen = b"rnbqkbnr/pppppppp/8/8/8/8/PPPPPPPP/RNBQKBNR w KQkq - 0 1";
    let board = Board::from_fen(fen);
    assert_eq!(to_fen(&board), fen.to_vec());
}

#[test]
fn board_to_fen_trailing_empty_count() {
    let fen = b"r3k2r/Pppp1ppp/1b3nbN/nP6/BBP1P3/q4N2/Pp1P2PP/R2Q1RK1 w kq - 0 1";
    let board = Board::from_fen(fen);
    assert_eq!(to_fen(&board), fen.to_vec());
}

#[test]
fn board_to_fen_castling() {
    let examples: [&[u8]; 3] = [
        b"r3k2r/Pppp1ppp/1b3nbN/nP6/BBP1P3/q4N2/Pp1P2PP/R2Q1RK1 w kq - 0 1",
        b"r2q1rk1/pP1p2pp/Q4n2/bbp1p3/Np6/1B3NBn/pPPP1PPP/R3K2R b KQ - 0 1",
        b"r4rk1/1pp1qppp/p1np1n2/2b1p1B1/2B1P1b1/P1NP1N2/1PP1QPPP/R4RK1 w - - 0 1",
    ];

    let mut buffer = FenBuffer::new();
    for fen in examples {
        let board = Board::from_fen(fen);
        buffer.reset();
        board.fen(&mut buffer);
        assert_eq!(buffer.as_slice(), fen);
    }
}

#[test]
fn board_to_fen_en_passant() {
    let examples: [&[u8]; 2] = [
        b"rnbqkbnr/pppppppp/8/8/4P3/8/PPPP1PPP/RNBQKBNR b KQkq e3 0 1",
        b"rnbqkbnr/pp1ppppp/8/2p5/4P3/8/PPPP1PPP/RNBQKBNR w KQkq c6 0 1",
    ];

    let mut buffer = FenBuffer::new();
    for fen in examples {
        let board = Board::from_fen(fen);
        buffer.reset();
        board.fen(&mut buffer);
        assert_eq!(buffer.as_slice(), fen);
    }
}

#[test]
fn board_to_fen_hmc_fmc() {
    let examples: [&[u8]; 5] = [
        b"rnbqkbnr/pppppppp/8/8/8/8/PPPPPPPP/RNBQKBNR w KQkq - 9 1",
        b"rnbqkbnr/pppppppp/8/8/8/8/PPPPPPPP/RNBQKBNR w KQkq - 56 1",
        b"rnbqkbnr/pppppppp/8/8/8/8/PPPPPPPP/RNBQKBNR w KQkq - 20 1",
        b"rnbqkbnr/pppppppp/8/8/8/8/PPPPPPPP/RNBQKBNR w KQkq - 99 1",
        b"rnbqkbnr/pppppppp/8/8/8/8/PPPPPPPP/RNBQKBNR w KQkq - 999 1",
    ];

    let mut buffer = FenBuffer::new();
    for fen in examples {
        let board = Board::from_fen(fen);
        buffer.reset();
        board.fen(&mut buffer);
        assert_eq!(buffer.as_slice(), fen);
    }
}

#[test]
fn board_rand() {
    let mut rng = FastRng(0x2545_f491_4f6c_dd1d);

    let board1 = Board::rand(&mut rng);
    let board2 = Board::rand(&mut rng);

    assert_ne!(to_fen(&board1), to_fen(&board2));
}

#[test]
fn board_rand_generates_white_pieces() {
    let mut rng = FastRng(0x9e37_79b9_7f4a_7c15);
    let mut got_white = false;
    'outer: for _ in 0..100 {
        let board = Board::rand(&mut rng);
        for i in 0..64u8 {
            let piece = board.piece(Square::from_index(i));
            if piece == Piece::empty() {
                continue;
            }
            if piece.color() == Color::White {
                got_white = true;
                break 'outer;
            }
        }
    }
    assert!(got_white);
}

#[test]
fn board_fuzz_fen() {
    let mut rng = FastRng(0x0123_4567_89ab_cdef);
    let mut buffer = FenBuffer::new();
    let mut next_buffer = FenBuffer::new();

    for _ in 0..11_010 {
        let board = Board::rand(&mut rng);
        buffer.reset();
        board.fen(&mut buffer);
        let fen = buffer.as_slice().to_vec();

        let next_board = Board::from_fen(&fen);
        next_buffer.reset();
        next_board.fen(&mut next_buffer);

        assert_eq!(fen.as_slice(), next_buffer.as_slice());
    }
}

#[test]
fn from_fen_empty() {
    let board = Board::from_fen(b"8/8/8/8/8/8/8/8 w - - 0 1");
    assert_eq!(board, Board::empty());
    assert_eq!(board.piece(sq("a1")), Piece::empty());
}
#[test]
fn from_fen_startpos() {
    let board = Board::from_fen(b"rnbqkbnr/pppppppp/8/8/8/8/PPPPPPPP/RNBQKBNR w KQkq - 0 1");

    assert_eq!(board.piece(sq("a1")), white(Dignity::Rook));
    assert_eq!(board.piece(sq("b1")), white(Dignity::Knight));
    assert_eq!(board.piece(sq("c1")), white(Dignity::Bishop));
    assert_eq!(board.piece(sq("d1")), white(Dignity::Queen));
    assert_eq!(board.piece(sq("e1")), white(Dignity::King));
    assert_eq!(board.piece(sq("f1")), white(Dignity::Bishop));
    assert_eq!(board.piece(sq("g1")), white(Dignity::Knight));
    assert_eq!(board.piece(sq("h1")), white(Dignity::Rook));

    for file in ["a2", "b2", "c2", "d2", "e2", "f2", "g2", "h2"] {
        assert_eq!(board.piece(sq(file)), white(Dignity::Pawn));
    }
    for file in ["a7", "b7", "c7", "d7", "e7", "f7", "g7", "h7"] {
        assert_eq!(board.piece(sq(file)), black(Dignity::Pawn));
    }

    assert_eq!(board.piece(sq("a8")), black(Dignity::Rook));
    assert_eq!(board.piece(sq("b8")), black(Dignity::Knight));
    assert_eq!(board.piece(sq("c8")), black(Dignity::Bishop));
    assert_eq!(board.piece(sq("d8")), black(Dignity::Queen));
    assert_eq!(board.piece(sq("e8")), black(Dignity::King));
    assert_eq!(board.piece(sq("f8")), black(Dignity::Bishop));
    assert_eq!(board.piece(sq("g8")), black(Dignity::Knight));
    assert_eq!(board.piece(sq("h8")), black(Dignity::Rook));
}
#[test]
fn from_fen_side_to_move() {
    for (fen, expected) in [
        (b"8/8/8/8/8/8/8/8 w - - 0 1", Color::White),
        (b"8/8/8/8/8/8/8/8 b - - 0 1", Color::Black),
    ] {
        let board = Board::from_fen(fen);
        assert_eq!(board.side_to_move(), expected);
    }
}
#[test]
fn from_fen_castling() {
    for (fen, expected) in [
        (&b"8/8/8/8/8/8/8/8 w - - 0 1"[..], CastlingRights::none()),
        (&b"8/8/8/8/8/8/8/8 w KQkq - 0 1"[..], CastlingRights::all()),
        (&b"8/8/8/8/8/8/8/8 w K - 0 1"[..], CastlingRights::king_side(Color::White)),
        (&b"8/8/8/8/8/8/8/8 w k - 0 1"[..], CastlingRights::king_side(Color::Black)),
    ] {
        let board = Board::from_fen(fen);
        assert_eq!(board.castling_rights(), expected);
    }
}
#[test]
fn from_fen_en_passant() {
    for (fen, expected) in [
        (&b"8/8/8/8/8/8/8/8 b - - 0 1"[..], File::en_passant_none()),
        (&b"8/8/8/8/8/8/8/8 b - e3 0 1"[..], File::from_index(4)),
        (&b"8/8/8/8/8/8/8/8 w - c6 0 1"[..], File::from_index(2)),
    ] {
        let board = Board::from_fen(fen);
        assert_eq!(board.en_passant_file(), expected);
    }
}
#[test]
fn from_fen_halfmove_clock() {
    for (fen, expected) in [
        (&b"8/8/8/8/8/8/8/8 w - - 0 1"[..], 0),
        (&b"8/8/8/8/8/8/8/8 w - - 123 1"[..], 123),
        (&b"8/8/8/8/8/8/8/8 w - - 999 1"[..], 999),
        (&b"8/8/8/8/8/8/8/8 w - - 100 1"[..], 100),
    ] {
        let board = Board::from_fen(fen);
        assert_eq!(board.halfmove_clock(), expected);
    }
}
#[test]
fn to_fen_startpos() {
    let fen = b"rnbqkbnr/pppppppp/8/8/8/8/PPPPPPPP/RNBQKBNR w KQkq - 0 1";
    let board = Board::from_fen(fen);
    assert_eq!(to_fen(&board), fen.to_vec());
}
#[test]
fn to_fen_trailing_empty_count() {
    let fen = b"r3k2r/Pppp1ppp/1b3nbN/nP6/BBP1P3/q4N2/Pp1P2PP/R2Q1RK1 w kq - 0 1";
    let board = Board::from_fen(fen);
    assert_eq!(to_fen(&board), fen.to_vec());
}
#[test]
fn to_fen_castling() {
    let examples: [&[u8]; 3] = [
        b"r3k2r/Pppp1ppp/1b3nbN/nP6/BBP1P3/q4N2/Pp1P2PP/R2Q1RK1 w kq - 0 1",
        b"r2q1rk1/pP1p2pp/Q4n2/bbp1p3/Np6/1B3NBn/pPPP1PPP/R3K2R b KQ - 0 1",
        b"r4rk1/1pp1qppp/p1np1n2/2b1p1B1/2B1P1b1/P1NP1N2/1PP1QPPP/R4RK1 w - - 0 1",
    ];

    let mut buffer = FenBuffer::new();
    for fen in examples {
        let board = Board::from_fen(fen);
        buffer.reset();
        board.fen(&mut buffer);
        assert_eq!(buffer.as_slice(), fen);
    }
}
#[test]
fn to_fen_en_passant() {
    let examples: [&[u8]; 2] = [
        b"rnbqkbnr/pppppppp/8/8/4P3/8/PPPP1PPP/RNBQKBNR b KQkq e3 0 1",
        b"rnbqkbnr/pp1ppppp/8/2p5/4P3/8/PPPP1PPP/RNBQKBNR w KQkq c6 0 1",
    ];

    let mut buffer = FenBuffer::new();
    for fen in examples {
        let board = Board::from_fen(fen);
        buffer.reset();
        board.fen(&mut buffer);
        assert_eq!(buffer.as_slice(), fen);
    }
}
#[test]
fn to_fen_hmc_fmc() {
    let examples: [&[u8]; 5] = [
        b"rnbqkbnr/pppppppp/8/8/8/8/PPPPPPPP/RNBQKBNR w KQkq - 9 1",
        b"rnbqkbnr/pppppppp/8/8/8/8/PPPPPPPP/RNBQKBNR w KQkq - 56 1",
        b"rnbqkbnr/pppppppp/8/8/8/8/PPPPPPPP/RNBQKBNR w KQkq - 20 1",
        b"rnbqkbnr/pppppppp/8/8/8/8/PPPPPPPP/RNBQKBNR w KQkq - 99 1",
        b"rnbqkbnr/pppppppp/8/8/8/8/PPPPPPPP/RNBQKBNR w KQkq - 999 1",
    ];

    let mut buffer = FenBuffer::new();
    for fen in examples {
        let board = Board::from_fen(fen);
        buffer.reset();
        board.fen(&mut buffer);
        assert_eq!(buffer.as_slice(), fen);
    }
}