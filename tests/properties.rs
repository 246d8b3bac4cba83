use chess_perft::board::Board;
use chess_perft::buffer::FenBuffer;
use chess_perft::chess_move::Move;
use chess_perft::color::Color;
use chess_perft::move_generator::{MoveBuffer, MoveGenerator};
use chess_perft::perft::perft;
use chess_perft::piece::{Dignity, Piece};
use chess_perft::square::{File, Square};

fn sq(name: &str) -> Square {
    let b = name.as_bytes();
    Square::from_fen(b[0], b[1])
}

fn to_fen(board: &Board) -> Vec<u8> {
    let mut buffer = FenBuffer::new();
    board.fen(&mut buffer);
    buffer.as_slice().to_vec()
}

const KIWIPETE: &[u8] = b"r3k2r/p1ppqpb1/bn2pnp1/3PN3/1p2P3/2N2Q1p/PPPBBPPP/R3K2R w KQkq - 0 1";

#[test]
fn make_unmake_restores_every_move_of_kiwipete() {
    let mut board = Board::from_fen(KIWIPETE);
    let movegen = MoveGenerator::new();
    let mut buffer = MoveBuffer::new();
    movegen.generate(&board, &mut buffer);
    assert_eq!(buffer.len(), 48);

    let text = to_fen(&board);
    let hash = board.hash();
    for i in 0..buffer.len() {
        let chess_move = buffer.get(i);
        movegen.make_move(&mut board, chess_move);
        movegen.unmake_move(&mut board, chess_move);
        assert_eq!(to_fen(&board), text);
        assert_eq!(board.hash(), hash);
        assert_eq!(board.ply(), 0);
    }
}

#[test]
fn text_round_trip_writes_fullmove_one() {
    let board = Board::from_fen(b"rnbq1k1r/pp1Pbppp/2p5/8/2B5/8/PPP1NnPP/RNBQK2R w KQ - 1 8");
    assert_eq!(to_fen(&board), b"rnbq1k1r/pp1Pbppp/2p5/8/2B5/8/PPP1NnPP/RNBQK2R w KQ - 1 1".to_vec());

    let again = Board::from_fen(&to_fen(&board));
    assert_eq!(to_fen(&again), to_fen(&board));
    assert_eq!(again.hash(), board.hash());
}

fn plain_perft(board: &mut Board, movegen: &MoveGenerator, depth: usize) -> usize {
    if depth == 0 {
        return 1;
    }
    let mut buffer = MoveBuffer::new();
    movegen.generate(board, &mut buffer);
    let mut nodes = 0;
    for i in 0..buffer.len() {
        let chess_move = buffer.get(i);
        if movegen.make_move(board, chess_move) {
            nodes += plain_perft(board, movegen, depth - 1);
        }
        movegen.unmake_move(board, chess_move);
    }
    nodes
}

#[test]
fn cached_perft_matches_plain_count() {
    let movegen = MoveGenerator::new();
    for fen in [
        KIWIPETE,
        &b"8/2p5/3p4/KP5r/1R3p1k/8/4P1P1/8 w - - 0 1"[..],
        &b"r3k2r/Pppp1ppp/1b3nbN/nP6/BBP1P3/q4N2/Pp1P2PP/R2Q1RK1 w kq - 0 1"[..],
    ] {
        let mut board = Board::from_fen(fen);
        let plain = plain_perft(&mut board, &movegen, 3);
        assert_eq!(perft(fen, 3), plain);
    }
}

#[test]
fn pawn_on_third_rank_pushes_one_square() {
    let board = Board::from_fen(b"4k3/8/8/8/8/3P4/8/4K3 w - - 0 1");
    let movegen = MoveGenerator::new();
    let mut buffer = MoveBuffer::new();
    movegen.generate(&board, &mut buffer);
    assert!(buffer.contains(Move::quiet(sq("d3"), sq("d4"))));
    assert!(!buffer.contains(Move::quiet(sq("d3"), sq("d5"))));
}

#[test]
fn blocked_double_step_is_not_generated() {
    let board = Board::from_fen(b"4k3/8/8/8/3p4/8/3P4/4K3 w - - 0 1");
    let movegen = MoveGenerator::new();
    let mut buffer = MoveBuffer::new();
    movegen.generate(&board, &mut buffer);
    assert!(buffer.contains(Move::quiet(sq("d2"), sq("d3"))));
    assert!(!buffer.contains(Move::quiet(sq("d2"), sq("d4"))));
}

#[test]
fn black_pawn_promotes_on_first_rank() {
    let board = Board::from_fen(b"4k3/8/8/8/8/8/1p6/4K3 b - - 0 1");
    let movegen = MoveGenerator::new();
    let mut buffer = MoveBuffer::new();
    movegen.generate(&board, &mut buffer);
    assert!(buffer.contains(Move::promotion(sq("b2"), sq("b1"), Dignity::Queen)));
    assert!(!buffer.contains(Move::quiet(sq("b2"), sq("b1"))));
}

#[test]
fn en_passant_expires_after_one_move() {
    let mut board = Board::from_fen(b"4k3/8/8/8/4p3/8/3P4/4K3 w - - 0 1");
    let movegen = MoveGenerator::new();
    assert!(movegen.make_move(&mut board, Move::pawn_double(sq("d2"), sq("d4"))));
    assert_eq!(board.en_passant_file(), File::from_index(3));

    let mut buffer = MoveBuffer::new();
    movegen.generate(&board, &mut buffer);
    assert!(buffer.contains(Move::en_passant(sq("e4"), sq("d3"))));

    assert!(movegen.make_move(&mut board, Move::quiet(sq("e8"), sq("f8"))));
    assert!(movegen.make_move(&mut board, Move::quiet(sq("e1"), sq("f1"))));
    assert_eq!(board.en_passant_file(), File::en_passant_none());
    buffer.reset();
    movegen.generate(&board, &mut buffer);
    assert!(!buffer.contains(Move::en_passant(sq("e4"), sq("d3"))));
}

#[test]
fn castling_through_check_is_illegal_and_without_right_absent() {
    let mut board = Board::from_fen(b"r3k2r/8/8/8/8/8/8/R3K2R b KQ - 0 1");
    let movegen = MoveGenerator::new();
    let mut buffer = MoveBuffer::new();
    movegen.generate(&board, &mut buffer);
    assert!(!buffer.contains(Move::king_side_castling(sq("e8"), sq("g8"))));

    board = Board::from_fen(b"4k3/8/8/8/8/8/8/R3K2R w KQ - 0 1");
    buffer.reset();
    movegen.generate(&board, &mut buffer);
    assert!(buffer.contains(Move::king_side_castling(sq("e1"), sq("g1"))));
    assert!(movegen.make_move(&mut board, Move::king_side_castling(sq("e1"), sq("g1"))));
    assert_eq!(board.side_to_move(), Color::Black);
}

#[test]
fn board_diagram_draws_ranks_and_files() {
    let board = Board::from_fen(b"4k3/8/8/8/8/8/8/R3K3 w - - 0 1");
    let text = String::from_utf8(board.diagram()).unwrap();
    let expected = [
        " 8 | .  .  .  .  k  .  .  . ",
        " 7 | .  .  .  .  .  .  .  . ",
        " 6 | .  .  .  .  .  .  .  . ",
        " 5 | .  .  .  .  .  .  .  . ",
        " 4 | .  .  .  .  .  .  .  . ",
        " 3 | .  .  .  .  .  .  .  . ",
        " 2 | .  .  .  .  .  .  .  . ",
        " 1 | R  .  .  .  K  .  .  . ",
        "     -  -  -  -  -  -  -  -",
        "     a  b  c  d  e  f  g  h",
    ]
    .join("\n");
    assert_eq!(text, expected);
}

#[test]
fn piece_names() {
    assert_eq!(Piece::new(Color::White, Dignity::Knight).name(), b"White Knight".to_vec());
    assert_eq!(Piece::new(Color::Black, Dignity::Queen).name(), b"Black Queen".to_vec());
    assert_eq!(Piece::new(Color::White, Dignity::Empty).name(), b"None (Piece)".to_vec());
}
