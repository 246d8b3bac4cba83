use chess_perft::chess_move::Move;
use chess_perft::piece::Dignity;
use chess_perft::square::Square;

fn sq(name: &str) -> Square {
    let b = name.as_bytes();
    Square::from_fen(b[0], b[1])
}

#[test]
fn bit_stucture() {
    let chess_move = Move::capture(sq("a2"), sq("a3"), Dignity::Pawn);

    assert_eq!(sq("a2"), chess_move.from());
    assert_eq!(sq("a3"), chess_move.to());
    assert_eq!(Dignity::Pawn, chess_move.captured());
}

#[test]
fn format_promotion() {
    let chess_move = Move::promotion(sq("a7"), sq("a8"), Dignity::Queen);

    assert_eq!(chess_move.notation(), b"a7a8Q".to_vec());
}

#[test]
fn format_capture() {
    let chess_move = Move::capture(sq("e4"), sq("f5"), Dignity::Rook);

    assert_eq!(chess_move.notation(), b"e4f5".to_vec());
}

#[test]
fn move_index_packs_fields() {
    // from e7 (52), to d8 (59), captured rook (4), promoted queen (5).
    let chess_move = Move::promotion_capture(sq("e7"), sq("d8"), Dignity::Rook, Dignity::Queen);
    assert_eq!(chess_move.index(), 52 + 64 * 59 + 4096 * 4 + 32768 * 5);

    let en_passant = Move::en_passant(sq("e5"), sq("d6"));
    assert_eq!(en_passant.index(), 36 + 64 * 43 + 4096 * 1 + 262144);
    assert!(en_passant.is_en_passant());
}
