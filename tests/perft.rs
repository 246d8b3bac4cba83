use chess_perft::board::Board;
use chess_perft::perft::{perft, perft_from};

fn check(fen: &[u8], expected: &[(usize, usize)]) {
    for &(result, depth) in expected {
        assert_eq!(perft(fen, depth), result);
    }
}

#[test]
fn perft_startpos() {
    check(
        b"rnbqkbnr/pppppppp/8/8/8/8/PPPPPPPP/RNBQKBNR w KQkq - 0 1",
        &[(20, 1), (400, 2), (8_902, 3), (197_281, 4), (4_865_609, 5)],
    );
}

#[test]
fn kiwipete() {
    check(
        b"r3k2r/p1ppqpb1/bn2pnp1/3PN3/1p2P3/2N2Q1p/PPPBBPPP/R3K2R w KQkq - 0 1",
        &[(48, 1), (2039, 2), (97_862, 3), (4_085_603, 4)],
    );
}

#[test]
fn cpw_position_3() {
    check(
        b"8/2p5/3p4/KP5r/1R3p1k/8/4P1P1/8 w - - 0 1",
        &[(14, 1), (191, 2), (2_812, 3), (43_238, 4), (674_624, 5)],
    );
}

#[test]
fn cpw_position_4() {
    check(
        b"r3k2r/Pppp1ppp/1b3nbN/nP6/BBP1P3/q4N2/Pp1P2PP/R2Q1RK1 w kq - 0 1",
        &[(6, 1), (264, 2), (9_467, 3), (422_333, 4)],
    );
}

#[test]
fn cpw_position_4_depth_5() {
    check(
        b"r3k2r/Pppp1ppp/1b3nbN/nP6/BBP1P3/q4N2/Pp1P2PP/R2Q1RK1 w kq - 0 1",
        &[(15_833_292, 5)],
    );
}

#[test]
fn cpw_position_5() {
    check(
        b"rnbq1k1r/pp1Pbppp/2p5/8/2B5/8/PPP1NnPP/RNBQK2R w KQ - 1 8",
        &[(44, 1), (1_486, 2), (62_379, 3), (2_103_487, 4)],
    );
}

#[test]
fn cpw_position_6() {
    check(
        b"r4rk1/1pp1qppp/p1np1n2/2b1p1B1/2B1P1b1/P1NP1N2/1PP1QPPP/R4RK1 w - - 0 10",
        &[(46, 1), (2_079, 2), (89_890, 3), (3_894_594, 4)],
    );
}

#[test]
fn perft_depth_zero_counts_the_root() {
    assert_eq!(perft(b"rnbqkbnr/pppppppp/8/8/8/8/PPPPPPPP/RNBQKBNR w KQkq - 0 1", 0), 1);
}

#[test]
fn perft_from_leaves_the_board_unchanged() {
    let mut board = Board::from_fen(b"r3k2r/p1ppqpb1/bn2pnp1/3PN3/1p2P3/2N2Q1p/PPPBBPPP/R3K2R w KQkq - 0 1");
    let before = board;
    assert_eq!(perft_from(&mut board, 2), 2039);
    assert_eq!(board.hash(), before.hash());
    assert_eq!(board.placement(), before.placement());
    assert_eq!(board.ply(), before.ply());
}
