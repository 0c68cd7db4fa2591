use cadabra::moves::Move;
use cadabra::perft::{perft, perft_divide};
use cadabra::position::Position;

fn moves_of(pos: &Position) -> Vec<Move> {
    let list = pos.generate_moves();
    (0..list.len()).map(|i| Move::from_data(list.get(i).0)).collect()
}

#[test]
fn test() {
    let pos = Position::start_pos();
    let moves = moves_of(&pos);
    assert_eq!(moves.len(), 20);
    assert_eq!(moves.iter().filter(|m| m.is_capture()).count(), 0);
    assert_eq!(moves.iter().filter(|m| m.is_enpassant()).count(), 0);
    assert_eq!(moves.iter().filter(|m| m.is_castling()).count(), 0);
    assert_eq!(moves.iter().filter(|m| m.is_promotion()).count(), 0);
}

#[test]
fn double_push_block() {
    let pos = Position::from_fen("rnb1kb1r/pp1p2pp/2p5/q7/8/3P4/PPP1PPPP/RN2KBNR w KQkq - 0 1").unwrap();
    let moves = moves_of(&pos);
    // in check from the queen on a5: only blocks, captures and king moves
    assert!(pos.is_in_check());
    for m in &moves {
        let mut next = pos;
        next.make_move(*m);
        next.make_null_move();
        assert!(!next.is_in_check(), "{} leaves the king in check", m.to_uci_string());
    }
}

#[test]
fn illegal_enpassant_pin() {
    let pos = Position::from_fen("1k6/8/8/1q1pP1K1/8/8/8/8 w - d6 0 1").unwrap();
    assert!(moves_of(&pos).iter().all(|m| !m.is_enpassant()));
}

#[test]
fn legal_enpassant_pin() {
    let pos = Position::from_fen("1q6/8/8/3pP3/8/8/7K/8 w - d6 0 1").unwrap();
    assert_eq!(moves_of(&pos).iter().filter(|m| m.is_enpassant()).count(), 1);
}

#[test]
fn perft_position_3() {
    let pos = Position::from_fen("8/2p5/3p4/KP5r/1R3p1k/8/4P1P1/8 w - - 0 1").unwrap();
    assert_eq!(perft(&pos, 1), 14);
    assert_eq!(perft(&pos, 2), 191);
    assert_eq!(perft(&pos, 3), 2812);
}

#[test]
fn perft_position_4() {
    let pos = Position::from_fen("r3k2r/Pppp1ppp/1b3nbN/nP6/BBP1P3/q4N2/Pp1P2PP/R2Q1RK1 w kq - 0 1").unwrap();
    assert_eq!(perft(&pos, 1), 6);
    assert_eq!(perft(&pos, 2), 264);
    assert_eq!(perft(&pos, 3), 9467);
}

#[test]
fn perft_position_5() {
    let pos = Position::from_fen("rnbq1k1r/pp1Pbppp/2p5/8/2B5/8/PPP1NnPP/RNBQK2R w KQ - 1 8").unwrap();
    assert_eq!(perft(&pos, 1), 44);
    assert_eq!(perft(&pos, 2), 1486);
}

#[test]
fn divide_sums_to_perft() {
    let pos = Position::start_pos();
    let parts = perft_divide(&pos, 3);
    assert_eq!(parts.len(), 20);
    assert_eq!(parts.iter().map(|(_, n)| n).sum::<u64>(), 8902);
}

#[test]
fn king_does_not_step_into_attack() {
    let pos = Position::from_fen("4k3/8/8/8/8/8/3r4/4K3 w - - 0 1").unwrap();
    let mut moves: Vec<String> = moves_of(&pos).iter().map(|m| m.to_uci_string()).collect();
    moves.sort();
    assert_eq!(moves, vec!["e1d2".to_string(), "e1f1".to_string()]);
}

#[test]
fn no_castling_through_or_out_of_check() {
    // f1 is attacked: no king side castling, queen side is free
    let pos = Position::from_fen("4k3/8/8/8/8/8/5r2/R3K2R w KQ - 0 1").unwrap();
    let moves: Vec<String> = moves_of(&pos).iter().filter(|m| m.is_castling()).map(|m| m.to_uci_string()).collect();
    assert_eq!(moves, vec!["e1c1".to_string()]);
    // in check: no castling at all
    let pos = Position::from_fen("4k3/8/8/8/8/8/4r3/R3K2R w KQ - 0 1").unwrap();
    assert!(moves_of(&pos).iter().all(|m| !m.is_castling()));
}

#[test]
fn pawns_promote_on_the_last_rank() {
    let pos = Position::from_fen("1n2k3/P7/8/8/8/8/8/4K3 w - - 0 1").unwrap();
    let promos: Vec<String> = moves_of(&pos).iter().filter(|m| m.is_promotion()).map(|m| m.to_uci_string()).collect();
    assert_eq!(promos.len(), 8);
    assert!(promos.contains(&"a7a8q".to_string()));
    assert!(promos.contains(&"a7b8n".to_string()));
}

#[test]
fn checks_are_answered() {
    // the rook on a1 checks along the first rank: the knight can only take it or block
    let pos = Position::from_fen("4k3/8/8/8/8/1N6/8/r3K3 w - - 0 1").unwrap();
    let mut moves: Vec<String> = moves_of(&pos).iter().map(|m| m.to_uci_string()).collect();
    moves.sort();
    assert_eq!(moves, vec!["b3a1", "b3c1", "e1d2", "e1e2", "e1f2"]);
    // double check: only the king moves
    let pos = Position::from_fen("4k3/8/8/8/8/1N3n2/8/r3K3 w - - 0 1").unwrap();
    assert!(moves_of(&pos).iter().all(|m| m.src() == 60));
}
