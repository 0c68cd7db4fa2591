use cadabra::position::Position;
use cadabra::perft::perft;

const START: &str = "rnbqkbnr/pppppppp/8/8/8/8/PPPPPPPP/RNBQKBNR w KQkq - 0 1";
const KIWIPETE: &str = "r3k2r/p1ppqpb1/bn2pnp1/3PN3/1p2P3/2N2Q1p/PPPBBPPP/R3K2R w KQkq - 0 1";

#[test]
fn start_position_fen() {
    let pos = Position::start_pos();
    assert_eq!(pos.fen_string(), START);
}

#[test]
fn fen_roundtrip_start() {
    let pos = Position::from_fen(START).unwrap();
    assert_eq!(pos.fen_string(), START);
    assert_eq!(pos.zobrist_hash, Position::start_pos().zobrist_hash);
}

#[test]
fn fen_roundtrip_kiwipete() {
    let pos = Position::from_fen(KIWIPETE).unwrap();
    assert_eq!(pos.fen_string(), KIWIPETE);
}

#[test]
fn perft_start_position() {
    let pos = Position::start_pos();
    assert_eq!(perft(&pos, 1), 20);
    assert_eq!(perft(&pos, 2), 400);
    assert_eq!(perft(&pos, 3), 8902);
}

#[test]
fn perft_kiwipete() {
    let pos = Position::from_fen(KIWIPETE).unwrap();
    assert_eq!(perft(&pos, 1), 48);
    assert_eq!(perft(&pos, 2), 2039);
}
