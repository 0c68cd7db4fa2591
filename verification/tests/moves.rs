use cadabra::color::Color;
use cadabra::moves::{Move, MoveType};
use cadabra::piece::PieceType;
use cadabra::square::{square_name_bytes, Square};

#[test]
fn move_parts_round_trip() {
    let m = Move::new(12, 28, MoveType::DoublePush);
    assert_eq!(m.src(), 12);
    assert_eq!(m.dst(), 28);
    assert!(m.is_double_push());
    assert!(!m.is_capture());
    assert!(!m.is_promotion());
    assert_eq!(Move::from_data(m.data), m);
}

#[test]
fn move_encoding_exact_word() {
    // flags in bits 0-3, source in bits 4-9, destination in bits 10-15
    let m = Move::new(1, 2, MoveType::Capture);
    assert_eq!(m.data, 1 | (1 << 4) | (2 << 10));
}

#[test]
fn move_uci_text() {
    let e2 = Square::from_str("e2").unwrap().index();
    let e4 = Square::from_str("e4").unwrap().index();
    let m = Move::new_normal(e2, e4, false);
    assert_eq!(m.to_uci_string(), "e2e4");
}

#[test]
fn promotion_uci_text() {
    let a7 = Square::from_str("a7").unwrap().index();
    let b8 = Square::from_str("b8").unwrap().index();
    let m = Move::new_promotion(a7, b8, PieceType::Queen, true);
    assert!(m.is_promotion());
    assert!(m.is_capture());
    assert_eq!(m.promotion(), PieceType::Queen);
    assert_eq!(m.to_uci_string(), "a7b8q");
    let n = Move::new_promotion(a7, a7 - 8, PieceType::Knight, false);
    assert_eq!(n.promotion(), PieceType::Knight);
    assert!(!n.is_capture());
    assert!(n.to_uci_string().ends_with('n'));
}

#[test]
fn null_move() {
    let m = Move::null();
    assert!(m.is_null());
    assert_eq!(m.data, 0);
    assert!(!Move::new_normal(0, 1, false).is_null());
}

#[test]
fn castling_moves() {
    let e1 = Square::from_str("e1").unwrap().index();
    let g1 = Square::from_str("g1").unwrap().index();
    let c1 = Square::from_str("c1").unwrap().index();
    let ks = Move::new(e1, g1, MoveType::CastleKingSide);
    let qs = Move::new(e1, c1, MoveType::CastleQueenSide);
    assert!(ks.is_castle_ks() && ks.is_castling() && !ks.is_castle_qs());
    assert!(qs.is_castle_qs() && qs.is_castling() && !qs.is_castle_ks());
    assert_eq!(ks.to_uci_string(), "e1g1");
}

#[test]
fn enpassant_move() {
    let m = Move::new(28, 21, MoveType::Enpassant);
    assert!(m.is_enpassant());
    assert!(m.is_capture());
    assert_eq!(m.move_type(), MoveType::Enpassant);
}

#[test]
fn square_names() {
    assert_eq!(square_name_bytes(0), b"a8".to_vec());
    assert_eq!(square_name_bytes(63), b"h1".to_vec());
    assert_eq!(square_name_bytes(36), b"e4".to_vec());
    assert_eq!(Square::from_str("a8").unwrap(), Square::a8);
    assert_eq!(Square::from_str("h1").unwrap().index(), 63);
    assert_eq!(Square::e4.name(), b"e4".to_vec());
    assert_eq!(Square::from_index(36), Square::e4);
}

#[test]
fn bad_square_names() {
    assert!(Square::from_str("i1").is_err());
    assert!(Square::from_str("a9").is_err());
    assert!(Square::from_str("a").is_err());
    assert!(Square::from_str("a10").is_err());
}

#[test]
fn conversions() {
    let m = Move::new(12, 28, MoveType::DoublePush);
    assert_eq!(Move::from(m.data), m);
    let n: Move = 0u16.into();
    assert!(n.is_null());
    assert_eq!(Color::from(false), Color::White);
    assert_eq!(Color::from(true), Color::Black);
}
