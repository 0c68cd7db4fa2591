use cadabra::castling::{CastlingAbility, CastlingSide};
use cadabra::color::Color;
use cadabra::piece::{char_to_piece, index_to_piece, piece_to_char, PieceType};
use cadabra::position::Position;
use cadabra::square::Square;

const START: &str = "rnbqkbnr/pppppppp/8/8/8/8/PPPPPPPP/RNBQKBNR w KQkq - 0 1";

fn sq(name: &str) -> u8 {
    Square::from_str(name).unwrap().index()
}

#[test]
fn castling_field_parse_and_print() {
    let all = CastlingAbility::from_str("KQkq").unwrap();
    assert_eq!(all.byte, 15);
    assert_eq!(all.to_fen_bytes(), b"KQkq".to_vec());
    let none = CastlingAbility::from_str("-").unwrap();
    assert_eq!(none.byte, 0);
    assert_eq!(none.to_fen_bytes(), b"-".to_vec());
    let some = CastlingAbility::from_str("Kq").unwrap();
    assert!(some.is_side_available(CastlingSide::WhiteKingSide));
    assert!(!some.is_side_available(CastlingSide::WhiteQueenSide));
    assert!(!some.is_side_available(CastlingSide::BlackKingSide));
    assert!(some.is_side_available(CastlingSide::BlackQueenSide));
    assert_eq!(some.to_fen_bytes(), b"Kq".to_vec());
    assert!(CastlingAbility::from_str("X").is_err());
    assert!(CastlingAbility::from_str("KK").is_err());
    assert_eq!(CastlingAbility::from_str("").unwrap().byte, 0);
}

#[test]
fn castling_rights_lost_by_king_and_rook_moves() {
    let mut c = CastlingAbility::from_str("KQkq").unwrap();
    c.update(sq("h1"), sq("h5"));
    assert_eq!(c.to_fen_bytes(), b"Qkq".to_vec());
    c.update(sq("e8"), sq("e7"));
    assert_eq!(c.to_fen_bytes(), b"Q".to_vec());
    c.update(sq("b2"), sq("a1"));
    assert_eq!(c.to_fen_bytes(), b"-".to_vec());
}

#[test]
fn colors() {
    assert_eq!(Color::from_str("w").unwrap(), Color::White);
    assert_eq!(Color::from_str("b").unwrap(), Color::Black);
    assert!(Color::from_str("x").is_err());
    assert_eq!(Color::White.opposite(), Color::Black);
    assert_eq!(Color::Black.opposite(), Color::White);
    assert_eq!(Color::White.piece_offset(), 0);
    assert_eq!(Color::Black.piece_offset(), 6);
}

#[test]
fn piece_letters() {
    assert_eq!(char_to_piece('K').unwrap(), (Color::White, PieceType::King));
    assert_eq!(char_to_piece('n').unwrap(), (Color::Black, PieceType::Knight));
    assert!(char_to_piece('x').is_err());
    assert_eq!(piece_to_char(Color::Black, PieceType::Queen), 'q');
    assert_eq!(piece_to_char(Color::White, PieceType::Pawn), 'P');
    for i in 0..12 {
        let (c, p) = index_to_piece(i);
        assert_eq!(p.index(c), i);
        assert_eq!(char_to_piece(piece_to_char(c, p)).unwrap(), (c, p));
    }
}

#[test]
fn bad_fens_are_refused() {
    assert!(Position::from_fen("").is_err());
    assert!(Position::from_fen("rnbqkbnr/pppppppp/8/8/8/8/PPPPPPPP/RNBQKBNR").is_err());
    assert!(Position::from_fen("rnbqkbnr/pppppppp/8/8/8/8/PPPPPPPP/RNBQKBNR/K w KQkq - 0 1").is_err());
    assert!(Position::from_fen("rnbqkbnr/pppppppp/8/8/8/8/PPPPPPPP/RNBQKBNR x KQkq - 0 1").is_err());
    assert!(Position::from_fen("rnbqkbnr/pppppppp/8/8/8/8/PPPPPPPP/RNBQKBNR w KQkz - 0 1").is_err());
    assert!(Position::from_fen("rnbqkbnr/pppppppp/8/8/8/8/PPPPPPPP/RNBQKBNR w KQkq e9 0 1").is_err());
    assert!(Position::from_fen("rnbqkbnr/pppppppp/8/8/8/8/PPPPPPPP/RNBQKBNR w KQkq - x 1").is_err());
    assert!(Position::from_fen("rnbqkbnr/ppppXppp/8/8/8/8/PPPPPPPP/RNBQKBNR w KQkq - 0 1").is_err());
}

#[test]
fn fen_with_en_passant_and_counters() {
    let fen = "rnbqkbnr/pppp1ppp/8/4p3/4P3/8/PPPP1PPP/RNBQKBNR w KQkq e6 0 2";
    let pos = Position::from_fen(fen).unwrap();
    assert_eq!(pos.fen_string(), fen);
    assert_eq!(pos.enpassant_square.0, 1u64 << sq("e6"));
    assert_eq!(pos.full_moves, 2);
    assert_eq!(pos.active_color, Color::White);
    let black = "8/8/8/8/8/8/8/K6k b - - 12 40";
    let pos = Position::from_fen(black).unwrap();
    assert_eq!(pos.fen_string(), black);
    assert_eq!(pos.half_moves, 12);
    assert_eq!(pos.full_moves, 40);
}

#[test]
fn fen_surrounding_spaces_are_trimmed() {
    let pos = Position::from_fen("  8/8/8/8/8/8/8/K6k w - - 0 1  ").unwrap();
    assert_eq!(pos.fen_string(), "8/8/8/8/8/8/8/K6k w - - 0 1");
}

#[test]
fn pieces_on_squares() {
    let pos = Position::start_pos();
    assert_eq!(pos.piece_at(sq("e1")), Some((Color::White, PieceType::King)));
    assert_eq!(pos.piece_at(sq("d8")), Some((Color::Black, PieceType::Queen)));
    assert_eq!(pos.piece_at(sq("e4")), None);
    assert_eq!(pos.piece_type_at(sq("a2")), PieceType::Pawn);
    assert_eq!(pos.king_position(Color::White), sq("e1"));
    assert_eq!(pos.king_position(Color::Black), sq("e8"));
    assert_eq!(pos.bb(Color::White, PieceType::Pawn).0, 0x00ff_0000_0000_0000);
    assert_eq!(pos.color_bb(Color::Black).0, 0xffff);
}

#[test]
fn uci_move_is_played() {
    let mut pos = Position::start_pos();
    pos.make_uci_move("e2e4").unwrap();
    assert_eq!(pos.fen_string(), "rnbqkbnr/pppppppp/8/8/4P3/8/PPPP1PPP/RNBQKBNR b KQkq e3 0 1");
    pos.make_uci_move("e7e5").unwrap();
    pos.make_uci_move("g1f3").unwrap();
    assert_eq!(pos.fen_string(), "rnbqkbnr/pppp1ppp/8/4p3/4P3/5N2/PPPP1PPP/RNBQKB1R b KQkq - 1 2");
}

#[test]
fn illegal_uci_move_leaves_position() {
    let mut pos = Position::start_pos();
    assert!(pos.make_uci_move("e2e5").is_err());
    assert!(pos.make_uci_move("zz").is_err());
    assert_eq!(pos.fen_string(), START);
}

#[test]
fn incremental_hash_matches_fresh_hash() {
    let mut pos = Position::start_pos();
    for m in ["e2e4", "d7d5", "e4d5", "g8f6", "f1b5", "c7c6", "d5c6", "d8d2", "b1d2", "e7e5", "c6b7", "e8e7", "b7a8q"] {
        pos.make_uci_move(m).unwrap();
        let fresh = Position::from_fen(&pos.fen_string()).unwrap();
        assert_eq!(pos.zobrist_hash, fresh.zobrist_hash, "after {}", m);
    }
}

#[test]
fn castling_and_en_passant_moves() {
    let mut pos = Position::from_fen("r3k2r/8/8/8/8/8/8/R3K2R w KQkq - 0 1").unwrap();
    pos.make_uci_move("e1g1").unwrap();
    assert_eq!(pos.fen_string(), "r3k2r/8/8/8/8/8/8/R4RK1 b kq - 1 1");
    pos.make_uci_move("e8c8").unwrap();
    assert_eq!(pos.fen_string(), "2kr3r/8/8/8/8/8/8/R4RK1 w - - 2 2");
    let mut ep = Position::from_fen("4k3/8/8/3pP3/8/8/8/4K3 w - d6 0 1").unwrap();
    ep.make_uci_move("e5d6").unwrap();
    assert_eq!(ep.fen_string(), "4k3/8/3P4/8/8/8/8/4K3 b - - 0 1");
}

#[test]
fn null_move_passes_the_turn() {
    let mut pos = Position::from_fen("rnbqkbnr/pppppppp/8/8/4P3/8/PPPP1PPP/RNBQKBNR b KQkq e3 0 1").unwrap();
    pos.make_null_move();
    assert_eq!(pos.active_color, Color::White);
    assert_eq!(pos.enpassant_square.0, 0);
    let fresh = Position::from_fen(&pos.fen_string()).unwrap();
    assert_eq!(pos.zobrist_hash, fresh.zobrist_hash);
}

#[test]
fn check_detection() {
    assert!(!Position::start_pos().is_in_check());
    let pos = Position::from_fen("4k3/8/8/8/8/8/8/4K2r w - - 0 1").unwrap();
    assert!(pos.is_in_check());
    let pos = Position::from_fen("4k3/8/8/8/8/5n2/8/4K3 w - - 0 1").unwrap();
    assert!(pos.is_in_check());
    let pos = Position::from_fen("4k3/8/8/8/8/8/3p4/4K3 w - - 0 1").unwrap();
    assert!(pos.is_in_check());
    let pos = Position::from_fen("4k3/8/8/8/8/8/4p3/4K3 w - - 0 1").unwrap();
    assert!(!pos.is_in_check());
}

#[test]
fn insufficient_material() {
    assert!(Position::from_fen("4k3/8/8/8/8/8/8/4K3 w - - 0 1").unwrap().is_insufficient_material());
    assert!(Position::from_fen("4k3/8/8/8/8/8/8/4KN2 w - - 0 1").unwrap().is_insufficient_material());
    assert!(!Position::from_fen("4k3/8/8/8/8/8/8/4KQ2 w - - 0 1").unwrap().is_insufficient_material());
    assert!(!Position::from_fen("4k3/8/8/8/8/8/4P3/4K3 w - - 0 1").unwrap().is_insufficient_material());
    assert!(!Position::start_pos().is_insufficient_material());
}

#[test]
fn evaluation_is_symmetric_at_start() {
    assert_eq!(Position::start_pos().evaluate(), 0);
    let white_up = Position::from_fen("4k3/8/8/8/8/8/8/3QK3 w - - 0 1").unwrap().evaluate();
    let black_to_move = Position::from_fen("4k3/8/8/8/8/8/8/3QK3 b - - 0 1").unwrap().evaluate();
    assert!(white_up > 0);
    assert_eq!(white_up, -black_to_move);
}

#[test]
fn pieces_are_counted() {
    let pos = Position::start_pos();
    assert_eq!(pos.count_pieces(PieceType::Pawn), 16);
    assert_eq!(pos.count_pieces(PieceType::Queen), 2);
    let pos = Position::from_fen("4k3/8/8/8/8/8/8/3QK2Q w - - 0 1").unwrap();
    assert_eq!(pos.count_pieces(PieceType::Queen), 2);
    assert_eq!(pos.count_pieces(PieceType::Rook), 0);
}
