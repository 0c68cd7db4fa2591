use cadabra::castling::CastlingAbility;
use cadabra::color::Color;
use cadabra::moves::{Move, MoveType};
use cadabra::piece::char_to_piece;
use cadabra::position::Position;
use cadabra::repetition::RepetitionTable;
use cadabra::score::MATE_VALUE;
use cadabra::search::{negamax, quiescence, Search, SearchContext, BASE_CAPTURE_SCORE, BASE_KILLER_SCORE};
use cadabra::search_args::{SearchArgs, Settings};
use cadabra::square::Square;
use cadabra::uci::parse_set_option;

fn context_for(pos: Position) -> SearchContext {
    let search = Search::new(Settings::default().transposition_table_mb(1));
    SearchContext::new(search, SearchArgs::new_simple_depth(1), pos, std::time::Instant::now(), false)
}

#[test]
fn move_type_capture_leaves_out_en_passant() {
    assert!(MoveType::Capture.is_capture());
    assert!(!MoveType::Enpassant.is_capture());
    assert!(!MoveType::Quiet.is_capture());
    assert!(!MoveType::Promotion.is_capture());
    assert!(!MoveType::DoublePush.is_capture());
    assert!(!MoveType::CastleKingSide.is_capture());
    assert!(!MoveType::CastleQueenSide.is_capture());
}

#[test]
fn en_passant_ordered_as_pawn_takes_pawn() {
    let pos = Position::from_fen("4k3/8/8/3pP3/8/8/8/4K3 w - d6 0 1").unwrap();
    let context = context_for(pos);
    let ep = Move::new(28, 19, MoveType::Enpassant);
    let score = ep.score_move(&pos, &context, None, 0);
    assert_eq!(score, 29105);
    assert!(score > BASE_KILLER_SCORE);
    assert_eq!(score, BASE_CAPTURE_SCORE + 105);
}

#[test]
fn threefold_forgets_cleared_hashes() {
    let mut pos = Position::from_fen("4k3/8/8/8/8/8/8/4K3 w - - 10 20").unwrap();
    let h = pos.zobrist_hash;
    let mut table = RepetitionTable::new();
    table.push(h);
    table.push(h);
    table.push(h);
    assert!(table.is_in_3_fold_rep(&pos));
    table.clear();
    assert!(!table.is_in_3_fold_rep(&pos));
    table.push(h);
    table.push(h);
    assert!(!table.is_in_3_fold_rep(&pos));
    table.push(h);
    assert!(table.is_in_3_fold_rep(&pos));
    pos.half_moves = 7;
    assert!(!table.is_in_3_fold_rep(&pos));
}

#[test]
fn mated_side_scores_mate_at_its_ply() {
    let pos = Position::from_fen("rnb1kbnr/pppp1ppp/8/4p3/6Pq/5P2/PPPPP2P/RNBQKBNR w KQkq - 1 3").unwrap();
    let mut context = context_for(pos);
    let r = negamax(&pos, -30000, 30000, 1, 3, &mut context, false);
    assert_eq!(r, -MATE_VALUE + 3);
    assert_eq!(r, -28997);
}

#[test]
fn drawn_position_scores_zero() {
    let pos = Position::from_fen("4k3/8/8/8/8/8/8/4K3 w - - 0 1").unwrap();
    let mut context = context_for(pos);
    assert_eq!(negamax(&pos, -50, 50, 3, 1, &mut context, false), 0);
    let fifty = Position::from_fen("4k3/8/8/8/8/8/8/R3K3 w - - 100 80").unwrap();
    let mut context = context_for(fifty);
    assert_eq!(negamax(&fifty, -50, 50, 3, 1, &mut context, false), 0);
}

#[test]
fn quiescence_stands_pat_and_cuts_off() {
    let pos = Position::from_fen("4k3/8/8/8/8/8/8/Q3K3 w - - 0 1").unwrap();
    let mut context = context_for(pos);
    let eval = pos.evaluate();
    assert_eq!(quiescence(&pos, -30000, eval, 0, &mut context), eval);
    assert_eq!(quiescence(&pos, -30000, eval - 10, 0, &mut context), eval - 10);
    let r = quiescence(&pos, -30000, 30000, 0, &mut context);
    assert!(r >= eval);
}

#[test]
fn color_error_names_the_text() {
    assert_eq!(Color::from_str("x").err().unwrap(), "Illegal color string: 'x'. Expected 'w' or 'b'");
    assert_eq!(Color::from_str("white").err().unwrap(), "Illegal color string: 'white'. Expected 'w' or 'b'");
}

#[test]
fn piece_error_names_the_char() {
    assert_eq!(char_to_piece('x').err().unwrap(), "Illegal piece char: 'x'");
}

#[test]
fn castling_errors_name_the_char() {
    assert_eq!(
        CastlingAbility::from_str("KX").err().unwrap(),
        "Illegal char in castling ability string: 'X'"
    );
    assert_eq!(CastlingAbility::from_str("KK").err().unwrap(), "Duplicate char in castling string: 1");
    assert_eq!(CastlingAbility::from_str("Kqq").err().unwrap(), "Duplicate char in castling string: 8");
}

#[test]
fn fen_error_texts() {
    assert_eq!(Position::from_fen("8/8/8/8/8/8/8/8").err().unwrap(), "Expected a color char");
    assert_eq!(
        Position::from_fen("8/8/8/8/8/8/8/8 x").err().unwrap(),
        "Illegal color string: 'x'. Expected 'w' or 'b'"
    );
    assert!(Position::from_fen("8/8/8/8/8/8/8/8 w KK").is_err());
    assert_eq!(
        Position::from_fen("8/8/8/8/8/8/8/8 w KK").err().unwrap(),
        "Duplicate char in castling string: 1"
    );
    assert_eq!(Position::from_fen("8/8/8/8/8/8/8/8 w - - a").err().unwrap(), "Half moves was not a number");
    assert_eq!(Position::from_fen("8/8/8/8/8/8/8/8 w - - 0 z").err().unwrap(), "Full moves was not a number");
    assert_eq!(
        Position::from_fen("8/8/8/8/8/8/8/8/p w").err().unwrap(),
        "Board from fen does not fit on the board"
    );
    assert_eq!(
        Position::from_fen("8/8/8/8/8/8/8/7x w - - 0 1").err().unwrap(),
        "Illegal piece char: 'x'"
    );
}

#[test]
fn illegal_move_names_the_move() {
    let mut pos = Position::start_pos();
    assert_eq!(pos.make_uci_move("e7e9").err().unwrap(), "Illegal move: e7e9");
    assert!(pos.make_uci_move("e2e4").is_ok());
}

#[test]
fn set_option_error_texts() {
    let s = Settings::default();
    assert_eq!(parse_set_option("", s).err().unwrap(), "Expected 'name' in command after 'setoption'");
    assert_eq!(parse_set_option("name", s).err().unwrap(), "No option name provided");
    assert_eq!(parse_set_option("name Hash 16", s).err().unwrap(), "Expected 'value' after 'Hash'");
    assert_eq!(parse_set_option("name Threads", s).err().unwrap(), "Expected 'value' after 'Threads'");
    assert_eq!(parse_set_option("name Hash value", s).err().unwrap(), "No value provided for Hash option");
    assert_eq!(
        parse_set_option("name Hash value 12", s).err().unwrap(),
        "Transposition size must be a positive power of 2"
    );
    assert_eq!(parse_set_option("name Threads value x", s).err().unwrap(), "No value provided for Threads option");
    assert_eq!(parse_set_option("name Threads value 0", s).err().unwrap(), "Threads must be at least 1");
}

#[test]
fn square_error_texts() {
    assert_eq!(Square::from_str("e44").err().unwrap(), "Square string must be 2 chars but was 3");
    assert_eq!(Square::from_str("").err().unwrap(), "Square string must be 2 chars but was 0");
    assert_eq!(Square::from_str("z4").err().unwrap(), "Illegal file in square string");
    assert_eq!(Square::from_str("e9").err().unwrap(), "Illegal rank in square string");
    assert_eq!(Square::from_str("é4").err().unwrap(), "Square string contained non ASCII characters");
    assert_eq!(Square::from_str("e4").unwrap().index(), 36);
}
