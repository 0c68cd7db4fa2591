use cadabra::interface::{interpret, Action};
use cadabra::moves::Move;
use cadabra::perft::{perft, perft_divide};
use cadabra::position::Position;
use cadabra::search_args::Settings;
use cadabra::uci::parse_position;
use cadabra::moves::MoveType;
use cadabra::search::{
    decide_futility, decide_probe, late_move_reduction, no_move_score, null_move_allowed, quiescence, step_score,
    ProbeDecision, ScoreStep, Search, SearchContext,
};
use cadabra::search_args::SearchArgs;
use cadabra::tt::{entry_of_words, EntryData, HashFlag, TranspositionTable};

const KIWIPETE: &str = "r3k2r/p1ppqpb1/bn2pnp1/3PN3/1p2P3/2N2Q1p/PPPBBPPP/R3K2R w KQkq - 0 1";

fn move_words(pos: &Position) -> Vec<u16> {
    let list = pos.generate_moves();
    (0..list.len()).map(|i| list.get(i).0).collect()
}

#[test]
fn generated_moves_listed_once() {
    for fen in [
        "rnbqkbnr/pppppppp/8/8/8/8/PPPPPPPP/RNBQKBNR w KQkq - 0 1",
        KIWIPETE,
        "4k3/8/8/8/8/8/8/Q3K3 w - - 0 1",
        "1q6/8/8/3pP3/8/8/7K/8 w - d6 0 1",
    ] {
        let pos = Position::from_fen(fen).unwrap();
        let mut words = move_words(&pos);
        let n = words.len();
        words.sort();
        words.dedup();
        assert_eq!(words.len(), n, "a move is listed twice in {}", fen);
    }
    assert_eq!(move_words(&Position::start_pos()).len(), 20);
    assert_eq!(move_words(&Position::from_fen(KIWIPETE).unwrap()).len(), 48);
}

#[test]
fn pinned_queen_moves_listed_once() {
    // the queen on e2 is pinned on the e-file: it may only move along it
    let pos = Position::from_fen("4r1k1/8/8/8/8/8/4Q3/4K3 w - - 0 1").unwrap();
    let words = move_words(&pos);
    let queen_moves: Vec<Move> =
        words.iter().map(|w| Move::from_data(*w)).filter(|m| m.src() == 52).collect();
    assert_eq!(queen_moves.len(), 6);
    let mut sorted = words.clone();
    sorted.sort();
    sorted.dedup();
    assert_eq!(sorted.len(), words.len());
}

#[test]
fn perft_one_counts_the_generated_moves() {
    let pos = Position::from_fen(KIWIPETE).unwrap();
    assert_eq!(perft(&pos, 1), 48);
    assert_eq!(perft(&Position::start_pos(), 1), 20);
}

#[test]
fn divide_lists_each_generated_move_once() {
    let pos = Position::start_pos();
    let parts = perft_divide(&pos, 2);
    assert_eq!(parts.len(), 20);
    let mut words: Vec<u16> = parts.iter().map(|(m, _)| m.data).collect();
    words.sort();
    words.dedup();
    assert_eq!(words.len(), 20);
    assert!(parts.iter().all(|(_, n)| *n == 20));
    assert_eq!(parts.iter().map(|(_, n)| *n).sum::<u64>(), 400);
}

#[test]
fn generated_move_text_is_played() {
    let mut pos = Position::start_pos();
    assert!(pos.make_uci_move("e2e4").is_ok());
    assert!(pos.make_uci_move("e7e5").is_ok());
    assert!(pos.make_uci_move("g1f3").is_ok());
    assert_eq!(pos.fen_string(), "rnbqkbnr/pppp1ppp/8/4p3/4P3/5N2/PPPP1PPP/RNBQKB1R b KQkq - 1 2");
}

#[test]
fn playable_position_command_succeeds() {
    let pos = parse_position("startpos moves e2e4 e7e5 g1f3").unwrap();
    assert_eq!(pos.fen_string(), "rnbqkbnr/pppp1ppp/8/4p3/4P3/5N2/PPPP1PPP/RNBQKB1R b KQkq - 1 2");
    assert_eq!(parse_position("startpos moves e2e4 e7e9").err().unwrap(), "Illegal move: e7e9");
}

#[test]
fn move_command_plays_a_generated_move() {
    let pos = Position::start_pos();
    match interpret("move e2e4", &pos, Settings::default(), false) {
        Action::NewPosition(q) => {
            assert_eq!(q.fen_string(), "rnbqkbnr/pppppppp/8/8/4P3/8/PPPP1PPP/RNBQKBNR b KQkq e3 0 1")
        },
        _ => panic!("move e2e4 was not played"),
    }
    match interpret("position startpos moves d2d4 d7d5", &pos, Settings::default(), false) {
        Action::NewPosition(q) => {
            assert_eq!(q.fen_string(), "rnbqkbnr/ppp1pppp/8/3p4/3P4/8/PPP1PPPP/RNBQKBNR w KQkq d6 0 2")
        },
        _ => panic!("the position command was refused"),
    }
}

#[test]
fn evaluation_speaks_for_the_side_to_move() {
    let white = Position::from_fen("4k3/8/8/8/8/8/4PP2/3QK3 w - - 0 1").unwrap();
    let black = Position::from_fen("4k3/8/8/8/8/8/4PP2/3QK3 b - - 0 1").unwrap();
    assert_eq!(white.evaluate(), -black.evaluate());
    assert!(white.evaluate() > 0);
}

#[test]
fn evaluation_does_not_favor_a_color() {
    let pos = Position::from_fen("4k3/8/8/8/8/2N5/4PP2/3QK3 w - - 0 1").unwrap();
    let mirrored = Position::from_fen("3qk3/4pp2/2n5/8/8/8/8/4K3 b - - 0 1").unwrap();
    assert_eq!(pos.evaluate(), mirrored.evaluate());
    let start = Position::start_pos();
    let start_black = Position::from_fen("rnbqkbnr/pppppppp/8/8/8/8/PPPPPPPP/RNBQKBNR b KQkq - 0 1").unwrap();
    assert_eq!(start.evaluate(), start_black.evaluate());
}

#[test]
fn played_move_keeps_the_hash_up_to_date() {
    let mut pos = Position::from_fen(KIWIPETE).unwrap();
    for word in ["e1g1", "h3g2", "f3f6"] {
        pos.make_uci_move(word).unwrap();
        let mut fresh = pos;
        fresh.generate_zobrist_hash();
        assert_eq!(fresh.zobrist_hash, pos.zobrist_hash);
    }
}

#[test]
fn refused_move_command_names_the_move() {
    let pos = Position::start_pos();
    match interpret("move e7e9", &pos, Settings::default(), false) {
        Action::Refused(t) => assert_eq!(t, "Illegal move: e7e9"),
        _ => panic!("move e7e9 was not refused"),
    }
    let bare = Position::from_fen("4k3/8/8/8/8/8/8/8 w - - 0 1").unwrap();
    match interpret("move e1e2", &bare, Settings::default(), false) {
        Action::Refused(t) => assert_eq!(t, "No move can be made in this position"),
        _ => panic!("a move without a king was not refused"),
    }
}

#[test]
fn refused_position_command_names_the_move() {
    let pos = Position::start_pos();
    match interpret("position startpos moves e2e4 e7e9", &pos, Settings::default(), false) {
        Action::Refused(t) => assert_eq!(t, "Illegal move: e7e9"),
        _ => panic!("the position command was not refused"),
    }
}

#[test]
fn empty_table_slot_holds_no_entry() {
    let tt = TranspositionTable::new(1);
    assert!(tt.probe(0, 0).is_none());
    assert!(entry_of_words(0, 0, 0, 0).is_none());
    let m = Move::new(1, 2, MoveType::Quiet);
    let e = EntryData::new(77, 12, 3, m, HashFlag::Exact, 1);
    let data = e.compress();
    let found = entry_of_words(77 ^ data, data, 77, 4).unwrap();
    assert_eq!(found.score, 12);
    assert!(entry_of_words(77 ^ data, data, 78, 4).is_none());
}

#[test]
fn table_entries_decide_the_window() {
    let m = Move::new(1, 2, MoveType::Quiet);
    let deep = |score: i16, flag: HashFlag| Some(EntryData::new(5, score, 4, m, flag, 0));
    assert_eq!(decide_probe(None, false, 3, -10, 10), ProbeDecision::Search(-10, 10, Move::null()));
    assert_eq!(decide_probe(deep(7, HashFlag::Exact), false, 3, -10, 10), ProbeDecision::Cutoff(7));
    assert_eq!(decide_probe(deep(7, HashFlag::Exact), true, 3, -10, 10), ProbeDecision::Search(-10, 10, m));
    assert_eq!(decide_probe(deep(7, HashFlag::Exact), false, 5, -10, 10), ProbeDecision::Search(-10, 10, m));
    assert_eq!(decide_probe(deep(3, HashFlag::LowerBound), false, 3, -10, 10), ProbeDecision::Search(3, 10, m));
    assert_eq!(decide_probe(deep(12, HashFlag::LowerBound), false, 3, -10, 10), ProbeDecision::Cutoff(12));
    assert_eq!(decide_probe(deep(3, HashFlag::UpperBound), false, 3, -10, 10), ProbeDecision::Search(-10, 3, m));
    assert_eq!(decide_probe(deep(-12, HashFlag::UpperBound), false, 3, -10, 10), ProbeDecision::Cutoff(-12));
}

#[test]
fn futility_pruning_margins() {
    assert_eq!(decide_futility(400, 1, false, false, 200), Some(250));
    assert_eq!(decide_futility(400, 1, false, false, 300), None);
    assert_eq!(decide_futility(900, 2, false, false, 200), Some(300));
    assert_eq!(decide_futility(900, 2, true, false, 200), None);
    assert_eq!(decide_futility(900, 2, false, true, 200), None);
    assert_eq!(decide_futility(900, 3, false, false, 200), None);
}

#[test]
fn divide_counts_are_the_counts_after_each_move() {
    let pos = Position::from_fen(KIWIPETE).unwrap();
    let parts = perft_divide(&pos, 2);
    assert_eq!(parts.len(), 48);
    for (m, n) in &parts {
        let mut next = pos;
        next.make_move(*m);
        assert_eq!(*n, perft(&next, 1));
    }
    assert_eq!(parts.iter().map(|(_, n)| *n).sum::<u64>(), 2039);
    assert_eq!(perft(&pos, 2), 2039);
}

#[test]
fn quiescence_counts_its_nodes() {
    let pos = Position::from_fen("4k3/8/8/3p4/4P3/8/8/4K3 w - - 0 1").unwrap();
    let search = Search::new(Settings::default().transposition_table_mb(1));
    let mut context = SearchContext::new(search, SearchArgs::new_simple_depth(1), pos, std::time::Instant::now(), false);
    let before = context.nodes;
    let score = quiescence(&pos, -30000, 30000, 0, &mut context);
    assert!(context.nodes >= before + 2);
    assert!(score >= pos.evaluate());
}

#[test]
fn search_decisions() {
    assert_eq!(step_score(10, 20, 5), ScoreStep::Keep);
    assert_eq!(step_score(10, 20, 10), ScoreStep::Keep);
    assert_eq!(step_score(10, 20, 15), ScoreStep::Raise);
    assert_eq!(step_score(10, 20, 20), ScoreStep::Cut);
    assert_eq!(no_move_score(true, 3), -28997);
    assert_eq!(no_move_score(false, 3), 0);
    assert!(null_move_allowed(false, false, 3, false, 50, 40));
    assert!(!null_move_allowed(false, false, 2, false, 50, 40));
    assert!(!null_move_allowed(true, false, 3, false, 50, 40));
    assert!(!null_move_allowed(false, false, 3, true, 50, 40));
    assert!(!null_move_allowed(false, false, 3, false, 30, 40));
    assert_eq!(late_move_reduction(false, 3, false, false, false, false, 4), 1);
    assert_eq!(late_move_reduction(false, 3, false, false, false, false, 6), 2);
    assert_eq!(late_move_reduction(false, 3, false, false, false, false, 3), 0);
    assert_eq!(late_move_reduction(false, 2, false, false, false, false, 6), 0);
    assert_eq!(late_move_reduction(false, 3, true, false, false, false, 6), 0);
    assert_eq!(late_move_reduction(true, 3, false, false, false, false, 6), 0);
}
