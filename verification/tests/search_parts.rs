use cadabra::search::quiescence;
use cadabra::text::{decimal_bytes, parse_decimal};
use cadabra::keys::{castling_key, enpassant_key, piece_key, side_key};
use cadabra::moves::{Move, MoveType};
use cadabra::position::Position;
use cadabra::pv_table::PVTable;
use cadabra::score::{score_bytes, signed_decimal_bytes, MATE_VALUE};
use cadabra::search::{next_generation, run_search, Search, SearchContext};
use cadabra::search_args::{SearchArgs, SearchMeta, Settings, INF, MAX_DEPTH};
use cadabra::tt::{EntryData, HashFlag, TranspositionTable};
use cadabra::zobrist::{generate_keys, rand_u64};

#[test]
fn entry_data_packs_and_unpacks() {
    let m = Move::new(12, 28, MoveType::DoublePush);
    let e = EntryData::new(0xdead_beef, -1234, 7, m, HashFlag::LowerBound, 5);
    let data = e.compress();
    let back = EntryData::new_from_data(0xdead_beef, data).unwrap();
    assert_eq!(back.score, -1234);
    assert_eq!(back.depth, 7);
    assert_eq!(back.best_move, m);
    assert!(matches!(back.flag, HashFlag::LowerBound));
    assert_eq!(back.generation, 5);
    assert!(EntryData::new_from_data(1, 3u64 << 56).is_none());
}

#[test]
fn table_gives_back_what_was_recorded() {
    let tt = TranspositionTable::new(1);
    let m = Move::new(1, 2, MoveType::Quiet);
    assert!(tt.probe(42, 0).is_none());
    tt.record(42, m, 3, 55, HashFlag::Exact, 0, 1);
    let e = tt.probe(42, 0).unwrap();
    assert_eq!(e.score, 55);
    assert_eq!(e.depth, 3);
    assert_eq!(e.best_move, m);
    assert!(matches!(e.flag, HashFlag::Exact));
    assert!(tt.probe(43, 0).is_none());
    let (found, looked) = tt.fill_counts();
    assert_eq!(looked, 1000);
    assert_eq!(found, 1);
    tt.record(3, m, 3, 55, HashFlag::Exact, 0, 1);
    assert_eq!(tt.fill_counts().0, 2);
    tt.clear();
    assert!(tt.probe(42, 0).is_none());
    assert_eq!(tt.fill_counts().0, 0);
}

#[test]
fn mate_scores_are_stored_relative_to_the_position() {
    let tt = TranspositionTable::new(1);
    let m = Move::null();
    // a mate found 4 plies from the root, stored at ply 2
    tt.record(7, m, 1, MATE_VALUE - 4, HashFlag::Exact, 2, 0);
    assert_eq!(tt.probe(7, 2).unwrap().score, MATE_VALUE - 4);
    assert_eq!(tt.probe(7, 0).unwrap().score, MATE_VALUE - 2);
    tt.record(8, m, 1, -MATE_VALUE + 6, HashFlag::Exact, 3, 0);
    assert_eq!(tt.probe(8, 3).unwrap().score, -MATE_VALUE + 6);
    assert_eq!(tt.probe(8, 1).unwrap().score, -MATE_VALUE + 4);
}

#[test]
fn pv_table_collects_line() {
    let mut pv = PVTable::new();
    assert!(pv.best_move().is_none());
    let a = Move::new(1, 2, MoveType::Quiet);
    let b = Move::new(3, 4, MoveType::Quiet);
    let c = Move::new(5, 6, MoveType::Quiet);
    // nodes are entered from the root down, the line is filled from the leaf up
    pv.reset(0);
    pv.reset(1);
    pv.reset(2);
    pv.reset(3);
    pv.insert_pv_node(c, 2);
    pv.insert_pv_node(b, 1);
    pv.insert_pv_node(a, 0);
    assert_eq!(pv.best_move(), Some(a));
    assert_eq!(pv.pv_line(), vec![a, b, c]);
}

#[test]
fn score_text() {
    assert_eq!(score_bytes(35), b"cp 35".to_vec());
    assert_eq!(score_bytes(-120), b"cp -120".to_vec());
    assert_eq!(score_bytes(MATE_VALUE - 1), b"mate 1".to_vec());
    assert_eq!(score_bytes(MATE_VALUE - 5), b"mate 3".to_vec());
    assert_eq!(score_bytes(-MATE_VALUE + 2), b"mate -2".to_vec());
    assert_eq!(signed_decimal_bytes(-7), b"-7".to_vec());
    assert_eq!(signed_decimal_bytes(0), b"0".to_vec());
}

#[test]
fn search_limits() {
    let a = SearchArgs::new_simple_depth(6);
    assert_eq!(a.max_depth, 6);
    assert_eq!(a.time_target, INF);
    let clock = SearchArgs::new(None, false, false, Some(60000), Some(1000), None, None, None).unwrap();
    assert_eq!(clock.max_depth, MAX_DEPTH);
    assert_eq!(clock.time_target, (60000 + 500) / 30 + 500);
    let to_go = SearchArgs::new(None, false, false, Some(10000), None, Some(10), Some(99), None).unwrap();
    assert_eq!(to_go.time_target, 1000);
    assert_eq!(to_go.max_nodes, 99);
    let low = SearchArgs::new(None, false, false, Some(100), Some(400), None, None, None).unwrap();
    assert_eq!(low.time_target, 250);
    let fixed = SearchArgs::new(None, true, false, None, None, None, None, Some(1000)).unwrap();
    assert_eq!(fixed.time_target, 750);
    assert!(fixed.ponder);
    assert!(fixed.time_up(751));
    assert!(!fixed.time_up(750));
    let meta = SearchMeta::new_simple_depth(4);
    assert_eq!(meta.max_depth, 4);
    assert_eq!(meta.time_target, INF);
}

#[test]
fn settings_builders() {
    let s = Settings::default();
    assert_eq!(s.threads, 1);
    assert_eq!(s.transposition_table_mb, 16);
    let t = s.threads(4).transposition_table_mb(64);
    assert_eq!(t.threads, 4);
    assert_eq!(t.transposition_table_mb, 64);
}

#[test]
fn generations_wrap() {
    assert_eq!(next_generation(0), 1);
    assert_eq!(next_generation(62), 63);
    assert_eq!(next_generation(63), 0);
    let search = Search::new(Settings::default().transposition_table_mb(1));
    assert_eq!(search.current_generation(), 0);
    search.advance_generation();
    assert_eq!(search.current_generation(), 1);
    assert!(!search.is_running());
    search.set_running(true);
    assert!(search.is_running());
    search.stop();
    assert!(search.is_stopping());
    search.clear_stop();
    assert!(!search.is_stopping());
}

#[test]
fn key_tables_are_the_generated_keys() {
    let pieces = generate_keys(768, 0b10111000110000001011100000111000);
    for i in 0..768 {
        assert_eq!(piece_key(i), pieces[i]);
    }
    let castling = generate_keys(16, 0b01001001011100011110101101011001);
    for i in 0..16 {
        assert_eq!(castling_key(i), castling[i]);
    }
    let ep = generate_keys(64, 0b10111100100101101000101001111111);
    assert_eq!(enpassant_key(0), 0);
    for i in 1..64 {
        assert_eq!(enpassant_key(i), ep[i]);
    }
    assert_eq!(side_key(), rand_u64(0b11011111101100101101100000101101).0);
}

fn search_to_depth(fen: &str, depth: u8) -> (Option<Move>, SearchContext) {
    let search = Search::new(Settings::default().transposition_table_mb(1));
    let pos = Position::from_fen(fen).unwrap();
    let mut context = SearchContext::new(search, SearchArgs::new_simple_depth(depth), pos, std::time::Instant::now(), false);
    run_search(&mut context, 0);
    (context.pv_table.best_move(), context)
}

#[test]
fn search_finds_mate_in_one() {
    let (best, context) = search_to_depth("6k1/5ppp/8/8/8/8/8/R5K1 w - - 0 1", 3);
    assert_eq!(best.unwrap().to_uci_string(), "a1a8");
    assert!(context.nodes > 0);
}

#[test]
fn search_takes_hanging_queen() {
    let (best, _) = search_to_depth("4k3/8/8/3q4/8/8/8/3RK3 w - - 0 1", 2);
    assert_eq!(best.unwrap().to_uci_string(), "d1d5");
}

#[test]
fn quiescence_stays_in_window() {
    let search = Search::new(Settings::default().transposition_table_mb(1));
    let pos = Position::from_fen("4k3/8/8/3q4/4P3/8/8/4K3 w - - 0 1").unwrap();
    let mut context = SearchContext::new(search, SearchArgs::new_simple_depth(1), pos, std::time::Instant::now(), false);
    for (alpha, beta) in [(-50, 50), (-30000, 30000), (100, 200), (-900, -800)] {
        let r = quiescence(&pos, alpha, beta, 0, &mut context);
        assert!(alpha <= r && r <= beta, "{} not in [{}, {}]", r, alpha, beta);
    }
}

#[test]
fn decimal_text_round_trip() {
    for n in [0u64, 7, 10, 255, 65535, 1234567890123] {
        assert_eq!(parse_decimal(&decimal_bytes(n), u128::MAX), Some(n as u128));
    }
    assert_eq!(decimal_bytes(305), b"305".to_vec());
    assert_eq!(parse_decimal(b"256", 255), None);
    assert_eq!(parse_decimal(b"", 255), None);
    assert_eq!(parse_decimal(b"1a", 255), None);
}
