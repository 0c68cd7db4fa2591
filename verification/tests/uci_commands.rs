use cadabra::interface::{command_kind, interpret, Action, CommandKind, Notice};
use cadabra::position::Position;
use cadabra::search_args::{Settings, INF, MAX_DEPTH};
use cadabra::uci::{parse_go, parse_position, parse_set_option, take_next, take_next_num, take_next_u8, trim_str};

#[test]
fn words_are_taken_one_by_one() {
    let mut command = "go   depth 5 ";
    assert_eq!(take_next(&mut command), Some("go"));
    assert_eq!(take_next(&mut command), Some("depth"));
    assert_eq!(take_next_u8(&mut command), Some(5));
    assert_eq!(take_next(&mut command), None);
    let mut empty = "";
    assert_eq!(take_next(&mut empty), None);
    // a command is split at its first space, so a leading space gives an empty word
    let mut leading = " go";
    assert_eq!(take_next(&mut leading), Some(""));
    assert_eq!(take_next(&mut leading), Some("go"));
}

#[test]
fn numbers_are_checked() {
    let mut command = "300 12x 42";
    assert_eq!(take_next_u8(&mut command), None);
    assert_eq!(take_next_num(&mut command, 1000), None);
    assert_eq!(take_next_num(&mut command, 1000), Some(42));
    let mut plus = "+7";
    assert_eq!(take_next_num(&mut plus, 10), Some(7));
}

#[test]
fn trimming() {
    assert_eq!(trim_str("  a b  "), "a b");
    assert_eq!(trim_str("   "), "");
}

#[test]
fn set_option_hash_and_threads() {
    let s = Settings::default();
    let hash = parse_set_option("name Hash value 64", s).unwrap();
    assert_eq!(hash.transposition_table_mb, 64);
    assert_eq!(hash.threads, s.threads);
    let threads = parse_set_option("name Threads value 8", s).unwrap();
    assert_eq!(threads.threads, 8);
    assert!(parse_set_option("name Hash value 100", s).is_err());
    assert!(parse_set_option("name Hash value 0", s).is_err());
    assert!(parse_set_option("name Threads value 0", s).is_err());
    assert!(parse_set_option("name Threads value 256", s).is_err());
    assert!(parse_set_option("name Ponder value true", s).is_err());
    assert!(parse_set_option("Hash value 8", s).is_err());
    assert!(parse_set_option("name Hash 8", s).is_err());
    assert!(parse_set_option("", s).is_err());
}

#[test]
fn go_parameters() {
    let white = Position::start_pos();
    let black = Position::from_fen("rnbqkbnr/pppppppp/8/8/4P3/8/PPPP1PPP/RNBQKBNR b KQkq e3 0 1").unwrap();
    let depth = parse_go("depth 7", &white).unwrap();
    assert_eq!(depth.max_depth, 7);
    assert_eq!(depth.time_target, INF);
    let inf = parse_go("infinite", &white).unwrap();
    assert_eq!(inf.max_depth, MAX_DEPTH);
    assert_eq!(inf.time_target, INF);
    let w = parse_go("wtime 30000 btime 60000 winc 0 binc 1000", &white).unwrap();
    assert_eq!(w.time_target, 1000);
    let b = parse_go("wtime 30000 btime 60000 winc 0 binc 1000", &black).unwrap();
    assert_eq!(b.time_target, (60000 + 500) / 30 + 500);
    let mt = parse_go("movetime 2000 nodes 5000", &white).unwrap();
    assert_eq!(mt.time_target, 1750);
    assert_eq!(mt.max_nodes, 5000);
    assert!(parse_go("ponder depth 3", &white).unwrap().ponder);
}

#[test]
fn go_errors() {
    let pos = Position::start_pos();
    assert_eq!(parse_go("", &pos).err().unwrap(), "Empty go command");
    assert_eq!(parse_go("fast", &pos).err().unwrap(), "Illegal go argument: fast");
    assert_eq!(parse_go("foo", &pos).err().unwrap(), "Illegal go argument: foo");
    assert_eq!(parse_go("depth x", &pos).err().unwrap(), "Illegal go depth");
    assert_eq!(parse_go("depth", &pos).err().unwrap(), "Illegal go depth");
    assert_eq!(parse_go("wtime", &pos).err().unwrap(), "Illegal go wtime");
    assert_eq!(parse_go("nodes many", &pos).err().unwrap(), "Illegal go nodes");
    assert_eq!(parse_go("mate 3", &pos).err().unwrap(), "Searching for a mate is not supported");
    assert_eq!(parse_go("movetime 100", &pos).err().unwrap(), "No time control specified");
    assert_eq!(parse_go("btime 1000", &pos).err().unwrap(), "No time control specified");
    assert_eq!(parse_go("wtime 1000 movestogo 0", &pos).err().unwrap(), "No time control specified");
}

#[test]
fn position_command() {
    let start = parse_position("startpos").unwrap();
    assert_eq!(start.fen_string(), Position::start_pos().fen_string());
    let played = parse_position("startpos moves e2e4 e7e5").unwrap();
    assert_eq!(played.fen_string(), "rnbqkbnr/pppp1ppp/8/4p3/4P3/8/PPPP1PPP/RNBQKBNR w KQkq e6 0 2");
    let fen = parse_position("fen 8/8/8/8/8/8/8/K6k w - - 0 1 moves a1b1").unwrap();
    assert_eq!(fen.fen_string(), "8/8/8/8/8/8/8/1K5k b - - 1 1");
    assert!(parse_position("fen 8/8/8/8/8/8/8/8/K w - - 0 1").is_err());
    assert!(parse_position("fen 8/8/8/8/8/8/8/K6k").is_err());
    assert!(parse_position("nowhere").is_err());
    assert!(parse_position("startpos moves e2e5").is_err());
}

#[test]
fn command_lines_are_interpreted() {
    let pos = Position::start_pos();
    let s = Settings::default();
    assert_eq!(command_kind("uci"), CommandKind::Uci);
    assert_eq!(command_kind("x"), CommandKind::Quit);
    assert_eq!(command_kind("quit"), CommandKind::Quit);
    assert_eq!(command_kind("gogo"), CommandKind::Unknown);
    assert!(matches!(interpret("   ", &pos, s, false), Action::Nothing));
    assert!(matches!(interpret("uci", &pos, s, false), Action::Identify));
    assert!(matches!(interpret(" isready ", &pos, s, false), Action::ReadyOk));
    assert!(matches!(interpret("ucinewgame", &pos, s, true), Action::NewGame(true)));
    assert!(matches!(interpret("setoption name Clear Hash", &pos, s, false), Action::ClearHash));
    assert!(matches!(interpret("setoption name Hash value 32", &pos, s, true), Action::Notice(Notice::OptionsWhileSearching)));
    match interpret("setoption name Hash value 32", &pos, s, false) {
        Action::NewSettings(n) => assert_eq!(n.transposition_table_mb, 32),
        _ => panic!("expected new settings"),
    }
    match interpret("setoption name Colour value 1", &pos, s, false) {
        Action::Refused(e) => assert_eq!(e, "Unknown option name 'Colour'"),
        _ => panic!("expected a refusal"),
    }
    match interpret("position startpos moves e2e4", &pos, s, false) {
        Action::NewPosition(q) => assert_eq!(q.fen_string(), "rnbqkbnr/pppppppp/8/8/4P3/8/PPPP1PPP/RNBQKBNR b KQkq e3 0 1"),
        _ => panic!("expected a position"),
    }
    assert!(matches!(interpret("position somewhere", &pos, s, false), Action::Refused(_)));
    match interpret("go depth 4", &pos, s, false) {
        Action::StartSearch(a) => assert_eq!(a.max_depth, 4),
        _ => panic!("expected a search"),
    }
    assert!(matches!(interpret("go depth 4", &pos, s, true), Action::Notice(Notice::AlreadySearching)));
    match interpret("go mate 2", &pos, s, false) {
        Action::Refused(t) => assert_eq!(t, "Searching for a mate is not supported"),
        _ => panic!("expected a refusal"),
    }
    assert!(matches!(interpret("stop", &pos, s, true), Action::Stop));
    assert!(matches!(interpret("debug on", &pos, s, false), Action::Notice(Notice::DebugHasNoEffect)));
    assert!(matches!(interpret("debug maybe", &pos, s, false), Action::Notice(Notice::DebugUsage)));
    assert!(matches!(interpret("move", &pos, s, false), Action::Notice(Notice::MoveMissing)));
    match interpret("move g1f3", &pos, s, false) {
        Action::NewPosition(q) => assert_eq!(q.fen_string(), "rnbqkbnr/pppppppp/8/8/8/5N2/PPPPPPPP/RNBQKB1R b KQkq - 1 1"),
        _ => panic!("expected a position"),
    }
    assert!(matches!(interpret("move g1g3", &pos, s, false), Action::Refused(_)));
    assert!(matches!(interpret("perft 3", &pos, s, false), Action::Perft(3)));
    assert!(matches!(interpret("perft 0", &pos, s, false), Action::Notice(Notice::IllegalPerft)));
    assert!(matches!(interpret("perft", &pos, s, false), Action::Notice(Notice::IllegalPerft)));
    assert!(matches!(interpret("bench", &pos, s, false), Action::Bench(false)));
    assert!(matches!(interpret("bench save", &pos, s, false), Action::Bench(true)));
    match interpret("bench now", &pos, s, false) {
        Action::BadBenchArgument(w) => assert_eq!(w, b"now".to_vec()),
        _ => panic!("expected a bad argument"),
    }
    match interpret("hello world", &pos, s, false) {
        Action::Unknown(w) => assert_eq!(w, b"hello".to_vec()),
        _ => panic!("expected an unknown command"),
    }
    assert!(matches!(interpret("fen", &pos, s, false), Action::ShowFen));
    assert!(matches!(interpret("cleartt", &pos, s, false), Action::ClearHash));
    assert!(matches!(interpret("x", &pos, s, false), Action::Quit));
}
