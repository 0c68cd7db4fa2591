use vstd::prelude::*;

verus! {

use vstd::string::StringSliceAdditionalSpecFns;
use crate::color::Color;
use crate::fen::trim;
use crate::make_move::made;
use crate::movegen::generated_move;
use crate::movegen::has_king;
use crate::movegen::{fits_move_list, one_king, ep_single};
use crate::moves::{Move, uci_bytes};
use crate::position::Position;
use crate::search_args::{Settings, SearchArgs};
use crate::text::{bytes_equal, all_ascii, ascii_chars, lemma_ascii_text};
use crate::uci::{
    go_error_ok, go_result, limits_of, next_word, rest_of, set_option, words, word_number,
    position_gives, position_start_ok, position_command_ok, kw_fen, moves_part, base_position, plays,
    move_refused, take_next, take_next_u8, trim_str, parse_go,
    parse_position, parse_set_option,
};

/// The commands the engine reads: those of the UCI protocol and its own.
#[derive(Clone, Copy, PartialEq, Eq, Structural, Debug)]
pub enum CommandKind {
    Uci,
    SetOption,
    IsReady,
    UciNewGame,
    Position,
    Go,
    Stop,
    PonderHit,
    Quit,
    Debug,
    Help,
    Display,
    Fen,
    Move,
    Eval,
    Threefold,
    Insufficient,
    Zobrist,
    Perft,
    Bench,
    Legal,
    ClearTt,
    FillRate,
    Unknown,
}

/// What the engine answers in place of acting on a command.
#[derive(Clone, Copy, PartialEq, Eq, Structural, Debug)]
pub enum Notice {
    /// Options cannot change while a search runs.
    OptionsWhileSearching,
    /// A search already runs.
    AlreadySearching,
    /// The debug setting changes nothing.
    DebugHasNoEffect,
    /// "debug" takes "on" or "off".
    DebugUsage,
    /// "move" needs a move.
    MoveMissing,
    /// "perft" needs a depth from 1 to 255 and a king to move.
    IllegalPerft,
    /// A command this engine does not carry out.
    NotAvailable,
}

/// What one command line asks of the engine.
pub enum Action {
    /// An empty line.
    Nothing,
    /// Identify the engine and its options, and make the search anew.
    Identify,
    /// Take these settings.
    NewSettings(Settings),
    /// Empty the transposition table.
    ClearHash,
    /// Answer that the engine is ready.
    ReadyOk,
    /// Start a new game, warning first when a search runs.
    NewGame(bool),
    /// Make this the position.
    NewPosition(Position),
    /// Search the position within these limits.
    StartSearch(SearchArgs),
    /// Ask the search to stop.
    Stop,
    /// End the program.
    Quit,
    /// Say a notice.
    Notice(Notice),
    /// A command was refused, with the reason.
    Refused(String),
    /// Show the board.
    Display,
    /// Show the FEN string of the position.
    ShowFen,
    /// Show the evaluation of the position.
    Eval,
    /// Show whether the position occurred three times.
    Threefold,
    /// Show whether the material is insufficient to mate.
    Insufficient,
    /// Show the hash of the position.
    Zobrist,
    /// Count the leaf nodes to this depth, move by move.
    Perft(u8),
    /// Run the benchmark, saving its results or not.
    Bench(bool),
    /// "bench" was given this word, which it does not take.
    BadBenchArgument(Vec<u8>),
    /// List the legal moves.
    Legal,
    /// Show how full the transposition table is.
    FillRate,
    /// This word names no command.
    Unknown(Vec<u8>),
}

pub open spec fn kw_uci() -> Seq<u8> {
    seq![117u8, 99, 105]
}

pub open spec fn kw_setoption() -> Seq<u8> {
    seq![115u8, 101, 116, 111, 112, 116, 105, 111, 110]
}

pub open spec fn kw_isready() -> Seq<u8> {
    seq![105u8, 115, 114, 101, 97, 100, 121]
}

pub open spec fn kw_ucinewgame() -> Seq<u8> {
    seq![117u8, 99, 105, 110, 101, 119, 103, 97, 109, 101]
}

pub open spec fn kw_position() -> Seq<u8> {
    seq![112u8, 111, 115, 105, 116, 105, 111, 110]
}

pub open spec fn kw_go() -> Seq<u8> {
    seq![103u8, 111]
}

pub open spec fn kw_stop() -> Seq<u8> {
    seq![115u8, 116, 111, 112]
}

pub open spec fn kw_ponderhit() -> Seq<u8> {
    seq![112u8, 111, 110, 100, 101, 114, 104, 105, 116]
}

pub open spec fn kw_quit() -> Seq<u8> {
    seq![113u8, 117, 105, 116]
}

pub open spec fn kw_debug() -> Seq<u8> {
    seq![100u8, 101, 98, 117, 103]
}

pub open spec fn kw_help() -> Seq<u8> {
    seq![104u8, 101, 108, 112]
}

pub open spec fn kw_d() -> Seq<u8> {
    seq![100u8]
}

pub open spec fn kw_x() -> Seq<u8> {
    seq![120u8]
}

pub open spec fn kw_move() -> Seq<u8> {
    seq![109u8, 111, 118, 101]
}

pub open spec fn kw_eval() -> Seq<u8> {
    seq![101u8, 118, 97, 108]
}

pub open spec fn kw_threefold() -> Seq<u8> {
    seq![116u8, 104, 114, 101, 101, 102, 111, 108, 100]
}

pub open spec fn kw_insufficient() -> Seq<u8> {
    seq![105u8, 110, 115, 117, 102, 102, 105, 99, 105, 101, 110, 116]
}

pub open spec fn kw_zobrist() -> Seq<u8> {
    seq![122u8, 111, 98, 114, 105, 115, 116]
}

pub open spec fn kw_perft() -> Seq<u8> {
    seq![112u8, 101, 114, 102, 116]
}

pub open spec fn kw_bench() -> Seq<u8> {
    seq![98u8, 101, 110, 99, 104]
}

pub open spec fn kw_legal() -> Seq<u8> {
    seq![108u8, 101, 103, 97, 108]
}

pub open spec fn kw_cleartt() -> Seq<u8> {
    seq![99u8, 108, 101, 97, 114, 116, 116]
}

pub open spec fn kw_fillrate() -> Seq<u8> {
    seq![102u8, 105, 108, 108, 114, 97, 116, 101]
}

pub open spec fn kw_on() -> Seq<u8> {
    seq![111u8, 110]
}

pub open spec fn kw_off() -> Seq<u8> {
    seq![111u8, 102, 102]
}

pub open spec fn kw_save() -> Seq<u8> {
    seq![115u8, 97, 118, 101]
}

/// The arguments of "setoption" that ask to empty the table.
pub open spec fn clear_hash_text() -> Seq<u8> {
    seq![110u8, 97, 109, 101, 32, 67, 108, 101, 97, 114, 32, 72, 97, 115, 104]
}

/// Each command word names the command of that name: "uci", "setoption",
/// "isready", "ucinewgame", "position", "go", "stop", "ponderhit", "quit" (and
/// "x"), "debug", "help", "d" (display), "fen", "move", "eval", "threefold",
/// "insufficient", "zobrist", "perft", "bench", "legal", "cleartt" and "fillrate".
pub proof fn lemma_command_words()
    ensures
        kind_of(seq![117u8, 99u8, 105u8]) == CommandKind::Uci,
        kind_of(seq![115u8, 101u8, 116u8, 111u8, 112u8, 116u8, 105u8, 111u8, 110u8]) == CommandKind::SetOption,
        kind_of(seq![105u8, 115u8, 114u8, 101u8, 97u8, 100u8, 121u8]) == CommandKind::IsReady,
        kind_of(seq![117u8, 99u8, 105u8, 110u8, 101u8, 119u8, 103u8, 97u8, 109u8, 101u8]) == CommandKind::UciNewGame,
        kind_of(seq![112u8, 111u8, 115u8, 105u8, 116u8, 105u8, 111u8, 110u8]) == CommandKind::Position,
        kind_of(seq![103u8, 111u8]) == CommandKind::Go,
        kind_of(seq![115u8, 116u8, 111u8, 112u8]) == CommandKind::Stop,
        kind_of(seq![112u8, 111u8, 110u8, 100u8, 101u8, 114u8, 104u8, 105u8, 116u8]) == CommandKind::PonderHit,
        kind_of(seq![113u8, 117u8, 105u8, 116u8]) == CommandKind::Quit,
        kind_of(seq![120u8]) == CommandKind::Quit,
        kind_of(seq![100u8, 101u8, 98u8, 117u8, 103u8]) == CommandKind::Debug,
        kind_of(seq![104u8, 101u8, 108u8, 112u8]) == CommandKind::Help,
        kind_of(seq![100u8]) == CommandKind::Display,
        kind_of(seq![102u8, 101u8, 110u8]) == CommandKind::Fen,
        kind_of(seq![109u8, 111u8, 118u8, 101u8]) == CommandKind::Move,
        kind_of(seq![101u8, 118u8, 97u8, 108u8]) == CommandKind::Eval,
        kind_of(seq![116u8, 104u8, 114u8, 101u8, 101u8, 102u8, 111u8, 108u8, 100u8]) == CommandKind::Threefold,
        kind_of(seq![105u8, 110u8, 115u8, 117u8, 102u8, 102u8, 105u8, 99u8, 105u8, 101u8, 110u8, 116u8]) == CommandKind::Insufficient,
        kind_of(seq![122u8, 111u8, 98u8, 114u8, 105u8, 115u8, 116u8]) == CommandKind::Zobrist,
        kind_of(seq![112u8, 101u8, 114u8, 102u8, 116u8]) == CommandKind::Perft,
        kind_of(seq![98u8, 101u8, 110u8, 99u8, 104u8]) == CommandKind::Bench,
        kind_of(seq![108u8, 101u8, 103u8, 97u8, 108u8]) == CommandKind::Legal,
        kind_of(seq![99u8, 108u8, 101u8, 97u8, 114u8, 116u8, 116u8]) == CommandKind::ClearTt,
        kind_of(seq![102u8, 105u8, 108u8, 108u8, 114u8, 97u8, 116u8, 101u8]) == CommandKind::FillRate,
{
    let w0 = seq![117u8, 99u8, 105u8];
    assert(w0 =~= kw_uci());
    let w1 = seq![115u8, 101u8, 116u8, 111u8, 112u8, 116u8, 105u8, 111u8, 110u8];
    assert(w1 =~= kw_setoption());
    assert(w1.len() != kw_uci().len());
    let w2 = seq![105u8, 115u8, 114u8, 101u8, 97u8, 100u8, 121u8];
    assert(w2 =~= kw_isready());
    assert(w2.len() != kw_uci().len());
    assert(w2.len() != kw_setoption().len());
    let w3 = seq![117u8, 99u8, 105u8, 110u8, 101u8, 119u8, 103u8, 97u8, 109u8, 101u8];
    assert(w3 =~= kw_ucinewgame());
    assert(w3.len() != kw_uci().len());
    assert(w3.len() != kw_setoption().len());
    assert(w3.len() != kw_isready().len());
    let w4 = seq![112u8, 111u8, 115u8, 105u8, 116u8, 105u8, 111u8, 110u8];
    assert(w4 =~= kw_position());
    assert(w4.len() != kw_uci().len());
    assert(w4.len() != kw_setoption().len());
    assert(w4.len() != kw_isready().len());
    assert(w4.len() != kw_ucinewgame().len());
    let w5 = seq![103u8, 111u8];
    assert(w5 =~= kw_go());
    assert(w5.len() != kw_uci().len());
    assert(w5.len() != kw_setoption().len());
    assert(w5.len() != kw_isready().len());
    assert(w5.len() != kw_ucinewgame().len());
    assert(w5.len() != kw_position().len());
    let w6 = seq![115u8, 116u8, 111u8, 112u8];
    assert(w6 =~= kw_stop());
    assert(w6.len() != kw_uci().len());
    assert(w6.len() != kw_setoption().len());
    assert(w6.len() != kw_isready().len());
    assert(w6.len() != kw_ucinewgame().len());
    assert(w6.len() != kw_position().len());
    assert(w6.len() != kw_go().len());
    let w7 = seq![112u8, 111u8, 110u8, 100u8, 101u8, 114u8, 104u8, 105u8, 116u8];
    assert(w7 =~= kw_ponderhit());
    assert(w7.len() != kw_uci().len());
    assert(w7[0] != kw_setoption()[0]);
    assert(w7.len() != kw_isready().len());
    assert(w7.len() != kw_ucinewgame().len());
    assert(w7.len() != kw_position().len());
    assert(w7.len() != kw_go().len());
    assert(w7.len() != kw_stop().len());
    let w8 = seq![113u8, 117u8, 105u8, 116u8];
    assert(w8 =~= kw_quit());
    assert(w8.len() != kw_uci().len());
    assert(w8.len() != kw_setoption().len());
    assert(w8.len() != kw_isready().len());
    assert(w8.len() != kw_ucinewgame().len());
    assert(w8.len() != kw_position().len());
    assert(w8.len() != kw_go().len());
    assert(w8[0] != kw_stop()[0]);
    assert(w8.len() != kw_ponderhit().len());
    let w9 = seq![120u8];
    assert(w9 =~= kw_x());
    assert(w9.len() != kw_uci().len());
    assert(w9.len() != kw_setoption().len());
    assert(w9.len() != kw_isready().len());
    assert(w9.len() != kw_ucinewgame().len());
    assert(w9.len() != kw_position().len());
    assert(w9.len() != kw_go().len());
    assert(w9.len() != kw_stop().len());
    assert(w9.len() != kw_ponderhit().len());
    assert(w9.len() != kw_quit().len());
    let w10 = seq![100u8, 101u8, 98u8, 117u8, 103u8];
    assert(w10 =~= kw_debug());
    assert(w10.len() != kw_uci().len());
    assert(w10.len() != kw_setoption().len());
    assert(w10.len() != kw_isready().len());
    assert(w10.len() != kw_ucinewgame().len());
    assert(w10.len() != kw_position().len());
    assert(w10.len() != kw_go().len());
    assert(w10.len() != kw_stop().len());
    assert(w10.len() != kw_ponderhit().len());
    assert(w10.len() != kw_quit().len());
    assert(w10.len() != kw_x().len());
    let w11 = seq![104u8, 101u8, 108u8, 112u8];
    assert(w11 =~= kw_help());
    assert(w11.len() != kw_uci().len());
    assert(w11.len() != kw_setoption().len());
    assert(w11.len() != kw_isready().len());
    assert(w11.len() != kw_ucinewgame().len());
    assert(w11.len() != kw_position().len());
    assert(w11.len() != kw_go().len());
    assert(w11[0] != kw_stop()[0]);
    assert(w11.len() != kw_ponderhit().len());
    assert(w11[0] != kw_quit()[0]);
    assert(w11.len() != kw_x().len());
    assert(w11.len() != kw_debug().len());
    let w12 = seq![100u8];
    assert(w12 =~= kw_d());
    assert(w12.len() != kw_uci().len());
    assert(w12.len() != kw_setoption().len());
    assert(w12.len() != kw_isready().len());
    assert(w12.len() != kw_ucinewgame().len());
    assert(w12.len() != kw_position().len());
    assert(w12.len() != kw_go().len());
    assert(w12.len() != kw_stop().len());
    assert(w12.len() != kw_ponderhit().len());
    assert(w12.len() != kw_quit().len());
    assert(w12[0] != kw_x()[0]);
    assert(w12.len() != kw_debug().len());
    assert(w12.len() != kw_help().len());
    let w13 = seq![102u8, 101u8, 110u8];
    assert(w13 =~= kw_fen());
    assert(w13[0] != kw_uci()[0]);
    assert(w13.len() != kw_setoption().len());
    assert(w13.len() != kw_isready().len());
    assert(w13.len() != kw_ucinewgame().len());
    assert(w13.len() != kw_position().len());
    assert(w13.len() != kw_go().len());
    assert(w13.len() != kw_stop().len());
    assert(w13.len() != kw_ponderhit().len());
    assert(w13.len() != kw_quit().len());
    assert(w13.len() != kw_x().len());
    assert(w13.len() != kw_debug().len());
    assert(w13.len() != kw_help().len());
    assert(w13.len() != kw_d().len());
    let w14 = seq![109u8, 111u8, 118u8, 101u8];
    assert(w14 =~= kw_move());
    assert(w14.len() != kw_uci().len());
    assert(w14.len() != kw_setoption().len());
    assert(w14.len() != kw_isready().len());
    assert(w14.len() != kw_ucinewgame().len());
    assert(w14.len() != kw_position().len());
    assert(w14.len() != kw_go().len());
    assert(w14[0] != kw_stop()[0]);
    assert(w14.len() != kw_ponderhit().len());
    assert(w14[0] != kw_quit()[0]);
    assert(w14.len() != kw_x().len());
    assert(w14.len() != kw_debug().len());
    assert(w14[0] != kw_help()[0]);
    assert(w14.len() != kw_d().len());
    assert(w14.len() != kw_fen().len());
    let w15 = seq![101u8, 118u8, 97u8, 108u8];
    assert(w15 =~= kw_eval());
    assert(w15.len() != kw_uci().len());
    assert(w15.len() != kw_setoption().len());
    assert(w15.len() != kw_isready().len());
    assert(w15.len() != kw_ucinewgame().len());
    assert(w15.len() != kw_position().len());
    assert(w15.len() != kw_go().len());
    assert(w15[0] != kw_stop()[0]);
    assert(w15.len() != kw_ponderhit().len());
    assert(w15[0] != kw_quit()[0]);
    assert(w15.len() != kw_x().len());
    assert(w15.len() != kw_debug().len());
    assert(w15[0] != kw_help()[0]);
    assert(w15.len() != kw_d().len());
    assert(w15.len() != kw_fen().len());
    assert(w15[0] != kw_move()[0]);
    let w16 = seq![116u8, 104u8, 114u8, 101u8, 101u8, 102u8, 111u8, 108u8, 100u8];
    assert(w16 =~= kw_threefold());
    assert(w16.len() != kw_uci().len());
    assert(w16[0] != kw_setoption()[0]);
    assert(w16.len() != kw_isready().len());
    assert(w16.len() != kw_ucinewgame().len());
    assert(w16.len() != kw_position().len());
    assert(w16.len() != kw_go().len());
    assert(w16.len() != kw_stop().len());
    assert(w16[0] != kw_ponderhit()[0]);
    assert(w16.len() != kw_quit().len());
    assert(w16.len() != kw_x().len());
    assert(w16.len() != kw_debug().len());
    assert(w16.len() != kw_help().len());
    assert(w16.len() != kw_d().len());
    assert(w16.len() != kw_fen().len());
    assert(w16.len() != kw_move().len());
    assert(w16.len() != kw_eval().len());
    let w17 = seq![105u8, 110u8, 115u8, 117u8, 102u8, 102u8, 105u8, 99u8, 105u8, 101u8, 110u8, 116u8];
    assert(w17 =~= kw_insufficient());
    assert(w17.len() != kw_uci().len());
    assert(w17.len() != kw_setoption().len());
    assert(w17.len() != kw_isready().len());
    assert(w17.len() != kw_ucinewgame().len());
    assert(w17.len() != kw_position().len());
    assert(w17.len() != kw_go().len());
    assert(w17.len() != kw_stop().len());
    assert(w17.len() != kw_ponderhit().len());
    assert(w17.len() != kw_quit().len());
    assert(w17.len() != kw_x().len());
    assert(w17.len() != kw_debug().len());
    assert(w17.len() != kw_help().len());
    assert(w17.len() != kw_d().len());
    assert(w17.len() != kw_fen().len());
    assert(w17.len() != kw_move().len());
    assert(w17.len() != kw_eval().len());
    assert(w17.len() != kw_threefold().len());
    let w18 = seq![122u8, 111u8, 98u8, 114u8, 105u8, 115u8, 116u8];
    assert(w18 =~= kw_zobrist());
    assert(w18.len() != kw_uci().len());
    assert(w18.len() != kw_setoption().len());
    assert(w18[0] != kw_isready()[0]);
    assert(w18.len() != kw_ucinewgame().len());
    assert(w18.len() != kw_position().len());
    assert(w18.len() != kw_go().len());
    assert(w18.len() != kw_stop().len());
    assert(w18.len() != kw_ponderhit().len());
    assert(w18.len() != kw_quit().len());
    assert(w18.len() != kw_x().len());
    assert(w18.len() != kw_debug().len());
    assert(w18.len() != kw_help().len());
    assert(w18.len() != kw_d().len());
    assert(w18.len() != kw_fen().len());
    assert(w18.len() != kw_move().len());
    assert(w18.len() != kw_eval().len());
    assert(w18.len() != kw_threefold().len());
    assert(w18.len() != kw_insufficient().len());
    let w19 = seq![112u8, 101u8, 114u8, 102u8, 116u8];
    assert(w19 =~= kw_perft());
    assert(w19.len() != kw_uci().len());
    assert(w19.len() != kw_setoption().len());
    assert(w19.len() != kw_isready().len());
    assert(w19.len() != kw_ucinewgame().len());
    assert(w19.len() != kw_position().len());
    assert(w19.len() != kw_go().len());
    assert(w19.len() != kw_stop().len());
    assert(w19.len() != kw_ponderhit().len());
    assert(w19.len() != kw_quit().len());
    assert(w19.len() != kw_x().len());
    assert(w19[0] != kw_debug()[0]);
    assert(w19.len() != kw_help().len());
    assert(w19.len() != kw_d().len());
    assert(w19.len() != kw_fen().len());
    assert(w19.len() != kw_move().len());
    assert(w19.len() != kw_eval().len());
    assert(w19.len() != kw_threefold().len());
    assert(w19.len() != kw_insufficient().len());
    assert(w19.len() != kw_zobrist().len());
    let w20 = seq![98u8, 101u8, 110u8, 99u8, 104u8];
    assert(w20 =~= kw_bench());
    assert(w20.len() != kw_uci().len());
    assert(w20.len() != kw_setoption().len());
    assert(w20.len() != kw_isready().len());
    assert(w20.len() != kw_ucinewgame().len());
    assert(w20.len() != kw_position().len());
    assert(w20.len() != kw_go().len());
    assert(w20.len() != kw_stop().len());
    assert(w20.len() != kw_ponderhit().len());
    assert(w20.len() != kw_quit().len());
    assert(w20.len() != kw_x().len());
    assert(w20[0] != kw_debug()[0]);
    assert(w20.len() != kw_help().len());
    assert(w20.len() != kw_d().len());
    assert(w20.len() != kw_fen().len());
    assert(w20.len() != kw_move().len());
    assert(w20.len() != kw_eval().len());
    assert(w20.len() != kw_threefold().len());
    assert(w20.len() != kw_insufficient().len());
    assert(w20.len() != kw_zobrist().len());
    assert(w20[0] != kw_perft()[0]);
    let w21 = seq![108u8, 101u8, 103u8, 97u8, 108u8];
    assert(w21 =~= kw_legal());
    assert(w21.len() != kw_uci().len());
    assert(w21.len() != kw_setoption().len());
    assert(w21.len() != kw_isready().len());
    assert(w21.len() != kw_ucinewgame().len());
    assert(w21.len() != kw_position().len());
    assert(w21.len() != kw_go().len());
    assert(w21.len() != kw_stop().len());
    assert(w21.len() != kw_ponderhit().len());
    assert(w21.len() != kw_quit().len());
    assert(w21.len() != kw_x().len());
    assert(w21[0] != kw_debug()[0]);
    assert(w21.len() != kw_help().len());
    assert(w21.len() != kw_d().len());
    assert(w21.len() != kw_fen().len());
    assert(w21.len() != kw_move().len());
    assert(w21.len() != kw_eval().len());
    assert(w21.len() != kw_threefold().len());
    assert(w21.len() != kw_insufficient().len());
    assert(w21.len() != kw_zobrist().len());
    assert(w21[0] != kw_perft()[0]);
    assert(w21[0] != kw_bench()[0]);
    let w22 = seq![99u8, 108u8, 101u8, 97u8, 114u8, 116u8, 116u8];
    assert(w22 =~= kw_cleartt());
    assert(w22.len() != kw_uci().len());
    assert(w22.len() != kw_setoption().len());
    assert(w22[0] != kw_isready()[0]);
    assert(w22.len() != kw_ucinewgame().len());
    assert(w22.len() != kw_position().len());
    assert(w22.len() != kw_go().len());
    assert(w22.len() != kw_stop().len());
    assert(w22.len() != kw_ponderhit().len());
    assert(w22.len() != kw_quit().len());
    assert(w22.len() != kw_x().len());
    assert(w22.len() != kw_debug().len());
    assert(w22.len() != kw_help().len());
    assert(w22.len() != kw_d().len());
    assert(w22.len() != kw_fen().len());
    assert(w22.len() != kw_move().len());
    assert(w22.len() != kw_eval().len());
    assert(w22.len() != kw_threefold().len());
    assert(w22.len() != kw_insufficient().len());
    assert(w22[0] != kw_zobrist()[0]);
    assert(w22.len() != kw_perft().len());
    assert(w22.len() != kw_bench().len());
    assert(w22.len() != kw_legal().len());
    let w23 = seq![102u8, 105u8, 108u8, 108u8, 114u8, 97u8, 116u8, 101u8];
    assert(w23 =~= kw_fillrate());
    assert(w23.len() != kw_uci().len());
    assert(w23.len() != kw_setoption().len());
    assert(w23.len() != kw_isready().len());
    assert(w23.len() != kw_ucinewgame().len());
    assert(w23[0] != kw_position()[0]);
    assert(w23.len() != kw_go().len());
    assert(w23.len() != kw_stop().len());
    assert(w23.len() != kw_ponderhit().len());
    assert(w23.len() != kw_quit().len());
    assert(w23.len() != kw_x().len());
    assert(w23.len() != kw_debug().len());
    assert(w23.len() != kw_help().len());
    assert(w23.len() != kw_d().len());
    assert(w23.len() != kw_fen().len());
    assert(w23.len() != kw_move().len());
    assert(w23.len() != kw_eval().len());
    assert(w23.len() != kw_threefold().len());
    assert(w23.len() != kw_insufficient().len());
    assert(w23.len() != kw_zobrist().len());
    assert(w23.len() != kw_perft().len());
    assert(w23.len() != kw_bench().len());
    assert(w23.len() != kw_legal().len());
    assert(w23.len() != kw_cleartt().len());
}

/// The command a word names.
pub open spec fn kind_of(w: Seq<u8>) -> CommandKind {
    if w == kw_uci() {
        CommandKind::Uci
    } else if w == kw_setoption() {
        CommandKind::SetOption
    } else if w == kw_isready() {
        CommandKind::IsReady
    } else if w == kw_ucinewgame() {
        CommandKind::UciNewGame
    } else if w == kw_position() {
        CommandKind::Position
    } else if w == kw_go() {
        CommandKind::Go
    } else if w == kw_stop() {
        CommandKind::Stop
    } else if w == kw_ponderhit() {
        CommandKind::PonderHit
    } else if w == kw_quit() || w == kw_x() {
        CommandKind::Quit
    } else if w == kw_debug() {
        CommandKind::Debug
    } else if w == kw_help() {
        CommandKind::Help
    } else if w == kw_d() {
        CommandKind::Display
    } else if w == kw_fen() {
        CommandKind::Fen
    } else if w == kw_move() {
        CommandKind::Move
    } else if w == kw_eval() {
        CommandKind::Eval
    } else if w == kw_threefold() {
        CommandKind::Threefold
    } else if w == kw_insufficient() {
        CommandKind::Insufficient
    } else if w == kw_zobrist() {
        CommandKind::Zobrist
    } else if w == kw_perft() {
        CommandKind::Perft
    } else if w == kw_bench() {
        CommandKind::Bench
    } else if w == kw_legal() {
        CommandKind::Legal
    } else if w == kw_cleartt() {
        CommandKind::ClearTt
    } else if w == kw_fillrate() {
        CommandKind::FillRate
    } else {
        CommandKind::Unknown
    }
}

/// The command a word names.
#[verifier::rlimit(40)]
pub fn command_kind(w: &str) -> (r: CommandKind)
    ensures
        r == kind_of(w.spec_bytes()),
{
    let b = w.as_bytes();
    let k_uci: [u8; 3] = [117, 99, 105];
    let k_setoption: [u8; 9] = [115, 101, 116, 111, 112, 116, 105, 111, 110];
    let k_isready: [u8; 7] = [105, 115, 114, 101, 97, 100, 121];
    let k_ucinewgame: [u8; 10] = [117, 99, 105, 110, 101, 119, 103, 97, 109, 101];
    let k_position: [u8; 8] = [112, 111, 115, 105, 116, 105, 111, 110];
    let k_go: [u8; 2] = [103, 111];
    let k_stop: [u8; 4] = [115, 116, 111, 112];
    let k_ponderhit: [u8; 9] = [112, 111, 110, 100, 101, 114, 104, 105, 116];
    let k_quit: [u8; 4] = [113, 117, 105, 116];
    let k_x: [u8; 1] = [120];
    let k_debug: [u8; 5] = [100, 101, 98, 117, 103];
    let k_help: [u8; 4] = [104, 101, 108, 112];
    let k_d: [u8; 1] = [100];
    let k_fen: [u8; 3] = [102, 101, 110];
    let k_move: [u8; 4] = [109, 111, 118, 101];
    let k_eval: [u8; 4] = [101, 118, 97, 108];
    let k_threefold: [u8; 9] = [116, 104, 114, 101, 101, 102, 111, 108, 100];
    let k_insufficient: [u8; 12] = [105, 110, 115, 117, 102, 102, 105, 99, 105, 101, 110, 116];
    let k_zobrist: [u8; 7] = [122, 111, 98, 114, 105, 115, 116];
    let k_perft: [u8; 5] = [112, 101, 114, 102, 116];
    let k_bench: [u8; 5] = [98, 101, 110, 99, 104];
    let k_legal: [u8; 5] = [108, 101, 103, 97, 108];
    let k_cleartt: [u8; 7] = [99, 108, 101, 97, 114, 116, 116];
    let k_fillrate: [u8; 8] = [102, 105, 108, 108, 114, 97, 116, 101];
    assert(k_uci@ == kw_uci());
    assert(k_setoption@ == kw_setoption());
    assert(k_isready@ == kw_isready());
    assert(k_ucinewgame@ == kw_ucinewgame());
    assert(k_position@ == kw_position());
    assert(k_go@ == kw_go());
    assert(k_stop@ == kw_stop());
    assert(k_ponderhit@ == kw_ponderhit());
    assert(k_quit@ == kw_quit());
    assert(k_x@ == kw_x());
    assert(k_debug@ == kw_debug());
    assert(k_help@ == kw_help());
    assert(k_d@ == kw_d());
    assert(k_fen@ == kw_fen());
    assert(k_move@ == kw_move());
    assert(k_eval@ == kw_eval());
    assert(k_threefold@ == kw_threefold());
    assert(k_insufficient@ == kw_insufficient());
    assert(k_zobrist@ == kw_zobrist());
    assert(k_perft@ == kw_perft());
    assert(k_bench@ == kw_bench());
    assert(k_legal@ == kw_legal());
    assert(k_cleartt@ == kw_cleartt());
    assert(k_fillrate@ == kw_fillrate());
    if bytes_equal(b, &k_uci) {
        CommandKind::Uci
    } else if bytes_equal(b, &k_setoption) {
        CommandKind::SetOption
    } else if bytes_equal(b, &k_isready) {
        CommandKind::IsReady
    } else if bytes_equal(b, &k_ucinewgame) {
        CommandKind::UciNewGame
    } else if bytes_equal(b, &k_position) {
        CommandKind::Position
    } else if bytes_equal(b, &k_go) {
        CommandKind::Go
    } else if bytes_equal(b, &k_stop) {
        CommandKind::Stop
    } else if bytes_equal(b, &k_ponderhit) {
        CommandKind::PonderHit
    } else if bytes_equal(b, &k_quit) || bytes_equal(b, &k_x) {
        CommandKind::Quit
    } else if bytes_equal(b, &k_debug) {
        CommandKind::Debug
    } else if bytes_equal(b, &k_help) {
        CommandKind::Help
    } else if bytes_equal(b, &k_d) {
        CommandKind::Display
    } else if bytes_equal(b, &k_fen) {
        CommandKind::Fen
    } else if bytes_equal(b, &k_move) {
        CommandKind::Move
    } else if bytes_equal(b, &k_eval) {
        CommandKind::Eval
    } else if bytes_equal(b, &k_threefold) {
        CommandKind::Threefold
    } else if bytes_equal(b, &k_insufficient) {
        CommandKind::Insufficient
    } else if bytes_equal(b, &k_zobrist) {
        CommandKind::Zobrist
    } else if bytes_equal(b, &k_perft) {
        CommandKind::Perft
    } else if bytes_equal(b, &k_bench) {
        CommandKind::Bench
    } else if bytes_equal(b, &k_legal) {
        CommandKind::Legal
    } else if bytes_equal(b, &k_cleartt) {
        CommandKind::ClearTt
    } else if bytes_equal(b, &k_fillrate) {
        CommandKind::FillRate
    } else {
        CommandKind::Unknown
    }
}

/// What the engine does with command `k`, its first word `w` and the rest `rest`,
/// in position `pos` with `settings`, a search running or not.
pub open spec fn command_answer(
    k: CommandKind,
    w: Seq<u8>,
    rest: Seq<u8>,
    pos: Position,
    settings: Settings,
    running: bool,
    r: Action,
) -> bool {
    match k {
        CommandKind::Uci => r is Identify,
        CommandKind::SetOption => if running {
            r == Action::Notice(Notice::OptionsWhileSearching)
        } else if rest == clear_hash_text() {
            r is ClearHash
        } else {
            match set_option(words(rest), settings) {
                Some(s) => r == Action::NewSettings(s),
                None => r is Refused,
            }
        },
        CommandKind::IsReady => r is ReadyOk,
        CommandKind::UciNewGame => r == Action::NewGame(running),
        CommandKind::Position => {
            &&& (r is NewPosition || r is Refused)
            &&& (r matches Action::NewPosition(q) ==> position_gives(rest, q))
            &&& (!position_start_ok(rest) ==> r is Refused)
            &&& (position_command_ok(rest) ==> r is NewPosition)
            &&& (position_start_ok(rest) && moves_part(rest) is Some ==> (r matches Action::Refused(t)
                ==> exists|k: int, p: Position, q: Position|
                #![trigger base_position(rest, p), plays(p, words(moves_part(rest)->0).take(k), q)]
                0 <= k < words(moves_part(rest)->0).len() && base_position(rest, p) && plays(
                    p,
                    words(moves_part(rest)->0).take(k),
                    q,
                ) && move_refused(q, words(moves_part(rest)->0), k, t@)))
        },
        CommandKind::Go => if running {
            r == Action::Notice(Notice::AlreadySearching)
        } else {
            match go_result(rest, pos.active_color == Color::White) {
                Err(e) => r matches Action::Refused(t) && go_error_ok(
                    rest,
                    pos.active_color == Color::White,
                    t@,
                ),
                Ok(o) => r matches Action::StartSearch(a) && limits_of(o, a),
            }
        },
        CommandKind::Stop => r is Stop,
        CommandKind::PonderHit => r == Action::Notice(Notice::NotAvailable),
        CommandKind::Help => r == Action::Notice(Notice::NotAvailable),
        CommandKind::Quit => r is Quit,
        CommandKind::Debug => if rest.len() > 0 && (next_word(rest) == kw_on() || next_word(rest)
            == kw_off()) {
            r == Action::Notice(Notice::DebugHasNoEffect)
        } else {
            r == Action::Notice(Notice::DebugUsage)
        },
        CommandKind::Display => r is Display,
        CommandKind::Fen => r is ShowFen,
        CommandKind::Move => if rest.len() == 0 {
            r == Action::Notice(Notice::MoveMissing)
        } else {
            &&& (r is NewPosition || r is Refused)
            &&& (r matches Action::NewPosition(q) ==> exists|m: Move|
                #![trigger made(pos, m, q)]
                uci_bytes(m) == next_word(rest) && generated_move(pos, m) && made(pos, m, q))
            &&& (has_king(pos) && pos.half_moves < 255 && pos.full_moves < 65535
                && pos.rep_table.length() < 100 && fits_move_list(pos) && one_king(pos) && ep_single(pos)
                && (exists|m: Move| #[trigger] generated_move(pos, m) && uci_bytes(m) == next_word(rest))
                ==> r is NewPosition)
            &&& (!(has_king(pos) && pos.half_moves < 255 && pos.full_moves < 65535
                && pos.rep_table.length() < 100) ==> (r matches Action::Refused(t) && t@
                == "No move can be made in this position"@))
            &&& (has_king(pos) && pos.half_moves < 255 && pos.full_moves < 65535
                && pos.rep_table.length() < 100 && all_ascii(next_word(rest)) ==> (r matches Action::Refused(
                t,
            ) ==> t@ == "Illegal move: "@ + ascii_chars(next_word(rest))))
        },
        CommandKind::Eval => r is Eval,
        CommandKind::Threefold => r is Threefold,
        CommandKind::Insufficient => r is Insufficient,
        CommandKind::Zobrist => r is Zobrist,
        CommandKind::Perft => if rest.len() > 0 && word_number(next_word(rest), 255) is Some
            && word_number(next_word(rest), 255)->0 >= 1 && has_king(pos) {
            r == Action::Perft(word_number(next_word(rest), 255)->0 as u8)
        } else {
            r == Action::Notice(Notice::IllegalPerft)
        },
        CommandKind::Bench => if rest.len() == 0 {
            r == Action::Bench(false)
        } else if next_word(rest) == kw_save() {
            r == Action::Bench(true)
        } else {
            r matches Action::BadBenchArgument(v) && v@ == next_word(rest)
        },
        CommandKind::Legal => r is Legal,
        CommandKind::ClearTt => r is ClearHash,
        CommandKind::FillRate => r is FillRate,
        CommandKind::Unknown => r matches Action::Unknown(v) && v@ == w,
    }
}

/// Reads one command line: its first word names the command, the rest holds its
/// arguments, both without white space at either end. Says what the engine is to
/// do in position `pos` with `settings`, a search running or not.
pub fn interpret(line: &str, pos: &Position, settings: Settings, running: bool) -> (r: Action)
    requires
        pos.wf(),
    ensures
        trim(line.spec_bytes()).len() == 0 ==> r is Nothing,
        trim(line.spec_bytes()).len() > 0 ==> command_answer(
            kind_of(next_word(trim(line.spec_bytes()))),
            next_word(trim(line.spec_bytes())),
            rest_of(trim(line.spec_bytes())),
            *pos,
            settings,
            running,
            r,
        ),
{
    let mut command = trim_str(line);
    let name = match take_next(&mut command) {
        None => {
            return Action::Nothing;
        },
        Some(w) => w,
    };
    match command_kind(name) {
        CommandKind::Uci => Action::Identify,
        CommandKind::SetOption => {
            if running {
                return Action::Notice(Notice::OptionsWhileSearching);
            }
            let clear: [u8; 15] = [110, 97, 109, 101, 32, 67, 108, 101, 97, 114, 32, 72, 97, 115, 104];
            assert(clear@ == clear_hash_text());
            if bytes_equal(command.as_bytes(), &clear) {
                return Action::ClearHash;
            }
            match parse_set_option(command, settings) {
                Ok(s) => Action::NewSettings(s),
                Err(e) => Action::Refused(e),
            }
        },
        CommandKind::IsReady => Action::ReadyOk,
        CommandKind::UciNewGame => Action::NewGame(running),
        CommandKind::Position => match parse_position(command) {
            Ok(q) => Action::NewPosition(q),
            Err(e) => Action::Refused(e),
        },
        CommandKind::Go => {
            if running {
                return Action::Notice(Notice::AlreadySearching);
            }
            match parse_go(command, pos) {
                Ok(a) => Action::StartSearch(a),
                Err(e) => Action::Refused(e),
            }
        },
        CommandKind::Stop => Action::Stop,
        CommandKind::PonderHit => Action::Notice(Notice::NotAvailable),
        CommandKind::Help => Action::Notice(Notice::NotAvailable),
        CommandKind::Quit => Action::Quit,
        CommandKind::Debug => {
            let on: [u8; 2] = [111, 110];
            let off: [u8; 3] = [111, 102, 102];
            assert(on@ == kw_on());
            assert(off@ == kw_off());
            match take_next(&mut command) {
                Some(v) => {
                    if bytes_equal(v.as_bytes(), &on) || bytes_equal(v.as_bytes(), &off) {
                        Action::Notice(Notice::DebugHasNoEffect)
                    } else {
                        Action::Notice(Notice::DebugUsage)
                    }
                },
                None => Action::Notice(Notice::DebugUsage),
            }
        },
        CommandKind::Display => Action::Display,
        CommandKind::Fen => Action::ShowFen,
        CommandKind::Move => match take_next(&mut command) {
            None => Action::Notice(Notice::MoveMissing),
            Some(m) => {
                if !pos.has_king() || !pos.has_room() {
                    return Action::Refused("No move can be made in this position".to_string());
                }
                let mut q = *pos;
                match q.make_uci_move(m) {
                    Ok(()) => Action::NewPosition(q),
                    Err(e) => {
                        proof {
                            if all_ascii(m.spec_bytes()) {
                                lemma_ascii_text(m);
                            }
                        }
                        Action::Refused(e)
                    },
                }
            },
        },
        CommandKind::Eval => Action::Eval,
        CommandKind::Threefold => Action::Threefold,
        CommandKind::Insufficient => Action::Insufficient,
        CommandKind::Zobrist => Action::Zobrist,
        CommandKind::Perft => match take_next_u8(&mut command) {
            Some(d) => {
                if d >= 1 && pos.has_king() {
                    Action::Perft(d)
                } else {
                    Action::Notice(Notice::IllegalPerft)
                }
            },
            None => Action::Notice(Notice::IllegalPerft),
        },
        CommandKind::Bench => {
            let save: [u8; 4] = [115, 97, 118, 101];
            assert(save@ == kw_save());
            match take_next(&mut command) {
                None => Action::Bench(false),
                Some(v) => {
                    if bytes_equal(v.as_bytes(), &save) {
                        Action::Bench(true)
                    } else {
                        Action::BadBenchArgument(vstd::slice::slice_to_vec(v.as_bytes()))
                    }
                },
            }
        },
        CommandKind::Legal => Action::Legal,
        CommandKind::ClearTt => Action::ClearHash,
        CommandKind::FillRate => Action::FillRate,
        CommandKind::Unknown => Action::Unknown(vstd::slice::slice_to_vec(name.as_bytes())),
    }
}

} // verus!
