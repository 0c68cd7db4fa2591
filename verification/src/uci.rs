use vstd::prelude::*;

verus! {

use vstd::string::{StringSliceAdditionalSpecFns, StringExecFns};
use vstd::utf8::{
    valid_utf8, is_char_boundary, encode_utf8_valid_utf8, length_of_first_scalar, pop_first_scalar,
    is_char_boundary_iff_not_is_continuation_byte, is_char_boundary_start_end_of_seq,
    valid_utf8_split,
};
use crate::fen::{is_space, trim, trim_start, trim_end};
use crate::text::{parse_unsigned, parses_unsigned, unsigned_digits, digits_value};
use crate::text::{text_of, all_ascii, ascii_chars, lemma_ascii_text};
use crate::search_args::{Settings, SearchArgs, args_ok, time_target_of, MAX_DEPTH};
use crate::color::Color;
use crate::position::Position;
use crate::fen::{fen_ok, fen_describes, start_position};
use crate::make_move::made;
use crate::movegen::{generated_move, has_king, fits_move_list, one_king, ep_single};
use crate::moves::{Move, uci_bytes};

/// In valid UTF-8, the byte after an ASCII byte that starts a character starts one too.
proof fn lemma_ascii_boundary(b: Seq<u8>, k: int)
    requires
        valid_utf8(b),
        0 <= k < b.len(),
        is_char_boundary(b, k),
        b[k] < 128,
    ensures
        is_char_boundary(b, k + 1),
    decreases b.len(),
{
    let l = length_of_first_scalar(b);
    let p = pop_first_scalar(b);
    assert(valid_utf8(p));
    assert(1 <= l <= 4);
    assert(p.len() == b.len() - l);
    if k == 0 {
        assert(l == 1);
        reveal_with_fuel(is_char_boundary, 2);
    } else {
        assert(is_char_boundary(b, k) == is_char_boundary(p, k - l));
        assert(k - l >= 0);
        assert(p[k - l] == b[k]);
        lemma_ascii_boundary(p, k - l);
        assert(is_char_boundary(b, k + 1) == is_char_boundary(p, k + 1 - l));
    }
}

/// Where the first word of `b` ends: at the first space from `i` on, or at the end.
pub open spec fn word_end(b: Seq<u8>, i: int) -> int
    decreases b.len() - i,
{
    if i >= b.len() {
        b.len() as int
    } else if b[i] == 32 {
        i
    } else {
        word_end(b, i + 1)
    }
}

/// The first word of a command: everything before the first space.
pub open spec fn next_word(b: Seq<u8>) -> Seq<u8> {
    b.subrange(0, word_end(b, 0))
}

/// What follows the first space of a command; nothing when there is no space.
pub open spec fn after_word(b: Seq<u8>) -> Seq<u8> {
    let e = word_end(b, 0);
    if e < b.len() {
        b.subrange(e + 1, b.len() as int)
    } else {
        Seq::empty()
    }
}

/// The rest of a command once its first word is taken: the words after it, without
/// white space at either end.
pub open spec fn rest_of(b: Seq<u8>) -> Seq<u8> {
    trim(after_word(b))
}

proof fn lemma_word_end_bounds(b: Seq<u8>, i: int)
    requires
        0 <= i <= b.len(),
    ensures
        i <= word_end(b, i) <= b.len(),
        word_end(b, i) < b.len() ==> b[word_end(b, i)] == 32,
        forall|j: int| i <= j < word_end(b, i) ==> b[j] != 32,
    decreases b.len() - i,
{
    if i < b.len() && b[i] != 32 {
        lemma_word_end_bounds(b, i + 1);
    }
}

proof fn lemma_trim_start_len(b: Seq<u8>)
    ensures
        trim_start(b).len() <= b.len(),
    decreases b.len(),
{
    if b.len() > 0 && is_space(b[0]) {
        lemma_trim_start_len(b.drop_first());
    }
}

proof fn lemma_trim_end_len(b: Seq<u8>)
    ensures
        trim_end(b).len() <= b.len(),
    decreases b.len(),
{
    if b.len() > 0 && is_space(b.last()) {
        lemma_trim_end_len(b.drop_last());
    }
}

/// Taking a word leaves a shorter command.
pub proof fn lemma_rest_shorter(b: Seq<u8>)
    requires
        b.len() > 0,
    ensures
        rest_of(b).len() < b.len(),
{
    lemma_word_end_bounds(b, 0);
    lemma_trim_start_len(after_word(b));
    lemma_trim_end_len(trim_start(after_word(b)));
}

/// The words of a command, as repeated calls of `take_next` take them.
pub open spec fn words(b: Seq<u8>) -> Seq<Seq<u8>>
    decreases b.len(),
{
    if b.len() == 0 {
        Seq::empty()
    } else {
        proof {
            lemma_rest_shorter(b);
        }
        seq![next_word(b)] + words(rest_of(b))
    }
}

/// The index of the first byte of `b` from `i` on that is no ASCII white space.
fn skip_spaces(b: &[u8]) -> (r: usize)
    requires
        valid_utf8(b@),
    ensures
        r <= b.len(),
        trim_start(b@) == trim_start(b@.subrange(r as int, b@.len() as int)),
        r < b.len() ==> !is_space(b@[r as int]),
        is_char_boundary(b@, r as int),
{
    let n = b.len();
    let mut i: usize = 0;
    assert(b@.subrange(0, n as int) =~= b@);
    proof {
        is_char_boundary_start_end_of_seq(b@);
    }
    while i < n && (b[i] == 32u8 || (9u8 <= b[i] && b[i] <= 13u8))
        invariant
            i <= n == b.len(),
            valid_utf8(b@),
            trim_start(b@) == trim_start(b@.subrange(i as int, n as int)),
            is_char_boundary(b@, i as int),
        decreases n - i,
    {
        assert(b@.subrange(i as int, n as int).drop_first() =~= b@.subrange(i as int + 1, n as int));
        proof {
            lemma_ascii_boundary(b@, i as int);
        }
        i = i + 1;
    }
    i
}

/// The text without ASCII white space at either end.
pub fn trim_str<'a>(rest: &'a str) -> (r: &'a str)
    ensures
        r.spec_bytes() == trim(rest.spec_bytes()),
{
    let rb = rest.as_bytes();
    let ghost ab = rest.spec_bytes();
    proof {
        encode_utf8_valid_utf8(rest@);
    }
    let ts = skip_spaces(rb);
    let (_, tail) = rest.split_at(ts);
    let tb = tail.as_bytes();
    proof {
        valid_utf8_split(rb@, ts as int);
        assert(tb@ =~= ab.subrange(ts as int, ab.len() as int));
        is_char_boundary_start_end_of_seq(tb@);
    }
    let mut j: usize = tb.len();
    assert(tb@.subrange(0, j as int) =~= tb@);
    while j > 0 && (tb[j - 1] == 32u8 || (9u8 <= tb[j - 1] && tb[j - 1] <= 13u8))
        invariant
            j <= tb.len(),
            valid_utf8(tb@),
            trim_end(tb@) == trim_end(tb@.subrange(0, j as int)),
            is_char_boundary(tb@, j as int),
        decreases j,
    {
        assert(tb@.subrange(0, j as int).drop_last() =~= tb@.subrange(0, j as int - 1));
        proof {
            is_char_boundary_iff_not_is_continuation_byte(tb@, j as int - 1);
        }
        j = j - 1;
    }
    let (trimmed, _) = tail.split_at(j);
    proof {
        let t = tb@;
        assert(trim_end(t) == t.subrange(0, j as int)) by {
            if j > 0 {
                assert(!is_space(t.subrange(0, j as int).last()));
            }
        }
        if ts < rb.len() {
            assert(trim_start(ab) == t);
        } else {
            assert(t =~= Seq::<u8>::empty());
            assert(trim_start(ab) == trim_start(t));
        }
        assert(trimmed.spec_bytes() =~= trim(ab));
    }
    trimmed
}

/// Takes the first word off a command: the command keeps what follows the first
/// space, without white space at either end. `None` for an empty command, which
/// is left as it is.
pub fn take_next<'a>(command: &mut &'a str) -> (r: Option<&'a str>)
    ensures
        old(command).spec_bytes().len() == 0 ==> r is None && final(command).spec_bytes()
            == old(command).spec_bytes(),
        old(command).spec_bytes().len() > 0 ==> r is Some && r->0.spec_bytes() == next_word(
            old(command).spec_bytes(),
        ) && final(command).spec_bytes() == rest_of(old(command).spec_bytes()),
{
    let s: &'a str = *command;
    let b = s.as_bytes();
    if b.len() == 0 {
        return None;
    }
    let ghost bs = b@;
    proof {
        encode_utf8_valid_utf8(s@);
        is_char_boundary_start_end_of_seq(bs);
        lemma_word_end_bounds(bs, 0);
    }
    // Find the first space
    let mut i: usize = 0;
    while i < b.len() && b[i] != 32u8
        invariant
            i <= b.len(),
            bs == b@,
            word_end(bs, 0) == word_end(bs, i as int),
        decreases b.len() - i,
    {
        i = i + 1;
    }
    proof {
        if i < b.len() {
            is_char_boundary_iff_not_is_continuation_byte(bs, i as int);
        }
    }
    let (next, after) = s.split_at(i);
    let rest: &'a str = if i < b.len() {
        proof {
            valid_utf8_split(bs, i as int);
            let a = bs.subrange(i as int, bs.len() as int);
            assert(a[0] == 32);
            is_char_boundary_start_end_of_seq(a);
            lemma_ascii_boundary(a, 0);
        }
        let (_, r) = after.split_at(1);
        assert(r.spec_bytes() =~= after_word(bs));
        r
    } else {
        assert(after.spec_bytes() =~= after_word(bs));
        after
    };
    // Trim the rest
    let trimmed = trim_str(rest);
    *command = trimmed;
    Some(next)
}

/// The number a word stands for, at most `max`: decimal digits, optionally after a
/// '+', as `str::parse` reads an unsigned number.
pub open spec fn word_number(w: Seq<u8>, max: nat) -> Option<nat> {
    if parses_unsigned(w, max) {
        Some(digits_value(unsigned_digits(w)))
    } else {
        None
    }
}

/// Takes the next word off a command and reads it as an unsigned number of at most
/// `max`. `None` when the command is empty or the word is no such number; the word
/// is taken either way.
pub fn take_next_num(command: &mut &str, max: u128) -> (r: Option<u128>)
    ensures
        old(command).spec_bytes().len() == 0 ==> r is None && final(command).spec_bytes()
            == old(command).spec_bytes(),
        old(command).spec_bytes().len() > 0 ==> final(command).spec_bytes() == rest_of(
            old(command).spec_bytes(),
        ) && r == match word_number(next_word(old(command).spec_bytes()), max as nat) {
            Some(v) => Some(v as u128),
            None => None::<u128>,
        },
{
    let word = match take_next(command) {
        None => {
            return None;
        },
        Some(w) => w,
    };
    parse_unsigned(word.as_bytes(), max)
}

/// Takes the next word off a command and reads it as a number from 0 to 255.
pub fn take_next_u8(command: &mut &str) -> (r: Option<u8>)
    ensures
        old(command).spec_bytes().len() == 0 ==> r is None && final(command).spec_bytes()
            == old(command).spec_bytes(),
        old(command).spec_bytes().len() > 0 ==> final(command).spec_bytes() == rest_of(
            old(command).spec_bytes(),
        ) && r == match word_number(next_word(old(command).spec_bytes()), 255) {
            Some(v) => Some(v as u8),
            None => None::<u8>,
        },
{
    match take_next_num(command, 255) {
        Some(v) => Some(v as u8),
        None => None,
    }
}

/// Whether a word is the given keyword.
fn is_word(w: &str, keyword: &[u8]) -> (r: bool)
    ensures
        r == (w.spec_bytes() == keyword@),
{
    crate::text::bytes_equal(w.as_bytes(), keyword)
}

/// Taking a word off a command takes the first of its words.
pub proof fn lemma_words_step(b: Seq<u8>)
    ensures
        b.len() == 0 ==> words(b).len() == 0,
        b.len() > 0 ==> words(b).len() > 0 && words(b)[0] == next_word(b) && words(b).skip(1)
            =~= words(rest_of(b)),
{
}

/// The keyword "name".
pub open spec fn kw_name() -> Seq<u8> {
    seq![110u8, 97, 109, 101]
}

/// The keyword "Hash".
pub open spec fn kw_hash() -> Seq<u8> {
    seq![72u8, 97, 115, 104]
}

/// The keyword "value".
pub open spec fn kw_value() -> Seq<u8> {
    seq![118u8, 97, 108, 117, 101]
}

/// The keyword "Threads".
pub open spec fn kw_threads() -> Seq<u8> {
    seq![84u8, 104, 114, 101, 97, 100, 115]
}

/// A number that is a positive power of two.
pub open spec fn positive_power_of_two(v: usize) -> bool {
    v >= 1 && v & ((v - 1) as usize) == 0
}

/// The settings after "setoption name Hash value N" (N a positive power of two)
/// or "setoption name Threads value N" (N from 1 to 255), given the words after
/// "setoption"; `None` for any other option.
pub open spec fn set_option(ws: Seq<Seq<u8>>, settings: Settings) -> Option<Settings> {
    if ws.len() < 2 || ws[0] != kw_name() {
        None
    } else if ws[1] == kw_hash() {
        if ws.len() > 3 && ws[2] == kw_value() && word_number(ws[3], usize::MAX as nat) is Some
            && positive_power_of_two(word_number(ws[3], usize::MAX as nat)->0 as usize) {
            Some(
                Settings {
                    transposition_table_mb: word_number(ws[3], usize::MAX as nat)->0 as usize,
                    ..settings
                },
            )
        } else {
            None
        }
    } else if ws[1] == kw_threads() {
        if ws.len() > 3 && ws[2] == kw_value() && word_number(ws[3], 255) is Some && word_number(
            ws[3],
            255,
        )->0 >= 1 {
            Some(Settings { threads: word_number(ws[3], 255)->0 as u8, ..settings })
        } else {
            None
        }
    } else {
        None
    }
}

/// `t` is the error text of a refused "setoption" command with the words `ws`,
/// for the first thing that is wrong (an unknown option name is quoted as it
/// stands when ASCII).
pub open spec fn set_option_error_ok(ws: Seq<Seq<u8>>, t: Seq<char>) -> bool {
    if ws.len() < 1 || ws[0] != kw_name() {
        t == "Expected 'name' in command after 'setoption'"@
    } else if ws.len() < 2 {
        t == "No option name provided"@
    } else if ws[1] != kw_hash() && ws[1] != kw_threads() {
        all_ascii(ws[1]) ==> t == "Unknown option name '"@ + ascii_chars(ws[1]) + "'"@
    } else if ws.len() < 3 || ws[2] != kw_value() {
        if ws[1] == kw_hash() {
            t == "Expected 'value' after 'Hash'"@
        } else {
            t == "Expected 'value' after 'Threads'"@
        }
    } else if ws[1] == kw_hash() {
        if ws.len() < 4 || word_number(ws[3], usize::MAX as nat) is None {
            t == "No value provided for Hash option"@
        } else {
            t == "Transposition size must be a positive power of 2"@
        }
    } else {
        if ws.len() < 4 || word_number(ws[3], 255) is None {
            t == "No value provided for Threads option"@
        } else {
            t == "Threads must be at least 1"@
        }
    }
}

/// Applies the "setoption" command to the settings.
pub fn parse_set_option(command: &str, settings: Settings) -> (r: Result<Settings, String>)
    ensures
        r is Ok <==> set_option(words(command.spec_bytes()), settings) is Some,
        r matches Ok(s) ==> set_option(words(command.spec_bytes()), settings) == Some(s),
        r is Err ==> set_option_error_ok(words(command.spec_bytes()), r->Err_0@),
{
    let ghost ws = words(command.spec_bytes());
    let mut command = command;
    proof {
        lemma_words_step(command.spec_bytes());
    }
    let name_kw: [u8; 4] = [110, 97, 109, 101];
    assert(name_kw@ == kw_name());
    match take_next(&mut command) {
        Some(w) => {
            if !is_word(w, &name_kw) {
                return Err("Expected 'name' in command after 'setoption'".to_string());
            }
        },
        None => {
            return Err("Expected 'name' in command after 'setoption'".to_string());
        },
    }
    proof {
        lemma_words_step(command.spec_bytes());
        assert(words(command.spec_bytes()) =~= ws.skip(1));
    }
    let hash_kw: [u8; 4] = [72, 97, 115, 104];
    let threads_kw: [u8; 7] = [84, 104, 114, 101, 97, 100, 115];
    let value_kw: [u8; 5] = [118, 97, 108, 117, 101];
    assert(hash_kw@ == kw_hash());
    assert(threads_kw@ == kw_threads());
    assert(value_kw@ == kw_value());
    let option = match take_next(&mut command) {
        Some(w) => w,
        None => {
            return Err("No option name provided".to_string());
        },
    };
    proof {
        lemma_words_step(command.spec_bytes());
        assert(words(command.spec_bytes()) =~= ws.skip(2));
    }
    let is_hash = is_word(option, &hash_kw);
    let is_threads = is_word(option, &threads_kw);
    if !is_hash && !is_threads {
        let t = text_of(option.as_bytes());
        let e = "Unknown option name '".to_string().concat(t.as_str()).concat("'");
        return Err(e);
    }
    let value_ok = match take_next(&mut command) {
        Some(w) => is_word(w, &value_kw),
        None => false,
    };
    if !value_ok {
        if is_hash {
            return Err("Expected 'value' after 'Hash'".to_string());
        } else {
            return Err("Expected 'value' after 'Threads'".to_string());
        }
    }
    proof {
        lemma_words_step(command.spec_bytes());
        assert(words(command.spec_bytes()) =~= ws.skip(3));
    }
    if is_hash {
        match take_next_num(&mut command, usize::MAX as u128) {
            Some(megabytes) => {
                let mb = megabytes as usize;
                if mb < 1 || (mb & (mb - 1)) != 0 {
                    return Err("Transposition size must be a positive power of 2".to_string());
                }
                Ok(Settings { transposition_table_mb: mb, ..settings })
            },
            None => Err("No value provided for Hash option".to_string()),
        }
    } else {
        match take_next_num(&mut command, 255) {
            Some(threads) => {
                if threads < 1 {
                    return Err("Threads must be at least 1".to_string());
                }
                Ok(Settings { threads: threads as u8, ..settings })
            },
            None => Err("No value provided for Threads option".to_string()),
        }
    }
}

/// The keyword "depth".
pub open spec fn kw_depth() -> Seq<u8> {
    seq![100u8, 101, 112, 116, 104]
}

/// The keyword "ponder".
pub open spec fn kw_ponder() -> Seq<u8> {
    seq![112u8, 111, 110, 100, 101, 114]
}

/// The keyword "infinite".
pub open spec fn kw_infinite() -> Seq<u8> {
    seq![105u8, 110, 102, 105, 110, 105, 116, 101]
}

/// The keyword "wtime".
pub open spec fn kw_wtime() -> Seq<u8> {
    seq![119u8, 116, 105, 109, 101]
}

/// The keyword "btime".
pub open spec fn kw_btime() -> Seq<u8> {
    seq![98u8, 116, 105, 109, 101]
}

/// The keyword "winc".
pub open spec fn kw_winc() -> Seq<u8> {
    seq![119u8, 105, 110, 99]
}

/// The keyword "binc".
pub open spec fn kw_binc() -> Seq<u8> {
    seq![98u8, 105, 110, 99]
}

/// The keyword "movestogo".
pub open spec fn kw_movestogo() -> Seq<u8> {
    seq![109u8, 111, 118, 101, 115, 116, 111, 103, 111]
}

/// The keyword "mate".
pub open spec fn kw_mate() -> Seq<u8> {
    seq![109u8, 97, 116, 101]
}

/// The keyword "movetime".
pub open spec fn kw_movetime() -> Seq<u8> {
    seq![109u8, 111, 118, 101, 116, 105, 109, 101]
}

/// The keyword "nodes".
pub open spec fn kw_nodes() -> Seq<u8> {
    seq![110u8, 111, 100, 101, 115]
}

/// The parameters of the "go" command.
#[derive(Clone, Copy)]
pub struct GoOptions {
    pub max_depth: Option<u8>,
    pub ponder: bool,
    pub infinite: bool,
    pub time: Option<u128>,
    pub inc: Option<u128>,
    pub movestogo: Option<u8>,
    pub nodes: Option<u128>,
    pub movetime: Option<u128>,
}

/// Why a "go" command is refused.
#[derive(Clone, Copy, PartialEq, Eq, Structural, Debug)]
pub enum GoError {
    /// The command has no parameters.
    Empty,
    /// A word that is no parameter.
    IllegalArgument,
    /// A parameter without its number.
    IllegalValue,
    /// A parameter this engine does not search by ("mate").
    Unsupported,
    /// The limits leave no time target: no clock, a move time below the buffer,
    /// zero moves to go, or a clock too large.
    BadTimeControl,
}

/// No parameter given yet.
pub open spec fn no_options() -> GoOptions {
    GoOptions {
        max_depth: None,
        ponder: false,
        infinite: false,
        time: None,
        inc: None,
        movestogo: None,
        nodes: None,
        movetime: None,
    }
}

/// The number after parameter word 0, of at most `max`.
pub open spec fn param_number(ws: Seq<Seq<u8>>, max: nat) -> Option<nat> {
    if ws.len() > 1 {
        word_number(ws[1], max)
    } else {
        None
    }
}

/// Reads the parameters of a "go" command word by word, for the side to move
/// (`white`): the clock and increment of the other side are passed over.
pub open spec fn go_options(ws: Seq<Seq<u8>>, white: bool, acc: GoOptions) -> Result<GoOptions, GoError>
    decreases ws.len(),
{
    if ws.len() == 0 {
        Ok(acc)
    } else {
        let w = ws[0];
        if w == kw_ponder() {
            go_options(ws.skip(1), white, GoOptions { ponder: true, ..acc })
        } else if w == kw_infinite() {
            go_options(ws.skip(1), white, GoOptions { infinite: true, ..acc })
        } else if w == kw_mate() {
            Err(GoError::Unsupported)
        } else if w == kw_depth() || w == kw_movestogo() {
            match param_number(ws, 255) {
                Some(v) => go_options(
                    ws.skip(2),
                    white,
                    if w == kw_depth() {
                        GoOptions { max_depth: Some(v as u8), ..acc }
                    } else {
                        GoOptions { movestogo: Some(v as u8), ..acc }
                    },
                ),
                None => Err(GoError::IllegalValue),
            }
        } else if w == kw_wtime() || w == kw_btime() || w == kw_winc() || w == kw_binc() || w
            == kw_movetime() || w == kw_nodes() {
            match param_number(ws, u128::MAX as nat) {
                Some(v) => go_options(
                    ws.skip(2),
                    white,
                    if (w == kw_wtime() && white) || (w == kw_btime() && !white) {
                        GoOptions { time: Some(v as u128), ..acc }
                    } else if (w == kw_winc() && white) || (w == kw_binc() && !white) {
                        GoOptions { inc: Some(v as u128), ..acc }
                    } else if w == kw_movetime() {
                        GoOptions { movetime: Some(v as u128), ..acc }
                    } else if w == kw_nodes() {
                        GoOptions { nodes: Some(v as u128), ..acc }
                    } else {
                        acc
                    },
                ),
                None => Err(GoError::IllegalValue),
            }
        } else {
            Err(GoError::IllegalArgument)
        }
    }
}

/// The options leave a time target.
pub open spec fn options_ok(o: GoOptions) -> bool {
    args_ok(o.max_depth, o.infinite, o.time, o.inc, o.movestogo, o.movetime)
}

/// The search limits a "go" command gives, or why it is refused.
pub open spec fn go_result(b: Seq<u8>, white: bool) -> Result<GoOptions, GoError> {
    if b.len() == 0 {
        Err(GoError::Empty)
    } else {
        match go_options(words(b), white, no_options()) {
            Ok(o) => if options_ok(o) {
                Ok(o)
            } else {
                Err(GoError::BadTimeControl)
            },
            Err(e) => Err(e),
        }
    }
}

/// `a` holds the search limits that the "go" parameters `o` ask for.
pub open spec fn limits_of(o: GoOptions, a: SearchArgs) -> bool {
    &&& a.max_depth == match o.max_depth {
        Some(d) => d,
        None => MAX_DEPTH,
    }
    &&& a.time_target == time_target_of(o.max_depth, o.infinite, o.time, o.inc, o.movestogo, o.movetime)
    &&& a.max_nodes == match o.nodes {
        Some(n) => n,
        None => u128::MAX,
    }
    &&& a.ponder == o.ponder
}

/// The word at which `go_options` stops with an error: the parameter word with
/// no number after it, or the word that is no parameter.
pub open spec fn go_fail_word(ws: Seq<Seq<u8>>, white: bool, acc: GoOptions) -> Seq<u8>
    decreases ws.len(),
{
    if ws.len() == 0 {
        Seq::empty()
    } else {
        let w = ws[0];
        if w == kw_ponder() {
            go_fail_word(ws.skip(1), white, GoOptions { ponder: true, ..acc })
        } else if w == kw_infinite() {
            go_fail_word(ws.skip(1), white, GoOptions { infinite: true, ..acc })
        } else if w == kw_mate() {
            w
        } else if w == kw_depth() || w == kw_movestogo() {
            match param_number(ws, 255) {
                Some(v) => go_fail_word(
                    ws.skip(2),
                    white,
                    if w == kw_depth() {
                        GoOptions { max_depth: Some(v as u8), ..acc }
                    } else {
                        GoOptions { movestogo: Some(v as u8), ..acc }
                    },
                ),
                None => w,
            }
        } else if w == kw_wtime() || w == kw_btime() || w == kw_winc() || w == kw_binc() || w
            == kw_movetime() || w == kw_nodes() {
            match param_number(ws, u128::MAX as nat) {
                Some(v) => go_fail_word(
                    ws.skip(2),
                    white,
                    if (w == kw_wtime() && white) || (w == kw_btime() && !white) {
                        GoOptions { time: Some(v as u128), ..acc }
                    } else if (w == kw_winc() && white) || (w == kw_binc() && !white) {
                        GoOptions { inc: Some(v as u128), ..acc }
                    } else if w == kw_movetime() {
                        GoOptions { movetime: Some(v as u128), ..acc }
                    } else if w == kw_nodes() {
                        GoOptions { nodes: Some(v as u128), ..acc }
                    } else {
                        acc
                    },
                ),
                None => w,
            }
        } else {
            w
        }
    }
}

/// `t` is the error text of a refused "go" command `b`: for a word without its
/// number "Illegal go " and the word, for a word that is no parameter "Illegal go
/// argument: " and the word (each quoted as it stands when ASCII).
pub open spec fn go_error_ok(b: Seq<u8>, white: bool, t: Seq<char>) -> bool {
    let w = go_fail_word(words(b), white, no_options());
    match go_result(b, white) {
        Err(GoError::Empty) => t == "Empty go command"@,
        Err(GoError::IllegalValue) => all_ascii(w) ==> t == "Illegal go "@ + ascii_chars(w),
        Err(GoError::IllegalArgument) => all_ascii(w) ==> t == "Illegal go argument: "@
            + ascii_chars(w),
        Err(GoError::Unsupported) => t == "Searching for a mate is not supported"@,
        Err(GoError::BadTimeControl) => t == "No time control specified"@,
        Ok(_) => true,
    }
}

/// Reads the parameters of the "go" command into search limits, for the side to
/// move in `pos`.
pub fn parse_go(command: &str, pos: &Position) -> (r: Result<SearchArgs, String>)
    ensures
        go_result(command.spec_bytes(), pos.active_color == Color::White) is Err ==> r is Err
            && go_error_ok(command.spec_bytes(), pos.active_color == Color::White, r->Err_0@),
        go_result(command.spec_bytes(), pos.active_color == Color::White) matches Ok(o) ==> r
            matches Ok(a) && limits_of(o, a),
{
    let white = pos.active_color.is_white();
    let ghost b0 = command.spec_bytes();
    if command.as_bytes().len() == 0 {
        return Err("Empty go command".to_string());
    }
    let mut rest = command;
    let mut o = GoOptions {
        max_depth: None,
        ponder: false,
        infinite: false,
        time: None,
        inc: None,
        movestogo: None,
        nodes: None,
        movetime: None,
    };
    loop
        invariant
            go_options(words(rest.spec_bytes()), white, o) == go_options(words(b0), white, no_options()),
            go_fail_word(words(rest.spec_bytes()), white, o) == go_fail_word(
                words(b0),
                white,
                no_options(),
            ),
            white == (pos.active_color == Color::White),
            b0.len() > 0,
            b0 == command.spec_bytes(),
        ensures
            go_options(words(b0), white, no_options()) == Ok::<GoOptions, GoError>(o),
            white == (pos.active_color == Color::White),
            b0.len() > 0,
            b0 == command.spec_bytes(),
        decreases rest.spec_bytes().len(),
    {
        let kw_depth_bytes: [u8; 5] = [100, 101, 112, 116, 104];
        assert(kw_depth_bytes@ == kw_depth());
        let kw_ponder_bytes: [u8; 6] = [112, 111, 110, 100, 101, 114];
        assert(kw_ponder_bytes@ == kw_ponder());
        let kw_infinite_bytes: [u8; 8] = [105, 110, 102, 105, 110, 105, 116, 101];
        assert(kw_infinite_bytes@ == kw_infinite());
        let kw_wtime_bytes: [u8; 5] = [119, 116, 105, 109, 101];
        assert(kw_wtime_bytes@ == kw_wtime());
        let kw_btime_bytes: [u8; 5] = [98, 116, 105, 109, 101];
        assert(kw_btime_bytes@ == kw_btime());
        let kw_winc_bytes: [u8; 4] = [119, 105, 110, 99];
        assert(kw_winc_bytes@ == kw_winc());
        let kw_binc_bytes: [u8; 4] = [98, 105, 110, 99];
        assert(kw_binc_bytes@ == kw_binc());
        let kw_movestogo_bytes: [u8; 9] = [109, 111, 118, 101, 115, 116, 111, 103, 111];
        assert(kw_movestogo_bytes@ == kw_movestogo());
        let kw_mate_bytes: [u8; 4] = [109, 97, 116, 101];
        assert(kw_mate_bytes@ == kw_mate());
        let kw_movetime_bytes: [u8; 8] = [109, 111, 118, 101, 116, 105, 109, 101];
        assert(kw_movetime_bytes@ == kw_movetime());
        let kw_nodes_bytes: [u8; 5] = [110, 111, 100, 101, 115];
        assert(kw_nodes_bytes@ == kw_nodes());
        let ghost b = rest.spec_bytes();
        let ghost ws = words(b);
        proof {
            lemma_words_step(b);
        }
        let arg = match take_next(&mut rest) {
            Some(a) => a,
            None => {
                assert(words(b).len() == 0);
                break;
            },
        };
        let ghost mid = rest.spec_bytes();
        proof {
            lemma_rest_shorter(b);
            lemma_words_step(rest.spec_bytes());
        }
        if is_word(arg, &kw_ponder_bytes) {
            o = GoOptions { ponder: true, ..o };
        } else if is_word(arg, &kw_infinite_bytes) {
            o = GoOptions { infinite: true, ..o };
        } else if is_word(arg, &kw_mate_bytes) {
            return Err("Searching for a mate is not supported".to_string());
        } else if is_word(arg, &kw_depth_bytes) || is_word(arg, &kw_movestogo_bytes) {
                        let v = match take_next_num(&mut rest, 255) {
                Some(v) => v as u8,
                None => {
                    let t = text_of(arg.as_bytes());
                    return Err("Illegal go ".to_string().concat(t.as_str()));
                },
            };
            proof {
                lemma_rest_shorter(mid);
                lemma_words_step(rest.spec_bytes());
                assert(words(rest.spec_bytes()) =~= ws.skip(2));
            }
            if is_word(arg, &kw_depth_bytes) {
                o = GoOptions { max_depth: Some(v), ..o };
            } else {
                o = GoOptions { movestogo: Some(v), ..o };
            }
        } else if is_word(arg, &kw_wtime_bytes) || is_word(arg, &kw_btime_bytes) || is_word(
            arg,
            &kw_winc_bytes,
        ) || is_word(arg, &kw_binc_bytes) || is_word(arg, &kw_movetime_bytes) || is_word(
            arg,
            &kw_nodes_bytes,
        ) {
            let v = match take_next_num(&mut rest, u128::MAX) {
                Some(v) => v,
                None => {
                    let t = text_of(arg.as_bytes());
                    return Err("Illegal go ".to_string().concat(t.as_str()));
                },
            };
            proof {
                lemma_rest_shorter(mid);
                lemma_words_step(rest.spec_bytes());
                assert(words(rest.spec_bytes()) =~= ws.skip(2));
            }
            if (is_word(arg, &kw_wtime_bytes) && white) || (is_word(arg, &kw_btime_bytes) && !white) {
                o = GoOptions { time: Some(v), ..o };
            } else if (is_word(arg, &kw_winc_bytes) && white) || (is_word(arg, &kw_binc_bytes)
                && !white) {
                o = GoOptions { inc: Some(v), ..o };
            } else if is_word(arg, &kw_movetime_bytes) {
                o = GoOptions { movetime: Some(v), ..o };
            } else if is_word(arg, &kw_nodes_bytes) {
                o = GoOptions { nodes: Some(v), ..o };
            }
        } else {
            let t = text_of(arg.as_bytes());
            return Err("Illegal go argument: ".to_string().concat(t.as_str()));
        }
    }
    // The limits must leave a time target
    let ok = match o.movetime {
        Some(t) => t >= crate::search_args::TIME_BUFFER,
        None => {
            if o.infinite || o.max_depth.is_some() {
                true
            } else {
                match o.time {
                    Some(t) => {
                        let i = match o.inc {
                            Some(v) => v,
                            None => 0,
                        };
                        let mtg_ok = match o.movestogo {
                            Some(m) => m != 0,
                            None => true,
                        };
                        mtg_ok && t <= u128::MAX - i
                    },
                    None => false,
                }
            }
        },
    };
    if !ok {
        return Err("No time control specified".to_string());
    }
    match SearchArgs::new(o.max_depth, o.ponder, o.infinite, o.time, o.inc, o.movestogo, o.nodes, o.movetime) {
        Ok(a) => Ok(a),
        Err(_) => Err("No time control specified".to_string()),
    }
}

/// The keyword "startpos".
pub open spec fn kw_startpos() -> Seq<u8> {
    seq![115u8, 116, 97, 114, 116, 112, 111, 115]
}

/// The keyword "fen".
pub open spec fn kw_fen() -> Seq<u8> {
    seq![102u8, 101, 110]
}

/// The keyword "moves".
pub open spec fn kw_moves() -> Seq<u8> {
    seq![109u8, 111, 118, 101, 115]
}

/// Where the text "moves" first occurs in `b` from `i` on; the end when it does not.
pub open spec fn find_moves(b: Seq<u8>, i: int) -> int
    decreases b.len() - i,
{
    if i < 0 || i + 5 > b.len() {
        b.len() as int
    } else if b.subrange(i, i + 5) == kw_moves() {
        i
    } else {
        find_moves(b, i + 1)
    }
}

/// The part of a "position" command before the first "moves", trimmed.
pub open spec fn position_part(b: Seq<u8>) -> Seq<u8> {
    trim(b.subrange(0, find_moves(b, 0)))
}

/// The part of a "position" command between the first "moves" and the next one (or
/// the end), trimmed; `None` when there is no "moves".
pub open spec fn moves_part(b: Seq<u8>) -> Option<Seq<u8>> {
    let f = find_moves(b, 0);
    if f < b.len() {
        Some(trim(b.subrange(f + 5, find_moves(b, f + 5))))
    } else {
        None
    }
}

/// `q` is reached from `p` by playing moves that `generate_moves` may list, whose UCI
/// texts are the words `ws`.
pub open spec fn plays(p: Position, ws: Seq<Seq<u8>>, q: Position) -> bool
    decreases ws.len(),
{
    if ws.len() == 0 {
        q == p
    } else {
        exists|m: Move, mid: Position|
            #![trigger made(p, m, mid)]
            uci_bytes(m) == ws[0] && generated_move(p, m) && made(p, m, mid) && plays(
                mid,
                ws.skip(1),
                q,
            )
    }
}

/// `p` is the position a "position" command starts from: the starting position
/// for "startpos", or the position of the FEN string after "fen".
pub open spec fn base_position(b: Seq<u8>, p: Position) -> bool {
    let w = position_part(b);
    ||| (w.len() > 0 && next_word(w) == kw_startpos() && start_position(p))
    ||| (w.len() > 0 && next_word(w) == kw_fen() && fen_ok(rest_of(w)) && fen_describes(
        rest_of(w),
        p,
    ))
}

proof fn lemma_find_moves_bounds(b: Seq<u8>, i: int)
    requires
        0 <= i <= b.len(),
    ensures
        i <= find_moves(b, i) <= b.len(),
        find_moves(b, i) < b.len() ==> find_moves(b, i) + 5 <= b.len() && b.subrange(
            find_moves(b, i),
            find_moves(b, i) + 5,
        ) == kw_moves(),
    decreases b.len() - i,
{
    if i + 5 <= b.len() && b.subrange(i, i + 5) != kw_moves() {
        lemma_find_moves_bounds(b, i + 1);
    }
}

/// Searching a suffix searches the whole from where the suffix starts.
proof fn lemma_find_moves_shift(b: Seq<u8>, s: int, i: int)
    requires
        0 <= s <= b.len(),
        0 <= i <= b.len() - s,
    ensures
        find_moves(b.subrange(s, b.len() as int), i) == find_moves(b, s + i) - s,
    decreases b.len() - s - i,
{
    let t = b.subrange(s, b.len() as int);
    if i + 5 <= t.len() {
        assert(t.subrange(i, i + 5) =~= b.subrange(s + i, s + i + 5));
        if t.subrange(i, i + 5) != kw_moves() {
            lemma_find_moves_shift(b, s, i + 1);
        }
    }
}

/// Playing one more move extends a line of play by its UCI text.
proof fn lemma_plays_extend(
    base: Position,
    ws: Seq<Seq<u8>>,
    k: int,
    before: Position,
    mv: Move,
    after: Position,
)
    requires
        0 <= k < ws.len(),
        plays(base, ws.take(k), before),
        uci_bytes(mv) == ws[k],
        generated_move(before, mv),
        made(before, mv, after),
    ensures
        plays(base, ws.take(k + 1), after),
    decreases k,
{
    if k == 0 {
        assert(ws.take(1).skip(1) =~= Seq::<Seq<u8>>::empty());
        assert(ws.take(1)[0] == ws[0]);
        assert(plays(after, ws.take(1).skip(1), after));
    } else {
        let (m1, mid1) = choose|m1: Move, mid1: Position|
            #![trigger made(base, m1, mid1)]
            uci_bytes(m1) == ws.take(k)[0] && generated_move(base, m1) && made(base, m1, mid1) && plays(
                mid1,
                ws.take(k).skip(1),
                before,
            );
        assert(ws.take(k).skip(1) =~= ws.skip(1).take(k - 1));
        lemma_plays_extend(mid1, ws.skip(1), k - 1, before, mv, after);
        assert(ws.take(k + 1).skip(1) =~= ws.skip(1).take(k));
        assert(ws.take(k + 1)[0] == ws.take(k)[0]);
    }
}

/// Where "moves" first occurs in `b` from `i` on.
fn find_moves_from(b: &[u8], i: usize) -> (r: usize)
    requires
        i <= b.len(),
    ensures
        r == find_moves(b@, i as int),
{
    let kw: [u8; 5] = [109, 111, 118, 101, 115];
    assert(kw@ == kw_moves());
    let mut j = i;
    while b.len() - j >= 5
        invariant
            i <= j <= b.len(),
            kw@ == kw_moves(),
            find_moves(b@, i as int) == find_moves(b@, j as int),
        decreases b.len() - j,
    {
        let sub = &b[j..j + 5];
        if crate::text::bytes_equal(sub, &kw) {
            return j;
        }
        j = j + 1;
    }
    b.len()
}

/// The text from byte `i` on of a string whose bytes `i - 5` to `i` are "moves".
fn after_keyword<'a>(s: &'a str, i: usize) -> (r: &'a str)
    requires
        5 <= i <= s.spec_bytes().len(),
        s.spec_bytes().subrange(i - 5, i as int) == kw_moves(),
        is_char_boundary(s.spec_bytes(), i - 5),
    ensures
        r.spec_bytes() == s.spec_bytes().subrange(i as int, s.spec_bytes().len() as int),
{
    let ghost b = s.spec_bytes();
    proof {
        encode_utf8_valid_utf8(s@);
        assert(b[i - 5] == 109 && b[i - 4] == 111 && b[i - 3] == 118 && b[i - 2] == 101 && b[i - 1]
            == 115) by {
            assert(b.subrange(i - 5, i as int)[0] == b[i - 5]);
            assert(b.subrange(i - 5, i as int)[1] == b[i - 4]);
            assert(b.subrange(i - 5, i as int)[2] == b[i - 3]);
            assert(b.subrange(i - 5, i as int)[3] == b[i - 2]);
            assert(b.subrange(i - 5, i as int)[4] == b[i - 1]);
        }
        lemma_ascii_boundary(b, i - 5);
        lemma_ascii_boundary(b, i - 4);
        lemma_ascii_boundary(b, i - 3);
        lemma_ascii_boundary(b, i - 2);
        lemma_ascii_boundary(b, i - 1);
    }
    let (_, r) = s.split_at(i);
    r
}

/// The "position" command `b` gives `q`: it starts from its base position and plays
/// the moves after "moves", if there are any.
pub open spec fn position_gives(b: Seq<u8>, q: Position) -> bool {
    exists|p: Position|
        #![trigger base_position(b, p)]
        base_position(b, p) && match moves_part(b) {
            Some(mv) => plays(p, words(mv), q),
            None => q == p,
        }
}

/// The "position" command `b` names a start it can be read from: "startpos", or
/// "fen" and a FEN string that parses.
pub open spec fn position_start_ok(b: Seq<u8>) -> bool {
    position_part(b).len() > 0 && (next_word(position_part(b)) == kw_startpos() || (next_word(
        position_part(b),
    ) == kw_fen() && fen_ok(rest_of(position_part(b)))))
}

/// The moves `ws` can be played in turn from `p`: the side to move has a king, its
/// counters have room, fewer than 256 moves are generated, it has one king and a
/// single en passant square, some generated move has the first word as its text,
/// and every position that such a move leads to can play the rest.
pub open spec fn playable(p: Position, ws: Seq<Seq<u8>>) -> bool
    decreases ws.len(),
{
    if ws.len() == 0 {
        true
    } else {
        &&& has_king(p)
        &&& p.half_moves < 255 && p.full_moves < 65535 && p.rep_table.length() < 100
        &&& fits_move_list(p) && one_king(p) && ep_single(p)
        &&& exists|m: Move| #[trigger] generated_move(p, m) && uci_bytes(m) == ws[0]
        &&& forall|m: Move, q: Position|
            #![trigger made(p, m, q)]
            generated_move(p, m) && uci_bytes(m) == ws[0] && made(p, m, q) ==> playable(q, ws.skip(1))
    }
}

/// The "position" command `b` can be carried out: its start can be read, and from
/// every position that the start describes the listed moves can be played.
pub open spec fn position_command_ok(b: Seq<u8>) -> bool {
    &&& position_start_ok(b)
    &&& forall|p: Position| #[trigger]
        base_position(b, p) ==> match moves_part(b) {
            Some(mv) => playable(p, words(mv)),
            None => true,
        }
}

/// Why the moves `ws` of a "position" command stop at word `k`, in position `q`
/// that the words before it led to: the side to move has no king or its counters
/// are full; or the word is not the text of a generated move (or too many moves
/// are generated to list them all), and the refusal names the word.
pub open spec fn move_refused(q: Position, ws: Seq<Seq<u8>>, k: int, e: Seq<char>) -> bool {
    let room = has_king(q) && q.half_moves < 255 && q.full_moves < 65535 && q.rep_table.length() < 100;
    ||| !room && e == "The position cannot take another move"@
    ||| room && !(fits_move_list(q) && one_king(q) && ep_single(q) && exists|m: Move|
        #[trigger] generated_move(q, m) && uci_bytes(m) == ws[k]) && (all_ascii(ws[k]) ==> e
        == "Illegal move: "@ + ascii_chars(ws[k]))
}

/// Reads the "position" command: "startpos" or "fen" and a FEN string, then
/// optionally "moves" and the moves to play in UCI notation. Fails on any other
/// start, on a FEN string that does not parse, on a move that is not generated in
/// its position, and when a position has no king to move or its move counters
/// are full. Succeeds when the start can be read and the moves can be played in
/// turn from every position it describes (see `playable`). A refused move is named:
/// the refusal comes at a word that the words before it led to a position that
/// cannot take (see `move_refused`).
pub fn parse_position(command: &str) -> (r: Result<Position, String>)
    ensures
        r matches Ok(q) ==> position_gives(command.spec_bytes(), q),
        !position_start_ok(command.spec_bytes()) ==> r is Err,
        position_command_ok(command.spec_bytes()) ==> r is Ok,
        position_start_ok(command.spec_bytes()) && moves_part(command.spec_bytes()) is Some ==> (
        r matches Err(e) ==> exists|k: int, p: Position, q: Position|
            #![trigger base_position(command.spec_bytes(), p), plays(p, words(moves_part(command.spec_bytes())->0).take(k), q)]
            0 <= k < words(moves_part(command.spec_bytes())->0).len() && base_position(command.spec_bytes(), p)
                && plays(p, words(moves_part(command.spec_bytes())->0).take(k), q) && move_refused(
                q,
                words(moves_part(command.spec_bytes())->0),
                k,
                e@,
            )),
{
    let b = command.as_bytes();
    let ghost bs = b@;
    proof {
        encode_utf8_valid_utf8(command@);
        lemma_find_moves_bounds(bs, 0);
    }
    let f1 = find_moves_from(b, 0);
    proof {
        if f1 < b.len() {
            is_char_boundary_iff_not_is_continuation_byte(bs, f1 as int);
            assert(bs.subrange(f1 as int, f1 + 5)[0] == bs[f1 as int]);
        } else {
            is_char_boundary_start_end_of_seq(bs);
        }
    }
    let (first, after) = command.split_at(f1);
    let pos_str = trim_str(first);
    assert(pos_str.spec_bytes() == position_part(bs));
    let mut ps = pos_str;
    let startpos_kw: [u8; 8] = [115, 116, 97, 114, 116, 112, 111, 115];
    let fen_kw: [u8; 3] = [102, 101, 110];
    assert(startpos_kw@ == kw_startpos());
    assert(fen_kw@ == kw_fen());
    let mut pos = match take_next(&mut ps) {
        Some(w) => {
            if is_word(w, &startpos_kw) {
                Position::start_pos()
            } else if is_word(w, &fen_kw) {
                match Position::from_fen(ps) {
                    Ok(p) => p,
                    Err(e) => {
                        return Err(e);
                    },
                }
            } else {
                return Err("Illegal position argument".to_string());
            }
        },
        None => {
            return Err("Illegal position argument".to_string());
        },
    };
    let ghost base = pos;
    assert(base_position(bs, base));
    if f1 < b.len() {
        proof {
            valid_utf8_split(bs, f1 as int);
            assert(after.spec_bytes().subrange(0, 5) =~= bs.subrange(f1 as int, f1 + 5));
            is_char_boundary_start_end_of_seq(after.spec_bytes());
        }
        let tail = after_keyword(after, 5);
        let tb = tail.as_bytes();
        assert(tb@ =~= bs.subrange(f1 + 5, bs.len() as int));
        proof {
            lemma_find_moves_bounds(bs, f1 + 5);
            lemma_find_moves_bounds(tb@, 0);
            lemma_find_moves_shift(bs, f1 as int + 5, 0);
        }
        let f2 = find_moves_from(tb, 0);
        proof {
            encode_utf8_valid_utf8(tail@);
            if f2 < tb.len() {
                is_char_boundary_iff_not_is_continuation_byte(tb@, f2 as int);
                assert(tb@.subrange(f2 as int, f2 + 5)[0] == tb@[f2 as int]);
            } else {
                is_char_boundary_start_end_of_seq(tb@);
            }
        }
        let (piece, _) = tail.split_at(f2);
        let mut args = trim_str(piece);
        assert(piece.spec_bytes() =~= bs.subrange(f1 + 5, find_moves(bs, f1 + 5)));
        let ghost ws0 = words(args.spec_bytes());
        assert(moves_part(bs) == Some(args.spec_bytes()));
        loop
            invariant
                pos.wf(),
                plays(base, ws0.take(ws0.len() - words(args.spec_bytes()).len()), pos),
                words(args.spec_bytes()) == ws0.skip(ws0.len() - words(args.spec_bytes()).len()),
                words(args.spec_bytes()).len() <= ws0.len(),
                position_command_ok(bs) ==> playable(pos, words(args.spec_bytes())),
                bs == command.spec_bytes(),
                base_position(bs, base),
                moves_part(bs) is Some && ws0 == words(moves_part(bs)->0),
            ensures
                pos.wf(),
                plays(base, ws0, pos),
            decreases args.spec_bytes().len(),
        {
            let ghost a = args.spec_bytes();
            proof {
                lemma_words_step(a);
            }
            let m = match take_next(&mut args) {
                Some(m) => m,
                None => {
                    assert(ws0.take(ws0.len() as int) =~= ws0);
                    break;
                },
            };
            proof {
                lemma_rest_shorter(a);
                lemma_words_step(args.spec_bytes());
                assert(words(a)[0] == m.spec_bytes());
            }
            let ghost k = ws0.len() - words(a).len();
            if !(pos.has_king() && pos.has_room()) {
                let e = "The position cannot take another move".to_string();
                proof {
                    assert(move_refused(pos, ws0, k, e@));
                }
                return Err(e);
            }
            let ghost before = pos;
            match pos.make_uci_move(m) {
                Ok(()) => {},
                Err(e) => {
                    proof {
                        if all_ascii(m.spec_bytes()) {
                            lemma_ascii_text(m);
                        }
                        assert(ws0[k] == m.spec_bytes());
                        assert(move_refused(pos, ws0, k, e@));
                    }
                    return Err(e);
                },
            }
            proof {
                let k = ws0.len() - words(a).len();
                let mv = choose|mv: Move| #![trigger made(before, mv, pos)] uci_bytes(mv) == m.spec_bytes() && generated_move(before, mv) && made(before, mv, pos);
                assert(ws0[k] == words(a)[0]);
                lemma_plays_extend(base, ws0, k, before, mv, pos);
                assert(words(args.spec_bytes()) =~= ws0.skip(k + 1));
                assert(words(args.spec_bytes()) =~= words(a).skip(1));
            }
        }
    }
    Ok(pos)
}

} // verus!
