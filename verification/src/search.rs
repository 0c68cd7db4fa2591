use vstd::prelude::*;

verus! {

use std::sync::Arc;
use std::sync::atomic::{AtomicBool, AtomicU8, Ordering};
use std::time::Instant;
use crate::bits::{bit, popcount, count_true, lemma_popcount_count, lemma_count_true_same};
use crate::bitboard::Bitboard;
use crate::clock::millis_since;
use crate::color::Color;
use crate::make_move::{move_sound, is_cap, is_ep};
use crate::move_list::MoveList;
use crate::movegen::{list_sound, generated_move, entry_words, enumerates};
use crate::moves::Move;
use crate::piece::PieceType;
use crate::position::Position;
use crate::pv_table::PVTable;
use crate::search_args::{SearchArgs, Settings};
use crate::tt::{TranspositionTable, HashFlag, storable, stored_score};
use crate::make_move::counters_ok;
use crate::movegen::has_king;
use crate::repetition::occurrences;
use crate::score::{MAX_PLY, MATE_VALUE, INFINITY};
use crate::search_args::SearchStats;

/// The number of killer moves kept for each ply.
pub const KILLER_MOVE_COUNT: usize = 3;

/// The number of plies killer moves are kept for.
pub const KILLER_PLIES: usize = 128;

/// A search shared by the threads that run it: whether it runs, whether it is
/// asked to stop, the settings, the transposition table and the table generation.
#[derive(Clone)]
pub struct Search {
    pub is_running: Arc<AtomicBool>,
    pub is_stopping: Arc<AtomicBool>,
    pub settings: Settings,
    pub tt: Arc<TranspositionTable>,
    pub generation: Arc<AtomicU8>,
}

/// A transposition table size that can be allocated.
pub open spec fn table_size_ok(megabytes: usize) -> bool {
    1 <= megabytes && megabytes * crate::tt::BYTES_PR_MB <= usize::MAX
}

/// The table generation after `g`: generations count up to 63, then wrap to 0.
pub open spec fn next_generation_of(g: u8) -> u8 {
    if g >= 63 {
        0
    } else {
        (g + 1) as u8
    }
}

/// The generation that follows `g`.
pub fn next_generation(g: u8) -> (r: u8)
    ensures
        r == next_generation_of(g),
        r < 64,
{
    if g >= 63 {
        0
    } else {
        g + 1
    }
}

impl Search {
    pub open spec fn wf(&self) -> bool {
        self.tt.wf()
    }

    /// A search that is not running, with a new transposition table of the size the
    /// settings ask for.
    pub fn new(settings: Settings) -> (r: Search)
        requires
            table_size_ok(settings.transposition_table_mb),
        ensures
            r.wf(),
            r.settings == settings,
            r.tt.slots() == settings.transposition_table_mb * crate::tt::BYTES_PR_MB / 16,
    {
        let tt = TranspositionTable::new(settings.transposition_table_mb);
        Search {
            is_running: Arc::new(AtomicBool::new(false)),
            is_stopping: Arc::new(AtomicBool::new(false)),
            settings,
            tt: Arc::new(tt),
            generation: Arc::new(AtomicU8::new(0)),
        }
    }

    /// Takes new settings; the transposition table is made anew, empty, when its
    /// size changes.
    pub fn update_settings(&mut self, new_settings: Settings)
        requires
            old(self).wf(),
            table_size_ok(new_settings.transposition_table_mb),
        ensures
            final(self).wf(),
            final(self).settings == new_settings,
            new_settings.transposition_table_mb != old(self).settings.transposition_table_mb
                ==> final(self).tt.slots() == new_settings.transposition_table_mb
                * crate::tt::BYTES_PR_MB / 16,
            new_settings.transposition_table_mb == old(self).settings.transposition_table_mb
                ==> final(self).tt == old(self).tt,
    {
        if new_settings.transposition_table_mb != self.settings.transposition_table_mb {
            self.tt = Arc::new(TranspositionTable::new(new_settings.transposition_table_mb));
        }
        self.settings = new_settings;
    }

    /// Marks the search as running or not.
    pub fn set_running(&self, running: bool) {
        self.is_running.store(running, Ordering::Relaxed);
    }

    /// Clears the stop request.
    pub fn clear_stop(&self) {
        self.is_stopping.store(false, Ordering::Relaxed);
    }

    /// Asks a running search to stop.
    pub fn stop(&self) {
        if self.is_running() {
            self.is_stopping.store(true, Ordering::Release);
        }
    }

    /// Whether the search runs. It is shared with other threads, so nothing is
    /// known of the answer.
    pub fn is_running(&self) -> bool {
        self.is_running.load(Ordering::Relaxed)
    }

    /// Whether the search is asked to stop. It is shared with other threads, so
    /// nothing is known of the answer.
    pub fn is_stopping(&self) -> bool {
        self.is_stopping.load(Ordering::Relaxed)
    }

    /// The current transposition table generation.
    pub fn current_generation(&self) -> u8 {
        self.generation.load(Ordering::Relaxed)
    }

    /// Moves the transposition table generation on by one, wrapping after 63.
    pub fn advance_generation(&self) {
        let g = self.current_generation();
        self.generation.store(next_generation(g), Ordering::Relaxed);
    }
}

/// The state of one search thread: the shared search, its limits, the root
/// position, the table generation it writes, the principal variation, the killer
/// and history move tables, the start time and the counters.
pub struct SearchContext {
    pub search: Search,
    pub search_meta: SearchArgs,
    pub pos: Position,
    pub tt_age: u8,
    pub pv_table: PVTable,
    pub killer_moves: Vec<Option<Move>>,
    pub history_moves: Vec<u16>,
    pub start_time: Instant,
    pub is_printing: bool,
    pub nodes: u128,
    pub tt_hits: u128,
}

impl SearchContext {
    /// Killer move `i` of `ply`.
    pub open spec fn killer(&self, i: int, ply: int) -> Option<Move> {
        self.killer_moves@[i * 128 + ply]
    }

    /// The history score of piece table index `p` moving to `sq`.
    pub open spec fn history(&self, p: int, sq: int) -> u16 {
        self.history_moves@[p * 64 + sq]
    }

    pub open spec fn wf(&self) -> bool {
        &&& self.search.wf()
        &&& self.pv_table.wf()
        &&& self.killer_moves@.len() == 3 * 128
        &&& self.history_moves@.len() == 12 * 64
    }

    /// The first move of the principal variation from the root, once there is one,
    /// is a move generated in the position searched.
    pub open spec fn root_move_ok(&self) -> bool {
        self.pv_table.entry(0, 0) matches Some(m) ==> generated_move(self.pos, m)
    }

    /// A fresh context for a search of `pos`: no killer or history moves yet, the
    /// table generation read from the search.
    pub fn new(
        search: Search,
        search_meta: SearchArgs,
        pos: Position,
        start_time: Instant,
        is_printing: bool,
    ) -> (r: SearchContext)
        requires
            search.wf(),
        ensures
            r.wf(),
            r.search == search,
            r.search_meta == search_meta,
            r.pos == pos,
            r.is_printing == is_printing,
            r.nodes == 0,
            r.tt_hits == 0,
            forall|i: int| 0 <= i < 3 * 128 ==> #[trigger] r.killer_moves@[i] is None,
            forall|i: int| 0 <= i < 12 * 64 ==> #[trigger] r.history_moves@[i] == 0,
            r.root_move_ok(),
    {
        let tt_age = search.current_generation();
        let mut killer_moves: Vec<Option<Move>> = Vec::new();
        let mut i: usize = 0;
        while i < 3 * 128
            invariant
                i <= 3 * 128,
                killer_moves@.len() == i,
                forall|j: int| 0 <= j < i ==> #[trigger] killer_moves@[j] is None,
            decreases 3 * 128 - i,
        {
            killer_moves.push(None);
            i = i + 1;
        }
        let mut history_moves: Vec<u16> = Vec::new();
        let mut j: usize = 0;
        while j < 12 * 64
            invariant
                j <= 12 * 64,
                history_moves@.len() == j,
                forall|k: int| 0 <= k < j ==> #[trigger] history_moves@[k] == 0,
            decreases 12 * 64 - j,
        {
            history_moves.push(0);
            j = j + 1;
        }
        let pv_table = PVTable::new();
        assert(pv_table.entry(0, 0) is None);
        SearchContext {
            search,
            search_meta,
            pos,
            tt_age,
            pv_table,
            killer_moves,
            history_moves,
            start_time,
            is_printing,
            nodes: 0,
            tt_hits: 0,
        }
    }

    /// Whether the search has run past its time target; it depends on the clock.
    pub fn exceeded_time_target(&self) -> bool {
        let elapsed = millis_since(&self.start_time);
        self.search_meta.time_up(elapsed)
    }

    /// Makes `moove` the first killer move of `ply`, the others moving one place
    /// down and the last one dropping out.
    pub fn insert_killer_move(&mut self, moove: Move, ply: u8)
        requires
            old(self).wf(),
            ply < 128,
        ensures
            final(self).wf(),
            final(self).killer(0, ply as int) == Some(moove),
            final(self).killer(1, ply as int) == old(self).killer(0, ply as int),
            final(self).killer(2, ply as int) == old(self).killer(1, ply as int),
            forall|i: int, p: int|
                0 <= i < 3 && 0 <= p < 128 && p != ply ==> #[trigger] final(self).killer(i, p) == old(
                    self,
                ).killer(i, p),
            final(self).history_moves == old(self).history_moves,
            final(self).pv_table == old(self).pv_table,
            final(self).search == old(self).search,
            final(self).nodes == old(self).nodes,
            final(self).tt_hits == old(self).tt_hits,
            final(self).tt_age == old(self).tt_age,
            final(self).search_meta == old(self).search_meta,
            final(self).pos == old(self).pos,
            final(self).is_printing == old(self).is_printing,
    {
        let p = ply as usize;
        let k1 = self.killer_moves[128 + p];
        let k0 = self.killer_moves[p];
        self.killer_moves.set(256 + p, k1);
        self.killer_moves.set(128 + p, k0);
        self.killer_moves.set(p, Some(moove));
        assert forall|i: int, q: int|
            0 <= i < 3 && 0 <= q < 128 && q != ply implies #[trigger] self.killer(i, q) == old(
            self,
        ).killer(i, q) by {
            assert(i * 128 + q != p && i * 128 + q != 128 + p && i * 128 + q != 256 + p);
        }
    }

    /// Adds the square of the depth to the history score of the piece moving to the
    /// move's destination, both products kept in their widths as a release build
    /// keeps them (wrapping).
    pub fn insert_history_move(&mut self, moove: Move, piece: (Color, PieceType), depth: u8)
        requires
            old(self).wf(),
            piece.1 != PieceType::Empty,
        ensures
            final(self).wf(),
            final(self).history_moves@ == old(self).history_moves@.update(
                piece.1.index_of(piece.0) * 64 + moove.to_sq(),
                old(self).history(piece.1.index_of(piece.0), moove.to_sq() as int).wrapping_add(
                    depth.wrapping_mul(depth) as u16,
                ),
            ),
            final(self).killer_moves == old(self).killer_moves,
            final(self).pv_table == old(self).pv_table,
            final(self).search == old(self).search,
            final(self).nodes == old(self).nodes,
            final(self).tt_hits == old(self).tt_hits,
            final(self).tt_age == old(self).tt_age,
            final(self).search_meta == old(self).search_meta,
            final(self).pos == old(self).pos,
            final(self).is_printing == old(self).is_printing,
    {
        let i = piece.1.index(piece.0) * 64 + moove.dst() as usize;
        let v = self.history_moves[i];
        self.history_moves.set(i, v.wrapping_add(depth.wrapping_mul(depth) as u16));
    }
}

/// The score of a move that is best in the transposition table.
pub const PV_MOVE_SCORE: i16 = 30000;

/// Added to the score of every capture, so that captures come first.
pub const BASE_CAPTURE_SCORE: i16 = 29000;

/// The score of the first killer move; the next ones score one less each.
pub const BASE_KILLER_SCORE: i16 = 28500;

/// Most valuable victim, least valuable attacker: a capture scores by the victim
/// first and the attacker second.
pub open spec fn mvv_lva(attacker: PieceType, victim: PieceType) -> int {
    100 * (victim.num() + 1) + 5 - attacker.num()
}

/// The ordering score of a move: the best move of the transposition table first,
/// then captures by victim and attacker (en passant as a pawn taking a pawn), then
/// the killer moves of the ply, then the
/// rest by their history score (at most 1000).
pub open spec fn move_order_score(
    pos: Position,
    context: SearchContext,
    m: Move,
    best_move: Option<Move>,
    ply: int,
) -> int {
    let src = m.from_sq() as int;
    let dst = m.to_sq() as int;
    if best_move == Some(m) {
        PV_MOVE_SCORE as int
    } else if is_ep(m) {
        mvv_lva(PieceType::Pawn, PieceType::Pawn) + BASE_CAPTURE_SCORE
    } else if is_cap(m) {
        mvv_lva(pos.piece_squares@[src], pos.piece_squares@[dst]) + BASE_CAPTURE_SCORE
    } else if context.killer(0, ply) == Some(m) {
        BASE_KILLER_SCORE as int
    } else if context.killer(1, ply) == Some(m) {
        BASE_KILLER_SCORE - 1
    } else if context.killer(2, ply) == Some(m) {
        BASE_KILLER_SCORE - 2
    } else {
        let h = context.history(pos.piece_squares@[src].index_of(pos.active_color), dst);
        if h < 1000 {
            h as int
        } else {
            1000
        }
    }
}

impl Move {
    /// The score by which the search orders the moves of a position.
    pub fn score_move(
        &self,
        pos: &Position,
        context: &SearchContext,
        best_move: Option<Move>,
        ply: u8,
    ) -> (r: i16)
        requires
            context.wf(),
            move_sound(*pos, *self),
            ply < 128,
        ensures
            r == move_order_score(*pos, *context, *self, best_move, ply as int),
    {
        match best_move {
            Some(m) => {
                if *self == m {
                    return PV_MOVE_SCORE;
                }
            },
            None => {},
        }
        // Pawn takes pawn en passant, ordered with the other captures
        if self.is_enpassant() {
            return 105 + BASE_CAPTURE_SCORE;
        }
        let src = self.src();
        let dst = self.dst();
        if self.is_capture() {
            let a = pos.piece_type_at(src).number() as i16;
            let v = pos.piece_type_at(dst).number() as i16;
            return 100 * (v + 1) + 5 - a + BASE_CAPTURE_SCORE;
        }
        let p = ply as usize;
        let mut i: usize = 0;
        while i < KILLER_MOVE_COUNT
            invariant
                context.wf(),
                p < 128,
                p == ply,
                i <= 3,
                best_move != Some(*self),
                !is_ep(*self),
                !is_cap(*self),
                forall|j: int| 0 <= j < i ==> context.killer(j, p as int) != Some(*self),
            decreases 3 - i,
        {
            match context.killer_moves[i * 128 + p] {
                Some(k) => {
                    if k == *self {
                        return BASE_KILLER_SCORE - i as i16;
                    }
                },
                None => {},
            }
            i = i + 1;
        }
        let piece = pos.piece_type_at(src);
        let h = context.history_moves[piece.index(pos.active_color) * 64 + dst as usize];
        if h < 1000 {
            h as i16
        } else {
            1000
        }
    }
}

impl MoveList {
    /// Scores every move for ordering.
    pub fn sort(
        self,
        pos: &Position,
        context: &SearchContext,
        best_move: Option<Move>,
        ply: u8,
    ) -> (r: MoveList)
        requires
            context.wf(),
            list_sound(*pos, self.entries()),
            ply < 128,
        ensures
            r.entries().len() == self.entries().len(),
            forall|i: int|
                0 <= i < self.entries().len() ==> (#[trigger] r.entries()[i]).0 == self.entries()[i].0
                    && r.entries()[i].1 == move_order_score(
                    *pos,
                    *context,
                    Move { data: self.entries()[i].0 },
                    best_move,
                    ply as int,
                ),
    {
        let mut list = self;
        let n = list.len();
        let mut i: usize = 0;
        while i < n
            invariant
                context.wf(),
                ply < 128,
                n == list.entries().len(),
                n == self.entries().len(),
                list_sound(*pos, self.entries()),
                i <= n,
                forall|j: int| 0 <= j < n ==> (#[trigger] list.entries()[j]).0 == self.entries()[j].0,
                forall|j: int|
                    0 <= j < i ==> (#[trigger] list.entries()[j]).1 == move_order_score(
                        *pos,
                        *context,
                        Move { data: self.entries()[j].0 },
                        best_move,
                        ply as int,
                    ),
            decreases n - i,
        {
            let m = Move { data: list.get(i).0 };
            assert(move_sound(*pos, m));
            let score = m.score_move(pos, context, best_move, ply);
            list.set_score(i, score);
            i = i + 1;
        }
        list
    }
}

impl Position {
    /// Neither side can ever mate: no pawn, rook or queen is left, and at most one
    /// knight or bishop.
    pub open spec fn insufficient_material(self) -> bool {
        let heavy = |t: int|
            self.piece_on(t) is Some && ((self.piece_on(t)->0).1 == PieceType::Pawn || (
            self.piece_on(t)->0).1 == PieceType::Rook || (self.piece_on(t)->0).1
                == PieceType::Queen);
        let minor = |t: int|
            self.piece_on(t) is Some && ((self.piece_on(t)->0).1 == PieceType::Knight || (
            self.piece_on(t)->0).1 == PieceType::Bishop);
        count_true(heavy, 64) == 0 && count_true(minor, 64) <= 1
    }

    /// Whether neither side can ever mate: no pawn, rook or queen is left, and at
    /// most one knight or bishop.
    pub fn is_insufficient_material(&self) -> (r: bool)
        requires
            self.wf(),
        ensures
            r == self.insufficient_material(),
    {
        broadcast use crate::bits::group_bit_lemmas;

        let b = &self.bitboards;
        let heavy = b[0].0 | b[3].0 | b[4].0 | b[6].0 | b[9].0 | b[10].0;
        let minor = b[1].0 | b[2].0 | b[7].0 | b[8].0;
        proof {
            assert forall|t: int| 0 <= t < 64 implies #[trigger] bit(heavy, t) == (self.piece_on(t)
                is Some && ((self.piece_on(t)->0).1 == PieceType::Pawn || (self.piece_on(t)->0).1
                == PieceType::Rook || (self.piece_on(t)->0).1 == PieceType::Queen)) by {
                self.lemma_bitboards(t, 0);
                self.lemma_bitboards(t, 3);
                self.lemma_bitboards(t, 4);
                self.lemma_bitboards(t, 6);
                self.lemma_bitboards(t, 9);
                self.lemma_bitboards(t, 10);
            }
            assert forall|t: int| 0 <= t < 64 implies #[trigger] bit(minor, t) == (self.piece_on(t)
                is Some && ((self.piece_on(t)->0).1 == PieceType::Knight || (self.piece_on(t)->0).1
                == PieceType::Bishop)) by {
                self.lemma_bitboards(t, 1);
                self.lemma_bitboards(t, 2);
                self.lemma_bitboards(t, 7);
                self.lemma_bitboards(t, 8);
            }
            lemma_popcount_count(heavy);
            lemma_popcount_count(minor);
            lemma_count_true_same(
                |t: int| bit(heavy, t),
                |t: int|
                    self.piece_on(t) is Some && ((self.piece_on(t)->0).1 == PieceType::Pawn || (
                    self.piece_on(t)->0).1 == PieceType::Rook || (self.piece_on(t)->0).1
                        == PieceType::Queen),
                64,
            );
            lemma_count_true_same(
                |t: int| bit(minor, t),
                |t: int|
                    self.piece_on(t) is Some && ((self.piece_on(t)->0).1 == PieceType::Knight || (
                    self.piece_on(t)->0).1 == PieceType::Bishop),
                64,
            );
        }
        Bitboard(heavy).count() == 0 && Bitboard(minor).count() <= 1
    }
}

/// The reverse futility margin one ply from the horizon.
pub const FRONTIER_FUTILITY_MARGIN: i16 = 150;

/// The reverse futility margin two plies from the horizon.
pub const PRE_FRONTIER_FUTILITY_MARGIN: i16 = 600;

/// The depth reduction of the null move search.
pub const NULL_MOVE_R: u8 = 2;

/// The negation of a score in 16 bits, wrapping as a release build does.
pub open spec fn neg(x: i16) -> i16 {
    (0i16).wrapping_sub(x)
}

fn negate(x: i16) -> (r: i16)
    ensures
        r == neg(x),
{
    (0i16).wrapping_sub(x)
}

/// Whether a score can be stored from `ply` without leaving 16 bits.
fn can_store(score: i16, ply: u8) -> (r: bool)
    ensures
        r == storable(score, ply),
{
    let s = score as i32;
    let p = ply as i32;
    if score < -crate::score::MATE_BOUND {
        s - p >= -32768
    } else if score > crate::score::MATE_BOUND {
        s + p <= 32767
    } else {
        true
    }
}

impl Position {
    /// Whether the side to move has a king.
    pub fn has_king(&self) -> (r: bool)
        ensures
            r == has_king(*self),
    {
        self.bitboards[PieceType::King.index(self.active_color)].0 != 0
    }

    /// Whether the move counters and the repetition table have room for any move.
    pub fn has_room(&self) -> (r: bool)
        ensures
            r == (self.half_moves < 255 && self.full_moves < 65535 && self.rep_table.length() < 100),
            r ==> forall|m: Move| #[trigger] counters_ok(*self, m),
    {
        self.half_moves < 255 && self.full_moves < 65535 && self.rep_table.len() < 100
    }
}

/// Pops the best scored move of a sound list; the rest of the list stays sound.
fn pop_sound(list: &mut MoveList, Ghost(pos): Ghost<Position>) -> (r: Option<Move>)
    requires
        list_sound(pos, old(list).entries()),
    ensures
        list_sound(pos, final(list).entries()),
        r matches Some(m) ==> generated_move(pos, m),
        final(list).entries().len() < old(list).entries().len() || (r is None
            && final(list).entries().len() == 0),
        r matches Some(m) ==> forall|w: u16|
            #[trigger] entry_words(old(list).entries()).contains(w) <==> (w == m.data || entry_words(
                final(list).entries(),
            ).contains(w)),
        r matches Some(m) ==> (entry_words(old(list).entries()).no_duplicates() ==> (seq![m.data]
            + entry_words(final(list).entries())).no_duplicates()),
        r is None ==> final(list).entries().len() == 0 && old(list).entries().len() == 0,
{
    let ghost s = list.entries();
    let r = list.pop_best();
    proof {
        if s.len() > 0 {
            let b = crate::move_list::best_index(s, s.len() - 1);
            lemma_pop_words(s, b);
            let t = s.update(b, s.last()).drop_last();
            assert(generated_move(pos, Move { data: s[b].0 }));
            assert forall|i: int| 0 <= i < t.len() implies generated_move(
                pos,
                Move { data: #[trigger] t[i].0 },
            ) by {
                if i == b {
                    assert(generated_move(pos, Move { data: s[s.len() - 1].0 }));
                } else {
                    assert(generated_move(pos, Move { data: s[i].0 }));
                }
            }
        }
    }
    r
}

/// Taking entry `b` out of a list by moving the last entry into its place leaves
/// the words of the list but that entry's.
proof fn lemma_pop_words(s: Seq<(u16, i16)>, b: int)
    requires
        0 <= b < s.len(),
    ensures
        forall|w: u16|
            #[trigger] entry_words(s).contains(w) <==> (w == s[b].0 || entry_words(
                s.update(b, s.last()).drop_last(),
            ).contains(w)),
        entry_words(s).no_duplicates() ==> (seq![s[b].0] + entry_words(
            s.update(b, s.last()).drop_last(),
        )).no_duplicates(),
{
    let t = s.update(b, s.last()).drop_last();
    let ws = entry_words(s);
    let wt = entry_words(t);
    let n = s.len() - 1;
    assert forall|w: u16| #[trigger] ws.contains(w) <==> (w == s[b].0 || wt.contains(w)) by {
        if ws.contains(w) {
            let i = choose|i: int| 0 <= i < ws.len() && ws[i] == w;
            if i != b {
                if i == n {
                    assert(wt[b] == w);
                } else {
                    assert(wt[i] == w);
                }
            }
        }
        if wt.contains(w) {
            let i = choose|i: int| 0 <= i < wt.len() && wt[i] == w;
            if i == b {
                assert(ws[n] == w);
            } else {
                assert(ws[i] == w);
            }
        }
        if w == s[b].0 {
            assert(ws[b] == w);
        }
    }
    if ws.no_duplicates() {
        let u = seq![s[b].0] + wt;
        // the index in `s` of each entry of `u`
        let at = |k: int| if k == 0 {
            b
        } else if k - 1 == b {
            n
        } else {
            k - 1
        };
        assert forall|i: int, j: int| 0 <= i < u.len() && 0 <= j < u.len() && i != j implies u[i]
            != u[j] by {
            assert(u[i] == ws[at(i)]);
            assert(u[j] == ws[at(j)]);
            assert(at(i) != at(j));
        }
    }
}

/// Scores the moves of a sound list; the list stays sound.
fn sorted_sound(
    list: MoveList,
    pos: &Position,
    context: &SearchContext,
    best_move: Option<Move>,
    ply: u8,
) -> (r: MoveList)
    requires
        context.wf(),
        list_sound(*pos, list.entries()),
        ply < 128,
    ensures
        list_sound(*pos, r.entries()),
        entry_words(r.entries()) == entry_words(list.entries()),
{
    let ghost s = list.entries();
    let r = list.sort(pos, context, best_move, ply);
    assert(entry_words(r.entries()) =~= entry_words(s));
    assert forall|i: int| 0 <= i < r.entries().len() implies generated_move(
        *pos,
        Move { data: #[trigger] r.entries()[i].0 },
    ) by {
        assert(generated_move(*pos, Move { data: s[i].0 }));
    }
    r
}

/// A draw by the fifty move rule, by threefold repetition or by insufficient
/// material.
pub open spec fn is_draw(pos: Position) -> bool {
    ||| pos.half_moves == 100
    ||| (pos.half_moves >= 8 && occurrences(
        pos.rep_table.slots(),
        pos.zobrist_hash,
        pos.rep_table.length() as int,
    ) >= 3)
    ||| pos.insufficient_material()
}

/// The window of a search at `ply` once narrowed by mate distance pruning is
/// still open wider than a null window: a principal variation node.
pub open spec fn open_pv_window(alpha: i16, beta: i16, ply: int) -> bool {
    let mate_in = MATE_VALUE - ply;
    let a = if alpha < -mate_in {
        -mate_in
    } else {
        alpha as int
    };
    let b = if beta > mate_in {
        mate_in
    } else {
        beta as int
    };
    b - a > 1
}

/// The first move of the principal variation from the root stays as it was, or,
/// for a search from the root (`ply` 0), becomes a move generated in `pos`.
pub open spec fn root_kept(before: PVTable, after: PVTable, pos: Position, ply: int) -> bool {
    ||| after.entry(0, 0) == before.entry(0, 0)
    ||| ply == 0 && (after.entry(0, 0) matches Some(m) && generated_move(pos, m))
}

/// What a search call keeps of its context: everything but the counters, the
/// principal variation, and the killer and history tables, which stay well formed.
pub open spec fn context_kept(before: SearchContext, after: SearchContext) -> bool {
    &&& after.wf()
    &&& after.search == before.search
    &&& after.search_meta == before.search_meta
    &&& after.pos == before.pos
    &&& after.tt_age == before.tt_age
    &&& after.is_printing == before.is_printing
}

/// The moves quiescence search tries in `pos`: captures, en passant ones too, or
/// every move when the side to move is in check; none when the counters have no
/// room.
pub open spec fn q_tries(pos: Position, m: Move) -> bool {
    &&& crate::movegen::in_check(pos) || m.flags() % 2 == 1 || m.flags() == 5
    &&& crate::perft::room(pos)
}

/// `r` is a score that quiescence search gives `pos`, `ply` plies from the root,
/// with the window from `alpha` to `beta`, when it tries the generated moves in
/// some order (the order of the move scores, which depends on how the moves were
/// listed and is left open): at the deepest ply, or without a king to move, the
/// static evaluation; a static evaluation at or above `beta` gives `beta`; else the
/// evaluation stands in for the side to move (unless it is in check) and the
/// moves tried are searched in turn (see `q_fold`).
pub open spec fn q_score(pos: Position, alpha: i16, beta: i16, ply: int, r: i16) -> bool
    decreases MAX_PLY - ply, 1nat, 0nat,
{
    let eval = crate::evaluation::evaluation(pos) as i16;
    if ply >= MAX_PLY || !has_king(pos) {
        r == eval
    } else if eval >= beta {
        r == beta
    } else {
        let a0 = if eval > alpha && !crate::movegen::in_check(pos) {
            eval
        } else {
            alpha
        };
        exists|s: Seq<u16>| #[trigger] enumerates(pos, s) && q_fold(pos, s, a0, beta, ply, r)
    }
}

/// `r` is what searching the moves `s` in this order gives, the best score so far
/// being `a`: a move that is not tried changes nothing; a tried one gets some score
/// that quiescence search gives the position it leads to, with the window turned
/// round, and negated; a score at or above `beta` ends the search with `beta`, and
/// a score above `a` takes its place.
pub open spec fn q_fold(pos: Position, s: Seq<u16>, a: i16, beta: i16, ply: int, r: i16) -> bool
    decreases MAX_PLY - ply, 0nat, s.len(),
{
    if s.len() == 0 || ply >= MAX_PLY {
        r == a
    } else {
        let m = Move { data: s[0] };
        if !q_tries(pos, m) {
            q_fold(pos, s.drop_first(), a, beta, ply, r)
        } else {
            exists|x: i16|
                q_score(crate::make_move::child(pos, m), neg(beta), neg(a), ply + 1, x) && {
                    let score = #[trigger] neg(x);
                    if score > a && score >= beta {
                        r == beta
                    } else {
                        q_fold(
                            pos,
                            s.drop_first(),
                            if score > a {
                                score
                            } else {
                                a
                            },
                            beta,
                            ply,
                            r,
                        )
                    }
                }
        }
    }
}

/// The positions quiescence search reaches from `pos` are as play leaves them:
/// their hashes are up to date, fewer than 256 moves are generated in each, the
/// side to move has one king and the en passant square is a single square.
pub open spec fn q_ready(pos: Position, ply: int) -> bool
    decreases MAX_PLY - ply,
{
    ply < MAX_PLY && has_king(pos) ==> {
        &&& pos.zobrist_hash == crate::zobrist::hash_of(pos)
        &&& crate::movegen::fits_move_list(pos)
        &&& crate::movegen::one_king(pos)
        &&& crate::movegen::ep_single(pos)
        &&& forall|m: Move|
            #[trigger] generated_move(pos, m) && q_tries(pos, m) ==> q_ready(
                crate::make_move::child(pos, m),
                ply + 1,
            )
    }
}

/// Searching a tried move first: its score `neg(x)`, then the rest.
proof fn lemma_fold_tried(
    pos: Position,
    m: u16,
    s2: Seq<u16>,
    a: i16,
    beta: i16,
    ply: int,
    x: i16,
    rr: i16,
)
    requires
        ply < MAX_PLY,
        q_tries(pos, Move { data: m }),
        q_score(crate::make_move::child(pos, Move { data: m }), neg(beta), neg(a), ply + 1, x),
        neg(x) > a && neg(x) >= beta ==> rr == beta,
        !(neg(x) > a && neg(x) >= beta) ==> q_fold(
            pos,
            s2,
            if neg(x) > a {
                neg(x)
            } else {
                a
            },
            beta,
            ply,
            rr,
        ),
    ensures
        q_fold(pos, seq![m] + s2, a, beta, ply, rr),
{
    let t = seq![m] + s2;
    assert(t.drop_first() =~= s2);
    assert(t[0] == m);
}

/// Searching a move that is not tried first changes nothing.
proof fn lemma_fold_skipped(pos: Position, m: u16, s2: Seq<u16>, a: i16, beta: i16, ply: int, rr: i16)
    requires
        ply < MAX_PLY,
        !q_tries(pos, Move { data: m }),
        q_fold(pos, s2, a, beta, ply, rr),
    ensures
        q_fold(pos, seq![m] + s2, a, beta, ply, rr),
{
    let t = seq![m] + s2;
    assert(t.drop_first() =~= s2);
    assert(t[0] == m);
}

/// Taking one move `m` off the words still to come keeps an enumeration of the
/// generated moves when the popped words take it.
proof fn lemma_enum_step(pos: Position, p: Seq<u16>, x: Seq<u16>, m: u16, y: Seq<u16>)
    requires
        enumerates(pos, p + x),
        forall|w: u16| #[trigger] x.contains(w) <==> (w == m || y.contains(w)),
        (seq![m] + y).no_duplicates(),
    ensures
        enumerates(pos, p.push(m) + y),
{
    let a = p + x;
    let b = p.push(m) + y;
    assert forall|w: u16| #[trigger] b.contains(w) <==> a.contains(w) by {
        if b.contains(w) {
            let i = choose|i: int| 0 <= i < b.len() && b[i] == w;
            if i < p.len() {
                assert(a[i] == w);
            } else if i == p.len() {
                assert(x.contains(m));
                let j = choose|j: int| 0 <= j < x.len() && x[j] == m;
                assert(a[p.len() + j] == w);
            } else {
                assert(y[i - p.len() - 1] == w);
                assert(x.contains(w));
                let j = choose|j: int| 0 <= j < x.len() && x[j] == w;
                assert(a[p.len() + j] == w);
            }
        }
        if a.contains(w) {
            let i = choose|i: int| 0 <= i < a.len() && a[i] == w;
            if i < p.len() {
                assert(b[i] == w);
            } else {
                assert(x[i - p.len()] == w);
                if w == m {
                    assert(b[p.len() as int] == w);
                } else {
                    assert(x.contains(w));
                    assert(y.contains(w));
                    let j = choose|j: int| 0 <= j < y.len() && y[j] == w;
                    assert(b[p.len() + 1 + j] == w);
                }
            }
        }
    }
    assert(b.no_duplicates()) by {
        assert forall|i: int, j: int| 0 <= i < j < b.len() implies b[i] != b[j] by {
            if j < p.len() {
                assert(a[i] == b[i] && a[j] == b[j]);
            } else if i < p.len() {
                // b[j] is a word of x, which p does not hold
                let u = seq![m] + y;
                assert(b[j] == u[j - p.len()]);
                let w = b[j];
                assert(u.contains(w));
                assert(x.contains(w)) by {
                    let k = choose|k: int| 0 <= k < u.len() && u[k] == w;
                    if k > 0 {
                        assert(y[k - 1] == w);
                    }
                }
                let k = choose|k: int| 0 <= k < x.len() && x[k] == w;
                assert(a[p.len() + k] == w);
                assert(a[i] == b[i]);
            } else {
                let u = seq![m] + y;
                assert(b[i] == u[i - p.len()]);
                assert(b[j] == u[j - p.len()]);
            }
        }
    }
}

/// Quiescence search: from `ply` on only captures are searched (every move when in
/// check), the static evaluation standing in for the rest. Below the deepest ply,
/// the score lies within the window from `alpha` to `beta`; a static evaluation
/// at or above `beta` cuts off at `beta` at once, and out of check the score is
/// never below the static evaluation (the side to move may stand pat) unless it is
/// `beta`. For positions as play leaves them (`q_ready`) the score is one that
/// `q_score` allows: the search of the tried moves in the order their scores give.
/// Each call counts one node (the counter stops at its largest value).
pub fn quiescence(pos: &Position, alpha: i16, beta: i16, ply: u8, context: &mut SearchContext) -> (r:
    i16)
    requires
        pos.wf(),
        old(context).wf(),
        ply <= MAX_PLY,
    ensures
        context_kept(*old(context), *final(context)),
        final(context).pv_table == old(context).pv_table,
        final(context).nodes > old(context).nodes || final(context).nodes == u128::MAX,
        q_ready(*pos, ply as int) ==> q_score(*pos, alpha, beta, ply as int, r),
        ply < MAX_PLY && has_king(*pos) && alpha <= beta ==> alpha <= r <= beta,
        ply < MAX_PLY && has_king(*pos) && (crate::evaluation::evaluation(*pos) as i16) >= beta ==> r == beta,
        ply < MAX_PLY && has_king(*pos) && !crate::movegen::in_check(*pos) ==> r >= (crate::evaluation::evaluation(*pos) as i16)
            || r == beta,
    decreases MAX_PLY - ply,
{
    let ghost alpha0 = alpha;
    let mut best = alpha;
    context.nodes = context.nodes.saturating_add(1);
    // Evaluate the position at once
    let eval = pos.evaluate();
    // Stop at the deepest ply
    if ply == MAX_PLY || !pos.has_king() {
        return eval;
    }
    let in_check = pos.is_in_check();
    if eval > best && !in_check {
        best = eval;
    }
    if eval >= beta {
        return beta;
    }
    // Generate moves
    let generated = pos.generate_moves();
    let ghost ready = q_ready(*pos, ply as int);
    proof {
        if ready {
            crate::movegen::lemma_list_fits(*pos, generated.entries());
            crate::movegen::lemma_list_enumerates(*pos, generated.entries());
        }
    }
    let mut move_list = sorted_sound(generated, pos, context, None, ply);
    let ghost a0 = best;
    let ghost mut popped: Seq<u16> = Seq::empty();
    proof {
        assert(popped + entry_words(move_list.entries()) =~= entry_words(move_list.entries()));
        assert forall|s2: Seq<u16>, rr: i16| #[trigger]
            q_fold(*pos, s2, best, beta, ply as int, rr) implies q_fold(
            *pos,
            popped + s2,
            a0,
            beta,
            ply as int,
            rr,
        ) by {
            assert(popped + s2 =~= s2);
        }
    }
    // Go through the captures
    loop
        invariant
            pos.wf(),
            ply < MAX_PLY,
            list_sound(*pos, move_list.entries()),
            context_kept(*old(context), *context),
            context.pv_table == old(context).pv_table,
            context.nodes > old(context).nodes || context.nodes == u128::MAX,
            has_king(*pos),
            alpha0 <= beta ==> alpha0 <= best <= beta,
            eval == crate::evaluation::evaluation(*pos) as i16,
            in_check == crate::movegen::in_check(*pos),
            !in_check ==> best >= eval,
            eval < beta,
            a0 == (if eval > alpha0 && !in_check {
                eval
            } else {
                alpha0
            }),
            ready == q_ready(*pos, ply as int),
            alpha0 == alpha,
            ready ==> enumerates(*pos, popped + entry_words(move_list.entries())),
            ready ==> forall|s2: Seq<u16>, rr: i16| #[trigger]
                q_fold(*pos, s2, best, beta, ply as int, rr) ==> q_fold(
                    *pos,
                    popped + s2,
                    a0,
                    beta,
                    ply as int,
                    rr,
                ),
        ensures
            ready ==> q_score(*pos, alpha0, beta, ply as int, best),
        decreases move_list.entries().len(),
    {
        let ghost x_words = entry_words(move_list.entries());
        proof {
            if ready {
                let whole = popped + x_words;
                assert forall|i: int, j: int| 0 <= i < x_words.len() && 0 <= j < x_words.len() && i != j implies x_words[i]
                    != x_words[j] by {
                    assert(whole[popped.len() + i] == x_words[i]);
                    assert(whole[popped.len() + j] == x_words[j]);
                }
            }
        }
        let moove = match pop_sound(&mut move_list, Ghost(*pos)) {
            Some(m) => m,
            None => {
                proof {
                    if ready {
                        assert(popped + x_words =~= popped);
                        assert(q_fold(*pos, Seq::<u16>::empty(), best, beta, ply as int, best));
                        assert(popped + Seq::<u16>::empty() =~= popped);
                        assert(enumerates(*pos, popped));
                    }
                }
                break;
            },
        };
        let ghost y_words = entry_words(move_list.entries());
        let ghost old_popped = popped;
        let ghost old_alpha = best;
        proof {
            if ready {
                lemma_enum_step(*pos, popped, x_words, moove.data, y_words);
            }
            popped = popped.push(moove.data);
            assert(Move { data: moove.data } == moove);
        }
        if !in_check && !(moove.is_capture() || moove.is_enpassant()) {
            proof {
                if ready {
                    assert forall|s2: Seq<u16>, rr: i16| #[trigger]
                        q_fold(*pos, s2, best, beta, ply as int, rr) implies q_fold(
                        *pos,
                        popped + s2,
                        a0,
                        beta,
                        ply as int,
                        rr,
                    ) by {
                        let t = seq![moove.data] + s2;
                        lemma_fold_skipped(*pos, moove.data, s2, best, beta, ply as int, rr);
                        assert(popped + s2 =~= old_popped + t);
                    }
                }
            }
            continue;
        }
        if !pos.has_room() {
            proof {
                if ready {
                    assert forall|s2: Seq<u16>, rr: i16| #[trigger]
                        q_fold(*pos, s2, best, beta, ply as int, rr) implies q_fold(
                        *pos,
                        popped + s2,
                        a0,
                        beta,
                        ply as int,
                        rr,
                    ) by {
                        let t = seq![moove.data] + s2;
                        lemma_fold_skipped(*pos, moove.data, s2, best, beta, ply as int, rr);
                        assert(popped + s2 =~= old_popped + t);
                    }
                }
            }
            continue;
        }
        let mut copy = *pos;
        copy.make_move(moove);
        proof {
            if ready {
                crate::make_move::lemma_child(*pos, moove, copy);
            }
        }
        proof {
            if ready {
                assert(q_tries(*pos, moove));
                assert(q_ready(copy, ply as int + 1));
            }
        }
        let x = quiescence(&copy, negate(beta), negate(best), ply + 1, context);
        let score = negate(x);
        proof {
            if ready {
                assert(q_score(crate::make_move::child(*pos, moove), neg(beta), neg(old_alpha), ply as int + 1, x));
            }
        }
        // Alpha cutoff
        if score > best {
            best = score;
            // Beta cutoff
            if score >= beta {
                proof {
                    if ready {
                        let t = seq![moove.data] + y_words;
                        lemma_fold_tried(*pos, moove.data, y_words, old_alpha, beta, ply as int, x, beta);
                        assert(popped + y_words =~= old_popped + t);
                        assert(q_fold(*pos, popped + y_words, a0, beta, ply as int, beta));
                    }
                }
                return beta;
            }
        }
        proof {
            if ready {
                assert forall|s2: Seq<u16>, rr: i16| #[trigger]
                    q_fold(*pos, s2, best, beta, ply as int, rr) implies q_fold(
                    *pos,
                    popped + s2,
                    a0,
                    beta,
                    ply as int,
                    rr,
                ) by {
                    let t = seq![moove.data] + s2;
                    lemma_fold_tried(*pos, moove.data, s2, old_alpha, beta, ply as int, x, rr);
                    assert(popped + s2 =~= old_popped + t);
                }
            }
        }
    }
    best
}

/// Records a search result in the transposition table, unless its mate score
/// would leave 16 bits once made relative to the position.
fn record_result(
    context: &SearchContext,
    pos: &Position,
    best_move: Move,
    depth: u8,
    score: i16,
    flag: HashFlag,
    ply: u8,
)
    requires
        context.wf(),
{
    if can_store(score, ply) {
        context.search.tt.record(pos.zobrist_hash, best_move, depth, score, flag, ply, context.tt_age);
    }
}

/// What a look-up in the transposition table decides: the search ends with a
/// score, or goes on with a window and a move to try first.
#[derive(Clone, Copy, PartialEq, Eq, Structural, Debug)]
pub enum ProbeDecision {
    Cutoff(i16),
    Search(i16, i16, Move),
}

/// The decision for a search of `depth` with the window from `alpha` to `beta`,
/// given what the table held (`None` for nothing): an entry at least as deep, in a
/// search that is not a principal variation one, ends the search with its score
/// when it is exact, or when its bound closes the window; a lower bound raises
/// `alpha` and an upper bound lowers `beta`. Any entry gives its move to try first.
pub open spec fn probe_decision(
    entry: Option<crate::tt::EntryData>,
    is_pv: bool,
    depth: u8,
    alpha: i16,
    beta: i16,
) -> ProbeDecision {
    match entry {
        None => ProbeDecision::Search(alpha, beta, Move { data: 0 }),
        Some(e) => if is_pv || e.depth < depth {
            ProbeDecision::Search(alpha, beta, e.best_move)
        } else {
            match e.flag {
                HashFlag::Exact => ProbeDecision::Cutoff(e.score),
                HashFlag::LowerBound => {
                    let a = if e.score > alpha {
                        e.score
                    } else {
                        alpha
                    };
                    if a >= beta {
                        ProbeDecision::Cutoff(e.score)
                    } else {
                        ProbeDecision::Search(a, beta, e.best_move)
                    }
                },
                HashFlag::UpperBound => {
                    let b = if e.score < beta {
                        e.score
                    } else {
                        beta
                    };
                    if alpha >= b {
                        ProbeDecision::Cutoff(e.score)
                    } else {
                        ProbeDecision::Search(alpha, b, e.best_move)
                    }
                },
            }
        },
    }
}

/// Decides what a look-up in the transposition table means for the search (see
/// `probe_decision`).
pub fn decide_probe(
    entry: Option<crate::tt::EntryData>,
    is_pv: bool,
    depth: u8,
    alpha: i16,
    beta: i16,
) -> (r: ProbeDecision)
    ensures
        r == probe_decision(entry, is_pv, depth, alpha, beta),
{
    match entry {
        None => ProbeDecision::Search(alpha, beta, Move::null()),
        Some(e) => {
            if is_pv || e.depth < depth {
                return ProbeDecision::Search(alpha, beta, e.best_move);
            }
            match e.flag {
                HashFlag::Exact => ProbeDecision::Cutoff(e.score),
                HashFlag::LowerBound => {
                    let a = if e.score > alpha {
                        e.score
                    } else {
                        alpha
                    };
                    if a >= beta {
                        ProbeDecision::Cutoff(e.score)
                    } else {
                        ProbeDecision::Search(a, beta, e.best_move)
                    }
                },
                HashFlag::UpperBound => {
                    let b = if e.score < beta {
                        e.score
                    } else {
                        beta
                    };
                    if alpha >= b {
                        ProbeDecision::Cutoff(e.score)
                    } else {
                        ProbeDecision::Search(alpha, b, e.best_move)
                    }
                },
            }
        },
    }
}

/// What a move's score does to the search of the other moves.
#[derive(Clone, Copy, PartialEq, Eq, Structural, Debug)]
pub enum ScoreStep {
    Keep,
    Raise,
    Cut,
}

/// A score above `alpha` raises it, and at or above `beta` ends the search with
/// `beta`; any other score changes nothing.
pub open spec fn score_step(alpha: i16, beta: i16, score: i16) -> ScoreStep {
    if score > alpha {
        if score >= beta {
            ScoreStep::Cut
        } else {
            ScoreStep::Raise
        }
    } else {
        ScoreStep::Keep
    }
}

/// Decides what a move's score does to the search (see `score_step`).
pub fn step_score(alpha: i16, beta: i16, score: i16) -> (r: ScoreStep)
    ensures
        r == score_step(alpha, beta, score),
{
    if score > alpha {
        if score >= beta {
            ScoreStep::Cut
        } else {
            ScoreStep::Raise
        }
    } else {
        ScoreStep::Keep
    }
}

/// The score of a position without a move to search, `ply` plies from the root:
/// mated when in check, else a stalemate.
pub fn no_move_score(in_check: bool, ply: u8) -> (r: i16)
    requires
        ply <= MAX_PLY,
    ensures
        r == (if in_check {
            -MATE_VALUE + ply
        } else {
            0
        }),
{
    if in_check {
        -MATE_VALUE + ply as i16
    } else {
        0
    }
}

/// Null move pruning may be tried: off the principal variation, out of check, at
/// a depth above the reduction, with a piece besides the pawns and the king, and a
/// static evaluation at least `beta`.
pub open spec fn null_move_ok(is_pv: bool, in_check: bool, depth: u8, only_pawns_left: bool, static_eval: i16, beta: i16) -> bool {
    !is_pv && !in_check && depth >= NULL_MOVE_R + 1 && !only_pawns_left && static_eval >= beta
}

/// Decides whether null move pruning is tried (see `null_move_ok`).
pub fn null_move_allowed(
    is_pv: bool,
    in_check: bool,
    depth: u8,
    only_pawns_left: bool,
    static_eval: i16,
    beta: i16,
) -> (r: bool)
    ensures
        r == null_move_ok(is_pv, in_check, depth, only_pawns_left, static_eval, beta),
{
    !is_pv && !in_check && depth >= NULL_MOVE_R + 1 && !only_pawns_left && static_eval >= beta
}

/// By how many plies a late move is searched shallower first (0: not at all): off
/// the principal variation, from depth 3, for a quiet move that is no promotion,
/// out of check and giving none, from the fifth move searched on; two plies from
/// the seventh on.
pub open spec fn reduction_of(
    is_pv: bool,
    depth: u8,
    is_capture: bool,
    is_promotion: bool,
    in_check: bool,
    caused_check: bool,
    moves_searched: u32,
) -> u8 {
    if !is_pv && depth >= 3 && !is_capture && !is_promotion && !in_check && !caused_check
        && moves_searched >= 4 {
        if moves_searched >= 6 {
            2
        } else {
            1
        }
    } else {
        0
    }
}

/// Decides the late move reduction (see `reduction_of`).
pub fn late_move_reduction(
    is_pv: bool,
    depth: u8,
    is_capture: bool,
    is_promotion: bool,
    in_check: bool,
    caused_check: bool,
    moves_searched: u32,
) -> (r: u8)
    ensures
        r == reduction_of(is_pv, depth, is_capture, is_promotion, in_check, caused_check, moves_searched),
{
    if !is_pv && depth >= 3 && !is_capture && !is_promotion && !in_check && !caused_check
        && moves_searched >= 4 {
        if moves_searched >= 6 {
            2
        } else {
            1
        }
    } else {
        0
    }
}

/// The score with which reverse futility pruning ends a search of `depth` 1 or 2
/// out of check and off the principal variation: the static evaluation less the
/// margin of that depth, when it is still at least `beta`.
pub open spec fn futility_cut(static_eval: i16, depth: u8, in_check: bool, is_pv: bool, beta: i16) -> Option<i16> {
    if in_check || is_pv {
        None
    } else if depth == 1 && static_eval.wrapping_sub(FRONTIER_FUTILITY_MARGIN) >= beta {
        Some(static_eval.wrapping_sub(FRONTIER_FUTILITY_MARGIN))
    } else if depth == 2 && static_eval.wrapping_sub(PRE_FRONTIER_FUTILITY_MARGIN) >= beta {
        Some(static_eval.wrapping_sub(PRE_FRONTIER_FUTILITY_MARGIN))
    } else {
        None
    }
}

/// Decides reverse futility pruning (see `futility_cut`).
pub fn decide_futility(static_eval: i16, depth: u8, in_check: bool, is_pv: bool, beta: i16) -> (r: Option<
    i16,
>)
    ensures
        r == futility_cut(static_eval, depth, in_check, is_pv, beta),
{
    if !in_check && !is_pv {
        if depth == 1 {
            let v = static_eval.wrapping_sub(FRONTIER_FUTILITY_MARGIN);
            if v >= beta {
                return Some(v);
            }
        } else if depth == 2 {
            let v = static_eval.wrapping_sub(PRE_FRONTIER_FUTILITY_MARGIN);
            if v >= beta {
                return Some(v);
            }
        }
    }
    None
}


/// Principal variation search with alpha-beta pruning, from `pos` at `ply` plies
/// from the root to `depth` more plies, extended when in check: mate distance
/// pruning, draws by the fifty move rule, repetition and insufficient material,
/// transposition table cutoffs, reverse futility pruning, null move pruning, late
/// move reductions, killer and history moves, and quiescence search at the horizon.
/// The score depends on the shared transposition table, on the clock and on
/// other threads asking to stop (a stopped search scores 0), so only what holds
/// whatever they give is stated: a drawn position scores 0 in a window around 0,
/// and a side in check with no move, searched with a principal variation window,
/// scores as mated at its ply (or 0 when stopped). The context stays well formed,
/// and the first move of the principal variation from the root changes only at
/// ply 0, to a move generated in `pos`.
pub fn negamax(
    pos: &Position,
    alpha: i16,
    beta: i16,
    depth: u8,
    ply: u8,
    context: &mut SearchContext,
    is_master: bool,
) -> (r: i16)
    requires
        pos.wf(),
        old(context).wf(),
        ply <= MAX_PLY,
    ensures
        context_kept(*old(context), *final(context)),
        root_kept(old(context).pv_table, final(context).pv_table, *pos, ply as int),
        alpha < 0 < beta && is_draw(*pos) ==> r == 0,
        ply < MAX_PLY && has_king(*pos) && !is_draw(*pos) && crate::movegen::in_check(*pos)
            && depth < 255 && open_pv_window(alpha, beta, ply as int) && (forall|m: Move|
            !#[trigger] generated_move(*pos, m)) ==> r == -MATE_VALUE + ply || r == 0,
        ply < MAX_PLY && has_king(*pos) && !is_draw(*pos) && !crate::movegen::in_check(*pos)
            && depth >= 1 && open_pv_window(alpha, beta, ply as int) && (forall|m: Move|
            !#[trigger] generated_move(*pos, m)) ==> r == 0,
    decreases MAX_PLY - ply,
{
    let mut alpha = alpha;
    let mut beta = beta;
    let mut depth = depth;
    // Stop the search if signalled or the time ran out
    if is_master && context.exceeded_time_target() {
        context.search.stop();
        return 0;
    } else if context.search.is_stopping() {
        return 0;
    }
    context.nodes = context.nodes.saturating_add(1);
    // Start the principal variation of this ply
    context.pv_table.reset(ply);
    // Mate distance pruning
    let mate_in = MATE_VALUE - ply as i16;
    if beta > mate_in {
        beta = mate_in;
    }
    if alpha < -mate_in {
        alpha = -mate_in;
    }
    if alpha >= beta {
        return alpha;
    }
    // Draws by the fifty move rule, threefold repetition and insufficient material
    if pos.half_moves == 100 || pos.rep_table.is_in_3_fold_rep(pos)
        || pos.is_insufficient_material() {
        return 0;
    }
    if !pos.has_king() {
        return pos.evaluate();
    }
    // Check extension
    let in_check = pos.is_in_check();
    if in_check {
        depth = depth.wrapping_add(1);
    }
    // The deepest ply is reached
    if ply == MAX_PLY {
        return pos.evaluate();
    }
    // Quiescence search at the horizon
    if depth == 0 {
        context.nodes = context.nodes.saturating_sub(1);
        return quiescence(pos, alpha, beta, ply, context);
    }
    // A principal variation node has an open window
    let is_pv = (beta as i32 - alpha as i32) > 1;
    // Probe the transposition table
    let probed = context.search.tt.probe(pos.zobrist_hash, ply);
    if probed.is_some() {
        context.tt_hits = context.tt_hits.saturating_add(1);
    }
    let mut tt_move = Move::null();
    match decide_probe(probed, is_pv, depth, alpha, beta) {
        ProbeDecision::Cutoff(score) => {
            return score;
        },
        ProbeDecision::Search(a, b, m) => {
            alpha = a;
            beta = b;
            tt_move = m;
        },
    }
    let mut hash_flag = HashFlag::UpperBound;
    // Static evaluation for the pruning rules
    let static_eval = pos.evaluate();
    // Reverse futility pruning
    match decide_futility(static_eval, depth, in_check, is_pv, beta) {
        Some(v) => {
            return v;
        },
        None => {},
    }
    // Null move pruning
    let own = pos.color_bb(pos.active_color).count();
    let pawns = pos.bb(pos.active_color, PieceType::Pawn).count();
    let only_pawns_left = pawns as u64 + 1 == own as u64;
    let can_nmp = null_move_allowed(is_pv, in_check, depth, only_pawns_left, static_eval, beta);
    if can_nmp {
        let mut new_pos = *pos;
        new_pos.make_null_move();
        let score = negate(
            negamax(
                &new_pos,
                negate(beta),
                negate(beta).wrapping_add(1),
                depth - 1 - NULL_MOVE_R,
                ply + 1,
                context,
                is_master,
            ),
        );
        if score >= beta {
            return beta;
        }
    }
    // Generate and order the moves
    let best = if tt_move.is_null() {
        None
    } else {
        Some(tt_move)
    };
    let generated = pos.generate_moves();
    let mut move_list = sorted_sound(generated, pos, context, best, ply);
    let _ = move_list.len();
    // Main move loop
    let mut moves_searched: u32 = 0;
    loop
        invariant
            pos.wf(),
            has_king(*pos),
            ply < MAX_PLY,
            depth >= 1,
            list_sound(*pos, move_list.entries()),
            context_kept(*old(context), *context),
            root_kept(old(context).pv_table, context.pv_table, *pos, ply as int),
            moves_searched <= 256 - move_list.entries().len(),
            !is_draw(*pos),
            in_check == crate::movegen::in_check(*pos),
            (forall|m: Move| !#[trigger] generated_move(*pos, m)) ==> moves_searched == 0,
        decreases move_list.entries().len(),
    {
        let moove = match pop_sound(&mut move_list, Ghost(*pos)) {
            Some(m) => m,
            None => {
                break;
            },
        };
        moves_searched = moves_searched + 1;
        if !pos.has_room() {
            continue;
        }
        let mut new_pos = *pos;
        new_pos.make_move(moove);
        let caused_check = new_pos.has_king() && new_pos.is_in_check();
        let mut score: i16;
        if moves_searched == 0 {
            // Full search of the leftmost node
            score = negate(
                negamax(
                    &new_pos,
                    negate(beta),
                    negate(alpha),
                    depth - 1,
                    ply + 1,
                    context,
                    is_master,
                ),
            );
        } else {
            // Late move reductions
            let lmr = late_move_reduction(
                is_pv,
                depth,
                moove.is_capture(),
                moove.is_promotion(),
                in_check,
                caused_check,
                moves_searched,
            );
            if lmr != 0 {
                // Reduced null window search
                let reduction: u8 = lmr;
                score = negate(
                    negamax(
                        &new_pos,
                        negate(alpha).wrapping_sub(1),
                        negate(alpha),
                        depth - 1 - reduction,
                        ply + 1,
                        context,
                        is_master,
                    ),
                );
                if score > alpha {
                    // Null window search at full depth when the reduced one fails
                    score = negate(
                        negamax(
                            &new_pos,
                            negate(alpha).wrapping_sub(1),
                            negate(alpha),
                            depth - 1,
                            ply + 1,
                            context,
                            is_master,
                        ),
                    );
                    if score > alpha {
                        // Full search when that fails too
                        score = negate(
                            negamax(
                                &new_pos,
                                negate(beta),
                                negate(alpha),
                                depth - 1,
                                ply + 1,
                                context,
                                is_master,
                            ),
                        );
                    }
                }
            } else {
                // Null window search
                score = negate(
                    negamax(
                        &new_pos,
                        negate(alpha).wrapping_sub(1),
                        negate(alpha),
                        depth - 1,
                        ply + 1,
                        context,
                        is_master,
                    ),
                );
                if score > alpha {
                    // Full search when it fails
                    score = negate(
                        negamax(
                            &new_pos,
                            negate(beta),
                            negate(alpha),
                            depth - 1,
                            ply + 1,
                            context,
                            is_master,
                        ),
                    );
                }
            }
        }
        // Alpha cutoff
        let step = step_score(alpha, beta, score);
        if step != ScoreStep::Keep {
            tt_move = moove;
            // The move heads the principal variation of this ply
            context.pv_table.insert_pv_node(moove, ply);
            // Beta cutoff
            if step == ScoreStep::Cut {
                if !moove.is_capture() {
                    context.insert_killer_move(moove, ply);
                }
                record_result(context, pos, tt_move, depth, beta, HashFlag::LowerBound, ply);
                return beta;
            }
            // A principal variation node: the score is exact
            hash_flag = HashFlag::Exact;
            // History of quiet moves
            if !moove.is_capture() {
                match pos.piece_at(moove.src()) {
                    Some(p) => {
                        context.insert_history_move(moove, p, depth);
                    },
                    None => {},
                }
            }
            alpha = score;
        }
    }
    // Mate or stalemate when there is no move
    if moves_searched == 0 {
        alpha = no_move_score(in_check, ply);
    }
    // Store an upper bound, or the exact score of a principal variation node
    record_result(context, pos, tt_move, depth, alpha, hash_flag, ply);
    alpha
}

/// The half width of the first aspiration window.
pub const ASPIRATION_WINDOW: i32 = 15;

/// How much an aspiration window widens on each side each time it fails.
pub const ASPIRATION_WINDOW_MULT: i32 = 3;

/// A score kept within plus and minus infinity.
pub open spec fn clamp_score(x: int) -> i16 {
    if x < -INFINITY {
        (-INFINITY) as i16
    } else if x > INFINITY {
        INFINITY
    } else {
        x as i16
    }
}

fn clamp(x: i64) -> (r: i16)
    ensures
        r == clamp_score(x as int),
{
    if x < -(INFINITY as i64) {
        -INFINITY
    } else if x > INFINITY as i64 {
        INFINITY
    } else {
        x as i16
    }
}

/// What one finished depth of iterative deepening reports.
pub struct DepthReport {
    pub depth: u8,
    pub score: i16,
    pub nodes: u128,
    pub time: u128,
    pub pv: Vec<Move>,
}

/// Iterative deepening with aspiration windows: the depth to search next, the
/// deepest depth, the window for it, and the best move of the last finished depth.
pub struct Deepening {
    pub next_depth: u16,
    pub max_depth: u8,
    pub alpha: i16,
    pub beta: i16,
    pub best_move: Option<Move>,
    /// The search was seen asked to stop.
    pub stopped: bool,
}

impl Deepening {
    pub open spec fn wf(&self) -> bool {
        -INFINITY <= self.alpha < self.beta <= INFINITY
    }

    /// Deepening for thread `thread_id`: threads start at different depths, from 1
    /// to 4, with a full window.
    pub fn new(context: &SearchContext, thread_id: u8) -> (r: Deepening)
        ensures
            r.wf(),
            r.next_depth == thread_id % 4 + 1,
            r.max_depth == context.search_meta.max_depth,
            r.alpha == -INFINITY,
            r.beta == INFINITY,
            r.best_move is None,
            !r.stopped,
    {
        Deepening {
            next_depth: (thread_id % 4 + 1) as u16,
            max_depth: context.search_meta.max_depth,
            alpha: -INFINITY,
            beta: INFINITY,
            best_move: None,
            stopped: false,
        }
    }

    /// Searches the next depth, widening the aspiration window while the score falls
    /// outside it, and reports it. `None` once the deepest depth is done or the
    /// search is seen asked to stop (which `stopped` records); the best move then is
    /// that of the last depth done.
    pub fn step(&mut self, context: &mut SearchContext, is_master: bool) -> (r: Option<DepthReport>)
        requires
            old(self).wf(),
            old(context).wf(),
            old(context).pos.wf(),
            old(context).root_move_ok(),
        ensures
            final(self).wf(),
            context_kept(*old(context), *final(context)),
            final(context).root_move_ok(),
            final(self).max_depth == old(self).max_depth,
            r matches Some(rep) ==> rep.depth == old(self).next_depth,
            r matches Some(rep) ==> final(self).next_depth == old(self).next_depth + 1,
            r matches Some(rep) ==> final(self).best_move == final(context).pv_table.entry(0, 0),
            r is Some ==> (final(self).best_move matches Some(m) ==> generated_move(
                old(context).pos,
                m,
            )),
            r matches Some(rep) ==> rep.nodes == final(context).nodes,
            r is None ==> final(self).best_move == old(self).best_move,
            old(self).next_depth > old(self).max_depth ==> r is None,
            r is None ==> old(self).next_depth > old(self).max_depth || final(self).stopped,
            r is Some ==> final(self).stopped == old(self).stopped,
    {
        if self.next_depth > self.max_depth as u16 {
            return None;
        }
        let depth = self.next_depth as u8;
        let pos = context.pos;
        // Search with the narrow window (the full one the first time)
        let mut score = negamax(&pos, self.alpha, self.beta, depth, 0, context, is_master);
        // Widen the window while the score falls outside it
        let mut alpha_mult: i64 = 1;
        let mut beta_mult: i64 = 1;
        loop
            invariant
                self.wf(),
                context_kept(*old(context), *context),
                context.root_move_ok(),
                pos == old(context).pos,
                pos.wf(),
                self.max_depth == old(self).max_depth,
                self.next_depth == old(self).next_depth,
                self.best_move == old(self).best_move,
                self.stopped == old(self).stopped,
                1 <= alpha_mult <= 3_000_000,
                1 <= beta_mult <= 3_000_000,
            decreases (self.alpha + INFINITY) + (INFINITY - self.beta),
        {
            if context.search.is_stopping() {
                break;
            }
            if score <= self.alpha {
                if self.alpha == -INFINITY {
                    break;
                }
                // Widen the window below
                if alpha_mult < 1_000_000 {
                    let factor = ASPIRATION_WINDOW_MULT as i64;
                    assert(factor == 3);
                    alpha_mult = alpha_mult * factor;
                }
                let window = ASPIRATION_WINDOW as i64;
                assert(window == 15);
                let wide = score as i64 - alpha_mult * window;
                self.alpha = clamp(wide);
                score = negamax(&pos, self.alpha, self.beta, depth, 0, context, is_master);
            } else if score >= self.beta {
                if self.beta == INFINITY {
                    break;
                }
                // Widen the window above
                if beta_mult < 1_000_000 {
                    let factor = ASPIRATION_WINDOW_MULT as i64;
                    assert(factor == 3);
                    beta_mult = beta_mult * factor;
                }
                let window = ASPIRATION_WINDOW as i64;
                assert(window == 15);
                let wide = score as i64 + beta_mult * window;
                self.beta = clamp(wide);
                score = negamax(&pos, self.alpha, self.beta, depth, 0, context, is_master);
            } else {
                // A score within the window: the next depth starts around it
                self.alpha = clamp(score as i64 - ASPIRATION_WINDOW as i64);
                self.beta = clamp(score as i64 + ASPIRATION_WINDOW as i64);
                break;
            }
        }
        if context.search.is_stopping() {
            self.stopped = true;
            return None;
        }
        self.best_move = context.pv_table.best_move();
        self.next_depth = self.next_depth + 1;
        Some(
            DepthReport {
                depth,
                score,
                nodes: context.nodes,
                time: millis_since(&context.start_time),
                pv: context.pv_table.pv_line(),
            },
        )
    }
}

/// Runs iterative deepening to the end without reporting the depths, and returns
/// the statistics of the thread; the first thread asks the others to stop when it
/// is done.
pub fn run_search(context: &mut SearchContext, thread_id: u8) -> (r: SearchStats)
    requires
        old(context).wf(),
        old(context).pos.wf(),
        old(context).root_move_ok(),
    ensures
        context_kept(*old(context), *final(context)),
        final(context).root_move_ok(),
        r.nodes == final(context).nodes,
        r.tt_hits == final(context).tt_hits,
        r.best_move matches Some(m) ==> generated_move(old(context).pos, m),
{
    let is_master = thread_id == 0;
    let mut deepening = Deepening::new(context, thread_id);
    loop
        invariant
            deepening.wf(),
            context_kept(*old(context), *context),
            context.root_move_ok(),
            context.pos.wf(),
            deepening.max_depth == old(context).search_meta.max_depth,
            deepening.best_move matches Some(m) ==> generated_move(old(context).pos, m),
        decreases 256 - deepening.next_depth,
    {
        match deepening.step(context, is_master) {
            Some(_) => {},
            None => {
                break;
            },
        }
        if deepening.next_depth > 256 {
            break;
        }
    }
    // Stop the helper threads
    if is_master {
        context.search.stop();
    }
    SearchStats {
        nodes: context.nodes,
        tt_hits: context.tt_hits,
        time: millis_since(&context.start_time),
        best_move: deepening.best_move,
    }
}

} // verus!
