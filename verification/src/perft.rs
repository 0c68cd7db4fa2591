use vstd::prelude::*;

verus! {

use crate::make_move::{move_sound, child, lemma_child, made};
use crate::zobrist::hash_of;
use crate::movegen::{
    ep_single, fits_move_list, generated_move, has_king, lemma_list_counts, lemma_list_fits, list_sound,
    listed, move_count_is, no_dups, one_king, enumerates, entry_words, lemma_list_enumerates,
};
use crate::move_list::MoveList;
use crate::moves::Move;
use crate::position::Position;

/// The move counters and the repetition table have room for another move.
pub open spec fn room(pos: Position) -> bool {
    pos.half_moves < 255 && pos.full_moves < 65535 && pos.rep_table.length() < 100
}

/// A count kept in 64 bits, stopping at the largest.
pub open spec fn saturated(n: nat) -> int {
    if n > u64::MAX {
        u64::MAX as int
    } else {
        n as int
    }
}

/// The lines of play of `depth` moves from `pos` (see `perft`): at depth 1 the
/// generated moves, else the sum over them of the lines one ply shallower from the
/// position each leads to; moves the counters have no room for, and positions
/// without a king to move, count nothing.
pub open spec fn perft_count(pos: Position, depth: nat) -> nat
    decreases depth, 2nat, 0nat,
{
    lines_sum(pos, depth, 65536)
}

/// The lines that the move words below `n` add to `perft_count(pos, depth)`.
pub open spec fn lines_sum(pos: Position, depth: nat, n: nat) -> nat
    decreases depth, 1nat, n,
{
    if n == 0 {
        0
    } else {
        lines_sum(pos, depth, (n - 1) as nat) + line_term(pos, depth, (n - 1) as int)
    }
}

/// The lines that the move word `w` adds to `perft_count(pos, depth)`.
pub open spec fn line_term(pos: Position, depth: nat, w: int) -> nat
    decreases depth, 0nat, 0nat,
{
    let m = Move { data: w as u16 };
    if !generated_move(pos, m) {
        0
    } else if depth <= 1 {
        1
    } else if room(pos) && has_king(child(pos, m)) {
        perft_count(child(pos, m), (depth - 1) as nat)
    } else {
        0
    }
}

/// The positions `perft` reaches within `depth` moves are as play leaves them:
/// their hashes are up to date, fewer than 256 moves are generated in each, the
/// side to move has one king and the en passant square is a single square.
pub open spec fn perft_ready(pos: Position, depth: nat) -> bool
    decreases depth,
{
    &&& pos.zobrist_hash == hash_of(pos)
    &&& fits_move_list(pos)
    &&& one_king(pos)
    &&& ep_single(pos)
    &&& depth > 1 ==> forall|m: Move|
        #[trigger] generated_move(pos, m) && room(pos) && has_king(child(pos, m)) ==> perft_ready(
            child(pos, m),
            (depth - 1) as nat,
        )
}

/// The lines that the move words of `s` add, one after the other.
pub open spec fn seq_lines(pos: Position, depth: nat, s: Seq<u16>) -> nat
    decreases s.len(),
{
    if s.len() == 0 {
        0
    } else {
        line_term(pos, depth, s[0] as int) + seq_lines(pos, depth, s.drop_first())
    }
}

/// The lines that the move words below `n` held by `s` add.
pub open spec fn held_lines(pos: Position, depth: nat, s: Seq<u16>, n: nat) -> nat
    decreases n,
{
    if n == 0 {
        0
    } else {
        held_lines(pos, depth, s, (n - 1) as nat) + if s.contains((n - 1) as u16) {
            line_term(pos, depth, (n - 1) as int)
        } else {
            0
        }
    }
}

proof fn lemma_held_split(pos: Position, depth: nat, x: u16, t: Seq<u16>, n: nat)
    requires
        !t.contains(x),
        n <= 65536,
    ensures
        held_lines(pos, depth, seq![x] + t, n) == held_lines(pos, depth, t, n) + if x < n {
            line_term(pos, depth, x as int)
        } else {
            0
        },
    decreases n,
{
    if n > 0 {
        lemma_held_split(pos, depth, x, t, (n - 1) as nat);
        let w = (n - 1) as u16;
        assert(w as int == n - 1);
        let s = seq![x] + t;
        assert(s.contains(w) <==> (w == x || t.contains(w))) by {
            if s.contains(w) {
                let i = choose|i: int| 0 <= i < s.len() && s[i] == w;
                if i > 0 {
                    assert(t[i - 1] == w);
                }
            }
            if t.contains(w) {
                let i = choose|i: int| 0 <= i < t.len() && t[i] == w;
                assert(s[i + 1] == w);
            }
            if w == x {
                assert(s[0] == w);
            }
        }
    }
}

/// Adding up the lines of the words of a sequence that holds none twice gives the
/// lines of the words it holds.
proof fn lemma_seq_lines(pos: Position, depth: nat, s: Seq<u16>)
    requires
        s.no_duplicates(),
    ensures
        seq_lines(pos, depth, s) == held_lines(pos, depth, s, 65536),
    decreases s.len(),
{
    if s.len() > 0 {
        let x = s[0];
        let t = s.drop_first();
        assert(t.no_duplicates()) by {
            assert forall|i: int, j: int| 0 <= i < t.len() && 0 <= j < t.len() && i != j implies t[i]
                != t[j] by {
                assert(s[i + 1] != s[j + 1]);
            }
        }
        assert(!t.contains(x)) by {
            if t.contains(x) {
                let i = choose|i: int| 0 <= i < t.len() && t[i] == x;
                assert(s[i + 1] == s[0]);
            }
        }
        lemma_seq_lines(pos, depth, t);
        assert(s =~= seq![x] + t);
        lemma_held_split(pos, depth, x, t, 65536);
    } else {
        lemma_held_none(pos, depth, 65536);
        assert(s =~= Seq::<u16>::empty());
    }
}

/// The words held by an enumeration of the generated moves add what all words do.
proof fn lemma_held_all(pos: Position, depth: nat, s: Seq<u16>, n: nat)
    requires
        enumerates(pos, s),
        n <= 65536,
    ensures
        held_lines(pos, depth, s, n) == lines_sum(pos, depth, n),
    decreases n,
{
    if n > 0 {
        lemma_held_all(pos, depth, s, (n - 1) as nat);
        let w = (n - 1) as u16;
        assert(w as int == n - 1);
        assert(s.contains(w) <==> generated_move(pos, Move { data: w }));
        if !s.contains(w) {
            assert(!generated_move(pos, Move { data: ((n - 1) as int) as u16 }));
            assert(line_term(pos, depth, (n - 1) as int) == 0);
        }
    }
}

proof fn lemma_held_none(pos: Position, depth: nat, n: nat)
    ensures
        held_lines(pos, depth, Seq::empty(), n) == 0,
    decreases n,
{
    if n > 0 {
        lemma_held_none(pos, depth, (n - 1) as nat);
    }
}

/// Adding up the lines of an enumeration of the generated moves gives the count.
proof fn lemma_enumeration_lines(pos: Position, depth: nat, s: Seq<u16>)
    requires
        enumerates(pos, s),
    ensures
        seq_lines(pos, depth, s) == perft_count(pos, depth),
{
    lemma_seq_lines(pos, depth, s);
    lemma_held_all(pos, depth, s, 65536);
}

/// At depth 1 each generated move is one line.
proof fn lemma_depth_one(pos: Position, s: Seq<u16>)
    requires
        forall|i: int| 0 <= i < s.len() ==> generated_move(pos, Move { data: #[trigger] s[i] }),
    ensures
        seq_lines(pos, 1, s) == s.len(),
    decreases s.len(),
{
    if s.len() > 0 {
        assert(generated_move(pos, Move { data: s[0] }));
        assert forall|i: int| 0 <= i < s.drop_first().len() implies generated_move(
            pos,
            Move { data: #[trigger] s.drop_first()[i] },
        ) by {
            assert(s.drop_first()[i] == s[i + 1]);
        }
        lemma_depth_one(pos, s.drop_first());
    }
}

/// Takes the last move off a sound list; the rest stays sound.
fn pop_last(list: &mut MoveList, Ghost(pos): Ghost<Position>) -> (r: Option<Move>)
    requires
        list_sound(pos, old(list).entries()),
    ensures
        list_sound(pos, final(list).entries()),
        r matches Some(m) ==> move_sound(pos, m) && generated_move(pos, m),
        r is Some ==> final(list).entries().len() == old(list).entries().len() - 1,
        r is Some ==> final(list).entries() == old(list).entries().drop_last(),
        r is Some ==> r->0 == (Move { data: old(list).entries().last().0 }),
        r is None ==> old(list).entries().len() == 0 && final(list).entries() == old(list).entries(),
{
    let ghost s = list.entries();
    let r = list.pop();
    proof {
        if s.len() > 0 {
            assert(move_sound(pos, Move { data: s[s.len() - 1].0 }));
            assert forall|i: int| 0 <= i < s.drop_last().len() implies move_sound(
                pos,
                Move { data: #[trigger] s.drop_last()[i].0 },
            ) by {
                assert(move_sound(pos, Move { data: s[i].0 }));
            }
        }
    }
    r
}

/// The count `perft` and `perft_divide` give one move: the lines after it, or
/// nothing when the counters have no room or the side to move then has no king.
pub open spec fn move_lines(pos: Position, m: Move, depth: nat) -> int {
    if room(pos) && has_king(child(pos, m)) {
        saturated(perft_count(child(pos, m), (depth - 1) as nat))
    } else {
        0
    }
}

/// Counts the lines of the move `m` of `pos` one ply shallower than `depth`.
fn count_after(pos: &Position, m: Move, depth: u8) -> (r: u64)
    requires
        pos.wf(),
        has_king(*pos),
        generated_move(*pos, m),
        depth >= 2,
    ensures
        perft_ready(*pos, depth as nat) ==> r == move_lines(*pos, m, depth as nat),
        perft_ready(*pos, depth as nat) ==> r == saturated(line_term(*pos, depth as nat, m.data as int)),
    decreases depth, 0nat,
{
    let mut count: u64 = 0;
    if pos.has_room() {
        let mut copy = *pos;
        copy.make_move(m);
        if copy.has_king() {
            count = perft(&copy, depth - 1);
        }
        proof {
            if perft_ready(*pos, depth as nat) {
                lemma_child(*pos, m, copy);
            }
        }
    }
    proof {
        assert(Move { data: (m.data as int) as u16 } == m);
    }
    count
}

/// Counts the lines of play of `depth` moves from `pos`: the moves generated at
/// depth 1, else the sum over them of the count one ply shallower. Moves the
/// counters have no room for, and positions without a king to move, count nothing.
/// The count is `perft_count`, kept in 64 bits, for positions as play leaves them
/// (`perft_ready`); at depth 1 it is the number of moves that `generated_move`
/// allows, provided that fewer than 256 are, the side to move has one king and the
/// en passant square is a single square.
pub fn perft(pos: &Position, depth: u8) -> (r: u64)
    requires
        pos.wf(),
        has_king(*pos),
        depth >= 1,
    ensures
        depth == 1 ==> r <= 256,
        depth == 1 && fits_move_list(*pos) && one_king(*pos) && ep_single(*pos) ==> move_count_is(
            *pos,
            r as int,
        ),
        perft_ready(*pos, depth as nat) ==> r == saturated(perft_count(*pos, depth as nat)),
    decreases depth, 1nat,
{
    let moves = pos.generate_moves();
    let ghost e0 = moves.entries();
    let ghost w0 = entry_words(e0);
    let ghost ready = perft_ready(*pos, depth as nat);
    proof {
        if fits_move_list(*pos) && one_king(*pos) && ep_single(*pos) {
            lemma_list_fits(*pos, e0);
            lemma_list_enumerates(*pos, e0);
            lemma_enumeration_lines(*pos, depth as nat, w0);
        }
    }
    if depth == 1 {
        proof {
            if fits_move_list(*pos) && one_king(*pos) && ep_single(*pos) {
                lemma_list_counts(*pos, e0);
                assert forall|i: int| 0 <= i < w0.len() implies generated_move(
                    *pos,
                    Move { data: #[trigger] w0[i] },
                ) by {
                    assert(generated_move(*pos, Move { data: e0[i].0 }));
                }
                lemma_depth_one(*pos, w0);
            }
        }
        return moves.len() as u64;
    }
    let mut list = moves;
    let mut nodes: u64 = 0;
    proof {
        assert(w0.subrange(e0.len() as int, e0.len() as int) =~= Seq::<u16>::empty());
        assert(e0.take(e0.len() as int) =~= e0);
    }
    loop
        invariant
            pos.wf(),
            has_king(*pos),
            depth >= 2,
            list_sound(*pos, list.entries()),
            list_sound(*pos, e0),
            w0 == entry_words(e0),
            ready == perft_ready(*pos, depth as nat),
            ready ==> seq_lines(*pos, depth as nat, w0) == perft_count(*pos, depth as nat),
            list.entries().len() <= e0.len(),
            list.entries() == e0.take(list.entries().len() as int),
            ready ==> nodes == saturated(
                seq_lines(*pos, depth as nat, w0.subrange(list.entries().len() as int, e0.len() as int)),
            ),
        ensures
            ready ==> nodes == saturated(perft_count(*pos, depth as nat)),
        decreases list.entries().len(),
    {
        let ghost k = list.entries().len() as int;
        let m = match pop_last(&mut list, Ghost(*pos)) {
            Some(m) => m,
            None => {
                proof {
                    assert(w0.subrange(0, e0.len() as int) =~= w0);
                }
                break;
            },
        };
        let c = count_after(pos, m, depth);
        nodes = nodes.saturating_add(c);
        proof {
            let n = e0.len() as int;
            assert(w0.subrange(k - 1, n).drop_first() =~= w0.subrange(k, n));
            assert(w0.subrange(k - 1, n)[0] == m.data);
            assert(list.entries() =~= e0.take(k - 1));
        }
    }
    nodes
}

/// The count of each move's lines for `perft` at `depth` (from 2 on), in the order
/// the moves are tried; nothing at depth 1. Each generated move comes once; every
/// move that `generated_move` allows comes, provided that fewer than 256 are, the
/// side to move has one king and the en passant square is a single square. For a
/// position as play leaves it (`perft_ready`), each move's count is the count of
/// `perft` one ply shallower after it (`move_lines`).
pub fn perft_divide(pos: &Position, depth: u8) -> (r: Vec<(Move, u64)>)
    requires
        pos.wf(),
        has_king(*pos),
        depth >= 1,
    ensures
        depth == 1 ==> r@.len() == 0,
        forall|i: int| 0 <= i < r@.len() ==> move_sound(*pos, (#[trigger] r@[i]).0),
        forall|i: int| 0 <= i < r@.len() ==> generated_move(*pos, (#[trigger] r@[i]).0),
        forall|i: int, j: int| 0 <= i < j < r@.len() ==> (#[trigger] r@[i]).0 != (#[trigger] r@[j]).0,
        depth >= 2 && fits_move_list(*pos) && one_king(*pos) && ep_single(*pos) ==> forall|m: Move|
            #[trigger] generated_move(*pos, m) ==> (exists|i: int| 0 <= i < r@.len() && (#[trigger] r@[i]).0 == m),
        perft_ready(*pos, depth as nat) ==> forall|i: int|
            0 <= i < r@.len() ==> (#[trigger] r@[i]).1 == move_lines(*pos, r@[i].0, depth as nat),
{
    let mut out: Vec<(Move, u64)> = Vec::new();
    if depth == 1 {
        return out;
    }
    let mut list = pos.generate_moves();
    let ghost e0 = list.entries();
    proof {
        if fits_move_list(*pos) {
            lemma_list_fits(*pos, e0);
        }
    }
    loop
        invariant
            pos.wf(),
            has_king(*pos),
            depth >= 2,
            list_sound(*pos, list.entries()),
            no_dups(e0),
            list_sound(*pos, e0),
            fits_move_list(*pos) && one_king(*pos) && ep_single(*pos) ==> forall|m: Move|
                #[trigger] generated_move(*pos, m) ==> listed(e0, m),
            list.entries().len() <= e0.len(),
            list.entries() == e0.take(list.entries().len() as int),
            out@.len() == e0.len() - list.entries().len(),
            forall|i: int|
                0 <= i < out@.len() ==> (#[trigger] out@[i]).0 == (Move { data: e0[e0.len() - 1 - i].0 }),
            forall|i: int| 0 <= i < out@.len() ==> move_sound(*pos, (#[trigger] out@[i]).0),
            perft_ready(*pos, depth as nat) ==> forall|i: int|
                0 <= i < out@.len() ==> (#[trigger] out@[i]).1 == move_lines(*pos, out@[i].0, depth as nat),
        ensures
            list.entries().len() == 0,
            out@.len() == e0.len(),
            forall|i: int|
                0 <= i < out@.len() ==> (#[trigger] out@[i]).0 == (Move { data: e0[e0.len() - 1 - i].0 }),
            forall|i: int| 0 <= i < out@.len() ==> move_sound(*pos, (#[trigger] out@[i]).0),
            perft_ready(*pos, depth as nat) ==> forall|i: int|
                0 <= i < out@.len() ==> (#[trigger] out@[i]).1 == move_lines(*pos, out@[i].0, depth as nat),
        decreases list.entries().len(),
    {
        let m = match pop_last(&mut list, Ghost(*pos)) {
            Some(m) => m,
            None => {
                break;
            },
        };
        let count = count_after(pos, m, depth);
        out.push((m, count));
    }
    proof {
        let n = e0.len();
        assert forall|i: int| 0 <= i < out@.len() implies generated_move(*pos, (#[trigger] out@[i]).0) by {
            assert(generated_move(*pos, Move { data: e0[n - 1 - i].0 }));
        }
        assert forall|i: int, j: int| 0 <= i < j < out@.len() implies (#[trigger] out@[i]).0 != (
        #[trigger] out@[j]).0 by {
            assert(e0[n - 1 - j].0 != e0[n - 1 - i].0);
        }
        if fits_move_list(*pos) && one_king(*pos) && ep_single(*pos) {
            assert forall|m: Move| #[trigger] generated_move(*pos, m) implies exists|i: int|
                0 <= i < out@.len() && (#[trigger] out@[i]).0 == m by {
                assert(listed(e0, m));
                let j = choose|j: int| 0 <= j < e0.len() && (#[trigger] e0[j]).0 == m.data;
                assert(out@[n - 1 - j].0 == Move { data: e0[j].0 });
            }
        }
    }
    out
}

} // verus!
