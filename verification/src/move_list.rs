use vstd::prelude::*;

verus! {

use crate::moves::Move;

/// The fixed capacity vector of `heapless`.
#[verifier::external_type_specification]
#[verifier::external_body]
#[verifier::reject_recursive_types(T)]
pub struct ExHeaplessVec<T, const N: usize>(heapless::Vec<T, N>);

/// What a move buffer holds: pairs of a move word and its ordering score.
pub uninterp spec fn move_entries(v: heapless::Vec<(u16, i16), 256>) -> Seq<(u16, i16)>;

/// `heapless::Vec::new`: an empty vector.
#[verifier::external_body]
fn entries_new() -> (r: heapless::Vec<(u16, i16), 256>)
    ensures
        move_entries(r) == Seq::<(u16, i16)>::empty(),
{
    heapless::Vec::new()
}

/// `heapless::Vec::len`: the number of elements.
#[verifier::external_body]
fn entries_len(v: &heapless::Vec<(u16, i16), 256>) -> (r: usize)
    ensures
        r == move_entries(*v).len(),
        r <= 256,
{
    v.len()
}

/// `heapless::Vec::push`: appends the item when the vector is not full, and hands
/// it back (here: reports `false`) when it is.
#[verifier::external_body]
fn entries_push(v: &mut heapless::Vec<(u16, i16), 256>, item: (u16, i16)) -> (r: bool)
    ensures
        r == (move_entries(*old(v)).len() < 256),
        r ==> move_entries(*final(v)) == move_entries(*old(v)).push(item),
        !r ==> move_entries(*final(v)) == move_entries(*old(v)),
{
    v.push(item).is_ok()
}

/// `heapless::Vec::pop`: removes and returns the last element, `None` when empty.
#[verifier::external_body]
fn entries_pop(v: &mut heapless::Vec<(u16, i16), 256>) -> (r: Option<(u16, i16)>)
    ensures
        move_entries(*old(v)).len() == 0 ==> r is None && move_entries(*final(v)) == move_entries(
            *old(v),
        ),
        move_entries(*old(v)).len() > 0 ==> r == Some(move_entries(*old(v)).last())
            && move_entries(*final(v)) == move_entries(*old(v)).drop_last(),
{
    v.pop()
}

/// `heapless::Vec::swap_remove`: removes the element at `index` and puts the last
/// element in its place.
#[verifier::external_body]
fn entries_swap_remove(v: &mut heapless::Vec<(u16, i16), 256>, index: usize) -> (r: (u16, i16))
    requires
        index < move_entries(*old(v)).len(),
    ensures
        r == move_entries(*old(v))[index as int],
        move_entries(*final(v)) == move_entries(*old(v)).update(
            index as int,
            move_entries(*old(v)).last(),
        ).drop_last(),
{
    v.swap_remove(index)
}

/// Reading an element through the slice of a `heapless::Vec`.
#[verifier::external_body]
fn entries_get(v: &heapless::Vec<(u16, i16), 256>, index: usize) -> (r: (u16, i16))
    requires
        index < move_entries(*v).len(),
    ensures
        r == move_entries(*v)[index as int],
{
    v[index]
}

/// Writing an element through the mutable slice of a `heapless::Vec`.
#[verifier::external_body]
fn entries_set(v: &mut heapless::Vec<(u16, i16), 256>, index: usize, item: (u16, i16))
    requires
        index < move_entries(*old(v)).len(),
    ensures
        move_entries(*final(v)) == move_entries(*old(v)).update(index as int, item),
{
    v[index] = item;
}

/// The first index of a greatest score among the first `n` entries (0 when `n` is 0).
pub open spec fn best_index(s: Seq<(u16, i16)>, n: int) -> int
    decreases n,
{
    if n <= 1 {
        0
    } else {
        let b = best_index(s, n - 1);
        if s[n - 1].1 > s[b].1 {
            n - 1
        } else {
            b
        }
    }
}

/// A list of up to 256 moves, each with an ordering score.
pub struct MoveList {
    moves: heapless::Vec<(u16, i16), 256>,
}

/// Pushing moves onto a move list.
pub trait MoveListFuncs {
    spec fn contents(&self) -> Seq<(u16, i16)>;

    /// Appends a move with score 0; a full list is left as it is.
    fn push_move(&mut self, moov: Move)
        ensures
            old(self).contents().len() < 256 ==> final(self).contents() == old(
                self,
            ).contents().push((moov.data, 0i16)),
            old(self).contents().len() >= 256 ==> final(self).contents() == old(self).contents(),
    ;
}

impl MoveListFuncs for MoveList {
    open spec fn contents(&self) -> Seq<(u16, i16)> {
        self.entries()
    }

    fn push_move(&mut self, moov: Move) {
        self.push(moov)
    }
}

impl MoveList {
    /// The moves and their scores.
    pub closed spec fn entries(self) -> Seq<(u16, i16)> {
        move_entries(self.moves)
    }

    pub fn new() -> (r: MoveList)
        ensures
            r.entries() == Seq::<(u16, i16)>::empty(),
    {
        MoveList { moves: entries_new() }
    }

    /// Appends a move with score 0; a full list is left as it is.
    pub fn push(&mut self, moov: Move)
        ensures
            old(self).entries().len() < 256 ==> final(self).entries() == old(self).entries().push(
                (moov.data, 0i16),
            ),
            old(self).entries().len() >= 256 ==> final(self).entries() == old(self).entries(),
    {
        let _ = entries_push(&mut self.moves, (moov.data, 0));
    }

    /// Removes the last move.
    pub fn pop(&mut self) -> (r: Option<Move>)
        ensures
            old(self).entries().len() == 0 ==> r is None && final(self).entries() == old(
                self,
            ).entries(),
            old(self).entries().len() > 0 ==> r == Some(Move { data: old(self).entries().last().0 })
                && final(self).entries() == old(self).entries().drop_last(),
    {
        match entries_pop(&mut self.moves) {
            Some(e) => Some(Move { data: e.0 }),
            None => None,
        }
    }

    /// Removes the move with the best score among all but the last one (the first
    /// such move on ties; the only move of a one-move list), putting the last move
    /// in its place. This only makes sense once the list has been scored. The scan
    /// does not look at the score of the last entry: a best move standing last
    /// comes out only once another pop has moved it forward, so the order is
    /// best-first only up to that entry. Every move still comes out exactly once.
    pub fn pop_best(&mut self) -> (r: Option<Move>)
        ensures
            old(self).entries().len() == 0 ==> r is None && final(self).entries() == old(
                self,
            ).entries(),
            old(self).entries().len() > 0 ==> {
                let s = old(self).entries();
                let b = best_index(s, s.len() - 1);
                &&& 0 <= b < s.len()
                &&& r == Some(Move { data: s[b].0 })
                &&& final(self).entries() == s.update(b, s.last()).drop_last()
            },
    {
        let len = self.len();
        if len == 0 {
            return None;
        }
        let ghost s = self.entries();
        let mut best_index: usize = 0;
        let mut best_score = entries_get(&self.moves, 0).1;
        let mut i: usize = 1;
        while i < len - 1
            invariant
                len == s.len(),
                s == self.entries(),
                len > 0,
                1 <= i <= len - 1 || (len == 1 && i == 1),
                best_index == crate::move_list::best_index(s, i as int),
                0 <= best_index < i,
                best_score == s[best_index as int].1,
            decreases len - i,
        {
            let score = entries_get(&self.moves, i).1;
            if score > best_score {
                best_index = i;
                best_score = score;
            }
            i = i + 1;
        }
        proof {
            if len == 1 {
                assert(crate::move_list::best_index(s, 0) == 0);
            } else {
                assert(i == len - 1);
            }
        }
        let e = entries_swap_remove(&mut self.moves, best_index);
        Some(Move { data: e.0 })
    }

    pub fn len(&self) -> (r: usize)
        ensures
            r == self.entries().len(),
            r <= 256,
    {
        entries_len(&self.moves)
    }

    /// The entry at `index`.
    pub fn get(&self, index: usize) -> (r: (u16, i16))
        requires
            index < self.entries().len(),
        ensures
            r == self.entries()[index as int],
    {
        entries_get(&self.moves, index)
    }

    /// Sets the score of the entry at `index`.
    pub fn set_score(&mut self, index: usize, score: i16)
        requires
            index < old(self).entries().len(),
        ensures
            final(self).entries() == old(self).entries().update(
                index as int,
                (old(self).entries()[index as int].0, score),
            ),
    {
        let e = entries_get(&self.moves, index);
        entries_set(&mut self.moves, index, (e.0, score));
    }
}

} // verus!
