use vstd::prelude::*;

verus! {

use std::sync::atomic::{AtomicU64, Ordering};
use crate::moves::Move;
use crate::score::MATE_BOUND;

/// What a stored score says of the true score.
#[derive(Clone, Copy, PartialEq, Eq, Structural, Debug)]
pub enum HashFlag {
    Exact,
    UpperBound,
    LowerBound,
}

impl HashFlag {
    /// The two bits of the flag in a packed entry.
    pub open spec fn code(self) -> u64 {
        match self {
            HashFlag::Exact => 0,
            HashFlag::UpperBound => 1,
            HashFlag::LowerBound => 2,
        }
    }
}

/// A transposition table entry, unpacked.
#[derive(Clone, Copy)]
pub struct EntryData {
    pub hash: u64,
    pub score: i16,
    pub depth: u8,
    pub best_move: Move,
    pub flag: HashFlag,
    pub generation: u8,
}

/// The 64 bit word an entry is kept in: the score in bits 0 to 15, the depth in
/// bits 32 to 39, the move in bits 40 to 55, the flag in bits 56 and 57 and the
/// generation from bit 58 on.
pub open spec fn packed(score: i16, depth: u8, best_move: u16, flag: HashFlag, generation: u8) -> u64 {
    (score as u16) as u64 | (depth as u64) << 32u64 | (best_move as u64) << 40u64 | flag.code()
        << 56u64 | (generation as u64) << 58u64
}

/// The flag of a two bit code; `None` for the code no flag has.
pub open spec fn flag_of(code: u64) -> Option<HashFlag> {
    if code == 0 {
        Some(HashFlag::Exact)
    } else if code == 1 {
        Some(HashFlag::UpperBound)
    } else if code == 2 {
        Some(HashFlag::LowerBound)
    } else {
        None
    }
}

/// The entry a stored pair of words stands for; `None` when the flag bits hold
/// the code no flag has.
pub open spec fn unpacked(hash: u64, data: u64) -> Option<EntryData> {
    match flag_of((data >> 56u64) & 3u64) {
        Some(flag) => Some(
            EntryData {
                hash,
                score: data as i16,
                depth: (data >> 32u64) as u8,
                best_move: Move { data: (data >> 40u64) as u16 },
                flag,
                generation: (data >> 58u64) as u8,
            },
        ),
        None => None,
    }
}

/// The score kept in the table for `score` found `ply` plies from the root:
/// mate scores are made relative to the position itself.
pub open spec fn stored_score(score: i16, ply: u8) -> int {
    if score < -MATE_BOUND {
        score - ply
    } else if score > MATE_BOUND {
        score + ply
    } else {
        score as int
    }
}

/// The score read from the table `ply` plies from the root: mate scores are made
/// relative to the root again.
pub open spec fn read_score(score: i16, ply: u8) -> int {
    if score < -MATE_BOUND {
        score + ply
    } else if score > MATE_BOUND {
        score - ply
    } else {
        score as int
    }
}

/// A score can be stored from `ply` without leaving 16 bits.
pub open spec fn storable(score: i16, ply: u8) -> bool {
    -32768 <= stored_score(score, ply) <= 32767
}

impl EntryData {
    pub fn new(
        hash: u64,
        score: i16,
        depth: u8,
        best_move: Move,
        flag: HashFlag,
        generation: u8,
    ) -> (r: EntryData)
        ensures
            r == (EntryData { hash, score, depth, best_move, flag, generation }),
    {
        EntryData { hash, score, depth, best_move, flag, generation }
    }

    /// Packs everything but the hash into one word.
    pub fn compress(&self) -> (r: u64)
        ensures
            r == packed(self.score, self.depth, self.best_move.data, self.flag, self.generation),
    {
        let flag: u64 = match self.flag {
            HashFlag::Exact => 0,
            HashFlag::UpperBound => 1,
            HashFlag::LowerBound => 2,
        };
        ((self.score as u16) as u64) | (self.depth as u64) << 32u64 | (self.best_move.data as u64)
            << 40u64 | flag << 56u64 | (self.generation as u64) << 58u64
    }

    /// Unpacks an entry from its hash word and its data word; `None` when the flag
    /// bits hold the code no flag has, which a torn concurrent write can leave.
    pub fn new_from_data(hash: u64, data: u64) -> (r: Option<EntryData>)
        ensures
            r == unpacked(hash, data),
    {
        let code = (data >> 56u64) & 3u64;
        let flag = if code == 0 {
            HashFlag::Exact
        } else if code == 1 {
            HashFlag::UpperBound
        } else if code == 2 {
            HashFlag::LowerBound
        } else {
            return None;
        };
        Some(
            EntryData {
                hash,
                score: data as i16,
                depth: (data >> 32u64) as u8,
                best_move: Move { data: (data >> 40u64) as u16 },
                flag,
                generation: (data >> 58u64) as u8,
            },
        )
    }
}

/// Unpacking a packed entry gives it back, for generations below 64 (the
/// generation counter wraps at 64).
pub proof fn lemma_pack_roundtrip(
    hash: u64,
    score: i16,
    depth: u8,
    best_move: u16,
    flag: HashFlag,
    generation: u8,
)
    requires
        generation < 64,
    ensures
        unpacked(hash, packed(score, depth, best_move, flag, generation)) == Some(
            EntryData {
                hash,
                score,
                depth,
                best_move: Move { data: best_move },
                flag,
                generation,
            },
        ),
{
    let f = flag.code();
    let x = packed(score, depth, best_move, flag, generation);
    let s16 = score as u16;
    assert(x == (s16 as u64) | (depth as u64) << 32u64 | (best_move as u64) << 40u64 | f << 56u64
        | (generation as u64) << 58u64);
    assert(x as u16 == s16 && (x >> 32u64) as u8 == depth && (x >> 40u64) as u16 == best_move && (
    x >> 56u64) & 3u64 == f && (x >> 58u64) as u8 == generation) by (bit_vector)
        requires
            x == (s16 as u64) | (depth as u64) << 32u64 | (best_move as u64) << 40u64 | f << 56u64
                | (generation as u64) << 58u64,
            f < 3,
            generation < 64,
    ;
    assert(x as i16 == score) by (bit_vector)
        requires
            x as u16 == score as u16,
    ;
}

/// Reading a stored score back from the same ply gives the score that was stored.
pub proof fn lemma_score_roundtrip(score: i16, ply: u8)
    requires
        storable(score, ply),
    ensures
        read_score(stored_score(score, ply) as i16, ply) == score,
{
}

/// Makes a mate score relative to the position before it is stored.
fn store_adjusted(score: i16, ply: u8) -> (r: i16)
    requires
        storable(score, ply),
    ensures
        r == stored_score(score, ply),
{
    if score < -MATE_BOUND {
        score - ply as i16
    } else if score > MATE_BOUND {
        score + ply as i16
    } else {
        score
    }
}

/// Makes a mate score relative to the root again after it is read.
fn read_adjusted(score: i16, ply: u8) -> (r: i16)
    ensures
        r == read_score(score, ply),
{
    if score < -MATE_BOUND {
        score + ply as i16
    } else if score > MATE_BOUND {
        score - ply as i16
    } else {
        score
    }
}

/// The entry of the position with `hash`, `ply` plies from the root, that a slot
/// holding the hash word `entry_hash` and the data word `data` stands for, its mate
/// score made relative to the root: none when the slot is empty (both words zero),
/// when the hash word XOR the data word is not `hash`, or when the data word holds
/// no flag.
pub open spec fn entry_of(entry_hash: u64, data: u64, hash: u64, ply: u8) -> Option<EntryData> {
    if (entry_hash == 0 && data == 0) || entry_hash ^ data != hash {
        None
    } else {
        match unpacked(entry_hash, data) {
            Some(raw) => Some(EntryData { score: read_score(raw.score, ply) as i16, ..raw }),
            None => None,
        }
    }
}

/// Reads the entry that the words of a slot stand for (see `entry_of`).
pub fn entry_of_words(entry_hash: u64, data: u64, hash: u64, ply: u8) -> (r: Option<EntryData>)
    ensures
        r == entry_of(entry_hash, data, hash, ply),
{
    if (entry_hash == 0 && data == 0) || entry_hash ^ data != hash {
        return None;
    }
    match EntryData::new_from_data(entry_hash, data) {
        Some(raw) => {
            let mut e = raw;
            e.score = read_adjusted(raw.score, ply);
            Some(e)
        },
        None => None,
    }
}

/// One slot of the table: the hash word (the position's hash XOR the data word)
/// and the data word, each read and written atomically, so that a slot torn by two
/// threads fails the hash check.
pub struct AtomicEntry {
    hash: AtomicU64,
    data: AtomicU64,
}

impl AtomicEntry {
    pub fn default() -> (r: AtomicEntry) {
        AtomicEntry { hash: AtomicU64::new(0), data: AtomicU64::new(0) }
    }

    /// Reads both words of the slot.
    fn load_words(&self) -> (r: (u64, u64)) {
        (self.hash.load(Ordering::Relaxed), self.data.load(Ordering::Relaxed))
    }

    /// Reads the entry of the position with `hash`: fails when the slot is empty,
    /// unless the hash word XOR the data word is `hash`, or when the data word holds
    /// no flag. The words read are whatever the slot holds at that moment.
    pub fn load_valid(&self, hash: u64) -> (r: Result<EntryData, ()>)
        ensures
            exists|entry_hash: u64, data: u64|
                #![trigger entry_of(entry_hash, data, hash, 0)]
                r == match entry_of(entry_hash, data, hash, 0) {
                    Some(e) => Ok::<EntryData, ()>(e),
                    None => Err(()),
                },
    {
        let (entry_hash, data) = self.load_words();
        match entry_of_words(entry_hash, data, hash, 0) {
            Some(e) => Ok(e),
            None => Err(()),
        }
    }

    /// Writes the two words of an entry.
    fn store_words(&self, hash_word: u64, data: u64) {
        self.hash.store(hash_word, Ordering::Relaxed);
        self.data.store(data, Ordering::Relaxed);
    }

    /// Writes an entry: the hash word is the entry's hash XOR the data word. Gives
    /// back the two words written.
    pub fn store(&self, entry: EntryData) -> (r: (u64, u64))
        ensures
            r.1 == packed(entry.score, entry.depth, entry.best_move.data, entry.flag, entry.generation),
            r.0 == entry.hash ^ r.1,
    {
        let data = entry.compress();
        let hash_word = entry.hash ^ data;
        self.store_words(hash_word, data);
        (hash_word, data)
    }
}

/// A transposition table: a fixed number of slots shared by the search threads,
/// the slot of a position chosen by its hash.
pub struct TranspositionTable {
    table: Vec<AtomicEntry>,
}

/// The bytes of one slot: two 64 bit words.
pub const ENTRY_BYTES: usize = 16;

/// The bytes of a megabyte.
pub const BYTES_PR_MB: usize = 1048576;

impl TranspositionTable {
    /// The number of slots.
    pub closed spec fn slots(&self) -> nat {
        self.table@.len()
    }

    pub open spec fn wf(&self) -> bool {
        self.slots() > 0
    }

    /// A table of the given size, all of its slots empty.
    pub fn new(megabytes: usize) -> (r: TranspositionTable)
        requires
            1 <= megabytes,
            megabytes * BYTES_PR_MB <= usize::MAX,
        ensures
            r.wf(),
            r.slots() == megabytes * BYTES_PR_MB / (ENTRY_BYTES as int),
    {
        let bytes = BYTES_PR_MB * megabytes;
        let entry_count = bytes / ENTRY_BYTES;
        let mut table: Vec<AtomicEntry> = Vec::new();
        let mut i: usize = 0;
        while i < entry_count
            invariant
                i <= entry_count,
                table.len() == i,
            decreases entry_count - i,
        {
            table.push(AtomicEntry::default());
            i = i + 1;
        }
        TranspositionTable { table }
    }

    /// The slot of a position.
    pub open spec fn slot_of(&self, hash: u64) -> int {
        (hash as usize) as int % (self.slots() as int)
    }

    fn index(&self, hash: u64) -> (r: usize)
        requires
            self.wf(),
        ensures
            r == self.slot_of(hash),
            r < self.slots(),
    {
        hash as usize % self.table.len()
    }

    /// Looks up the entry of a position `ply` plies from the root, its mate score
    /// made relative to the root. `None` when the slot holds no entry of this
    /// position. The slot is read as it is at that moment (other threads write to
    /// it), so the result is what `entry_of` makes of some two words.
    pub fn probe(&self, hash: u64, ply: u8) -> (r: Option<EntryData>)
        requires
            self.wf(),
        ensures
            exists|entry_hash: u64, data: u64|
                #![trigger entry_of(entry_hash, data, hash, ply)]
                r == entry_of(entry_hash, data, hash, ply),
    {
        let i = self.index(hash);
        let (entry_hash, data) = self.table[i].load_words();
        entry_of_words(entry_hash, data, hash, ply)
    }

    /// Stores the result of a search of the position with `hash`, `ply` plies from
    /// the root, in its slot; a mate score is first made relative to the position.
    /// Gives back the two words written. Read back by a probe of `hash` from the
    /// same ply (see `entry_of`), they give the recorded score, depth, move, flag
    /// and generation (a generation below 64), unless both words are zero (an
    /// all-zero entry of the hash zero, which reads as an empty slot).
    pub fn record(
        &self,
        hash: u64,
        best_move: Move,
        depth: u8,
        score: i16,
        flag: HashFlag,
        ply: u8,
        generation: u8,
    ) -> (r: (u64, u64))
        requires
            self.wf(),
            storable(score, ply),
        ensures
            r.1 == packed(stored_score(score, ply) as i16, depth, best_move.data, flag, generation),
            r.0 ^ r.1 == hash,
            generation < 64 && !(r.0 == 0 && r.1 == 0) ==> (entry_of(r.0, r.1, hash, ply) matches Some(e)
                && e.score == score && e.depth == depth && e.best_move == best_move && e.flag == flag
                && e.generation == generation),
    {
        let ghost score0 = score;
        let score = store_adjusted(score, ply);
        let entry = EntryData::new(hash, score, depth, best_move, flag, generation);
        let i = self.index(hash);
        let words = self.table[i].store(entry);
        proof {
            crate::zobrist::lemma_xor_facts(hash, words.1, words.1);
            crate::zobrist::lemma_xor_facts(words.1, hash, 0);
            assert(words.0 ^ words.1 == hash);
            if generation < 64 {
                lemma_pack_roundtrip(words.0, score, depth, best_move.data, flag, generation);
                lemma_score_roundtrip(score0, ply);
            }
        }
        words
    }

    /// Empties every slot.
    pub fn clear(&self) {
        let mut i: usize = 0;
        while i < self.table.len()
            decreases self.table.len() - i,
        {
            self.table[i].store_words(0, 0);
            i = i + 1;
        }
    }

    /// Of the first thousand slots (or all, if fewer), how many hold an entry, and
    /// how many were looked at.
    pub fn fill_counts(&self) -> (r: (usize, usize))
        ensures
            r.1 == if self.slots() < 1000 {
                self.slots()
            } else {
                1000
            },
            r.0 <= r.1,
    {
        let n = if self.table.len() < 1000 {
            self.table.len()
        } else {
            1000
        };
        let mut found: usize = 0;
        let mut i: usize = 0;
        while i < n
            invariant
                i <= n,
                n <= self.table.len(),
                found <= i,
            decreases n - i,
        {
            let (hash_word, _) = self.table[i].load_words();
            if hash_word != 0 {
                found = found + 1;
            }
            i = i + 1;
        }
        (found, n)
    }
}

} // verus!
