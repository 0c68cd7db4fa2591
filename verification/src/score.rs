use vstd::prelude::*;

verus! {

use crate::text::{decimal, decimal_bytes, push_all};

/// The deepest ply the search reaches.
pub const MAX_PLY: u8 = 64;

/// The score bound that stands for infinity.
pub const INFINITY: i16 = 30000;

/// The score of being mated at the root.
pub const MATE_VALUE: i16 = 29000;

/// Every score beyond this bound is a mate score.
pub const MATE_BOUND: i16 = 28000;

/// The text of a search score in UCI: "mate N" when a mate is found in N moves
/// (negative when the side to move is mated), else "cp N" in centipawns.
pub open spec fn score_text(score: i16) -> Seq<u8> {
    if -MATE_VALUE <= score && score < -MATE_BOUND {
        seq![109u8, 97, 116, 101, 32] + signed_decimal(-((score + MATE_VALUE) / 2) - 1)
    } else if score <= MATE_VALUE && score > MATE_BOUND {
        seq![109u8, 97, 116, 101, 32] + signed_decimal((MATE_VALUE - score) / 2 + 1)
    } else {
        seq![99u8, 112, 32] + signed_decimal(score as int)
    }
}

/// A whole number in decimal, with a leading '-' when it is negative.
pub open spec fn signed_decimal(n: int) -> Seq<u8> {
    if n < 0 {
        seq![45u8] + decimal((-n) as nat)
    } else {
        decimal(n as nat)
    }
}

/// The decimal text of a whole number, with a leading '-' when it is negative.
pub fn signed_decimal_bytes(n: i32) -> (r: Vec<u8>)
    ensures
        r@ == signed_decimal(n as int),
{
    if n < 0 {
        let mut v: Vec<u8> = Vec::new();
        v.push(45u8);
        let d = decimal_bytes((-(n as i64)) as u64);
        push_all(&mut v, &d);
        v
    } else {
        decimal_bytes(n as u64)
    }
}

/// The UCI text of a search score, such as "cp 35" or "mate 3".
pub fn score_bytes(score: i16) -> (r: Vec<u8>)
    ensures
        r@ == score_text(score),
{
    let (mut v, n): (Vec<u8>, i32) = if -MATE_VALUE <= score && score < -MATE_BOUND {
        (vec![109u8, 97, 116, 101, 32], -((score as i32 + MATE_VALUE as i32) / 2) - 1)
    } else if score <= MATE_VALUE && score > MATE_BOUND {
        (vec![109u8, 97, 116, 101, 32], (MATE_VALUE as i32 - score as i32) / 2 + 1)
    } else {
        (vec![99u8, 112, 32], score as i32)
    };
    let d = signed_decimal_bytes(n);
    push_all(&mut v, &d);
    v
}

} // verus!
