use vstd::prelude::*;

verus! {

use crate::moves::Move;

/// A time target that stands for no limit: a hundred years, in milliseconds.
pub const INF: u128 = 3155692597470;

/// The deepest a search without a depth limit goes.
pub const MAX_DEPTH: u8 = 128;

/// Milliseconds kept in hand for answering in time.
pub const TIME_BUFFER: u128 = 250;

/// The engine's settings: the number of search threads and the size of the
/// transposition table in megabytes.
#[derive(Clone, Copy, PartialEq, Eq, Structural, Debug)]
pub struct Settings {
    pub threads: u8,
    pub transposition_table_mb: usize,
}

impl Default for Settings {
    fn default() -> (r: Settings)
        ensures
            r.threads == 1,
            r.transposition_table_mb == 16,
    {
        Settings { threads: 1, transposition_table_mb: 16 }
    }
}

impl Settings {
    /// The same settings with another number of threads.
    pub fn threads(self, threads: u8) -> (r: Settings)
        ensures
            r == (Settings { threads, ..self }),
    {
        Settings { threads, ..self }
    }

    /// The same settings with another transposition table size.
    pub fn transposition_table_mb(self, transposition_table_mb: usize) -> (r: Settings)
        ensures
            r == (Settings { transposition_table_mb, ..self }),
    {
        Settings { transposition_table_mb, ..self }
    }
}

/// The limits of one search, as the "go" command gives them.
#[derive(Clone, Copy)]
pub struct SearchArgs {
    pub max_depth: u8,
    pub time_target: u128,
    pub max_nodes: u128,
    pub ponder: bool,
}

/// The milliseconds a search may take: a fixed move time less a buffer; no limit
/// for an infinite search or one limited by depth; else a share of the clock.
pub open spec fn time_target_of(
    max_depth: Option<u8>,
    infinite: bool,
    time_left: Option<u128>,
    inc: Option<u128>,
    movestogo: Option<u8>,
    movetime: Option<u128>,
) -> int {
    if movetime is Some {
        movetime->0 - 250
    } else if infinite || max_depth is Some {
        INF as int
    } else {
        let t = time_left->0 as int;
        let i = match inc {
            Some(v) => v as int,
            None => 0,
        };
        let m = match movestogo {
            Some(v) => v as int,
            None => 30,
        };
        if t < i {
            (if t + i > 250 {
                t + i
            } else {
                250
            }) - 250
        } else {
            (t + i / 2) / m + i / 2
        }
    }
}

/// The "go" parameters leave the time target defined: a fixed move time of at least
/// the buffer, or no time limit, or a clock with a number of moves to go that is not
/// zero and a clock and increment whose sum fits.
pub open spec fn args_ok(
    max_depth: Option<u8>,
    infinite: bool,
    time_left: Option<u128>,
    inc: Option<u128>,
    movestogo: Option<u8>,
    movetime: Option<u128>,
) -> bool {
    if movetime is Some {
        movetime->0 >= TIME_BUFFER
    } else if infinite || max_depth is Some {
        true
    } else {
        &&& time_left is Some
        &&& movestogo != Some(0u8)
        &&& time_left->0 + match inc {
            Some(v) => v as int,
            None => 0,
        } <= u128::MAX
    }
}

impl SearchArgs {
    /// The limits of a search to a fixed depth.
    pub fn new_simple_depth(depth: u8) -> (r: SearchArgs)
        ensures
            r.max_depth == depth,
            r.time_target == INF,
            r.max_nodes == u128::MAX,
            !r.ponder,
    {
        match SearchArgs::new(Some(depth), false, false, None, None, None, None, None) {
            Ok(args) => args,
            Err(_) => SearchArgs { max_depth: depth, time_target: INF, max_nodes: u128::MAX, ponder: false },
        }
    }

    /// The limits of a search from the parameters of the "go" command.
    pub fn new(
        max_depth: Option<u8>,
        ponder: bool,
        infinite: bool,
        time_left: Option<u128>,
        inc: Option<u128>,
        movestogo: Option<u8>,
        nodes: Option<u128>,
        movetime: Option<u128>,
    ) -> (r: Result<SearchArgs, String>)
        requires
            args_ok(max_depth, infinite, time_left, inc, movestogo, movetime),
        ensures
            r matches Ok(a) && a.max_depth == match max_depth {
                Some(d) => d,
                None => MAX_DEPTH,
            } && a.time_target == time_target_of(max_depth, infinite, time_left, inc, movestogo, movetime)
                && a.max_nodes == match nodes {
                Some(n) => n,
                None => u128::MAX,
            } && a.ponder == ponder,
    {
        let time_target: u128 = match movetime {
            Some(movetime) => movetime - TIME_BUFFER,
            None => {
                if infinite || max_depth.is_some() {
                    INF
                } else {
                    let time_left = match time_left {
                        Some(t) => t,
                        None => 0,
                    };
                    let inc = match inc {
                        Some(v) => v,
                        None => 0,
                    };
                    let moves_to_go: u128 = match movestogo {
                        Some(v) => v as u128,
                        None => 30,
                    };
                    if time_left < inc {
                        let sum = time_left + inc;
                        (if sum > TIME_BUFFER {
                            sum
                        } else {
                            TIME_BUFFER
                        }) - TIME_BUFFER
                    } else {
                        ((time_left + inc / 2) / moves_to_go) + inc / 2
                    }
                }
            },
        };
        Ok(
            SearchArgs {
                max_depth: match max_depth {
                    Some(d) => d,
                    None => MAX_DEPTH,
                },
                time_target,
                max_nodes: match nodes {
                    Some(n) => n,
                    None => u128::MAX,
                },
                ponder,
            },
        )
    }

    /// The search has run past its time target.
    pub fn time_up(&self, elapsed_ms: u128) -> (r: bool)
        ensures
            r == (elapsed_ms > self.time_target),
    {
        elapsed_ms > self.time_target
    }
}

/// The limits of one search in the older form of the "go" command.
#[derive(Clone, Copy)]
pub struct SearchMeta {
    pub max_depth: u8,
    pub time_target: u128,
    pub max_nodes: u128,
    pub ponder: bool,
}

/// The milliseconds a search may take in the older form: the fixed move time;
/// no limit for an infinite search or one without a clock; else a share of the
/// clock.
pub open spec fn meta_time_target_of(
    infinite: bool,
    time_left: Option<u128>,
    inc: Option<u128>,
    movestogo: Option<u8>,
    movetime: Option<u128>,
) -> int {
    if movetime is Some {
        movetime->0 as int
    } else if infinite || time_left is None {
        INF as int
    } else {
        let t = time_left->0 as int;
        let i = match inc {
            Some(v) => v as int,
            None => 0,
        };
        let m = match movestogo {
            Some(v) => v as int,
            None => 30,
        };
        if t < i {
            i - 500
        } else {
            (t + i) / m
        }
    }
}

impl SearchMeta {
    /// The limits of a search to a fixed depth.
    pub fn new_simple_depth(depth: u8) -> (r: SearchMeta)
        ensures
            r.max_depth == depth,
            r.time_target == INF,
            r.max_nodes == u128::MAX,
            !r.ponder,
    {
        match SearchMeta::new(Some(depth), false, false, None, None, None, None, None) {
            Ok(meta) => meta,
            Err(_) => SearchMeta { max_depth: depth, time_target: INF, max_nodes: u128::MAX, ponder: false },
        }
    }

    /// The limits of a search from the parameters of the "go" command.
    pub fn new(
        max_depth: Option<u8>,
        ponder: bool,
        infinite: bool,
        time_left: Option<u128>,
        inc: Option<u128>,
        movestogo: Option<u8>,
        nodes: Option<u128>,
        movetime: Option<u128>,
    ) -> (r: Result<SearchMeta, String>)
        requires
            movestogo != Some(0u8),
            time_left matches Some(t) ==> t + match inc {
                Some(v) => v as int,
                None => 0,
            } <= u128::MAX,
            (movetime is None && !infinite && time_left is Some && inc is Some && time_left->0
                < inc->0) ==> inc->0 >= 500,
        ensures
            r matches Ok(a) && a.max_depth == match max_depth {
                Some(d) => d,
                None => 63u8,
            } && a.time_target == meta_time_target_of(infinite, time_left, inc, movestogo, movetime)
                && a.max_nodes == match nodes {
                Some(n) => n,
                None => u128::MAX,
            } && a.ponder == ponder,
    {
        let time_target: u128 = match movetime {
            Some(movetime) => movetime,
            None => {
                if infinite {
                    INF
                } else {
                    match time_left {
                        Some(time_left) => {
                            let inc = match inc {
                                Some(v) => v,
                                None => 0,
                            };
                            let moves_to_go: u128 = match movestogo {
                                Some(v) => v as u128,
                                None => 30,
                            };
                            if time_left < inc {
                                inc - 500
                            } else {
                                (time_left + inc) / moves_to_go
                            }
                        },
                        None => INF,
                    }
                }
            },
        };
        Ok(
            SearchMeta {
                max_depth: match max_depth {
                    Some(d) => d,
                    None => 63,
                },
                time_target,
                max_nodes: match nodes {
                    Some(n) => n,
                    None => u128::MAX,
                },
                ponder,
            },
        )
    }
}

/// What a search thread reports when it is done.
pub struct SearchStats {
    pub nodes: u128,
    pub tt_hits: u128,
    pub time: u128,
    pub best_move: Option<Move>,
}

impl SearchStats {
    /// The statistics of two threads together: the nodes and hits add up, the time
    /// is the longer one, and no best move is kept.
    pub fn combine(self, rhs: SearchStats) -> (r: SearchStats)
        requires
            self.nodes + rhs.nodes <= u128::MAX,
            self.tt_hits + rhs.tt_hits <= u128::MAX,
        ensures
            r.nodes == self.nodes + rhs.nodes,
            r.tt_hits == self.tt_hits + rhs.tt_hits,
            r.time == if self.time >= rhs.time {
                self.time
            } else {
                rhs.time
            },
            r.best_move is None,
    {
        SearchStats {
            nodes: self.nodes + rhs.nodes,
            tt_hits: self.tt_hits + rhs.tt_hits,
            time: if self.time >= rhs.time {
                self.time
            } else {
                rhs.time
            },
            best_move: None,
        }
    }
}

/// What a search thread reports, in the older form.
pub struct SearchResult {
    pub nodes: u128,
    pub tt_hits: u128,
    pub time: u128,
}

impl SearchResult {
    /// Two results together: the nodes and hits add up, the time is the first one's.
    pub fn combine(self, rhs: SearchResult) -> (r: SearchResult)
        requires
            self.nodes + rhs.nodes <= u128::MAX,
            self.tt_hits + rhs.tt_hits <= u128::MAX,
        ensures
            r.nodes == self.nodes + rhs.nodes,
            r.tt_hits == self.tt_hits + rhs.tt_hits,
            r.time == self.time,
    {
        SearchResult {
            nodes: self.nodes + rhs.nodes,
            tt_hits: self.tt_hits + rhs.tt_hits,
            time: self.time,
        }
    }
}

} // verus!
