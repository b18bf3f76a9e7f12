//! The ledger of open positions and realised profit and loss.
use vstd::prelude::*;

verus! {

/// Which leg of the hedge is short.
#[derive(Clone, Copy, Debug, PartialEq, Eq, Structural)]
pub enum Direction {
    /// Venue B quoted above venue A: sell B, buy A.
    ShortBLongA,
    /// Venue B quoted at or below venue A: sell A, buy B.
    ShortALongB,
}

/// An open hedged position on one symbol.
#[derive(Debug)]
pub struct Position {
    pub symbol: String,
    /// Spread at entry, in spread units.
    pub entry_spread: i128,
    pub direction: Direction,
    /// Time of entry, in milliseconds of the caller's monotonic clock.
    pub opened_at_ms: u64,
}

pub struct PositionView {
    pub symbol: Seq<char>,
    pub entry_spread: i128,
    pub direction: Direction,
    pub opened_at_ms: u64,
}

impl View for Position {
    type V = PositionView;

    open spec fn view(&self) -> PositionView {
        PositionView {
            symbol: self.symbol@,
            entry_spread: self.entry_spread,
            direction: self.direction,
            opened_at_ms: self.opened_at_ms,
        }
    }
}

/// Why a ledger operation was refused: each means that the caller's state
/// machine has gone wrong.
#[derive(Clone, Copy, Debug, PartialEq, Eq, Structural)]
pub enum LedgerError {
    /// `open` on a symbol that already holds a position.
    AlreadyOpen,
    /// `close` on a symbol that holds none.
    NoPosition,
}

pub struct LedgerView {
    pub open_positions: Seq<PositionView>,
    pub closed_pnl: Seq<i128>,
}

/// Whether some open position is on `sym`.
pub open spec fn holds(open: Seq<PositionView>, sym: Seq<char>) -> bool {
    exists|i: int| 0 <= i < open.len() && (#[trigger] open[i]).symbol == sym
}

/// The index of the position on `sym` (unique in a well-formed ledger).
pub open spec fn index_of(open: Seq<PositionView>, sym: Seq<char>) -> int {
    choose|i: int| 0 <= i < open.len() && (#[trigger] open[i]).symbol == sym
}

/// No two open positions share a symbol.
pub open spec fn symbols_unique(open: Seq<PositionView>) -> bool {
    forall|i: int, j: int|
        0 <= i < open.len() && 0 <= j < open.len() && #[trigger] open[i].symbol
            == #[trigger] open[j].symbol ==> i == j
}

/// At most one open position per symbol, and the history of closed trades.
pub struct PositionLedger {
    open_positions: Vec<Position>,
    closed_pnl: Vec<i128>,
}

impl View for PositionLedger {
    type V = LedgerView;

    closed spec fn view(&self) -> LedgerView {
        LedgerView {
            open_positions: self.open_positions@.map_values(|p: Position| p@),
            closed_pnl: self.closed_pnl@,
        }
    }
}

impl LedgerView {
    pub open spec fn wf(&self) -> bool {
        symbols_unique(self.open_positions)
    }

    pub open spec fn contains(&self, sym: Seq<char>) -> bool {
        holds(self.open_positions, sym)
    }
}

impl PositionLedger {
    pub open spec fn wf(&self) -> bool {
        self@.wf()
    }

    /// An empty ledger.
    pub fn new() -> (r: PositionLedger)
        ensures
            r@.open_positions == Seq::<PositionView>::empty(),
            r@.closed_pnl == Seq::<i128>::empty(),
            r.wf(),
    {
        let r = PositionLedger { open_positions: Vec::new(), closed_pnl: Vec::new() };
        assert(r@.open_positions =~= Seq::<PositionView>::empty());
        r
    }

    /// The index of the open position on `sym`, if any.
    fn find(&self, sym: &String) -> (r: Option<usize>)
        ensures
            r matches Some(i) ==> i < self@.open_positions.len()
                && self@.open_positions[i as int].symbol == sym@,
            r is None <==> !self@.contains(sym@),
    {
        let mut i: usize = 0;
        while i < self.open_positions.len()
            invariant
                i <= self.open_positions@.len(),
                forall|j: int| 0 <= j < i ==> (#[trigger] self@.open_positions[j]).symbol != sym@,
            decreases self.open_positions@.len() - i,
        {
            if self.open_positions[i].symbol == *sym {
                return Some(i);
            }
            i += 1;
        }
        None
    }

    /// Whether a position is open on `sym`.
    pub fn contains(&self, sym: &String) -> (r: bool)
        ensures
            r == self@.contains(sym@),
    {
        self.find(sym).is_some()
    }

    /// The open position on `sym`, if any.
    pub fn get(&self, sym: &String) -> (r: Option<&Position>)
        requires
            self.wf(),
        ensures
            r is None <==> !self@.contains(sym@),
            r matches Some(p) ==> p@ == self@.open_positions[index_of(self@.open_positions, sym@)],
    {
        match self.find(sym) {
            Some(i) => Some(&self.open_positions[i]),
            None => None,
        }
    }

    /// Opens `pos`. Refused, with the ledger unchanged, when its symbol
    /// already holds a position: an open position is never overwritten.
    pub fn open(&mut self, pos: Position) -> (r: Result<(), LedgerError>)
        requires
            old(self).wf(),
        ensures
            final(self).wf(),
            r is Err <==> old(self)@.contains(pos.symbol@),
            r matches Err(e) ==> e == LedgerError::AlreadyOpen && *final(self) == *old(self),
            r is Ok ==> final(self)@.open_positions == old(self)@.open_positions.push(pos@)
                && final(self)@.closed_pnl == old(self)@.closed_pnl,
    {
        if self.contains(&pos.symbol) {
            return Err(LedgerError::AlreadyOpen);
        }
        let ghost pv = pos@;
        self.open_positions.push(pos);
        assert(self@.open_positions =~= old(self)@.open_positions.push(pv));
        Ok(())
    }

    /// Closes the position on `sym` and hands it back. Refused, with the
    /// ledger unchanged, when there is none.
    pub fn close(&mut self, sym: &String) -> (r: Result<Position, LedgerError>)
        requires
            old(self).wf(),
        ensures
            final(self).wf(),
            r is Err <==> !old(self)@.contains(sym@),
            r matches Err(e) ==> e == LedgerError::NoPosition && *final(self) == *old(self),
            r matches Ok(p) ==> {
                let i = index_of(old(self)@.open_positions, sym@);
                &&& p@ == old(self)@.open_positions[i]
                &&& final(self)@.open_positions == old(self)@.open_positions.remove(i)
                &&& final(self)@.closed_pnl == old(self)@.closed_pnl
            },
    {
        match self.find(sym) {
            Some(i) => {
                let ghost old_open = self@.open_positions;
                let p = self.open_positions.remove(i);
                assert(self@.open_positions =~= old_open.remove(i as int));
                Ok(p)
            },
            None => Err(LedgerError::NoPosition),
        }
    }

    /// Appends a realised profit or loss to the history.
    pub fn record_pnl(&mut self, value: i128)
        ensures
            final(self)@.open_positions == old(self)@.open_positions,
            final(self)@.closed_pnl == old(self)@.closed_pnl.push(value),
    {
        self.closed_pnl.push(value);
    }

    /// The open positions, in the order they were opened.
    pub fn open_positions(&self) -> (r: &Vec<Position>)
        ensures
            r@.map_values(|p: Position| p@) == self@.open_positions,
    {
        &self.open_positions
    }

    /// Realised profit and loss of each closed trade, oldest first.
    pub fn closed_pnl(&self) -> (r: &Vec<i128>)
        ensures
            r@ == self@.closed_pnl,
    {
        &self.closed_pnl
    }
}

} // verus!
