//! The per-symbol decision engine: a two-state machine (flat, in position)
//! that turns spread samples into entries and exits on the ledger.
use vstd::prelude::*;
use crate::ledger::{
    holds, index_of, symbols_unique, Direction, LedgerView, Position, PositionLedger,
    PositionView,
};
use crate::spread::{
    abs, abs_spread, is_valid_price, max_spread, spread_of, spread_reaches, spread_within,
    SpreadSample, SPREAD_PER_UNIT,
};

verus! {

/// Thresholds are in spread units (`SPREAD_SCALE` per percent).
#[derive(Clone, Copy, Debug, PartialEq, Eq, Structural)]
pub struct Config {
    /// Smallest spread magnitude that opens a position (inclusive).
    pub entry_threshold: u64,
    /// Largest spread magnitude that closes a position (inclusive).
    pub exit_threshold: u64,
    /// Notional of one trade, in cents.
    pub trade_size_cents: u32,
    /// Time between two polling cycles.
    pub poll_interval_ms: u64,
    /// Time after which a price fetch counts as failed.
    pub fetch_timeout_ms: u64,
}

impl Default for Config {
    /// Entry at 0.20%, exit at 0.00%, $100 per trade, a 50 ms cycle and a
    /// 500 ms fetch timeout.
    fn default() -> (r: Config)
        ensures
            r.entry_threshold == 200_000,
            r.exit_threshold == 0,
            r.trade_size_cents == 10_000,
            r.poll_interval_ms == 50,
            r.fetch_timeout_ms == 500,
    {
        Config {
            entry_threshold: 200_000,
            exit_threshold: 0,
            trade_size_cents: 10_000,
            poll_interval_ms: 50,
            fetch_timeout_ms: 500,
        }
    }
}

#[derive(Clone, Copy, Debug, PartialEq, Eq, Structural)]
pub enum EngineState {
    Flat,
    InPosition,
}

/// What one cycle did.
#[derive(Clone, Copy, Debug, PartialEq, Eq, Structural)]
pub enum Action {
    /// A price was missing or invalid: no sample, no decision.
    Dropped,
    /// The sample was of another symbol.
    Ignored,
    /// A decision was taken and it was to do nothing.
    Hold,
    Opened { direction: Direction, entry_spread: i128 },
    Closed {
        direction: Direction,
        entry_spread: i128,
        exit_spread: i128,
        /// `|entry_spread| - |exit_spread|`, in spread units.
        profit: i128,
        /// Realised profit or loss, in cents.
        pnl: i128,
        held_ms: u64,
    },
}

pub struct EngineView {
    pub symbol: Seq<char>,
    pub config: Config,
    pub state: EngineState,
    pub ledger: LedgerView,
}

/// The hedge direction for prices `a` and `b`: B above A sells B.
pub open spec fn direction_of(a: int, b: int) -> Direction {
    if b > a {
        Direction::ShortBLongA
    } else {
        Direction::ShortALongB
    }
}

/// `profit / 100 * trade_size` in cents for a profit in spread units,
/// rounded toward zero.
pub open spec fn pnl_of(profit: int, trade_size_cents: int) -> int {
    if profit >= 0 {
        profit * trade_size_cents / SPREAD_PER_UNIT as int
    } else {
        -((-profit) * trade_size_cents / SPREAD_PER_UNIT as int)
    }
}

/// Milliseconds from `opened` to `now` (zero if the clock went back).
pub open spec fn held_of(now: u64, opened: u64) -> u64 {
    if now >= opened {
        (now - opened) as u64
    } else {
        0
    }
}

pub open spec fn spreads_bounded(open: Seq<PositionView>) -> bool {
    forall|i: int| 0 <= i < open.len() ==> abs((#[trigger] open[i]).entry_spread as int) <= max_spread()
}

impl EngineView {
    /// The ledger holds a position on the symbol exactly when the engine is
    /// in position.
    pub open spec fn wf(&self) -> bool {
        &&& self.ledger.wf()
        &&& spreads_bounded(self.ledger.open_positions)
        &&& (self.ledger.contains(self.symbol) <==> self.state == EngineState::InPosition)
    }

    /// The open position on the engine's symbol.
    pub open spec fn position(&self) -> PositionView {
        self.ledger.open_positions[index_of(self.ledger.open_positions, self.symbol)]
    }
}

/// The engine after a sample of prices `a` and `b` arrives at time `now`.
/// Entry and exit compare the exact spread with the thresholds.
pub open spec fn step(e: EngineView, a: u64, b: u64, now: u64) -> EngineView {
    let s = spread_of(a as int, b as int) as i128;
    match e.state {
        EngineState::Flat => {
            if spread_reaches(a as int, b as int, e.config.entry_threshold as int) {
                let p = PositionView {
                    symbol: e.symbol,
                    entry_spread: s,
                    direction: direction_of(a as int, b as int),
                    opened_at_ms: now,
                };
                EngineView {
                    symbol: e.symbol,
                    config: e.config,
                    state: EngineState::InPosition,
                    ledger: LedgerView {
                        open_positions: e.ledger.open_positions.push(p),
                        closed_pnl: e.ledger.closed_pnl,
                    },
                }
            } else {
                e
            }
        },
        EngineState::InPosition => {
            if spread_within(a as int, b as int, e.config.exit_threshold as int) {
                let i = index_of(e.ledger.open_positions, e.symbol);
                let p = e.ledger.open_positions[i];
                let pnl = pnl_of(
                    abs(p.entry_spread as int) - abs(s as int),
                    e.config.trade_size_cents as int,
                );
                EngineView {
                    symbol: e.symbol,
                    config: e.config,
                    state: EngineState::Flat,
                    ledger: LedgerView {
                        open_positions: e.ledger.open_positions.remove(i),
                        closed_pnl: e.ledger.closed_pnl.push(pnl as i128),
                    },
                }
            } else {
                e
            }
        },
    }
}

/// What the engine reports for a sample of prices `a` and `b` at time `now`.
pub open spec fn step_action(e: EngineView, a: u64, b: u64, now: u64) -> Action {
    let s = spread_of(a as int, b as int) as i128;
    match e.state {
        EngineState::Flat => {
            if spread_reaches(a as int, b as int, e.config.entry_threshold as int) {
                Action::Opened { direction: direction_of(a as int, b as int), entry_spread: s }
            } else {
                Action::Hold
            }
        },
        EngineState::InPosition => {
            if spread_within(a as int, b as int, e.config.exit_threshold as int) {
                let p = e.position();
                let profit = abs(p.entry_spread as int) - abs(s as int);
                Action::Closed {
                    direction: p.direction,
                    entry_spread: p.entry_spread,
                    exit_spread: s,
                    profit: profit as i128,
                    pnl: pnl_of(profit, e.config.trade_size_cents as int) as i128,
                    held_ms: held_of(now, p.opened_at_ms),
                }
            } else {
                Action::Hold
            }
        },
    }
}

/// The engine after one polling cycle that fetched `price_a` and `price_b`.
pub open spec fn tick(e: EngineView, price_a: Option<u64>, price_b: Option<u64>, now: u64) -> EngineView {
    if is_valid_price(price_a) && is_valid_price(price_b) {
        step(e, price_a.unwrap(), price_b.unwrap(), now)
    } else {
        e
    }
}

/// A step from a well-formed engine on a sample with a positive `a` keeps the engine well formed.
pub proof fn lemma_step_wf(e: EngineView, a: u64, b: u64, now: u64)
    requires
        e.wf(),
        a > 0,
    ensures
        step(e, a, b, now).wf(),
{
    crate::spread::lemma_spread_bounded(a as int, b as int);
    let n = step(e, a, b, now);
    let open = e.ledger.open_positions;
    match e.state {
        EngineState::Flat => {
            if spread_reaches(a as int, b as int, e.config.entry_threshold as int) {
                let last = n.ledger.open_positions.len() - 1;
                assert(n.ledger.open_positions[last].symbol == e.symbol);
                assert(symbols_unique(n.ledger.open_positions));
                assert(n.ledger.contains(n.symbol));
            }
        },
        EngineState::InPosition => {
            if spread_within(a as int, b as int, e.config.exit_threshold as int) {
                let i = index_of(open, e.symbol);
                let rest = open.remove(i);
                assert forall|a: int, b: int|
                    0 <= a < rest.len() && 0 <= b < rest.len() && #[trigger] rest[a].symbol
                        == #[trigger] rest[b].symbol implies a == b by {
                    let a0 = if a < i { a } else { a + 1 };
                    let b0 = if b < i { b } else { b + 1 };
                    assert(open[a0].symbol == open[b0].symbol);
                }
                if holds(rest, e.symbol) {
                    let k = choose|k: int| 0 <= k < rest.len() && (#[trigger] rest[k]).symbol == e.symbol;
                    let k0 = if k < i { k } else { k + 1 };
                    assert(open[k0].symbol == open[i].symbol);
                }
                assert forall|k: int| 0 <= k < rest.len() implies abs((#[trigger] rest[k]).entry_spread as int) <= max_spread() by {
                    let k0 = if k < i { k } else { k + 1 };
                    assert(open[k0] == rest[k]);
                }
            }
        },
    }
}

/// `pnl_of` computed on machine integers.
pub fn pnl_cents(profit: i128, trade_size_cents: u32) -> (r: i128)
    requires
        abs(profit as int) <= 2 * max_spread(),
    ensures
        r as int == pnl_of(profit as int, trade_size_cents as int),
{
    let m: u128 = if profit < 0 {
        (-profit) as u128
    } else {
        profit as u128
    };
    let t = trade_size_cents as u128;
    assert(m * t <= 4_000_000_000_000_000_000_000_000_000 * 4_294_967_295) by (nonlinear_arith)
        requires
            m <= 4_000_000_000_000_000_000_000_000_000,
            t <= 4_294_967_295,
    ;
    let q = m * t / (SPREAD_PER_UNIT as u128);
    if profit < 0 {
        -(q as i128)
    } else {
        q as i128
    }
}

/// The decision engine of one symbol, with the ledger it alone mutates.
pub struct Engine {
    symbol: String,
    config: Config,
    state: EngineState,
    ledger: PositionLedger,
}

impl View for Engine {
    type V = EngineView;

    closed spec fn view(&self) -> EngineView {
        EngineView {
            symbol: self.symbol@,
            config: self.config,
            state: self.state,
            ledger: self.ledger@,
        }
    }
}

impl Engine {
    pub open spec fn wf(&self) -> bool {
        self@.wf()
    }

    /// A flat engine on `symbol` with an empty ledger.
    pub fn new(symbol: String, config: Config) -> (r: Engine)
        ensures
            r.wf(),
            r@.symbol == symbol@,
            r@.config == config,
            r@.state == EngineState::Flat,
            r@.ledger.open_positions == Seq::<PositionView>::empty(),
            r@.ledger.closed_pnl == Seq::<i128>::empty(),
    {
        Engine { symbol, config, state: EngineState::Flat, ledger: PositionLedger::new() }
    }

    pub fn symbol(&self) -> (r: &String)
        ensures
            r@ == self@.symbol,
    {
        &self.symbol
    }

    pub fn config(&self) -> (r: Config)
        ensures
            r == self@.config,
    {
        self.config
    }

    pub fn state(&self) -> (r: EngineState)
        ensures
            r == self@.state,
    {
        self.state
    }

    pub fn ledger(&self) -> (r: &PositionLedger)
        ensures
            r@ == self@.ledger,
    {
        &self.ledger
    }

    /// Decides on one sample and applies the decision to the ledger.
    pub fn on_sample(&mut self, sample: &SpreadSample, now_ms: u64) -> (r: Action)
        requires
            old(self).wf(),
            sample.wf(),
        ensures
            final(self).wf(),
            sample.symbol@ != old(self)@.symbol ==> final(self)@ == old(self)@ && r
                == Action::Ignored,
            sample.symbol@ == old(self)@.symbol ==> final(self)@ == step(
                old(self)@,
                sample.price_a,
                sample.price_b,
                now_ms,
            ) && r == step_action(old(self)@, sample.price_a, sample.price_b, now_ms),
    {
        if sample.symbol != self.symbol {
            return Action::Ignored;
        }
        let s = sample.spread;
        proof {
            crate::spread::lemma_spread_bounded(sample.price_a as int, sample.price_b as int);
            lemma_step_wf(self@, sample.price_a, sample.price_b, now_ms);
        }
        let mag = abs_spread(s);
        match self.state {
            EngineState::Flat => {
                if sample.reaches(self.config.entry_threshold) {
                    let direction = if sample.price_b > sample.price_a {
                        Direction::ShortBLongA
                    } else {
                        Direction::ShortALongB
                    };
                    let pos = Position {
                        symbol: self.symbol.clone(),
                        entry_spread: s,
                        direction,
                        opened_at_ms: now_ms,
                    };
                    let opened = self.ledger.open(pos);
                    assert(opened is Ok);
                    self.state = EngineState::InPosition;
                    Action::Opened { direction, entry_spread: s }
                } else {
                    Action::Hold
                }
            },
            EngineState::InPosition => {
                if sample.within(self.config.exit_threshold) {
                    let ghost i = index_of(self@.ledger.open_positions, self@.symbol);
                    let ghost before = self@;
                    match self.ledger.close(&self.symbol) {
                        Ok(p) => {
                            assert(p@ == before.ledger.open_positions[i]);
                            let entry = abs_spread(p.entry_spread);
                            let profit = entry as i128 - mag as i128;
                            let pnl = pnl_cents(profit, self.config.trade_size_cents);
                            self.ledger.record_pnl(pnl);
                            self.state = EngineState::Flat;
                            let held_ms = if now_ms >= p.opened_at_ms {
                                now_ms - p.opened_at_ms
                            } else {
                                0
                            };
                            assert(self@.ledger.open_positions == step(before, sample.price_a, sample.price_b, now_ms).ledger.open_positions);
                            assert(self@.ledger.closed_pnl == step(before, sample.price_a, sample.price_b, now_ms).ledger.closed_pnl);
                            Action::Closed {
                                direction: p.direction,
                                entry_spread: p.entry_spread,
                                exit_spread: s,
                                profit,
                                pnl,
                                held_ms,
                            }
                        },
                        Err(_) => {
                            assert(false);
                            Action::Hold
                        },
                    }
                } else {
                    Action::Hold
                }
            },
        }
    }

    /// One polling cycle: the two fetched prices, and the time. A missing or
    /// invalid price drops the frame and changes nothing.
    pub fn on_tick(&mut self, price_a: Option<u64>, price_b: Option<u64>, now_ms: u64) -> (r: Action)
        requires
            old(self).wf(),
        ensures
            final(self).wf(),
            final(self)@ == tick(old(self)@, price_a, price_b, now_ms),
            !(is_valid_price(price_a) && is_valid_price(price_b)) ==> r == Action::Dropped,
            is_valid_price(price_a) && is_valid_price(price_b) ==> r == step_action(
                old(self)@,
                price_a.unwrap(),
                price_b.unwrap(),
                now_ms,
            ),
    {
        match SpreadSample::from_prices(self.symbol.clone(), price_a, price_b) {
            Some(sample) => self.on_sample(&sample, now_ms),
            None => Action::Dropped,
        }
    }
}

} // verus!
