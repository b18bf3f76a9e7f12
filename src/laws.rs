//! Properties of the spread and of the engine over any run of cycles.
use vstd::prelude::*;
use crate::engine::{direction_of, step, tick, EngineState, EngineView};
use crate::spread::{
    abs, is_valid_price, max_spread, spread_of, spread_reaches, SPREAD_PER_UNIT,
};

verus! {

/// The engine after a run of cycles, each the two fetched prices and the time.
pub open spec fn run(e: EngineView, cycles: Seq<(Option<u64>, Option<u64>, u64)>) -> EngineView
    decreases cycles.len(),
{
    if cycles.len() == 0 {
        e
    } else {
        run(tick(e, cycles[0].0, cycles[0].1, cycles[0].2), cycles.drop_first())
    }
}

/// Whether a cycle yields a sample whose spread stays under the entry
/// threshold (or yields no sample at all).
pub open spec fn quiet(e: EngineView, c: (Option<u64>, Option<u64>, u64)) -> bool {
    is_valid_price(c.0) && is_valid_price(c.1) ==> !spread_reaches(
        c.0.unwrap() as int,
        c.1.unwrap() as int,
        e.config.entry_threshold as int,
    )
}

/// The spread is `(b - a) / a * 100` exactly, up to the unit of the fixed
/// point: its magnitude is the exact one rounded up, so it is zero only for
/// equal prices, and its sign is the sign of `b - a`.
pub proof fn law_spread_exact(a: u64, b: u64)
    requires
        a > 0,
        b > 0,
    ensures
        (abs(spread_of(a as int, b as int)) - 1) * a < abs(b - a) * SPREAD_PER_UNIT,
        abs(b - a) * SPREAD_PER_UNIT <= abs(spread_of(a as int, b as int)) * a,
        spread_of(a as int, b as int) > 0 <==> b > a,
        spread_of(a as int, b as int) < 0 <==> b < a,
        abs(spread_of(a as int, b as int)) <= max_spread(),
{
    crate::spread::lemma_spread_bounded(a as int, b as int);
}

/// Entry depends on the spread's magnitude alone: for two prices of B that
/// lie the same distance above and below A, the spreads are opposite, a flat
/// engine reaches the same state on either, and when they differ from A the
/// directions are opposite.
pub proof fn law_entry_sign_symmetric(e: EngineView, a: u64, b1: u64, b2: u64, now: u64)
    requires
        e.wf(),
        e.state == EngineState::Flat,
        a > 0,
        b1 > 0,
        b2 > 0,
        b1 - a == a - b2,
    ensures
        spread_of(a as int, b1 as int) == -spread_of(a as int, b2 as int),
        step(e, a, b1, now).state == step(e, a, b2, now).state,
        b1 != a ==> direction_of(a as int, b1 as int) != direction_of(a as int, b2 as int),
{
    assert(abs(b1 - a) == abs(b2 - a));
    crate::spread::lemma_spread_bounded(a as int, b1 as int);
    crate::spread::lemma_spread_bounded(a as int, b2 as int);
}

/// A dropped frame changes nothing, in either state.
pub proof fn law_dropped_frame(e: EngineView, price_a: Option<u64>, price_b: Option<u64>, now: u64)
    requires
        !is_valid_price(price_a) || !is_valid_price(price_b),
    ensures
        tick(e, price_a, price_b, now) == e,
{
}

/// The thresholds are inclusive: an exact spread of exactly the entry
/// threshold opens a flat engine, one of exactly the exit threshold closes an
/// engine in position.
pub proof fn law_inclusive_thresholds(e: EngineView, a: u64, b: u64, now: u64)
    requires
        e.wf(),
        a > 0,
    ensures
        e.state == EngineState::Flat && abs(b - a) * SPREAD_PER_UNIT == e.config.entry_threshold
            * a ==> step(e, a, b, now).state == EngineState::InPosition,
        e.state == EngineState::InPosition && abs(b - a) * SPREAD_PER_UNIT
            == e.config.exit_threshold * a ==> step(e, a, b, now).state == EngineState::Flat,
{
}

/// A flat engine fed only cycles under the entry threshold, or dropped
/// frames, any number of times, leaves the ledger and everything else as it
/// was.
pub proof fn law_flat_quiet_run_is_idle(e: EngineView, cycles: Seq<(Option<u64>, Option<u64>, u64)>)
    requires
        e.wf(),
        e.state == EngineState::Flat,
        forall|i: int| 0 <= i < cycles.len() ==> quiet(e, #[trigger] cycles[i]),
    ensures
        run(e, cycles) == e,
    decreases cycles.len(),
{
    if cycles.len() > 0 {
        let c = cycles[0];
        assert(quiet(e, c));
        assert(tick(e, c.0, c.1, c.2) == e);
        let rest = cycles.drop_first();
        assert forall|i: int| 0 <= i < rest.len() implies quiet(e, #[trigger] rest[i]) by {
            assert(rest[i] == cycles[i + 1]);
        }
        law_flat_quiet_run_is_idle(e, rest);
    }
}

/// After any run of cycles the ledger holds a position on the engine's
/// symbol exactly when the engine is in position.
pub proof fn law_run_keeps_invariant(e: EngineView, cycles: Seq<(Option<u64>, Option<u64>, u64)>)
    requires
        e.wf(),
    ensures
        run(e, cycles).wf(),
        run(e, cycles).ledger.contains(e.symbol) <==> run(e, cycles).state
            == EngineState::InPosition,
        run(e, cycles).symbol == e.symbol,
    decreases cycles.len(),
{
    if cycles.len() > 0 {
        let c = cycles[0];
        if is_valid_price(c.0) && is_valid_price(c.1) {
            crate::engine::lemma_step_wf(e, c.0.unwrap(), c.1.unwrap(), c.2);
        }
        law_run_keeps_invariant(tick(e, c.0, c.1, c.2), cycles.drop_first());
    }
}

/// The history of realised profit and loss only grows: a run of cycles keeps
/// every earlier entry, in place and in order.
pub proof fn law_pnl_history_only_grows(e: EngineView, cycles: Seq<(Option<u64>, Option<u64>, u64)>)
    ensures
        e.ledger.closed_pnl.len() <= run(e, cycles).ledger.closed_pnl.len(),
        run(e, cycles).ledger.closed_pnl.subrange(0, e.ledger.closed_pnl.len() as int)
            == e.ledger.closed_pnl,
    decreases cycles.len(),
{
    let h = e.ledger.closed_pnl;
    if cycles.len() == 0 {
        assert(h.subrange(0, h.len() as int) =~= h);
    } else {
        let c = cycles[0];
        let next = tick(e, c.0, c.1, c.2);
        let h1 = next.ledger.closed_pnl;
        assert(h1.subrange(0, h.len() as int) =~= h);
        law_pnl_history_only_grows(next, cycles.drop_first());
        let h2 = run(next, cycles.drop_first()).ledger.closed_pnl;
        assert(h2.subrange(0, h.len() as int) =~= h1.subrange(0, h1.len() as int).subrange(
            0,
            h.len() as int,
        ));
    }
}

} // verus!
