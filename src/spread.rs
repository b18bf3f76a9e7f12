//! The normalized spread between two venue prices.
use vstd::prelude::*;

verus! {

/// Price units per currency unit (prices carry eight decimals).
pub const PRICE_SCALE: u64 = 100_000_000;

/// Spread units per percent (spreads carry six decimals of a percent).
pub const SPREAD_SCALE: u64 = 1_000_000;

/// `100 * SPREAD_SCALE`: spread units per whole (one times the price).
pub const SPREAD_PER_UNIT: u64 = 100_000_000;

/// Largest magnitude that a spread computed from two `u64` prices can have.
pub open spec fn max_spread() -> int {
    u64::MAX as int * SPREAD_PER_UNIT as int
}

pub open spec fn abs(x: int) -> int {
    if x < 0 {
        -x
    } else {
        x
    }
}

/// `(b - a) / a * 100` in spread units, its magnitude rounded away from
/// zero: the result is zero only for equal prices, and has the sign of
/// `b - a`.
pub open spec fn spread_of(a: int, b: int) -> int
    recommends
        a > 0,
{
    let m = (abs(b - a) * SPREAD_PER_UNIT as int + a - 1) / a;
    if b >= a {
        m
    } else {
        -m
    }
}

/// `|(b - a) / a * 100| >= t` exactly, for `t` in spread units and `a > 0`.
pub open spec fn spread_reaches(a: int, b: int, t: int) -> bool {
    abs(b - a) * SPREAD_PER_UNIT as int >= t * a
}

/// `|(b - a) / a * 100| <= t` exactly, for `t` in spread units and `a > 0`.
pub open spec fn spread_within(a: int, b: int, t: int) -> bool {
    abs(b - a) * SPREAD_PER_UNIT as int <= t * a
}

/// A fetched price that can enter a spread: present and positive.
pub open spec fn is_valid_price(p: Option<u64>) -> bool {
    match p {
        Some(x) => x > 0,
        None => false,
    }
}

/// One valid observation of both venues for a symbol.
pub struct SpreadSample {
    pub symbol: String,
    pub price_a: u64,
    pub price_b: u64,
    pub spread: i128,
}

impl SpreadSample {
    pub open spec fn wf(&self) -> bool {
        &&& self.price_a > 0
        &&& self.price_b > 0
        &&& self.spread as int == spread_of(self.price_a as int, self.price_b as int)
    }

    /// Whether the exact spread's magnitude is at least `t` spread units.
    pub fn reaches(&self, t: u64) -> (r: bool)
        requires
            self.wf(),
        ensures
            r == spread_reaches(self.price_a as int, self.price_b as int, t as int),
    {
        let (lhs, rhs) = self.scaled_sides(t);
        lhs >= rhs
    }

    /// Whether the exact spread's magnitude is at most `t` spread units.
    pub fn within(&self, t: u64) -> (r: bool)
        requires
            self.wf(),
        ensures
            r == spread_within(self.price_a as int, self.price_b as int, t as int),
    {
        let (lhs, rhs) = self.scaled_sides(t);
        lhs <= rhs
    }

    /// `|b - a| * SPREAD_PER_UNIT` and `t * a`, the two sides of a threshold
    /// test.
    fn scaled_sides(&self, t: u64) -> (r: (u128, u128))
        requires
            self.wf(),
        ensures
            r.0 == abs(self.price_b - self.price_a) * SPREAD_PER_UNIT,
            r.1 == t * self.price_a,
    {
        let d: u128 = if self.price_b >= self.price_a {
            (self.price_b - self.price_a) as u128
        } else {
            (self.price_a - self.price_b) as u128
        };
        assert(d * 100_000_000 <= u64::MAX as u128 * 100_000_000) by (nonlinear_arith)
            requires
                d <= u64::MAX,
        ;
        let t2 = t as u128;
        let a2 = self.price_a as u128;
        assert(t2 * a2 <= u64::MAX as u128 * u64::MAX as u128) by (nonlinear_arith)
            requires
                t2 <= u64::MAX,
                a2 <= u64::MAX,
        ;
        (d * (SPREAD_PER_UNIT as u128), t2 * a2)
    }

    /// Builds the sample of a cycle. A missing price, or a price that is not
    /// positive, drops the frame.
    pub fn from_prices(symbol: String, price_a: Option<u64>, price_b: Option<u64>) -> (r: Option<
        SpreadSample,
    >)
        ensures
            r.is_some() <==> (is_valid_price(price_a) && is_valid_price(price_b)),
            r matches Some(s) ==> s.wf() && s.symbol == symbol && Some(s.price_a) == price_a
                && Some(s.price_b) == price_b,
    {
        match (price_a, price_b) {
            (Some(a), Some(b)) => {
                if a == 0 || b == 0 {
                    None
                } else {
                    let spread = spread_pct(a, b);
                    Some(SpreadSample { symbol, price_a: a, price_b: b, spread })
                }
            },
            _ => None,
        }
    }
}

/// The spread's magnitude is the exact one rounded up, and its sign is the
/// sign of `b - a`.
pub(crate) proof fn lemma_spread_bounded(a: int, b: int)
    requires
        0 < a <= u64::MAX,
        0 <= b <= u64::MAX,
    ensures
        abs(spread_of(a, b)) <= max_spread(),
        (abs(spread_of(a, b)) - 1) * a < abs(b - a) * SPREAD_PER_UNIT,
        abs(b - a) * SPREAD_PER_UNIT <= abs(spread_of(a, b)) * a,
        spread_of(a, b) > 0 <==> b > a,
        spread_of(a, b) < 0 <==> b < a,
{
    let k = SPREAD_PER_UNIT as int;
    let d = abs(b - a);
    let x = d * k + a - 1;
    let m = x / a;
    assert(0 <= d <= u64::MAX);
    assert(0 <= d * k <= u64::MAX * k) by (nonlinear_arith)
        requires
            0 <= d <= u64::MAX,
            k == 100_000_000,
    ;
    vstd::arithmetic::div_mod::lemma_fundamental_div_mod(x, a);
    vstd::arithmetic::div_mod::lemma_mod_bound(x, a);
    let r = x % a;
    assert(x == a * m + r);
    assert(a * m == m * a) by (nonlinear_arith);
    assert((m - 1) * a == m * a - a) by (nonlinear_arith);
    if d == 0 {
        assert(m == 0) by {
            vstd::arithmetic::div_mod::lemma_basic_div(a - 1, a);
        }
    } else {
        assert(d * k >= 1) by (nonlinear_arith)
            requires
                d >= 1,
                k == 100_000_000,
        ;
        assert(m >= 1) by {
            vstd::arithmetic::div_mod::lemma_div_is_ordered(a, x, a);
            vstd::arithmetic::div_mod::lemma_div_basics(a);
        }
        assert(m <= d * k) by {
            assert(x <= a * (d * k)) by (nonlinear_arith)
                requires
                    x == d * k + a - 1,
                    d * k >= 1,
                    a >= 1,
            ;
            vstd::arithmetic::div_mod::lemma_div_is_ordered(x, a * (d * k), a);
            vstd::arithmetic::div_mod::lemma_div_multiples_vanish(d * k, a);
        }
    }
    assert(abs(spread_of(a, b)) == m);
}

/// The spread of `price_b` over `price_a`, in spread units.
pub fn spread_pct(price_a: u64, price_b: u64) -> (r: i128)
    requires
        price_a > 0,
    ensures
        r as int == spread_of(price_a as int, price_b as int),
        abs(r as int) <= max_spread(),
        r > 0 <==> price_b > price_a,
        r < 0 <==> price_b < price_a,
{
    proof {
        lemma_spread_bounded(price_a as int, price_b as int);
    }
    let a = price_a as u128;
    let d: u128 = if price_b >= price_a {
        (price_b - price_a) as u128
    } else {
        (price_a - price_b) as u128
    };
    assert(d * 100_000_000 <= u64::MAX as u128 * 100_000_000) by (nonlinear_arith)
        requires
            d <= u64::MAX,
    ;
    let m = (d * (SPREAD_PER_UNIT as u128) + (a - 1)) / a;
    if price_b >= price_a {
        m as i128
    } else {
        -(m as i128)
    }
}

/// The magnitude of a spread.
pub fn abs_spread(s: i128) -> (r: u128)
    requires
        abs(s as int) <= max_spread(),
    ensures
        r as int == abs(s as int),
{
    if s < 0 {
        (-s) as u128
    } else {
        s as u128
    }
}

} // verus!
