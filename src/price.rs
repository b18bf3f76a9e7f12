//! Choosing a venue's price from what its market data offers.
use vstd::prelude::*;
use crate::spread::is_valid_price;

verus! {

/// The mid-price policy: `(bid + ask) / 2` (rounded down) when both sides are
/// positive, else the last traded price when positive, else nothing.
pub open spec fn selected_price(bid: Option<u64>, ask: Option<u64>, last: Option<u64>) -> Option<u64> {
    if is_valid_price(bid) && is_valid_price(ask) {
        Some(((bid.unwrap() + ask.unwrap()) / 2) as u64)
    } else if is_valid_price(last) {
        last
    } else {
        None
    }
}

/// Picks the price of a venue that quotes a bid, an ask and a last price.
pub fn select_price(bid: Option<u64>, ask: Option<u64>, last: Option<u64>) -> (r: Option<u64>)
    ensures
        r == selected_price(bid, ask, last),
{
    match (bid, ask) {
        (Some(b), Some(a)) if b > 0 && a > 0 => {
            let mid = (b as u128 + a as u128) / 2;
            return Some(mid as u64);
        },
        _ => {},
    }
    match last {
        Some(l) if l > 0 => Some(l),
        _ => None,
    }
}

/// Whether `p` is a prefix of `s`.
pub open spec fn is_prefix_of(p: Seq<char>, s: Seq<char>) -> bool {
    p.len() <= s.len() && s.subrange(0, p.len() as int) == p
}

/// Whether `s` starts with `prefix`.
pub fn starts_with(s: &str, prefix: &str) -> (r: bool)
    ensures
        r == is_prefix_of(prefix@, s@),
{
    let n = prefix.unicode_len();
    if n > s.unicode_len() {
        return false;
    }
    let mut i: usize = 0;
    while i < n
        invariant
            n == prefix@.len(),
            n <= s@.len(),
            i <= n,
            forall|j: int| 0 <= j < i ==> s@[j] == prefix@[j],
        decreases n - i,
    {
        if s.get_char(i) != prefix.get_char(i) {
            assert(s@.subrange(0, n as int)[i as int] != prefix@[i as int]);
            return false;
        }
        i += 1;
    }
    assert(s@.subrange(0, n as int) =~= prefix@);
    true
}

/// Whether an entry is present and equal to `name`.
pub open spec fn is_named(entry: Option<String>, name: Seq<char>) -> bool {
    match entry {
        Some(n) => n@ == name,
        None => false,
    }
}

/// Whether an entry is present and starts with `prefix`.
pub open spec fn has_prefix(entry: Option<String>, prefix: Seq<char>) -> bool {
    match entry {
        Some(s) => is_prefix_of(prefix, s@),
        None => false,
    }
}

/// The index of the first entry equal to `name`.
pub fn find_by_name(names: &Vec<Option<String>>, name: &String) -> (r: Option<usize>)
    ensures
        r matches Some(i) ==> i < names@.len() && is_named(names@[i as int], name@),
        r matches Some(i) ==> forall|j: int|
            0 <= j < i ==> !is_named(#[trigger] names@[j], name@),
        r is None ==> forall|j: int|
            0 <= j < names@.len() ==> !is_named(#[trigger] names@[j], name@),
{
    let mut i: usize = 0;
    while i < names.len()
        invariant
            i <= names@.len(),
            forall|j: int| 0 <= j < i ==> !is_named(#[trigger] names@[j], name@),
        decreases names@.len() - i,
    {
        if let Some(n) = &names[i] {
            if *n == *name {
                return Some(i);
            }
        }
        i += 1;
    }
    None
}

/// The index of the first entry that starts with `prefix`.
pub fn find_by_prefix(symbols: &Vec<Option<String>>, prefix: &String) -> (r: Option<usize>)
    ensures
        r matches Some(i) ==> i < symbols@.len() && has_prefix(symbols@[i as int], prefix@),
        r matches Some(i) ==> forall|j: int|
            0 <= j < i ==> !has_prefix(#[trigger] symbols@[j], prefix@),
        r is None ==> forall|j: int|
            0 <= j < symbols@.len() ==> !has_prefix(#[trigger] symbols@[j], prefix@),
{
    let mut i: usize = 0;
    while i < symbols.len()
        invariant
            i <= symbols@.len(),
            forall|j: int|
                0 <= j < i ==> !has_prefix(#[trigger] symbols@[j], prefix@),
        decreases symbols@.len() - i,
    {
        if let Some(s) = &symbols[i] {
            if starts_with(s.as_str(), prefix.as_str()) {
                return Some(i);
            }
        }
        i += 1;
    }
    None
}

pub open spec fn is_digit(c: char) -> bool {
    '0' <= c && c <= '9'
}

pub open spec fn all_digits(s: Seq<char>) -> bool {
    forall|i: int| 0 <= i < s.len() ==> is_digit(#[trigger] s[i])
}

/// The number that a string of decimal digits denotes.
pub open spec fn digits_value(s: Seq<char>) -> int
    decreases s.len(),
{
    if s.len() == 0 {
        0
    } else {
        digits_value(s.drop_last()) * 10 + (s.last() as int - '0' as int)
    }
}

/// The index of the first '.' at or after `i`, or the length.
pub open spec fn first_dot_from(s: Seq<char>, i: int) -> int
    decreases s.len() - i,
{
    if i >= s.len() {
        s.len() as int
    } else if s[i] == '.' {
        i
    } else {
        first_dot_from(s, i + 1)
    }
}

pub open spec fn int_part(s: Seq<char>) -> Seq<char> {
    s.subrange(0, first_dot_from(s, 0))
}

pub open spec fn frac_part(s: Seq<char>) -> Seq<char> {
    let p = first_dot_from(s, 0);
    if p < s.len() {
        s.subrange(p + 1, s.len() as int)
    } else {
        Seq::empty()
    }
}

/// Digits, optionally one '.' and more digits, at least one digit in all.
pub open spec fn is_decimal(s: Seq<char>) -> bool {
    &&& all_digits(int_part(s))
    &&& all_digits(frac_part(s))
    &&& int_part(s).len() + frac_part(s).len() > 0
}

/// The first eight fraction digits, padded with zeros to eight.
pub open spec fn eight_places(f: Seq<char>) -> Seq<char> {
    if f.len() >= 8 {
        f.subrange(0, 8)
    } else {
        f + Seq::new((8 - f.len()) as nat, |i: int| '0')
    }
}

/// A decimal text in price units: the fraction beyond eight places dropped.
pub open spec fn price_units(s: Seq<char>) -> int {
    digits_value(int_part(s) + eight_places(frac_part(s)))
}

/// The price that a decimal text gives, when it is a positive decimal that
/// fits.
pub open spec fn parsed_price(s: Seq<char>) -> Option<u64> {
    if is_decimal(s) && 0 < price_units(s) <= u64::MAX {
        Some(price_units(s) as u64)
    } else {
        None
    }
}

proof fn lemma_digits_grow(s: Seq<char>, t: Seq<char>)
    requires
        all_digits(s + t),
    ensures
        digits_value(s) <= digits_value(s + t),
        0 <= digits_value(s),
    decreases t.len(),
{
    if t.len() == 0 {
        assert(s + t =~= s);
        lemma_digits_nonneg(s);
    } else {
        let u = t.drop_last();
        assert((s + t).drop_last() =~= s + u);
        assert(all_digits(s + u)) by {
            assert forall|i: int| 0 <= i < (s + u).len() implies is_digit(#[trigger] (s + u)[i]) by {
                assert((s + u)[i] == (s + t)[i]);
            }
        }
        lemma_digits_grow(s, u);
        lemma_digits_nonneg(s + u);
        assert(is_digit((s + t)[(s + t).len() - 1]));
    }
}

proof fn lemma_digits_nonneg(s: Seq<char>)
    requires
        all_digits(s),
    ensures
        0 <= digits_value(s),
    decreases s.len(),
{
    if s.len() > 0 {
        assert(all_digits(s.drop_last())) by {
            assert forall|i: int| 0 <= i < s.drop_last().len() implies is_digit(#[trigger] s.drop_last()[i]) by {
                assert(s.drop_last()[i] == s[i]);
            }
        }
        lemma_digits_nonneg(s.drop_last());
        assert(is_digit(s[s.len() - 1]));
    }
}

/// The index of the first '.', or the length.
fn find_dot(text: &str) -> (p: usize)
    ensures
        p == first_dot_from(text@, 0),
        p <= text@.len(),
{
    let n = text.unicode_len();
    let mut p: usize = 0;
    while p < n && text.get_char(p) != '.'
        invariant
            n == text@.len(),
            p <= n,
            first_dot_from(text@, p as int) == first_dot_from(text@, 0),
        decreases n - p,
    {
        p += 1;
    }
    p
}

/// Whether every character but the one at `p` is a digit.
fn digits_around(text: &str, p: usize) -> (r: bool)
    requires
        p == first_dot_from(text@, 0),
        p <= text@.len(),
    ensures
        r == (all_digits(int_part(text@)) && all_digits(frac_part(text@))),
{
    let ghost s = text@;
    let ghost ip = int_part(s);
    let ghost fp = frac_part(s);
    let n = text.unicode_len();
    let mut i: usize = 0;
    while i < n
        invariant
            s == text@,
            ip == int_part(s),
            fp == frac_part(s),
            n == s.len(),
            p <= n,
            i <= n,
            ip == s.subrange(0, p as int),
            p < n ==> fp == s.subrange(p + 1, n as int),
            p == n ==> fp.len() == 0,
            forall|j: int| 0 <= j < i && j < p ==> is_digit(#[trigger] ip[j]),
            forall|j: int| 0 <= j < i && j > p ==> is_digit(#[trigger] fp[j - p - 1]),
        decreases n - i,
    {
        if i != p {
            let c = text.get_char(i);
            if !('0' <= c && c <= '9') {
                proof {
                    if i < p {
                        assert(ip[i as int] == c);
                        assert(!all_digits(ip));
                    } else {
                        assert(fp[i - p - 1] == c);
                        assert(!all_digits(fp));
                    }
                }
                return false;
            }
        }
        i += 1;
    }
    assert(all_digits(ip)) by {
        assert forall|j: int| 0 <= j < ip.len() implies is_digit(#[trigger] ip[j]) by {
            assert(j < p);
        }
    }
    assert(all_digits(fp)) by {
        assert forall|j: int| 0 <= j < fp.len() implies is_digit(#[trigger] fp[j]) by {
            assert(is_digit(fp[(j + p + 1) - p - 1]));
        }
    }
    true
}

/// `price_units` of a well-formed text, when it fits in a `u64`.
#[verifier::rlimit(40)]
fn units_of(text: &str, p: usize) -> (r: Option<u64>)
    requires
        p == first_dot_from(text@, 0),
        p <= text@.len(),
        all_digits(int_part(text@)),
        all_digits(frac_part(text@)),
    ensures
        r matches Some(v) ==> v == price_units(text@),
        r is None ==> price_units(text@) > u64::MAX,
{
    let ghost s = text@;
    let ghost ip = int_part(s);
    let ghost fp = frac_part(s);
    let n = text.unicode_len();
    let flen: usize = if p < n {
        n - p - 1
    } else {
        0
    };
    let ghost t = ip + eight_places(fp);
    assert(all_digits(t)) by {
        assert forall|j: int| 0 <= j < t.len() implies is_digit(#[trigger] t[j]) by {
            if j < p {
                assert(t[j] == ip[j]);
            } else if j - p < fp.len() {
                assert(t[j] == fp[j - p]);
            } else {
                assert(t[j] == '0');
            }
        }
    }
    let total: u128 = p as u128 + 8;
    let mut acc: u64 = 0;
    let mut k: u128 = 0;
    while k < total
        invariant
            s == text@,
            ip == int_part(s),
            fp == frac_part(s),
            n == s.len(),
            total == t.len(),
            p == first_dot_from(s, 0),
            total == p + 8,
            p <= n,
            fp.len() == flen,
            p < n ==> fp == s.subrange(p + 1, n as int),
            ip == s.subrange(0, p as int),
            t == ip + eight_places(fp),
            all_digits(t),
            k <= total,
            acc == digits_value(t.subrange(0, k as int)),
        decreases total - k,
    {
        let c: char = if k < p as u128 {
            text.get_char(k as usize)
        } else if k - (p as u128) < flen as u128 && k - (p as u128) < 8 {
            assert(k + 1 < n);
            text.get_char(k as usize + 1)
        } else {
            '0'
        };
        assert(c == t[k as int]) by {
            if k < p {
                assert(t[k as int] == ip[k as int]);
            } else if k - p < flen && k - p < 8 {
                assert(t[k as int] == fp[k - p]);
            } else {
                assert(t[k as int] == '0');
            }
        }
        assert(t.subrange(0, k + 1).drop_last() =~= t.subrange(0, k as int));
        assert(is_digit(t[k as int]));
        let d = (c as u32 - '0' as u32) as u64;
        if acc > (u64::MAX - d) / 10 {
            proof {
                assert(t =~= t.subrange(0, k + 1) + t.subrange(k + 1, t.len() as int));
                lemma_digits_grow(t.subrange(0, k + 1), t.subrange(k + 1, t.len() as int));
            }
            assert(acc * 10 + d > u64::MAX) by (nonlinear_arith)
                requires
                    acc > (u64::MAX - d) / 10,
                    d <= 9,
            ;
            return None;
        }
        assert(acc * 10 + d <= u64::MAX) by (nonlinear_arith)
            requires
                acc <= (u64::MAX - d) / 10,
                d <= 9,
        ;
        acc = acc * 10 + d;
        k += 1;
    }
    assert(t.subrange(0, total as int) =~= t);
    Some(acc)
}

/// Reads a venue's decimal price text (`"10.25"`) into price units.
pub fn parse_price(text: &str) -> (r: Option<u64>)
    ensures
        r == parsed_price(text@),
{
    let p = find_dot(text);
    if !digits_around(text, p) {
        return None;
    }
    let n = text.unicode_len();
    if n == 0 || (n == 1 && p == 0) {
        return None;
    }
    match units_of(text, p) {
        Some(v) => {
            if v == 0 {
                None
            } else {
                Some(v)
            }
        },
        None => None,
    }
}

} // verus!
