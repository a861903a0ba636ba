use vstd::prelude::*;
use vstd::arithmetic::div_mod::{lemma_div_is_ordered, lemma_fundamental_div_mod_converse_div, lemma_fundamental_div_mod_converse_mod, lemma_mod_pos_bound, lemma_div_by_multiple, lemma_div_denominator, lemma_fundamental_div_mod, lemma_div_pos_is_pos, lemma_mod_multiples_basic};
use crate::decimal::{Dec, MAX_SCALE, same_value, lemma_normalize, pow10, lemma_pow10_pos, lemma_pow10_add, lemma_pow10_mono, lemma_pow10_28, normalize};
use crate::error::TradeError;

verus! {

/// The most fractional digits the unrounded quantity is computed to.
pub const RAW_SCALE: u32 = 28;

/// The lot size used where a symbol does not report its own: 0.01 units.
pub fn default_lot_size() -> (r: Dec)
    ensures
        r == (Dec { mantissa: 1, scale: 2 }),
{
    Dec { mantissa: 1, scale: 2 }
}

/// Which side of the book an order takes.
#[derive(Clone, Copy, Debug, PartialEq, Eq, Structural)]
pub enum Side {
    Buy,
    Sell,
}

/// A target notional turned into a tradable quantity.
#[derive(Clone, Copy, Debug, PartialEq, Eq, Structural)]
pub struct SizingResult {
    /// `target_notional_usd / reference_price`, truncated to as many digits
    /// (from the lot's scale up to `RAW_SCALE`) as fit, trailing zeros removed.
    pub raw_quantity: Dec,
    /// The largest multiple of the lot size not above the exact ratio; zero
    /// means the trade is too small to place.
    pub rounded_quantity: Dec,
    pub target_notional_usd: Dec,
    pub reference_price: Dec,
}

/// `q <= n / p` as exact rationals (`p` positive).
pub open spec fn at_most_ratio(q: Dec, n: Dec, p: Dec) -> bool {
    q.mantissa * p.mantissa * pow10(n.scale as nat) <= n.mantissa * pow10(p.scale as nat) * pow10(
        q.scale as nat,
    )
}

/// `a < b` as exact rationals.
pub open spec fn less(a: Dec, b: Dec) -> bool {
    a.mantissa * pow10(b.scale as nat) < b.mantissa * pow10(a.scale as nat)
}

/// `n == p * l` as exact rationals.
pub open spec fn is_product(n: Dec, p: Dec, l: Dec) -> bool {
    n.mantissa * pow10((p.scale + l.scale) as nat) == p.mantissa * l.mantissa * pow10(n.scale as nat)
}

/// `floor(n / p * 10^digits)`: the ratio truncated to `digits` fractional digits.
pub open spec fn ratio_digits(n: Dec, p: Dec, digits: nat) -> int {
    (n.mantissa * pow10((p.scale + digits) as nat)) / (p.mantissa * pow10(n.scale as nat))
}

/// Fractional digits the notional has beyond those of price and lot together.
pub open spec fn extra_shift(n: Dec, p: Dec, l: Dec) -> nat {
    if n.scale > p.scale + l.scale {
        (n.scale - p.scale - l.scale) as nat
    } else {
        0
    }
}

/// The divisor of the long division: the price mantissa, shifted where the
/// notional has more digits than price and lot together.
pub open spec fn sizing_divisor(n: Dec, p: Dec, l: Dec) -> int {
    p.mantissa * pow10(extra_shift(n, p, l))
}

/// Digits appended to the notional mantissa to reach the lot's scale.
pub open spec fn lead_digits(n: Dec, p: Dec, l: Dec) -> nat {
    (p.scale + l.scale + extra_shift(n, p, l) - n.scale) as nat
}

/// Whole lots that fit in `n / p`.
pub open spec fn whole_lots(n: Dec, p: Dec, l: Dec) -> int {
    ratio_digits(n, p, l.scale as nat) / (l.mantissa as int)
}

/// The scale of the unrounded quantity: from `s` up, one digit more while
/// the mantissa still fits, up to `RAW_SCALE`.
pub open spec fn raw_scale_from(n: Dec, p: Dec, s: nat) -> nat
    decreases RAW_SCALE - s,
{
    if s < RAW_SCALE && ratio_digits(n, p, s + 1) <= i128::MAX {
        raw_scale_from(n, p, s + 1)
    } else {
        s
    }
}

/// The division can be carried out and the ratio at the lot's scale fits.
pub open spec fn sizing_fits(n: Dec, p: Dec, l: Dec) -> bool {
    sizing_divisor(n, p, l) * 10 <= i128::MAX && ratio_digits(n, p, l.scale as nat) <= i128::MAX
}

/// What the position sizer returns.
pub open spec fn sizing_spec(n: Dec, p: Dec, l: Dec) -> Result<SizingResult, TradeError> {
    if n.mantissa <= 0 || p.mantissa <= 0 || l.mantissa <= 0 {
        Err(TradeError::InvalidInput)
    } else if !sizing_fits(n, p, l) {
        Err(TradeError::OutOfRange)
    } else {
        Ok(
            SizingResult {
                raw_quantity: normalize(
                    Dec {
                        mantissa: ratio_digits(n, p, raw_scale_from(n, p, l.scale as nat)) as i128,
                        scale: raw_scale_from(n, p, l.scale as nat) as u32,
                    },
                ),
                rounded_quantity: Dec {
                    mantissa: (whole_lots(n, p, l) * l.mantissa) as i128,
                    scale: l.scale,
                },
                target_notional_usd: n,
                reference_price: p,
            },
        )
    }
}

proof fn lemma_cancel(x: int, y: int, c: int)
    requires
        x >= 0,
        y > 0,
        c > 0,
    ensures
        (x * c) / (y * c) == x / y,
{
    lemma_div_by_multiple(x, c);
    lemma_div_denominator(x * c, c, y);
    assert(c * y == y * c) by (nonlinear_arith);
}

/// The ratio at `digits >= l.scale` digits as a quotient by the divisor.
proof fn lemma_ratio_as_quotient(n: Dec, p: Dec, l: Dec, digits: nat)
    requires
        n.wf(),
        p.wf(),
        l.wf(),
        n.mantissa > 0,
        p.mantissa > 0,
        digits >= l.scale,
    ensures
        ratio_digits(n, p, digits) == (n.mantissa * pow10(
            (lead_digits(n, p, l) + (digits - l.scale)) as nat,
        )) / sizing_divisor(n, p, l),
{
    let d = extra_shift(n, p, l);
    let k = (lead_digits(n, p, l) + (digits - l.scale)) as nat;
    let cd = pow10(d);
    let cn = pow10(n.scale as nat);
    let x = n.mantissa * pow10((p.scale + digits) as nat);
    let y = p.mantissa * cn;
    lemma_pow10_pos(d);
    lemma_pow10_pos(n.scale as nat);
    lemma_pow10_pos((p.scale + digits) as nat);
    lemma_pow10_pos(k);
    assert(x >= 0) by (nonlinear_arith)
        requires x == n.mantissa * pow10((p.scale + digits) as nat), n.mantissa > 0;
    assert(y > 0) by (nonlinear_arith)
        requires y == p.mantissa * cn, p.mantissa > 0, cn >= 1;
    lemma_cancel(x, y, cd as int);
    assert(k + n.scale == p.scale + digits + d);
    lemma_pow10_add(k, n.scale as nat);
    lemma_pow10_add((p.scale + digits) as nat, d);
    let nk = n.mantissa * pow10(k);
    let dv = p.mantissa * cd;
    assert(x * cd == nk * cn) by (nonlinear_arith)
        requires
            x == n.mantissa * pow10((p.scale + digits) as nat),
            nk == n.mantissa * pow10(k),
            pow10((k + n.scale) as nat) == pow10(k) * cn,
            pow10((p.scale + digits + d) as nat) == pow10((p.scale + digits) as nat) * cd,
            (k + n.scale) as nat == (p.scale + digits + d) as nat;
    assert(y * cd == dv * cn) by (nonlinear_arith)
        requires y == p.mantissa * cn, dv == p.mantissa * cd;
    assert(nk >= 0) by (nonlinear_arith)
        requires nk == n.mantissa * pow10(k), n.mantissa > 0, pow10(k) >= 1;
    assert(dv > 0) by (nonlinear_arith)
        requires dv == p.mantissa * cd, p.mantissa > 0, cd >= 1;
    lemma_cancel(nk, dv, cn as int);
}

/// One step of long division: from `X / D` and `X % D` to `10X / D` and `10X % D`.
proof fn lemma_long_division_step(x: int, dv: int, q: int, r: int)
    requires
        x >= 0,
        dv > 0,
        q == x / dv,
        r == x % dv,
    ensures
        (10 * x) / dv == 10 * q + (10 * r) / dv,
        (10 * x) % dv == (10 * r) % dv,
        (10 * r) / dv >= 0,
        0 <= (10 * r) % dv < dv,
{
    lemma_fundamental_div_mod(x, dv);
    lemma_mod_pos_bound(x, dv);
    lemma_fundamental_div_mod(10 * r, dv);
    lemma_mod_pos_bound(10 * r, dv);
    lemma_div_pos_is_pos(10 * r, dv);
    let t = (10 * r) / dv;
    let s = (10 * r) % dv;
    assert(10 * x == (10 * q + t) * dv + s) by (nonlinear_arith)
        requires x == dv * q + r, 10 * r == dv * t + s;
    lemma_fundamental_div_mod_converse_div(10 * x, dv, 10 * q + t, s);
    lemma_fundamental_div_mod_converse_mod(10 * x, dv, 10 * q + t, s);
}

/// Appending digits never makes the truncated quotient smaller.
proof fn lemma_quotient_grows(n: int, dv: int, a: nat, b: nat)
    requires
        n >= 0,
        dv > 0,
        a <= b,
    ensures
        (n * pow10(a)) / dv <= (n * pow10(b)) / dv,
{
    lemma_pow10_mono(a, b);
    assert(n * pow10(a) <= n * pow10(b)) by (nonlinear_arith)
        requires n >= 0, pow10(a) <= pow10(b);
    lemma_div_is_ordered(n * pow10(a), n * pow10(b), dv);
}

/// `x * 10^e`, if it fits in an `i128`.
fn scale_up(x: i128, e: u32) -> (r: Option<i128>)
    requires
        x >= 0,
    ensures
        r == (if x * pow10(e as nat) <= i128::MAX {
            Some((x * pow10(e as nat)) as i128)
        } else {
            None::<i128>
        }),
{
    let mut v: i128 = x;
    let mut i: u32 = 0;
    assert(pow10(0) == 1);
    assert(x * pow10(0) == x);
    while i < e
        invariant
            i <= e,
            x >= 0,
            v == x * pow10(i as nat),
            v <= i128::MAX,
        decreases e - i,
    {
        proof {
            assert(pow10((i + 1) as nat) == 10 * pow10(i as nat));
            assert(x * (10 * pow10(i as nat)) == 10 * (x * pow10(i as nat))) by (nonlinear_arith);
        }
        match v.checked_mul(10) {
            Some(w) => {
                v = w;
            },
            None => {
                proof {
                    lemma_pow10_mono((i + 1) as nat, e as nat);
                    assert(x * pow10((i + 1) as nat) <= x * pow10(e as nat)) by (nonlinear_arith)
                        requires x >= 0, pow10((i + 1) as nat) <= pow10(e as nat);
                }
                return None;
            },
        }
        i = i + 1;
    }
    Some(v)
}

/// `10^e` for a scale no larger than `MAX_SCALE`.
fn pow10_exec(e: u32) -> (r: i128)
    requires
        e <= MAX_SCALE,
    ensures
        r == pow10(e as nat),
{
    proof {
        lemma_pow10_28();
        lemma_pow10_mono(e as nat, 28);
    }
    match scale_up(1, e) {
        Some(v) => v,
        None => 0,
    }
}


/// Position sizer: converts a target notional and a reference price into a
/// quantity, rounded down to a whole number of lots.
pub fn position_size(notional: Dec, price: Dec, lot_size: Dec) -> (r: Result<SizingResult, TradeError>)
    requires
        notional.wf(),
        price.wf(),
        lot_size.wf(),
    ensures
        r == sizing_spec(notional, price, lot_size),
        r matches Ok(s) ==> {
            &&& 0 <= s.rounded_quantity.mantissa
            &&& at_most_ratio(s.rounded_quantity, notional, price)
            &&& s.rounded_quantity.scale == lot_size.scale
            &&& s.rounded_quantity.mantissa % lot_size.mantissa == 0
            &&& s.rounded_quantity.mantissa <= ratio_digits(notional, price, lot_size.scale as nat)
        },
        r matches Ok(s) ==> (is_product(notional, price, lot_size) ==> s.rounded_quantity
            == lot_size),
{
    if notional.mantissa <= 0 || price.mantissa <= 0 || lot_size.mantissa <= 0 {
        return Err(TradeError::InvalidInput);
    }
    let n = notional.mantissa;
    let p = price.mantissa;
    let l = lot_size.mantissa;
    let ns = notional.scale;
    let ps = price.scale;
    let ls = lot_size.scale;
    let shift: u32 = if ns > ps + ls {
        ns - ps - ls
    } else {
        0
    };
    let dv = match scale_up(p, shift) {
        Some(v) => v,
        None => {
            proof {
                assert(sizing_divisor(notional, price, lot_size) * 10 > i128::MAX);
            }
            return Err(TradeError::OutOfRange);
        },
    };
    if dv > i128::MAX / 10 {
        return Err(TradeError::OutOfRange);
    }
    let lead: u32 = ps + ls + shift - ns;
    proof {
        lemma_pow10_pos(shift as nat);
        assert(dv >= 1) by (nonlinear_arith)
            requires dv == p * pow10(shift as nat), p > 0, pow10(shift as nat) >= 1;
        lemma_ratio_as_quotient(notional, price, lot_size, ls as nat);
        assert(pow10(0) == 1);
        assert(n * pow10(0) == n) by (nonlinear_arith)
            requires pow10(0) == 1;
        assert((lead + (ls - ls)) as nat == lead as nat);
        lemma_div_pos_is_pos(n as int, dv as int);
        lemma_mod_pos_bound(n as int, dv as int);
    }
    let mut q: i128 = n / dv;
    let mut rem: i128 = n % dv;
    let mut j: u32 = 0;
    while j < lead
        invariant
            j <= lead,
            n > 0,
            dv > 0,
            dv * 10 <= i128::MAX,
            q >= 0,
            q == (n * pow10(j as nat)) / (dv as int),
            rem == (n * pow10(j as nat)) % (dv as int),
            0 <= rem < dv,
            ratio_digits(notional, price, ls as nat) == (n * pow10(lead as nat)) / (dv as int),
            ls == lot_size.scale,
            n == notional.mantissa,
            price.mantissa > 0,
            lot_size.mantissa > 0,
        decreases lead - j,
    {
        proof {
            lemma_pow10_pos(j as nat);
            assert(n * pow10(j as nat) >= 0) by (nonlinear_arith)
                requires n > 0, pow10(j as nat) >= 1;
            lemma_long_division_step(n * pow10(j as nat), dv as int, q as int, rem as int);
            assert(pow10((j + 1) as nat) == 10 * pow10(j as nat));
            assert(n * pow10((j + 1) as nat) == 10 * (n * pow10(j as nat))) by (nonlinear_arith)
                requires pow10((j + 1) as nat) == 10 * pow10(j as nat);
        }
        let t = (rem * 10) / dv;
        let s = (rem * 10) % dv;
        if q > (i128::MAX - t) / 10 {
            proof {
                lemma_quotient_grows(n as int, dv as int, (j + 1) as nat, lead as nat);
                assert(10 * q + t > i128::MAX);
                assert((n * pow10((j + 1) as nat)) / (dv as int) == 10 * q + t);
                assert(ratio_digits(notional, price, ls as nat) > i128::MAX);
                assert(ls == lot_size.scale);
                assert(ratio_digits(notional, price, lot_size.scale as nat) > i128::MAX);
                assert(!sizing_fits(notional, price, lot_size));
            }
            return Err(TradeError::OutOfRange);
        }
        q = q * 10 + t;
        rem = s;
        j = j + 1;
    }
    // q is the ratio truncated to the lot's scale
    assert(q == ratio_digits(notional, price, ls as nat));
    proof {
        lemma_fundamental_div_mod(q as int, l as int);
        lemma_mod_pos_bound(q as int, l as int);
        lemma_div_pos_is_pos(q as int, l as int);
    }
    let whole = q / l;
    proof {
        assert(whole * l <= q) by (nonlinear_arith)
            requires q == l * whole + q % l, q % l >= 0;
    }
    let rounded_m = whole * l;
    let mut raw: i128 = q;
    let mut raw_rem: i128 = rem;
    let mut raw_scale: u32 = ls;
    let mut growing = true;
    while growing && raw_scale < RAW_SCALE
        invariant
            ls <= raw_scale <= RAW_SCALE,
            n > 0,
            dv > 0,
            dv * 10 <= i128::MAX,
            notional.wf(),
            price.wf(),
            lot_size.wf(),
            notional.mantissa > 0,
            price.mantissa > 0,
            n == notional.mantissa,
            ls == lot_size.scale,
            lead == lead_digits(notional, price, lot_size),
            dv == sizing_divisor(notional, price, lot_size),
            raw >= 0,
            raw == (n * pow10((lead + (raw_scale - ls)) as nat)) / (dv as int),
            raw_rem == (n * pow10((lead + (raw_scale - ls)) as nat)) % (dv as int),
            0 <= raw_rem < dv,
            growing ==> raw_scale_from(notional, price, raw_scale as nat) == raw_scale_from(
                notional,
                price,
                ls as nat,
            ),
            !growing ==> raw_scale_from(notional, price, ls as nat) == raw_scale,
        decreases (RAW_SCALE - raw_scale) * 2 + if growing { 1int } else { 0int },
    {
        let ghost k = (lead + (raw_scale - ls)) as nat;
        proof {
            lemma_pow10_pos(k);
            assert(n * pow10(k) >= 0) by (nonlinear_arith)
                requires n > 0, pow10(k) >= 1;
            lemma_long_division_step(n * pow10(k), dv as int, raw as int, raw_rem as int);
            assert(pow10(k + 1) == 10 * pow10(k));
            assert(n * pow10(k + 1) == 10 * (n * pow10(k))) by (nonlinear_arith)
                requires pow10(k + 1) == 10 * pow10(k);
            assert((lead + (raw_scale + 1 - ls)) as nat == k + 1);
            lemma_ratio_as_quotient(notional, price, lot_size, (raw_scale + 1) as nat);
        }
        let t = (raw_rem * 10) / dv;
        let s = (raw_rem * 10) % dv;
        if raw > (i128::MAX - t) / 10 {
            growing = false;
        } else {
            raw = raw * 10 + t;
            raw_rem = s;
            raw_scale = raw_scale + 1;
        }
    }
    proof {
        lemma_ratio_as_quotient(notional, price, lot_size, raw_scale as nat);
    }
    let result = SizingResult {
        raw_quantity: Dec { mantissa: raw, scale: raw_scale }.normalized(),
        rounded_quantity: Dec { mantissa: rounded_m, scale: ls },
        target_notional_usd: notional,
        reference_price: price,
    };
    proof {
        let cn = pow10(ns as nat);
        let pp = pow10(ps as nat);
        let pl = pow10(ls as nat);
        lemma_pow10_pos(ns as nat);
        lemma_pow10_add(ps as nat, ls as nat);
        let x = n * pow10((ps + ls) as nat);
        let y = p * cn;
        assert(y > 0) by (nonlinear_arith)
            requires y == p * cn, p > 0, cn >= 1;
        lemma_fundamental_div_mod(x, y);
        lemma_mod_pos_bound(x, y);
        assert(q * y <= x) by (nonlinear_arith)
            requires x == y * q + x % y, x % y >= 0;
        assert(rounded_m * p * cn <= n * pp * pl) by (nonlinear_arith)
            requires
                rounded_m == whole * l,
                whole * l <= q,
                q * y <= x,
                y == p * cn,
                x == n * (pp * pl),
                p > 0,
                cn > 0,
                whole >= 0;
        lemma_mod_multiples_basic(whole as int, l as int);
        if is_product(notional, price, lot_size) {
            assert(x == l * y) by (nonlinear_arith)
                requires x == p * l * cn, y == p * cn;
            lemma_div_by_multiple(l as int, y);
            assert(q == l);
            lemma_div_by_multiple(1, l as int);
            assert(whole == 1);
            assert(rounded_m == l) by (nonlinear_arith)
                requires rounded_m == whole * l, whole == 1;
        }
    }
    Ok(result)
}

/// Bound factor `1 + tolerance` (buy) or `1 - tolerance` (sell), scaled by
/// `10^tolerance.scale`.
pub open spec fn slippage_factor(side: Side, t: Dec) -> int {
    match side {
        Side::Buy => pow10(t.scale as nat) + t.mantissa,
        Side::Sell => pow10(t.scale as nat) - t.mantissa,
    }
}

/// What the slippage bounder returns.
/// The limit price from the parts as given, before any normalization.
pub open spec fn limit_of_parts(reference: Dec, side: Side, tolerance: Dec) -> Result<Dec, TradeError> {
    if reference.mantissa <= 0 || tolerance.mantissa <= 0 || tolerance.mantissa >= pow10(
        tolerance.scale as nat,
    ) {
        Err(TradeError::InvalidInput)
    } else if reference.scale + tolerance.scale > MAX_SCALE || reference.mantissa * slippage_factor(
        side,
        tolerance,
    ) > i128::MAX {
        Err(TradeError::OutOfRange)
    } else {
        Ok(
            Dec {
                mantissa: (reference.mantissa * slippage_factor(side, tolerance)) as i128,
                scale: (reference.scale + tolerance.scale) as u32,
            },
        )
    }
}

fn limit_from_parts(reference: Dec, side: Side, tolerance: Dec) -> (r: Result<Dec, TradeError>)
    requires
        reference.wf(),
        tolerance.wf(),
    ensures
        r == limit_of_parts(reference, side, tolerance),
        r matches Ok(d) ==> d.wf() && match side {
            Side::Buy => less(reference, d) && d.mantissa - reference.mantissa * pow10(
                tolerance.scale as nat,
            ) == reference.mantissa * tolerance.mantissa,
            Side::Sell => less(d, reference) && reference.mantissa * pow10(tolerance.scale as nat)
                - d.mantissa == reference.mantissa * tolerance.mantissa,
        },
{
    let one = pow10_exec(tolerance.scale);
    proof {
        lemma_pow10_28();
        lemma_pow10_mono(tolerance.scale as nat, 28);
    }
    if reference.mantissa <= 0 || tolerance.mantissa <= 0 || tolerance.mantissa >= one {
        return Err(TradeError::InvalidInput);
    }
    if reference.scale + tolerance.scale > MAX_SCALE {
        return Err(TradeError::OutOfRange);
    }
    let factor: i128 = match side {
        Side::Buy => one + tolerance.mantissa,
        Side::Sell => one - tolerance.mantissa,
    };
    match reference.mantissa.checked_mul(factor) {
        None => Err(TradeError::OutOfRange),
        Some(m) => {
            let d = Dec { mantissa: m, scale: reference.scale + tolerance.scale };
            proof {
                let rm = reference.mantissa;
                let tm = tolerance.mantissa;
                lemma_parts_bracket(reference, side, tolerance, d);
                match side {
                    Side::Buy => {
                        assert(m - rm * one == rm * tm) by (nonlinear_arith)
                            requires m == rm * (one + tm);
                    },
                    Side::Sell => {
                        assert(rm * one - m == rm * tm) by (nonlinear_arith)
                            requires m == rm * (one - tm);
                    },
                }
            }
            Ok(d)
        },
    }
}

/// What the slippage bounder returns: the exact limit computed on the inputs
/// with trailing fractional zeros removed.
pub open spec fn limit_price_spec(reference: Dec, side: Side, tolerance: Dec) -> Result<Dec, TradeError> {
    limit_of_parts(normalize(reference), side, normalize(tolerance))
}

proof fn lemma_less_same_left(a: Dec, a2: Dec, b: Dec)
    requires
        same_value(a, a2),
        less(a2, b),
    ensures
        less(a, b),
{
    let ghost pa = pow10(a.scale as nat);
    let pa2 = pow10(a2.scale as nat);
    let ghost pb = pow10(b.scale as nat);
    lemma_pow10_pos(a2.scale as nat);
    lemma_pow10_pos(a.scale as nat);
    lemma_pow10_pos(b.scale as nat);
    assert(a.mantissa * pb < b.mantissa * pa) by (nonlinear_arith)
        requires
            a.mantissa * pa2 == a2.mantissa * pa,
            a2.mantissa * pb < b.mantissa * pa2,
            pa2 >= 1,
            pa >= 1,
            pb >= 1;
}

proof fn lemma_less_same_right(a: Dec, b: Dec, b2: Dec)
    requires
        same_value(b, b2),
        less(a, b2),
    ensures
        less(a, b),
{
    let ghost pa = pow10(a.scale as nat);
    let ghost pb = pow10(b.scale as nat);
    let pb2 = pow10(b2.scale as nat);
    lemma_pow10_pos(b2.scale as nat);
    lemma_pow10_pos(a.scale as nat);
    lemma_pow10_pos(b.scale as nat);
    assert(a.mantissa * pb < b.mantissa * pa) by (nonlinear_arith)
        requires
            b.mantissa * pb2 == b2.mantissa * pb,
            a.mantissa * pb2 < b2.mantissa * pa,
            pb2 >= 1,
            pa >= 1,
            pb >= 1;
}

/// Slippage bounder: the limit price `reference * (1 + tolerance)` for a buy,
/// `reference * (1 - tolerance)` for a sell, exact. A buy limit is strictly
/// above the reference and a sell limit strictly below, each by exactly
/// `reference * tolerance`.
pub fn limit_price(reference: Dec, side: Side, tolerance: Dec) -> (r: Result<Dec, TradeError>)
    requires
        reference.wf(),
        tolerance.wf(),
    ensures
        r == limit_price_spec(reference, side, tolerance),
        r matches Ok(d) ==> d.wf() && match side {
            Side::Buy => less(reference, d) && d.mantissa - normalize(reference).mantissa * pow10(
                normalize(tolerance).scale as nat,
            ) == normalize(reference).mantissa * normalize(tolerance).mantissa,
            Side::Sell => less(d, reference) && normalize(reference).mantissa * pow10(
                normalize(tolerance).scale as nat,
            ) - d.mantissa == normalize(reference).mantissa * normalize(tolerance).mantissa,
        },
{
    let nr = reference.normalized();
    let nt = tolerance.normalized();
    let r = limit_from_parts(nr, side, nt);
    proof {
        if let Ok(d) = r {
            match side {
                Side::Buy => lemma_less_same_left(reference, nr, d),
                Side::Sell => lemma_less_same_right(d, reference, nr),
            }
        }
    }
    r
}

/// A limit computed from parts lies on the far side of the reference.
proof fn lemma_parts_bracket(reference: Dec, side: Side, tolerance: Dec, d: Dec)
    requires
        limit_of_parts(reference, side, tolerance) == Ok::<Dec, TradeError>(d),
    ensures
        match side {
            Side::Buy => less(reference, d),
            Side::Sell => less(d, reference),
        },
{
    let rm = reference.mantissa;
    let tm = tolerance.mantissa;
    let one = pow10(tolerance.scale as nat);
    let pr = pow10(reference.scale as nat);
    lemma_pow10_add(reference.scale as nat, tolerance.scale as nat);
    lemma_pow10_pos(reference.scale as nat);
    assert(pow10(d.scale as nat) == pr * one);
    match side {
        Side::Buy => {
            assert(rm * (pr * one) < d.mantissa * pr) by (nonlinear_arith)
                requires d.mantissa == rm * (one + tm), rm > 0, tm > 0, pr > 0;
        },
        Side::Sell => {
            assert(d.mantissa * pr < rm * (pr * one)) by (nonlinear_arith)
                requires d.mantissa == rm * (one - tm), rm > 0, tm > 0, pr > 0;
        },
    }
}

/// For a positive reference and a tolerance strictly between 0 and 1, the
/// buy limit is strictly above the reference and the sell limit strictly
/// below it, wherever the exact limit has at most 28 fractional digits and a
/// mantissa that fits.
pub proof fn lemma_limit_brackets_reference(reference: Dec, tolerance: Dec)
    requires
        reference.wf(),
        tolerance.wf(),
        reference.mantissa > 0,
        tolerance.mantissa > 0,
        tolerance.mantissa < pow10(tolerance.scale as nat),
        normalize(reference).scale + normalize(tolerance).scale <= MAX_SCALE,
        normalize(reference).mantissa * (pow10(normalize(tolerance).scale as nat) + normalize(
            tolerance,
        ).mantissa) <= i128::MAX,
    ensures
        limit_price_spec(reference, Side::Buy, tolerance) matches Ok(b) && less(reference, b),
        limit_price_spec(reference, Side::Sell, tolerance) matches Ok(s) && less(s, reference),
{
    let nr = normalize(reference);
    let nt = normalize(tolerance);
    lemma_normalize(reference);
    lemma_normalize(tolerance);
    let pt = pow10(tolerance.scale as nat);
    let pn = pow10(nt.scale as nat);
    lemma_pow10_pos(nt.scale as nat);
    lemma_pow10_pos(tolerance.scale as nat);
    assert(nt.mantissa < pn) by (nonlinear_arith)
        requires
            nt.mantissa * pt == tolerance.mantissa * pn,
            tolerance.mantissa < pt,
            pn >= 1,
            pt >= 1;
    assert(nr.mantissa * (pn - nt.mantissa) <= nr.mantissa * (pn + nt.mantissa)) by (nonlinear_arith)
        requires nr.mantissa > 0, nt.mantissa > 0;
    let b = limit_of_parts(nr, Side::Buy, nt)->Ok_0;
    let s = limit_of_parts(nr, Side::Sell, nt)->Ok_0;
    lemma_parts_bracket(nr, Side::Buy, nt, b);
    lemma_parts_bracket(nr, Side::Sell, nt, s);
    lemma_less_same_left(reference, nr, b);
    lemma_less_same_right(s, reference, nr);
}

/// Compares two non-negative decimals exactly: `a < b`.
pub fn dec_less(a: Dec, b: Dec) -> (r: bool)
    requires
        a.mantissa >= 0,
        b.mantissa >= 0,
    ensures
        r == less(a, b),
{
    let ghost pa = pow10(a.scale as nat);
    let ghost pb = pow10(b.scale as nat);
    proof {
        lemma_pow10_pos(a.scale as nat);
        lemma_pow10_pos(b.scale as nat);
    }
    if a.scale <= b.scale {
        let k = b.scale - a.scale;
        proof {
            lemma_pow10_add(a.scale as nat, k as nat);
            assert(pb == pa * pow10(k as nat));
        }
        match scale_up(a.mantissa, k) {
            None => {
                proof {
                    assert(a.mantissa * pb >= b.mantissa * pa) by (nonlinear_arith)
                        requires
                            a.mantissa * pow10(k as nat) > i128::MAX,
                            b.mantissa <= i128::MAX,
                            b.mantissa >= 0,
                            pb == pa * pow10(k as nat),
                            pa >= 1;
                }
                false
            },
            Some(x) => {
                proof {
                    assert((x < b.mantissa) == (a.mantissa * pb < b.mantissa * pa)) by (nonlinear_arith)
                        requires x == a.mantissa * pow10(k as nat), pb == pa * pow10(k as nat), pa >= 1;
                }
                x < b.mantissa
            },
        }
    } else {
        let k = a.scale - b.scale;
        proof {
            lemma_pow10_add(b.scale as nat, k as nat);
            assert(pa == pb * pow10(k as nat));
        }
        match scale_up(b.mantissa, k) {
            None => {
                proof {
                    assert(a.mantissa * pb < b.mantissa * pa) by (nonlinear_arith)
                        requires
                            b.mantissa * pow10(k as nat) > i128::MAX,
                            a.mantissa <= i128::MAX,
                            a.mantissa >= 0,
                            pa == pb * pow10(k as nat),
                            pb >= 1;
                }
                true
            },
            Some(y) => {
                proof {
                    assert((a.mantissa < y) == (a.mantissa * pb < b.mantissa * pa)) by (nonlinear_arith)
                        requires y == b.mantissa * pow10(k as nat), pa == pb * pow10(k as nat), pb >= 1;
                }
                a.mantissa < y
            },
        }
    }
}

/// The limit moves away from the reference in proportion to the tolerance:
/// for two tolerances written to the same number of digits, the distances
/// from the reference are in the ratio of the tolerances.
pub proof fn lemma_limit_linear_in_tolerance(
    reference: Dec,
    side: Side,
    t1: Dec,
    t2: Dec,
    d1: Dec,
    d2: Dec,
)
    requires
        limit_of_parts(reference, side, t1) == Ok::<Dec, TradeError>(d1),
        limit_of_parts(reference, side, t2) == Ok::<Dec, TradeError>(d2),
        t1.scale == t2.scale,
    ensures
        d1.scale == d2.scale,
        (d1.mantissa - reference.mantissa * pow10(t1.scale as nat)) * t2.mantissa == (d2.mantissa
            - reference.mantissa * pow10(t2.scale as nat)) * t1.mantissa,
{
    let rm = reference.mantissa;
    let one = pow10(t1.scale as nat);
    match side {
        Side::Buy => {
            assert((rm * (one + t1.mantissa) - rm * one) * t2.mantissa == (rm * (one + t2.mantissa)
                - rm * one) * t1.mantissa) by (nonlinear_arith);
        },
        Side::Sell => {
            assert((rm * (one - t1.mantissa) - rm * one) * t2.mantissa == (rm * (one - t2.mantissa)
                - rm * one) * t1.mantissa) by (nonlinear_arith);
        },
    }
}

} // verus!
