use vstd::prelude::*;

verus! {

/// The largest number of fractional digits a decimal carries.
pub const MAX_SCALE: u32 = 28;

/// `10^n`.
pub open spec fn pow10(n: nat) -> nat
    decreases n,
{
    if n == 0 {
        1
    } else {
        10 * pow10((n - 1) as nat)
    }
}

pub proof fn lemma_pow10_pos(n: nat)
    ensures
        pow10(n) >= 1,
    decreases n,
{
    if n > 0 {
        lemma_pow10_pos((n - 1) as nat);
    }
}

pub proof fn lemma_pow10_add(a: nat, b: nat)
    ensures
        pow10(a + b) == pow10(a) * pow10(b),
    decreases b,
{
    if b > 0 {
        lemma_pow10_add(a, (b - 1) as nat);
        let pa = pow10(a);
        let pb1 = pow10((b - 1) as nat);
        assert(pow10(a + b) == 10 * pow10((a + b - 1) as nat));
        assert((a + b - 1) as nat == a + (b - 1) as nat);
        assert(pow10(b) == 10 * pb1);
        assert(pa * (10 * pb1) == 10 * (pa * pb1)) by (nonlinear_arith);
        assert(pow10(a + b) == pa * pow10(b));
    } else {
        assert(pow10(b) == 1);
        assert(a + b == a);
        assert(pow10(a) * 1 == pow10(a));
    }
}

pub proof fn lemma_pow10_mono(a: nat, b: nat)
    requires
        a <= b,
    ensures
        pow10(a) <= pow10(b),
{
    lemma_pow10_add(a, (b - a) as nat);
    lemma_pow10_pos((b - a) as nat);
    let pa = pow10(a);
    let pd = pow10((b - a) as nat);
    assert(pa * pd >= pa * 1) by (nonlinear_arith)
        requires pd >= 1, pa >= 0;
}

pub proof fn lemma_pow10_28()
    ensures
        pow10(28) == 10000000000000000000000000000,
{
    reveal_with_fuel(pow10, 29);
}

/// A decimal number `mantissa / 10^scale`, the parts a `rust_decimal::Decimal`
/// is made of.
#[derive(Clone, Copy, Debug, PartialEq, Eq, Structural)]
pub struct Dec {
    pub mantissa: i128,
    pub scale: u32,
}

/// `a` and `b` denote the same number.
pub open spec fn same_value(a: Dec, b: Dec) -> bool {
    a.mantissa * pow10(b.scale as nat) == b.mantissa * pow10(a.scale as nat)
}

/// `d` with trailing fractional zeros removed.
pub open spec fn normalize(d: Dec) -> Dec
    decreases d.scale,
{
    if d.scale > 0 && d.mantissa % 10 == 0 {
        normalize(Dec { mantissa: (d.mantissa / 10) as i128, scale: (d.scale - 1) as u32 })
    } else {
        d
    }
}

/// Removing trailing zeros keeps the number and its sign.
pub proof fn lemma_normalize(d: Dec)
    ensures
        same_value(normalize(d), d),
        normalize(d).scale <= d.scale,
        (normalize(d).mantissa > 0) == (d.mantissa > 0),
    decreases d.scale,
{
    if d.scale > 0 && d.mantissa % 10 == 0 {
        let d1 = Dec { mantissa: (d.mantissa / 10) as i128, scale: (d.scale - 1) as u32 };
        lemma_normalize(d1);
        let nd = normalize(d1);
        let p = pow10(d.scale as nat);
        let p1 = pow10(d1.scale as nat);
        let pn = pow10(nd.scale as nat);
        lemma_pow10_pos(d1.scale as nat);
        lemma_pow10_pos(nd.scale as nat);
        assert(p == 10 * p1);
        assert(d.mantissa == 10 * d1.mantissa);
        assert(nd.mantissa * p == d.mantissa * pn) by (nonlinear_arith)
            requires
                nd.mantissa * p1 == d1.mantissa * pn,
                p == 10 * p1,
                d.mantissa == 10 * d1.mantissa;
    } else {
        assert(d.mantissa * pow10(d.scale as nat) == d.mantissa * pow10(d.scale as nat));
    }
}

/// What `rust_decimal::Decimal::from_str` makes of a text, as (mantissa, scale).
pub uninterp spec fn decimal_text(s: Seq<char>) -> Option<(i128, u32)>;

/// The decimal a text denotes, if `rust_decimal` reads it.
pub open spec fn parse_spec(s: Seq<char>) -> Option<Dec> {
    match decimal_text(s) {
        Some(p) => Some(Dec { mantissa: p.0, scale: p.1 }),
        None => None,
    }
}

/// Relies on `rust_decimal::Decimal::from_str`, `Decimal::mantissa` and
/// `Decimal::scale`: a parsed decimal keeps at most 28 fractional digits and a
/// 96-bit magnitude.
#[verifier::external_body]
fn read_decimal(s: &str) -> (r: Option<(i128, u32)>)
    ensures
        r == decimal_text(s@),
        r matches Some(p) ==> p.1 <= MAX_SCALE && -0x1_0000_0000_0000_0000_0000_0000 < p.0
            < 0x1_0000_0000_0000_0000_0000_0000,
{
    <rust_decimal::Decimal as std::str::FromStr>::from_str(s).ok().map(|d| (d.mantissa(), d.scale()))
}

impl Dec {
    /// Well-formed: no more fractional digits than `MAX_SCALE`.
    pub open spec fn wf(self) -> bool {
        self.scale <= MAX_SCALE
    }

    pub fn new(mantissa: i128, scale: u32) -> (r: Dec)
        requires
            scale <= MAX_SCALE,
        ensures
            r == (Dec { mantissa, scale }),
            r.wf(),
    {
        Dec { mantissa, scale }
    }

    pub fn is_positive(&self) -> (r: bool)
        ensures
            r == (self.mantissa > 0),
    {
        self.mantissa > 0
    }

    pub fn is_zero(&self) -> (r: bool)
        ensures
            r == (self.mantissa == 0),
    {
        self.mantissa == 0
    }

    /// Reads a decimal text the way `rust_decimal` does.
    pub fn parse(s: &str) -> (r: Option<Dec>)
        ensures
            r == parse_spec(s@),
            r matches Some(d) ==> d.wf(),
    {
        match read_decimal(s) {
            Some(p) => Some(Dec { mantissa: p.0, scale: p.1 }),
            None => None,
        }
    }

    /// The same number with trailing fractional zeros removed.
    pub fn normalized(&self) -> (r: Dec)
        ensures
            r == normalize(*self),
            same_value(r, *self),
            r.scale <= self.scale,
    {
        let mut m: i128 = self.mantissa;
        let mut s: u32 = self.scale;
        assert(pow10(0) == 1);
        assert(m * pow10(0) == m);
        while s > 0 && m % 10 == 0
            invariant
                normalize(Dec { mantissa: m, scale: s }) == normalize(*self),
                s <= self.scale,
                self.mantissa == m * pow10((self.scale - s) as nat),
            decreases s,
        {
            proof {
                let k = (self.scale - s) as nat;
                assert(pow10(k + 1) == 10 * pow10(k)) by {
                    assert(pow10((k + 1) as nat) == 10 * pow10(((k + 1) - 1) as nat));
                }
                assert(m == 10 * (m / 10));
                assert(m * pow10(k) == (m / 10) * (10 * pow10(k))) by (nonlinear_arith)
                    requires m == 10 * (m / 10);
            }
            m = m / 10;
            s = s - 1;
        }
        proof {
            let r = Dec { mantissa: m, scale: s };
            let k = (self.scale - s) as nat;
            lemma_pow10_add(s as nat, k);
            assert(self.mantissa * pow10(s as nat) == m * pow10(self.scale as nat)) by (nonlinear_arith)
                requires self.mantissa == m * pow10(k), pow10(self.scale as nat) == pow10(s as nat) * pow10(k);
        }
        Dec { mantissa: m, scale: s }
    }
}

} // verus!
