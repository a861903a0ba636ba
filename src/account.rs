use vstd::prelude::*;
use crate::decimal::{Dec, parse_spec};
use crate::error::TradeError;

verus! {

/// One spot balance as the exchange reports it.
#[derive(Clone, Debug, PartialEq, Eq)]
pub struct SpotBalanceReport {
    pub coin: String,
    pub total: String,
}

/// One perpetual position as the exchange reports it (`szi` is signed).
#[derive(Clone, Debug, PartialEq, Eq)]
pub struct PerpPositionReport {
    pub coin: String,
    pub szi: String,
    pub entry_px: Option<String>,
}

/// Perpetual margin and positions as the exchange reports them.
#[derive(Clone, Debug, PartialEq, Eq)]
pub struct PerpStateReport {
    pub account_value: String,
    pub positions: Vec<PerpPositionReport>,
}

#[derive(Clone, Debug, PartialEq, Eq)]
pub struct SpotHolding {
    pub coin: String,
    pub amount: Dec,
}

#[derive(Clone, Debug, PartialEq, Eq)]
pub struct PerpHolding {
    pub coin: String,
    pub size: Dec,
    pub entry_price: Option<Dec>,
}

/// Spot balances and perpetual positions of one account, side by side and
/// not netted.
#[derive(Clone, Debug, PartialEq, Eq)]
pub struct ExposureSnapshot {
    pub spot_balances: Vec<SpotHolding>,
    pub perp_positions: Vec<PerpHolding>,
    pub account_value_usd: Dec,
}

pub open spec fn dec_or_zero(o: Option<Dec>) -> Dec {
    match o {
        Some(d) => d,
        None => Dec { mantissa: 0, scale: 0 },
    }
}

pub open spec fn entry_readable(e: Option<String>) -> bool {
    match e {
        Some(s) => parse_spec(s@) is Some,
        None => true,
    }
}

pub open spec fn entry_value(e: Option<String>) -> Option<Dec> {
    match e {
        Some(s) => parse_spec(s@),
        None => None,
    }
}

/// Every number in both reports reads as a decimal.
pub open spec fn reports_readable(spot: Seq<SpotBalanceReport>, perp: PerpStateReport) -> bool {
    &&& forall|i: int| 0 <= i < spot.len() ==> (#[trigger] parse_spec(spot[i].total@)) is Some
    &&& forall|i: int|
        0 <= i < perp.positions@.len() ==> (#[trigger] parse_spec(perp.positions@[i].szi@)) is Some
            && entry_readable(perp.positions@[i].entry_px)
    &&& parse_spec(perp.account_value@) is Some
}

pub open spec fn spot_item_view(h: SpotHolding) -> (Seq<char>, Dec) {
    (h.coin@, h.amount)
}

pub open spec fn perp_item_view(h: PerpHolding) -> (Seq<char>, Dec, Option<Dec>) {
    (h.coin@, h.size, h.entry_price)
}

/// A snapshot as plain values.
pub open spec fn snapshot_view(s: ExposureSnapshot) -> (
    Seq<(Seq<char>, Dec)>,
    Seq<(Seq<char>, Dec, Option<Dec>)>,
    Dec,
) {
    (
        s.spot_balances@.map_values(|h: SpotHolding| spot_item_view(h)),
        s.perp_positions@.map_values(|h: PerpHolding| perp_item_view(h)),
        s.account_value_usd,
    )
}

/// The snapshot two readable reports stand for, in the order reported.
pub open spec fn expected_snapshot(spot: Seq<SpotBalanceReport>, perp: PerpStateReport) -> (
    Seq<(Seq<char>, Dec)>,
    Seq<(Seq<char>, Dec, Option<Dec>)>,
    Dec,
) {
    (
        Seq::new(spot.len(), |i: int| (spot[i].coin@, dec_or_zero(parse_spec(spot[i].total@)))),
        Seq::new(
            perp.positions@.len(),
            |i: int|
                (
                    perp.positions@[i].coin@,
                    dec_or_zero(parse_spec(perp.positions@[i].szi@)),
                    entry_value(perp.positions@[i].entry_px),
                ),
        ),
        dec_or_zero(parse_spec(perp.account_value@)),
    )
}

/// What the reconciler returns for the two fetches: a failed fetch fails the
/// whole, an unreadable number is `MalformedNumber`, else the full snapshot.
pub open spec fn reconcile_holds(
    spot: Result<Vec<SpotBalanceReport>, String>,
    perp: Result<PerpStateReport, String>,
    r: Result<ExposureSnapshot, TradeError>,
) -> bool {
    match spot {
        Err(c) => r == Err::<ExposureSnapshot, TradeError>(TradeError::TransportFailure(c)),
        Ok(sv) => match perp {
            Err(c) => r == Err::<ExposureSnapshot, TradeError>(TradeError::TransportFailure(c)),
            Ok(ps) => if reports_readable(sv@, ps) {
                r matches Ok(snap) && snapshot_view(snap) == expected_snapshot(sv@, ps)
            } else {
                r == Err::<ExposureSnapshot, TradeError>(TradeError::MalformedNumber)
            },
        },
    }
}

fn read_spot(spot: &Vec<SpotBalanceReport>) -> (r: Option<Vec<SpotHolding>>)
    ensures
        (forall|i: int| 0 <= i < spot@.len() ==> (#[trigger] parse_spec(spot@[i].total@)) is Some)
            <==> r is Some,
        r matches Some(v) ==> v@.map_values(|h: SpotHolding| spot_item_view(h)) == Seq::new(
            spot@.len(),
            |i: int| (spot@[i].coin@, dec_or_zero(parse_spec(spot@[i].total@))),
        ),
{
    let mut out: Vec<SpotHolding> = Vec::new();
    let mut i: usize = 0;
    while i < spot.len()
        invariant
            i <= spot@.len(),
            out@.len() == i,
            forall|j: int| 0 <= j < i ==> (#[trigger] parse_spec(spot@[j].total@)) is Some,
            forall|j: int|
                0 <= j < i ==> spot_item_view(#[trigger] out@[j]) == (
                    spot@[j].coin@,
                    dec_or_zero(parse_spec(spot@[j].total@)),
                ),
        decreases spot@.len() - i,
    {
        match Dec::parse(spot[i].total.as_str()) {
            Some(d) => {
                out.push(SpotHolding { coin: spot[i].coin.clone(), amount: d });
            },
            None => {
                return None;
            },
        }
        i = i + 1;
    }
    assert(out@.map_values(|h: SpotHolding| spot_item_view(h)) =~= Seq::new(
        spot@.len(),
        |i: int| (spot@[i].coin@, dec_or_zero(parse_spec(spot@[i].total@))),
    ));
    Some(out)
}

fn read_entry(e: &Option<String>) -> (r: Option<Option<Dec>>)
    ensures
        entry_readable(*e) <==> r is Some,
        r matches Some(v) ==> v == entry_value(*e),
{
    match e {
        None => Some(None),
        Some(s) => match Dec::parse(s.as_str()) {
            Some(d) => Some(Some(d)),
            None => None,
        },
    }
}

fn read_perp(positions: &Vec<PerpPositionReport>) -> (r: Option<Vec<PerpHolding>>)
    ensures
        (forall|i: int|
            0 <= i < positions@.len() ==> (#[trigger] parse_spec(positions@[i].szi@)) is Some
                && entry_readable(positions@[i].entry_px)) <==> r is Some,
        r matches Some(v) ==> v@.map_values(|h: PerpHolding| perp_item_view(h)) == Seq::new(
            positions@.len(),
            |i: int|
                (
                    positions@[i].coin@,
                    dec_or_zero(parse_spec(positions@[i].szi@)),
                    entry_value(positions@[i].entry_px),
                ),
        ),
{
    let mut out: Vec<PerpHolding> = Vec::new();
    let mut i: usize = 0;
    while i < positions.len()
        invariant
            i <= positions@.len(),
            out@.len() == i,
            forall|j: int|
                0 <= j < i ==> (#[trigger] parse_spec(positions@[j].szi@)) is Some
                    && entry_readable(positions@[j].entry_px),
            forall|j: int|
                0 <= j < i ==> perp_item_view(#[trigger] out@[j]) == (
                    positions@[j].coin@,
                    dec_or_zero(parse_spec(positions@[j].szi@)),
                    entry_value(positions@[j].entry_px),
                ),
        decreases positions@.len() - i,
    {
        let size = match Dec::parse(positions[i].szi.as_str()) {
            Some(d) => d,
            None => {
                return None;
            },
        };
        let entry = match read_entry(&positions[i].entry_px) {
            Some(v) => v,
            None => {
                return None;
            },
        };
        out.push(PerpHolding { coin: positions[i].coin.clone(), size, entry_price: entry });
        i = i + 1;
    }
    assert(out@.map_values(|h: PerpHolding| perp_item_view(h)) =~= Seq::new(
        positions@.len(),
        |i: int|
            (
                positions@[i].coin@,
                dec_or_zero(parse_spec(positions@[i].szi@)),
                entry_value(positions@[i].entry_px),
            ),
    ));
    Some(out)
}

/// Balance reconciler: joins a spot-balance fetch and a perpetual-state fetch
/// into one snapshot; if either fetch failed, the whole fails and no partial
/// snapshot is returned.
pub fn reconcile(
    spot: Result<Vec<SpotBalanceReport>, String>,
    perp: Result<PerpStateReport, String>,
) -> (r: Result<ExposureSnapshot, TradeError>)
    ensures
        reconcile_holds(spot, perp, r),
{
    let sv = match spot {
        Err(c) => {
            return Err(TradeError::TransportFailure(c));
        },
        Ok(v) => v,
    };
    let ps = match perp {
        Err(c) => {
            return Err(TradeError::TransportFailure(c));
        },
        Ok(p) => p,
    };
    let spot_balances = match read_spot(&sv) {
        Some(v) => v,
        None => {
            return Err(TradeError::MalformedNumber);
        },
    };
    let perp_positions = match read_perp(&ps.positions) {
        Some(v) => v,
        None => {
            return Err(TradeError::MalformedNumber);
        },
    };
    let account_value_usd = match Dec::parse(ps.account_value.as_str()) {
        Some(d) => d,
        None => {
            return Err(TradeError::MalformedNumber);
        },
    };
    Ok(ExposureSnapshot { spot_balances, perp_positions, account_value_usd })
}

/// Reconciling twice on the same fetched state gives the same snapshot, or
/// the same error: the reconciler keeps nothing between calls.
pub proof fn lemma_reconcile_repeatable(
    spot: Result<Vec<SpotBalanceReport>, String>,
    perp: Result<PerpStateReport, String>,
    first: Result<ExposureSnapshot, TradeError>,
    second: Result<ExposureSnapshot, TradeError>,
)
    requires
        reconcile_holds(spot, perp, first),
        reconcile_holds(spot, perp, second),
    ensures
        first is Ok <==> second is Ok,
        spot is Ok && perp is Ok && reports_readable(spot->Ok_0@, perp->Ok_0) ==> first is Ok,
        first is Err ==> first == second,
        first matches Ok(a) ==> second matches Ok(b) && snapshot_view(a) == snapshot_view(b),
{
}

} // verus!
