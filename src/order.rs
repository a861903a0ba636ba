use vstd::prelude::*;
use crate::decimal::Dec;
use crate::error::TradeError;
use crate::sizing::{Side, limit_price, limit_price_spec};
use crate::book::{BookSnapshot, levels_for, size_from_book, size_from_book_spec};

verus! {

/// How long an order may rest on the book.
#[derive(Clone, Copy, Debug, PartialEq, Eq, Structural)]
pub enum TimeInForce {
    /// Fill what matches at once, cancel the rest.
    ImmediateOrCancel,
    /// Rest until filled or cancelled.
    GoodTillCancelled,
}

/// A single-leg limit order, fixed once built.
#[derive(Clone, Debug, PartialEq, Eq)]
pub struct OrderIntent {
    pub symbol: String,
    pub side: Side,
    pub quantity: Dec,
    pub limit_price: Dec,
    pub time_in_force: TimeInForce,
    pub reduce_only: bool,
    pub client_order_id: Option<String>,
}

impl OrderIntent {
    /// Builds an order; a zero or negative quantity or price is refused.
    pub fn new(
        symbol: String,
        side: Side,
        quantity: Dec,
        limit_price: Dec,
        time_in_force: TimeInForce,
        reduce_only: bool,
        client_order_id: Option<String>,
    ) -> (r: Result<OrderIntent, TradeError>)
        ensures
            quantity.mantissa <= 0 || limit_price.mantissa <= 0 <==> r == Err::<
                OrderIntent,
                TradeError,
            >(TradeError::InvalidInput),
            r matches Ok(o) ==> o == (OrderIntent {
                symbol,
                side,
                quantity,
                limit_price,
                time_in_force,
                reduce_only,
                client_order_id,
            }),
    {
        if quantity.mantissa <= 0 || limit_price.mantissa <= 0 {
            return Err(TradeError::InvalidInput);
        }
        Ok(OrderIntent {
            symbol,
            side,
            quantity,
            limit_price,
            time_in_force,
            reduce_only,
            client_order_id,
        })
    }
}

/// The marketable limit order for a target notional, or `None` when the
/// rounded quantity is zero and the trade is to be skipped.
pub open spec fn plan_spec(
    book: BookSnapshot,
    side: Side,
    notional: Dec,
    lot_size: Dec,
    tolerance: Dec,
) -> Result<Option<(Dec, Dec)>, TradeError> {
    match size_from_book_spec(book, side, notional, lot_size) {
        Err(e) => Err(e),
        Ok(s) => match limit_price_spec(s.reference_price, side, tolerance) {
            Err(e) => Err(e),
            Ok(px) => if s.rounded_quantity.mantissa == 0 {
                Ok(None)
            } else {
                Ok(Some((s.rounded_quantity, px)))
            },
        },
    }
}

/// Quote, size and bound one immediate-or-cancel order: the quantity is the
/// rounded size against the best level of `side`, the limit the reference
/// price moved by `tolerance` against the order.
pub fn plan_marketable_order(
    book: &BookSnapshot,
    side: Side,
    notional: Dec,
    lot_size: Dec,
    tolerance: Dec,
) -> (r: Result<Option<OrderIntent>, TradeError>)
    requires
        notional.wf(),
        lot_size.wf(),
        tolerance.wf(),
    ensures
        levels_for(*book, side).len() == 0 ==> r == Err::<Option<OrderIntent>, TradeError>(
            TradeError::EmptyBook,
        ),
        match plan_spec(*book, side, notional, lot_size, tolerance) {
            Err(e) => r == Err::<Option<OrderIntent>, TradeError>(e),
            Ok(None) => r == Ok::<Option<OrderIntent>, TradeError>(None),
            Ok(Some((q, px))) => r matches Ok(Some(o)) && o.symbol@ == book.symbol@ && o.side
                == side && o.quantity == q && o.limit_price == px && o.time_in_force
                == TimeInForce::ImmediateOrCancel && !o.reduce_only && o.client_order_id is None,
        },
{
    let sized = size_from_book(book, side, notional, lot_size)?;
    let px = limit_price(sized.reference_price, side, tolerance)?;
    if sized.rounded_quantity.is_zero() {
        return Ok(None);
    }
    Ok(
        Some(
            OrderIntent {
                symbol: book.symbol.clone(),
                side,
                quantity: sized.rounded_quantity,
                limit_price: px,
                time_in_force: TimeInForce::ImmediateOrCancel,
                reduce_only: false,
                client_order_id: None,
            },
        ),
    )
}

/// A fill the exchange reported for an order.
#[derive(Clone, Debug, PartialEq, Eq)]
pub struct Fill {
    pub oid: u64,
    pub total_sz: String,
    pub avg_px: String,
}

/// The exchange's status line for one submitted order.
#[derive(Clone, Debug, PartialEq, Eq)]
pub enum ExchangeStatus {
    Success,
    WaitingForFill,
    WaitingForTrigger,
    Error(String),
    Resting { oid: u64 },
    Filled(Fill),
}

/// What came back from submitting an order.
#[derive(Clone, Debug, PartialEq, Eq)]
pub enum SubmitReply {
    /// The request never got an answer; carries the transport's message.
    Transport(String),
    /// The exchange refused the request as a whole.
    Refused(String),
    /// The exchange answered with a status per order.
    Statuses(Vec<ExchangeStatus>),
}

/// The terminal state of a submitted order.
#[derive(Clone, Debug, PartialEq, Eq)]
pub enum OrderOutcome {
    /// Accepted; acceptance alone says nothing of fills, see `reported_fills`.
    Accepted { exchange_order_id: Option<u64>, reported_fills: Vec<Fill> },
    Rejected { reason: String },
    TransportFailure { cause: String },
}

/// The outcome a reply stands for: a transport failure, a refusal or an
/// error status reject; any other first status accepts, with the order id
/// and fill it reports.
pub open spec fn outcome_holds(reply: SubmitReply, r: OrderOutcome) -> bool {
    match reply {
        SubmitReply::Transport(c) => r == OrderOutcome::TransportFailure { cause: c },
        SubmitReply::Refused(c) => r == OrderOutcome::Rejected { reason: c },
        SubmitReply::Statuses(v) => if v@.len() == 0 {
            r matches OrderOutcome::Accepted { exchange_order_id, reported_fills }
                && exchange_order_id is None && reported_fills@.len() == 0
        } else {
            match v@[0] {
                ExchangeStatus::Error(c) => r == OrderOutcome::Rejected { reason: c },
                ExchangeStatus::Resting { oid } => r matches OrderOutcome::Accepted {
                    exchange_order_id,
                    reported_fills,
                } && exchange_order_id == Some(oid) && reported_fills@.len() == 0,
                ExchangeStatus::Filled(f) => r matches OrderOutcome::Accepted {
                    exchange_order_id,
                    reported_fills,
                } && exchange_order_id == Some(f.oid) && reported_fills@ == seq![f],
                _ => r matches OrderOutcome::Accepted { exchange_order_id, reported_fills }
                    && exchange_order_id is None && reported_fills@.len() == 0,
            }
        },
    }
}

/// Order submitter's last step: turns the exchange's reply into the order's
/// terminal state. Nothing is retried here.
pub fn settle_order(reply: SubmitReply) -> (r: OrderOutcome)
    ensures
        outcome_holds(reply, r),
{
    match reply {
        SubmitReply::Transport(c) => OrderOutcome::TransportFailure { cause: c },
        SubmitReply::Refused(c) => OrderOutcome::Rejected { reason: c },
        SubmitReply::Statuses(mut v) => {
            if v.len() == 0 {
                return OrderOutcome::Accepted { exchange_order_id: None, reported_fills: Vec::new() };
            }
            let ghost first = v@[0];
            let status = v.swap_remove(0);
            assert(status == first);
            match status {
                ExchangeStatus::Error(c) => OrderOutcome::Rejected { reason: c },
                ExchangeStatus::Resting { oid } => OrderOutcome::Accepted {
                    exchange_order_id: Some(oid),
                    reported_fills: Vec::new(),
                },
                ExchangeStatus::Filled(f) => {
                    let oid = f.oid;
                    let mut fills: Vec<Fill> = Vec::new();
                    fills.push(f);
                    OrderOutcome::Accepted { exchange_order_id: Some(oid), reported_fills: fills }
                },
                _ => OrderOutcome::Accepted { exchange_order_id: None, reported_fills: Vec::new() },
            }
        },
    }
}

/// Where an order stands: built, handed to the exchange, or settled.
#[derive(Clone, Debug, PartialEq, Eq)]
pub enum OrderStage {
    Built,
    Submitted,
    Settled(OrderOutcome),
}

/// One order and its stage. An order is submitted at most once and settled
/// at most once; amendments are a cancel and a new ticket.
#[derive(Clone, Debug, PartialEq, Eq)]
pub struct OrderTicket {
    pub intent: OrderIntent,
    pub stage: OrderStage,
}

impl OrderTicket {
    pub fn new(intent: OrderIntent) -> (r: OrderTicket)
        ensures
            r.intent == intent,
            r.stage == OrderStage::Built,
    {
        OrderTicket { intent, stage: OrderStage::Built }
    }

    /// Records that the request left the process; refused (and nothing
    /// changes) unless the order is still only built.
    pub fn mark_submitted(&mut self) -> (r: bool)
        ensures
            r == (old(self).stage == OrderStage::Built),
            final(self).intent == old(self).intent,
            r ==> final(self).stage == OrderStage::Submitted,
            !r ==> final(self).stage == old(self).stage,
    {
        match self.stage {
            OrderStage::Built => {
                self.stage = OrderStage::Submitted;
                true
            },
            _ => false,
        }
    }

    /// Settles a submitted order with the exchange's reply; refused (and
    /// nothing changes) unless the order is submitted and not yet settled.
    pub fn settle(&mut self, reply: SubmitReply) -> (r: bool)
        ensures
            r == (old(self).stage == OrderStage::Submitted),
            final(self).intent == old(self).intent,
            r ==> (final(self).stage matches OrderStage::Settled(o) && outcome_holds(reply, o)),
            !r ==> final(self).stage == old(self).stage,
    {
        match self.stage {
            OrderStage::Submitted => {
                self.stage = OrderStage::Settled(settle_order(reply));
                true
            },
            _ => false,
        }
    }

    pub fn is_settled(&self) -> (r: bool)
        ensures
            r == (self.stage is Settled),
    {
        match self.stage {
            OrderStage::Settled(_) => true,
            _ => false,
        }
    }
}

} // verus!
