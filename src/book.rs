use vstd::prelude::*;
use crate::decimal::{Dec, parse_spec};
use crate::error::TradeError;
use crate::sizing::{Side, SizingResult, dec_less, less, position_size, sizing_spec};

verus! {

/// One resting price level as the exchange reports it.
#[derive(Clone, Debug, PartialEq, Eq)]
pub struct BookLevel {
    pub px: String,
    pub sz: String,
}

/// An order-book snapshot, best level first on each side.
#[derive(Clone, Debug, PartialEq, Eq)]
pub struct BookSnapshot {
    pub symbol: String,
    pub bids: Vec<BookLevel>,
    pub asks: Vec<BookLevel>,
}

/// Best bid and best ask; `None` where that side has no level. Where both
/// are present the ask is not below the bid.
#[derive(Clone, Debug, PartialEq, Eq)]
pub struct Quote {
    pub symbol: String,
    pub best_bid: Option<Dec>,
    pub best_ask: Option<Dec>,
}

/// The levels an order on `side` trades against: asks for a buy, bids for a sell.
pub open spec fn levels_for(book: BookSnapshot, side: Side) -> Seq<BookLevel> {
    match side {
        Side::Buy => book.asks@,
        Side::Sell => book.bids@,
    }
}

/// The price of the best level, which must be a positive decimal.
pub open spec fn best_price_spec(levels: Seq<BookLevel>) -> Result<Dec, TradeError> {
    if levels.len() == 0 {
        Err(TradeError::EmptyBook)
    } else {
        match parse_spec(levels[0].px@) {
            Some(d) => if d.mantissa > 0 {
                Ok(d)
            } else {
                Err(TradeError::MalformedNumber)
            },
            None => Err(TradeError::MalformedNumber),
        }
    }
}

fn first_price(levels: &Vec<BookLevel>) -> (r: Result<Dec, TradeError>)
    ensures
        r == best_price_spec(levels@),
        r matches Ok(d) ==> d.wf(),
{
    if levels.len() == 0 {
        return Err(TradeError::EmptyBook);
    }
    match Dec::parse(levels[0].px.as_str()) {
        Some(d) => if d.is_positive() {
            Ok(d)
        } else {
            Err(TradeError::MalformedNumber)
        },
        None => Err(TradeError::MalformedNumber),
    }
}

/// Quote reader: the reference price for an order on `side` (best ask for a
/// buy, best bid for a sell), or `EmptyBook` when that side has no level.
pub fn best_price(book: &BookSnapshot, side: Side) -> (r: Result<Dec, TradeError>)
    ensures
        r == best_price_spec(levels_for(*book, side)),
        levels_for(*book, side).len() == 0 <==> r == Err::<Dec, TradeError>(TradeError::EmptyBook),
        r matches Ok(d) ==> d.wf() && d.mantissa > 0,
{
    match side {
        Side::Buy => first_price(&book.asks),
        Side::Sell => first_price(&book.bids),
    }
}

/// Both sides of the book at once; an empty side is `None`, not zero. A
/// crossed book (best ask below best bid) is refused.
pub fn read_quote(book: &BookSnapshot) -> (r: Result<Quote, TradeError>)
    ensures
        match (best_price_spec(book.bids@), best_price_spec(book.asks@)) {
            (Err(TradeError::MalformedNumber), _) => r == Err::<Quote, TradeError>(
                TradeError::MalformedNumber,
            ),
            (_, Err(TradeError::MalformedNumber)) => r == Err::<Quote, TradeError>(
                TradeError::MalformedNumber,
            ),
            (Ok(b), Ok(a)) => if less(a, b) {
                r == Err::<Quote, TradeError>(TradeError::CrossedBook)
            } else {
                r matches Ok(q) && q.symbol@ == book.symbol@ && q.best_bid == Some(b)
                    && q.best_ask == Some(a)
            },
            (b, a) => r matches Ok(q) && q.symbol@ == book.symbol@ && q.best_bid == (match b {
                Ok(d) => Some(d),
                Err(_) => None::<Dec>,
            }) && q.best_ask == (match a {
                Ok(d) => Some(d),
                Err(_) => None::<Dec>,
            }),
        },
{
    let bid = match first_price(&book.bids) {
        Ok(d) => Some(d),
        Err(TradeError::EmptyBook) => None,
        Err(e) => {
            return Err(e);
        },
    };
    let ask = match first_price(&book.asks) {
        Ok(d) => Some(d),
        Err(TradeError::EmptyBook) => None,
        Err(e) => {
            return Err(e);
        },
    };
    if let (Some(b), Some(a)) = (bid, ask) {
        if dec_less(a, b) {
            return Err(TradeError::CrossedBook);
        }
    }
    Ok(Quote { symbol: book.symbol.clone(), best_bid: bid, best_ask: ask })
}

/// Sizing against the book: reads the reference price for `side`, then sizes.
pub open spec fn size_from_book_spec(book: BookSnapshot, side: Side, notional: Dec, lot_size: Dec) -> Result<SizingResult, TradeError> {
    match best_price_spec(levels_for(book, side)) {
        Err(e) => Err(e),
        Ok(p) => sizing_spec(notional, p, lot_size),
    }
}

/// Reads the reference price for `side` and sizes `notional` against it; an
/// empty side stops the work before any sizing.
pub fn size_from_book(book: &BookSnapshot, side: Side, notional: Dec, lot_size: Dec) -> (r: Result<SizingResult, TradeError>)
    requires
        notional.wf(),
        lot_size.wf(),
    ensures
        r == size_from_book_spec(*book, side, notional, lot_size),
        levels_for(*book, side).len() == 0 ==> r == Err::<SizingResult, TradeError>(
            TradeError::EmptyBook,
        ),
        r matches Ok(s) ==> s.reference_price.wf() && s.reference_price.mantissa > 0,
{
    let price = best_price(book, side)?;
    position_size(notional, price, lot_size)
}

} // verus!
