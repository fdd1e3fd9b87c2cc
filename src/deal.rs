//! Raw deal records, their canonical rows, and the text export of a stream.
use vstd::prelude::*;
use vstd::string::*;

use crate::calendar::{ce_millis_in_range, time_text, utc_of_millis, CeTime, UtcTime};
use crate::error::ExportError;
use crate::price::{cents_text, price_text};
use crate::text::{int_text, push_int};

verus! {

/// The side of the market that started a deal.
#[derive(Clone, Copy, Debug, PartialEq, Eq, Structural)]
pub enum Side {
    Buy,
    Sell,
    Unknown,
}

/// The kind of records that a stream holds.
#[derive(Clone, Copy, Debug, PartialEq, Eq, Structural)]
pub enum Stream {
    Quotes,
    Deals,
    OwnOrders,
    OwnTrades,
    Messages,
    AuxInfo,
    OrdLog,
}

/// One deal as the decoder hands it out.
#[derive(Clone, Copy, Debug, PartialEq, Eq, Structural)]
pub struct Deal {
    /// Milliseconds from the start of the current data frame.
    pub frame_time_delta: i64,
    /// Milliseconds since the start of 1 January of year 1.
    pub timestamp: i64,
    pub deal_id: i64,
    pub side: Side,
    /// The price in hundredths.
    pub price: i64,
    pub amount: i64,
    pub oi: i64,
}

/// The side of a deal as the label that a row shows.
#[derive(Clone, Copy, Debug, PartialEq, Eq, Structural)]
pub struct Operation(pub Side);

pub open spec fn side_label(side: Side) -> Seq<char> {
    match side {
        Side::Buy => "Buy"@,
        Side::Sell => "Sell"@,
        Side::Unknown => "Unknown"@,
    }
}

impl From<Side> for Operation {
    fn from(side: Side) -> (r: Operation)
        ensures
            r == Operation(side),
    {
        Operation(side)
    }
}

impl vstd::std_specs::convert::FromSpecImpl<Side> for Operation {
    open spec fn obeys_from_spec() -> bool {
        true
    }

    open spec fn from_spec(side: Side) -> Operation {
        Operation(side)
    }
}

impl Operation {
    /// `Buy`, `Sell` or `Unknown`.
    pub fn label(&self) -> (r: String)
        ensures
            r@ == side_label(self.0),
            r@ == "Buy"@ || r@ == "Sell"@ || r@ == "Unknown"@,
    {
        match self.0 {
            Side::Buy => String::from_str("Buy"),
            Side::Sell => String::from_str("Sell"),
            Side::Unknown => String::from_str("Unknown"),
        }
    }
}

/// A deal with its time, price and side reconstructed.
#[derive(Clone, Copy, Debug, PartialEq, Eq, Structural)]
pub struct DealRow {
    pub frame_time_delta: i64,
    pub exchange: UtcTime,
    pub deal_id: i64,
    pub side: Operation,
    /// The price in hundredths.
    pub price: i64,
    pub amount: i64,
    pub oi: i64,
}

/// Whether a deal's timestamp has a representable calendar date.
pub open spec fn deal_in_range(d: Deal) -> bool {
    ce_millis_in_range(d.timestamp as int)
}

/// The row that a deal becomes.
pub open spec fn deal_row(d: Deal) -> DealRow {
    DealRow {
        frame_time_delta: d.frame_time_delta,
        exchange: utc_of_millis(d.timestamp as int),
        deal_id: d.deal_id,
        side: Operation(d.side),
        price: d.price,
        amount: d.amount,
        oi: d.oi,
    }
}

/// The seven fields of a row joined by `delim`.
pub open spec fn row_text(r: DealRow, delim: Seq<char>) -> Seq<char> {
    int_text(r.frame_time_delta as int) + delim + time_text(r.exchange) + delim + int_text(
        r.deal_id as int,
    ) + delim + side_label(r.side.0) + delim + cents_text(r.price as int) + delim + int_text(
        r.amount as int,
    ) + delim + int_text(r.oi as int)
}

impl DealRow {
    /// Reconstructs the row of a deal; fails when its timestamp has no
    /// representable date.
    pub fn new(deal: &Deal) -> (r: Result<DealRow, ExportError>)
        ensures
            match r {
                Ok(row) => deal_in_range(*deal) && row == deal_row(*deal) && row.exchange.wf()
                    && row.exchange.ce_millis() == deal.timestamp,
                Err(e) => !deal_in_range(*deal) && e == ExportError::TimestampOutOfRange,
            },
    {
        let exchange = match CeTime::new(deal.timestamp).to_utc() {
            Ok(t) => t,
            Err(e) => return Err(e),
        };
        Ok(
            DealRow {
                frame_time_delta: deal.frame_time_delta,
                exchange,
                deal_id: deal.deal_id,
                side: Operation::from(deal.side),
                price: deal.price,
                amount: deal.amount,
                oi: deal.oi,
            },
        )
    }

    /// The row as one line: its seven fields joined by `delim`.
    pub fn as_csv(&self, delim: &str) -> (r: String)
        ensures
            r@ == row_text(*self, delim@),
    {
        let mut s = String::new();
        push_int(&mut s, self.frame_time_delta);
        s.append(delim);
        let t = self.exchange.to_text();
        s.append(t.as_str());
        s.append(delim);
        push_int(&mut s, self.deal_id);
        s.append(delim);
        let l = self.side.label();
        s.append(l.as_str());
        s.append(delim);
        let p = price_text(self.price);
        s.append(p.as_str());
        s.append(delim);
        push_int(&mut s, self.amount);
        s.append(delim);
        push_int(&mut s, self.oi);
        assert(s@ =~= row_text(*self, delim@));
        s
    }
}

} // verus!
