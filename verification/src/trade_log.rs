//! The trade log, a table in CSV.
use crate::collections::texts;
use crate::text::{decimal_text, opt_text};
use crate::time::formatted_time;
use crate::types::{TradeRecord, TradeRecordView};
use vstd::prelude::*;

verus! {

/// The first line of the log.
pub open spec fn header() -> Seq<char> {
    "timestamp,symbol,side,price,qty,value_usd,fee,pnl,cumulative_pnl"@
}

/// The line for a trade. `None` if its time cannot be written.
pub open spec fn row(t: TradeRecordView) -> Option<Seq<char>> {
    match formatted_time(t.timestamp.secs(), t.timestamp.subsec_nanos(), "%Y-%m-%d %H:%M:%S"@) {
        Some(time) => Some(
            time + ","@ + t.pair + ","@ + t.side + ","@ + decimal_text(t.price.m(), t.price.s())
                + ","@ + decimal_text(t.qty.m(), t.qty.s()) + ","@ + decimal_text(
                t.value_usd.m(),
                t.value_usd.s(),
            ) + ","@ + decimal_text(t.fee.m(), t.fee.s()) + ","@ + decimal_text(
                t.pnl.m(),
                t.pnl.s(),
            ) + ","@ + decimal_text(t.cumulative_pnl.m(), t.cumulative_pnl.s()),
        ),
        None => None,
    }
}

/// The line for a trade, its time already written.
pub fn row_at(time: &str, t: &TradeRecord) -> (r: String)
    ensures
        r@ == time@ + ","@ + t@.pair + ","@ + t@.side + ","@ + decimal_text(
            t@.price.m(),
            t@.price.s(),
        ) + ","@ + decimal_text(t@.qty.m(), t@.qty.s()) + ","@ + decimal_text(
            t@.value_usd.m(),
            t@.value_usd.s(),
        ) + ","@ + decimal_text(t@.fee.m(), t@.fee.s()) + ","@ + decimal_text(
            t@.pnl.m(),
            t@.pnl.s(),
        ) + ","@ + decimal_text(t@.cumulative_pnl.m(), t@.cumulative_pnl.s()),
{
    time.to_owned().concat(",").concat(t.pair.as_str()).concat(",").concat(t.side.as_str()).concat(
        ",",
    ).concat(t.price.to_text().as_str()).concat(",").concat(t.qty.to_text().as_str()).concat(
        ",",
    ).concat(t.value_usd.to_text().as_str()).concat(",").concat(
        t.fee.to_text().as_str(),
    ).concat(",").concat(t.pnl.to_text().as_str()).concat(",").concat(
        t.cumulative_pnl.to_text().as_str(),
    )
}

/// The line for a trade. `None` if its time cannot be written.
pub fn csv_row(t: &TradeRecord) -> (r: Option<String>)
    ensures
        opt_text(r) == row(t@),
{
    match t.timestamp.format("%Y-%m-%d %H:%M:%S") {
        Some(time) => Some(row_at(time.as_str(), t)),
        None => None,
    }
}

/// Appends trade records to a log.
pub trait TradeLogger {
    /// What is appended to the log for a trade: whole lines. `None` if the trade cannot be
    /// written.
    fn log_trade(&mut self, record: &TradeRecord) -> (r: Option<Vec<String>>);
}

/// A trade log in CSV. The first trade in a new log is preceded by a header.
#[derive(Debug)]
pub struct CsvTradeLogger {
    pub path: String,
    pub header_written: bool,
}

impl CsvTradeLogger {
    /// A log at a path, which is there already or not.
    pub fn new(path: String, exists: bool) -> (r: CsvTradeLogger)
        ensures
            r.path@ == path@,
            r.header_written == exists,
    {
        CsvTradeLogger { path, header_written: exists }
    }

    /// The lines for a trade: the header if the log has none yet, and the row.
    pub open spec fn lines_for(self, t: TradeRecordView) -> Option<Seq<Seq<char>>> {
        match row(t) {
            Some(line) => if self.header_written {
                Some(seq![line])
            } else {
                Some(seq![header(), line])
            },
            None => None,
        }
    }
}

impl TradeLogger for CsvTradeLogger {
    fn log_trade(&mut self, record: &TradeRecord) -> (r: Option<Vec<String>>)
        ensures
            final(self).path == old(self).path,
            match old(self).lines_for(record@) {
                Some(lines) => r is Some && texts(r.unwrap()@) == lines
                    && final(self).header_written,
                None => r is None && final(self).header_written == old(self).header_written,
            },
    {
        let line = match csv_row(record) {
            Some(line) => line,
            None => return None,
        };
        let mut r: Vec<String> = Vec::new();
        if !self.header_written {
            r.push(
                String::from_str(
                    "timestamp,symbol,side,price,qty,value_usd,fee,pnl,cumulative_pnl",
                ),
            );
            self.header_written = true;
            let ghost l = line@;
            r.push(line);
            assert(texts(r@) =~= seq![header(), l]);
        } else {
            let ghost l = line@;
            r.push(line);
            assert(texts(r@) =~= seq![l]);
        }
        Some(r)
    }
}

/// Where bot state is kept as JSON.
#[derive(Debug)]
pub struct JsonStateStore {
    pub path: String,
}

impl JsonStateStore {
    /// A store at a path.
    pub fn new(path: String) -> (r: JsonStateStore)
        ensures
            r.path == path,
    {
        JsonStateStore { path }
    }
}

/// The last lines of a trade log.
#[derive(Debug)]
pub struct TradeTail {
    pub header: String,
    pub trades: Vec<String>,
    /// The number of trades in the log.
    pub total: usize,
}

/// The lines after the first one.
pub open spec fn data_lines(lines: Seq<Seq<char>>) -> Seq<Seq<char>> {
    if lines.len() > 1 {
        lines.skip(1)
    } else {
        Seq::empty()
    }
}

/// The last `limit` of some lines, or all if there are fewer.
pub open spec fn last_lines(lines: Seq<Seq<char>>, limit: nat) -> Seq<Seq<char>> {
    if lines.len() > limit {
        lines.skip(lines.len() - limit)
    } else {
        lines
    }
}

/// The header of a trade log and its last trades.
pub fn trade_tail(lines: &Vec<String>, limit: usize) -> (r: TradeTail)
    ensures
        r.header@ == (if lines@.len() > 0 {
            lines@[0]@
        } else {
            Seq::empty()
        }),
        r.total == data_lines(texts(lines@)).len(),
        texts(r.trades@) == last_lines(data_lines(texts(lines@)), limit as nat),
{
    let header = if lines.len() > 0 {
        lines[0].clone()
    } else {
        String::new()
    };
    let total: usize = if lines.len() > 1 {
        lines.len() - 1
    } else {
        0
    };
    let skip: usize = if total > limit {
        total - limit
    } else {
        0
    };
    let ghost data = data_lines(texts(lines@));
    let mut trades: Vec<String> = Vec::new();
    let mut i: usize = skip;
    assert(texts(trades@) =~= data.subrange(skip as int, skip as int));
    while i < total
        invariant
            skip <= i <= total,
            total == data.len(),
            total > 0 ==> lines.len() == total + 1,
            data == data_lines(texts(lines@)),
            texts(trades@) == data.subrange(skip as int, i as int),
        decreases total - i,
    {
        let ghost before = texts(trades@);
        trades.push(lines[i + 1].clone());
        assert(texts(trades@) =~= before.push(texts(lines@)[i + 1]));
        assert(data[i as int] == texts(lines@)[i + 1]);
        assert(texts(trades@) =~= data.subrange(skip as int, i + 1));
        i = i + 1;
    }
    assert(data.subrange(skip as int, i as int) =~= last_lines(data, limit as nat));
    TradeTail { header, trades, total }
}

} // verus!
