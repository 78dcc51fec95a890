//! What the engine makes of fills.
use crate::collections::{distinct_keys, lookup};
use crate::cost_laws::{
    gains, held_after_fill, holdings_follow_fills, sales_gain_the_move_less_the_fee,
};
use crate::decimal::{difference, lemma_of, less, magnitude, product, Decimal};
use crate::decimal_error::{apart, one, products_are_near, sums_are_near};
use crate::decimal_laws::{results_are_valid, units};
use crate::engine_laws::{
    all_proper, lemma_closed_keeps, proper, quoting_is_proper, quoting_keeps_the_books,
};
use crate::engine_model::EngineView;
use crate::events::CommandView;
use crate::types::{side_text, FillView, OrderSide};
use vstd::prelude::*;

verus! {

/// Whether the amounts that booking a fill goes by are decimals, and no holding, cost, quantity or
/// price is negative.
pub open spec fn can_be_booked(e: EngineView, fill: FillView) -> bool {
    &&& distinct_keys(e.state.positions)
    &&& e.position(fill.pair).qty.valid()
    &&& e.position(fill.pair).avg_cost.valid()
    &&& e.position(fill.pair).qty.m() >= 0
    &&& e.position(fill.pair).avg_cost.m() >= 0
    &&& e.state.realized_pnl.valid()
    &&& e.state.total_fees.valid()
    &&& fill.qty.valid()
    &&& fill.price.valid()
    &&& fill.fee.valid()
    &&& fill.qty.m() >= 0
    &&& fill.price.m() >= 0
}

/// What booking does, and what it leaves.
proof fn lemma_booked(e: EngineView, fill: FillView)
    requires
        can_be_booked(e, fill),
    ensures
        e.booked(fill) matches Some((f, pnl)) ==> {
            let held = e.position(fill.pair);
            &&& f.config == e.config
            &&& f.kill_switch == e.kill_switch
            &&& held_after_fill(
                held,
                lookup(f.state.positions, fill.pair),
                fill.side,
                fill.qty,
                fill.price,
            )
            &&& forall|k: Seq<char>|
                k != fill.pair ==> lookup(f.state.positions, k) == #[trigger] lookup(
                    e.state.positions,
                    k,
                )
            &&& apart(units(f.state.total_fees), units(e.state.total_fees) + units(fill.fee))
                * one() <= 11 * magnitude(units(f.state.total_fees))
            &&& f.state.trade_count == e.state.trade_count + 1
            &&& match fill.side {
                OrderSide::Buy => pnl.m() == 0 && f.state.realized_pnl == e.state.realized_pnl,
                OrderSide::Sell => gains(pnl, fill.qty, held.avg_cost, fill.price, fill.fee)
                    && apart(
                    units(f.state.realized_pnl),
                    units(e.state.realized_pnl) + units(pnl),
                ) * one() <= 11 * magnitude(units(f.state.realized_pnl)),
            }
        },
{
    reveal(EngineView::booked);
    lemma_of(0, 0);
    let held = e.position(fill.pair);
    sums_are_near(e.state.total_fees, fill.fee);
    sales_gain_the_move_less_the_fee(held, fill.qty, fill.price, fill.fee);
    if let Some((f, pnl)) = e.booked(fill) {
        holdings_follow_fills(
            e.state.positions,
            f.state.positions,
            fill.pair,
            fill.side,
            fill.qty,
            fill.price,
        );
        if fill.side == OrderSide::Sell {
            let g = difference(fill.price, held.avg_cost).unwrap();
            results_are_valid(fill.price, held.avg_cost);
            results_are_valid(fill.qty, g);
            let raw = product(fill.qty, g).unwrap();
            results_are_valid(raw, fill.fee);
            sums_are_near(e.state.realized_pnl, pnl);
        }
    }
}

/// A fill is booked and logged as it came: the holding of its pair follows it, others stay, and fees,
/// profit and trades add up; a sale gains the move from the average cost less its fee.
pub proof fn fills_are_booked(e: EngineView, fill: FillView)
    requires
        can_be_booked(e, fill),
    ensures
        e.on_fill(fill) matches Some((f, c)) ==> {
            let held = e.position(fill.pair);
            &&& held_after_fill(
                held,
                lookup(f.state.positions, fill.pair),
                fill.side,
                fill.qty,
                fill.price,
            )
            &&& forall|k: Seq<char>|
                k != fill.pair ==> lookup(f.state.positions, k) == #[trigger] lookup(
                    e.state.positions,
                    k,
                )
            &&& apart(units(f.state.total_fees), units(e.state.total_fees) + units(fill.fee))
                * one() <= 11 * magnitude(units(f.state.total_fees))
            &&& f.state.trade_count == e.state.trade_count + 1
            &&& c[0] matches CommandView::LogTrade(t)
            &&& t.timestamp == fill.timestamp
            &&& t.pair == fill.pair
            &&& t.side == side_text(fill.side)
            &&& t.price == fill.price
            &&& t.qty == fill.qty
            &&& t.fee == fill.fee
            &&& t.cumulative_pnl == f.state.realized_pnl
            &&& apart(units(t.value_usd) * one(), units(fill.price) * units(fill.qty)) <= one() + 10
                * magnitude(units(t.value_usd))
            &&& match fill.side {
                OrderSide::Buy => t.pnl.m() == 0 && f.state.realized_pnl == e.state.realized_pnl,
                OrderSide::Sell => gains(t.pnl, fill.qty, held.avg_cost, fill.price, fill.fee)
                    && apart(
                    units(f.state.realized_pnl),
                    units(e.state.realized_pnl) + units(t.pnl),
                ) * one() <= 11 * magnitude(units(f.state.realized_pnl)),
            }
        },
{
    lemma_booked(e, fill);
    products_are_near(fill.price, fill.qty);
    if let Some((f, c)) = e.on_fill(fill) {
        reveal(EngineView::on_fill);
        let (e1, pnl) = e.booked(fill).unwrap();
        lemma_closed_keeps(e1, fill);
        let e2 = e1.closed_by(fill);
        let e3 = EngineView {
            kill_switch: e2.kill_switch.checked(
                e2.state.realized_pnl,
                e.config.risk.kill_switch_loss_usd,
            ),
            ..e2
        };
        quoting_keeps_the_books(e3, fill.pair, fill.timestamp);
    }
}

/// The kill switch: a fill that takes the realized profit below the threshold cancels everything and
/// shuts the engine down, and so does any fill after that; no other fill does.
pub proof fn losses_below_the_threshold_shut_down(e: EngineView, fill: FillView)
    ensures
        e.on_fill(fill) matches Some((f, c)) ==> {
            let stop = e.kill_switch.triggered || less(
                f.state.realized_pnl,
                e.config.risk.kill_switch_loss_usd,
            );
            &&& f.kill_switch.triggered == stop
            &&& (exists|i: int| 0 <= i < c.len() && (#[trigger] c[i]) is Shutdown) == stop
            &&& (exists|i: int| 0 <= i < c.len() && (#[trigger] c[i]) is CancelAll) == stop
        },
{
    reveal(EngineView::on_fill);
    if let Some((f, c)) = e.on_fill(fill) {
        let (e1, pnl) = e.booked(fill).unwrap();
        assert(e1.kill_switch == e.kill_switch && e1.config == e.config) by {
            reveal(EngineView::booked);
        }
        lemma_closed_keeps(e1, fill);
        let e2 = e1.closed_by(fill);
        let e3 = EngineView {
            kill_switch: e2.kill_switch.checked(
                e2.state.realized_pnl,
                e.config.risk.kill_switch_loss_usd,
            ),
            ..e2
        };
        quoting_keeps_the_books(e3, fill.pair, fill.timestamp);
        quoting_is_proper(e3, fill.pair, fill.timestamp);
        let (e4, c4) = e3.quoted(fill.pair, fill.timestamp).unwrap();
        let n = c.len() - c4.len();
        assert(n == 2 || n == 4);
        assert forall|i: int| n <= i < c.len() implies !((#[trigger] c[i]) is Shutdown)
            && !(c[i] is CancelAll) by {
            let mid = choose|mid: Decimal| #[trigger] all_proper(e3, fill.pair, mid, c4);
            assert(c[i] == c4[i - n]);
            assert(proper(e3, fill.pair, mid, c4[i - n]));
        }
        if e3.kill_switch.triggered {
            assert(c[2] is CancelAll && c[3] is Shutdown);
        }
    }
}

} // verus!
