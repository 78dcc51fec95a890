//! Messages to the exchange, and the numbers that requests go by.
use crate::collections::texts;
use crate::decimal::Decimal;
use crate::net::post_data;
use crate::proxy::{copy_texts, order_command, place_command, ProxyCommand, ProxyCommandView};
use crate::text::{digits, number_text};
use crate::types::OrderRequest;
use vstd::prelude::*;

verus! {

/// A request to subscribe to books.
#[derive(Debug)]
pub struct SubscribeBookMsg {
    pub method: &'static str,
    pub params: SubscribeBookParams,
}

#[derive(Debug)]
pub struct SubscribeBookParams {
    pub channel: &'static str,
    pub symbol: Vec<String>,
    pub depth: u32,
}

/// A request to subscribe to executions.
#[derive(Debug)]
pub struct SubscribeExecMsg {
    pub method: &'static str,
    pub params: SubscribeExecParams,
}

#[derive(Debug)]
pub struct SubscribeExecParams {
    pub channel: &'static str,
    pub snap_orders: bool,
    pub snap_trades: bool,
    pub ratecounter: bool,
    pub token: String,
}

/// A request to place an order.
#[derive(Debug)]
pub struct AddOrderMsg {
    pub method: &'static str,
    pub params: AddOrderParams,
    pub req_id: u64,
    pub _priority: Option<String>,
}

#[derive(Debug)]
pub struct AddOrderParams {
    pub order_type: &'static str,
    pub side: String,
    pub symbol: String,
    pub limit_price: Decimal,
    pub order_qty: Decimal,
    pub post_only: bool,
    pub time_in_force: &'static str,
    pub cl_ord_id: String,
    pub token: String,
}

/// A request to amend an order.
#[derive(Debug)]
pub struct AmendOrderMsg {
    pub method: &'static str,
    pub params: AmendOrderParams,
    pub req_id: u64,
    pub _priority: Option<String>,
}

#[derive(Debug)]
pub struct AmendOrderParams {
    pub cl_ord_id: String,
    pub limit_price: Option<Decimal>,
    pub order_qty: Option<Decimal>,
    pub post_only: bool,
    pub token: String,
}

/// A request to cancel orders.
#[derive(Debug)]
pub struct CancelOrderMsg {
    pub method: &'static str,
    pub params: CancelOrderParams,
    pub req_id: u64,
    pub _priority: Option<String>,
}

#[derive(Debug)]
pub struct CancelOrderParams {
    pub cl_ord_id: Vec<String>,
    pub token: String,
}

/// A request to cancel all orders.
#[derive(Debug)]
pub struct CancelAllMsg {
    pub method: &'static str,
    pub params: CancelAllParams,
    pub req_id: u64,
}

#[derive(Debug)]
pub struct CancelAllParams {
    pub token: String,
}

/// A request to set the dead man's switch.
#[derive(Debug)]
pub struct DmsMsg {
    pub method: &'static str,
    pub params: DmsParams,
    pub req_id: u64,
}

#[derive(Debug)]
pub struct DmsParams {
    pub timeout: u64,
    pub token: String,
}

/// A ping.
#[derive(Debug)]
pub struct PingMsg {
    pub method: &'static str,
    pub req_id: u64,
}

impl SubscribeExecMsg {
    /// The subscription of a tracker: recent trades, but neither orders nor the rate counter.
    pub fn for_trades(token: String) -> (r: SubscribeExecMsg)
        ensures
            r.method@ == "subscribe"@,
            r.params.channel@ == "executions"@,
            !r.params.snap_orders,
            r.params.snap_trades,
            !r.params.ratecounter,
            r.params.token == token,
    {
        SubscribeExecMsg {
            method: "subscribe",
            params: SubscribeExecParams {
                channel: "executions",
                snap_orders: false,
                snap_trades: true,
                ratecounter: false,
                token,
            },
        }
    }
}

/// The nonce of a request made at a time in milliseconds.
pub fn millis_nonce(millis: u64) -> (r: String)
    ensures
        r@ == digits(millis as nat),
{
    number_text(millis)
}

/// The body of a request made at a time in milliseconds, with some parameters.
pub fn nonced_body(millis: u64, params: &str) -> (r: String)
    ensures
        r@ == (if params@.len() == 0 {
            "nonce="@ + digits(millis as nat)
        } else {
            "nonce="@ + digits(millis as nat) + "&"@ + params@
        }),
{
    let nonce = millis_nonce(millis);
    post_data(nonce.as_str(), params)
}

/// A switch at the exchange that cancels all orders unless it is refreshed in time.
pub trait DeadManSwitch {
    /// The command that sets the switch to go off after some seconds; zero disarms it.
    fn refresh(&mut self, timeout_secs: u64) -> (r: Option<ProxyCommand>);

    /// The command that disarms the switch.
    fn disable(&mut self) -> (r: Option<ProxyCommand>);
}

/// Sends orders to the exchange: each method gives the command to be sent, or `None` if there are
/// no more request numbers.
pub trait OrderManager {
    /// The command that places an order.
    fn place_order(&mut self, request: &OrderRequest) -> (r: Option<ProxyCommand>);

    /// The command that changes price or quantity of an order.
    fn amend_order(
        &mut self,
        cl_ord_id: &str,
        new_price: Option<Decimal>,
        new_qty: Option<Decimal>,
    ) -> (r: Option<ProxyCommand>);

    /// The command that cancels some orders.
    fn cancel_orders(&mut self, cl_ord_ids: &Vec<String>) -> (r: Option<ProxyCommand>);

    /// The command that cancels everything.
    fn cancel_all(&mut self) -> (r: Option<ProxyCommand>);
}

/// Numbers requests from one on.
#[derive(Debug)]
pub struct RequestCounter {
    pub last: u64,
}

impl RequestCounter {
    /// A counter before the first request.
    pub fn new() -> (r: RequestCounter)
        ensures
            r.last == 0,
    {
        RequestCounter { last: 0 }
    }

    /// The number of the next request; `None` if there are no more.
    pub fn next_req_id(&mut self) -> (r: Option<u64>)
        ensures
            old(self).last < u64::MAX ==> r == Some((old(self).last + 1) as u64)
                && final(self).last == old(self).last + 1,
            old(self).last == u64::MAX ==> r is None && final(self).last == old(self).last,
    {
        if self.last < u64::MAX {
            self.last = self.last + 1;
            Some(self.last)
        } else {
            None
        }
    }
}

/// Whether the next number was used for a command, given by what it is for a number; `None` and
/// nothing used if there are no more.
pub open spec fn sent_by(
    before: RequestCounter,
    after: RequestCounter,
    command: spec_fn(u64) -> ProxyCommandView,
    r: Option<ProxyCommand>,
) -> bool {
    if before.last < u64::MAX {
        after.last == before.last + 1 && r is Some && r.unwrap()@ == command(
            (before.last + 1) as u64,
        )
    } else {
        after == before && r is None
    }
}

impl OrderManager for RequestCounter {
    fn place_order(&mut self, request: &OrderRequest) -> (r: Option<ProxyCommand>)
        ensures
            sent_by(*old(self), *final(self), |n: u64| order_command(request@, n), r),
    {
        match self.next_req_id() {
            Some(n) => Some(place_command(request, n)),
            None => None,
        }
    }

    fn amend_order(
        &mut self,
        cl_ord_id: &str,
        new_price: Option<Decimal>,
        new_qty: Option<Decimal>,
    ) -> (r: Option<ProxyCommand>)
        ensures
            sent_by(
                *old(self),
                *final(self),
                |n: u64|
                    ProxyCommandView::AmendOrder {
                        req_id: n,
                        cl_ord_id: cl_ord_id@,
                        price: new_price,
                        qty: new_qty,
                    },
                r,
            ),
    {
        match self.next_req_id() {
            Some(req_id) => Some(
                ProxyCommand::AmendOrder {
                    req_id,
                    cl_ord_id: cl_ord_id.to_owned(),
                    price: new_price,
                    qty: new_qty,
                },
            ),
            None => None,
        }
    }

    fn cancel_orders(&mut self, cl_ord_ids: &Vec<String>) -> (r: Option<ProxyCommand>)
        ensures
            sent_by(
                *old(self),
                *final(self),
                |n: u64|
                    ProxyCommandView::CancelOrders { req_id: n, cl_ord_ids: texts(cl_ord_ids@) },
                r,
            ),
    {
        match self.next_req_id() {
            Some(req_id) => Some(
                ProxyCommand::CancelOrders { req_id, cl_ord_ids: copy_texts(cl_ord_ids) },
            ),
            None => None,
        }
    }

    fn cancel_all(&mut self) -> (r: Option<ProxyCommand>)
        ensures
            sent_by(
                *old(self),
                *final(self),
                |n: u64| ProxyCommandView::CancelAll { req_id: n },
                r,
            ),
    {
        match self.next_req_id() {
            Some(req_id) => Some(ProxyCommand::CancelAll { req_id }),
            None => None,
        }
    }
}

impl DeadManSwitch for RequestCounter {
    fn refresh(&mut self, timeout_secs: u64) -> (r: Option<ProxyCommand>)
        ensures
            sent_by(
                *old(self),
                *final(self),
                |n: u64| ProxyCommandView::SetDms { req_id: n, timeout_secs },
                r,
            ),
    {
        match self.next_req_id() {
            Some(req_id) => Some(ProxyCommand::SetDms { req_id, timeout_secs }),
            None => None,
        }
    }

    fn disable(&mut self) -> (r: Option<ProxyCommand>)
        ensures
            sent_by(
                *old(self),
                *final(self),
                |n: u64| ProxyCommandView::SetDms { req_id: n, timeout_secs: 0 },
                r,
            ),
    {
        self.refresh(0)
    }
}

} // verus!
