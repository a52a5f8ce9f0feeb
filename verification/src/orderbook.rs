//! The matching engine: dispatches intents, drives the continuous double
//! auction against the two queues, and emits execution events.
//!
//! The behaviour of matching is pinned down by two recursive specification
//! functions, `market_match_spec` and `limit_match_spec`, which return both
//! the emitted events and the state the opposite queue is left in; the
//! executable matcher is proved to produce exactly those.
use vstd::prelude::*;

use crate::asset::BrokerAsset;
use crate::decimal::spec_sub;
use crate::decimal::Decimal;
use crate::domain::Order;
use crate::domain::OrderId;
use crate::domain::OrderSide;
use crate::domain::OrderType;
use crate::order_queues::cancel_spec;
use crate::order_queues::contains_id;
use crate::order_queues::entries_wf;
use crate::order_queues::index_of_id;
use crate::order_queues::insert_spec;
use crate::order_queues::lemma_cancel_spec_ids;
use crate::order_queues::lemma_drop_first_ids;
use crate::order_queues::lemma_index_of_id;
use crate::order_queues::lemma_insert_keeps_wf;
use crate::order_queues::lemma_remove_keeps_wf;
use crate::order_queues::lemma_update_head_ids;
use crate::order_queues::OrderQueue;
use crate::order_queues::QueueEntry;
use crate::orders::request_wf;
use crate::orders::OrderRequest;
use crate::validation::OrderRequestValidator;
use crate::validation::ValidationError;

verus! {

/// The stall budget handed to each queue at construction.
pub const MAX_STALLED_INDICES_IN_QUEUE: u64 = 10;

/// The initial capacity hint handed to each queue.
pub const ORDER_QUEUE_INIT_CAPACITY: usize = 500;

/// A successful execution event.
#[derive(Clone, Copy, Debug)]
pub enum Success {
    Accepted {
        order_id: OrderId,
        order_asset: BrokerAsset,
        order_type: OrderType,
        price_asset: BrokerAsset,
        price: Option<Decimal>,
        qty: Decimal,
        side: OrderSide,
        ts: u64,
    },
    Filled {
        order_id: OrderId,
        side: OrderSide,
        order_type: OrderType,
        price: Decimal,
        qty: Decimal,
        ts: u64,
    },
    PartiallyFilled {
        order_id: OrderId,
        side: OrderSide,
        order_type: OrderType,
        price: Decimal,
        qty: Decimal,
        ts: u64,
    },
    Amended { order_id: OrderId, price: Decimal, qty: Decimal, ts: u64 },
    Cancelled { order_id: OrderId, ts: u64 },
}

/// A typed failure event; never an exception.
#[derive(Clone, Copy, Debug)]
pub enum Failed {
    ValidationFailed(ValidationError),
    DuplicateOrderID(OrderId),
    NoMatch(OrderId),
    OrderNotFound(OrderId),
}

pub type OrderProcessingResult = Vec<Result<Success, Failed>>;

/// Whether an incoming limit price crosses the opposite best price.
pub open spec fn overlaps(side: OrderSide, price: Decimal, opposite_price: Decimal) -> bool {
    match side {
        OrderSide::Bid => price.units() >= opposite_price.units(),
        OrderSide::Ask => price.units() <= opposite_price.units(),
    }
}

/// One trade's event pair when the aggressor is smaller than or equal to
/// the resting order: the aggressor's event first, then the maker's. Both
/// report the traded quantity at the maker's price.
pub open spec fn trade_events_aggressor_smaller(
    o: Order,
    order_id: OrderId,
    order_type: OrderType,
    side: OrderSide,
    qty: Decimal,
    now: u64,
    aggressor_filled: bool,
    maker_filled: bool,
) -> Seq<Result<Success, Failed>> {
    seq![
        Ok(
            if aggressor_filled {
                Success::Filled { order_id, side, order_type, price: o.price, qty, ts: now }
            } else {
                Success::PartiallyFilled {
                    order_id,
                    side,
                    order_type,
                    price: o.price,
                    qty,
                    ts: now,
                }
            },
        ),
        Ok(
            if maker_filled {
                Success::Filled {
                    order_id: o.order_id,
                    side: o.side,
                    order_type: OrderType::Limit,
                    price: o.price,
                    qty,
                    ts: now,
                }
            } else {
                Success::PartiallyFilled {
                    order_id: o.order_id,
                    side: o.side,
                    order_type: OrderType::Limit,
                    price: o.price,
                    qty,
                    ts: now,
                }
            },
        ),
    ]
}

/// The resting order left at the top of the opposite queue after a partial
/// fill: the same record with the traded quantity subtracted.
pub open spec fn reduced_head(m: Seq<QueueEntry>, qty: Decimal) -> Seq<QueueEntry> {
    m.update(
        0,
        QueueEntry {
            ts: m[0].ts,
            order: Order {
                order_id: m[0].order.order_id,
                order_asset: m[0].order.order_asset,
                price_asset: m[0].order.price_asset,
                side: m[0].order.side,
                price: m[0].order.price,
                qty: spec_sub(m[0].order.qty, qty),
            },
        },
    )
}

/// The events a market order produces against an opposite queue, and the
/// state that queue is left in. Each round trades at the then-current best;
/// an empty opposite queue yields `NoMatch`.
pub open spec fn market_match_spec(
    opp: Seq<QueueEntry>,
    order_id: OrderId,
    side: OrderSide,
    qty: Decimal,
    now: u64,
) -> (Seq<Result<Success, Failed>>, Seq<QueueEntry>)
    decreases opp.len(),
{
    if opp.len() == 0 {
        (seq![Err(Failed::NoMatch(order_id))], opp)
    } else {
        let o = opp[0].order;
        if qty.units() < o.qty.units() {
            (
                trade_events_aggressor_smaller(
                    o,
                    order_id,
                    OrderType::Market,
                    side,
                    qty,
                    now,
                    true,
                    false,
                ),
                reduced_head(opp, qty),
            )
        } else if qty.units() > o.qty.units() {
            let first = trade_events_aggressor_smaller(
                o,
                order_id,
                OrderType::Market,
                side,
                o.qty,
                now,
                false,
                true,
            );
            let rest = market_match_spec(
                opp.drop_first(),
                order_id,
                side,
                spec_sub(qty, o.qty),
                now,
            );
            (first + rest.0, rest.1)
        } else {
            (
                trade_events_aggressor_smaller(
                    o,
                    order_id,
                    OrderType::Market,
                    side,
                    qty,
                    now,
                    true,
                    true,
                ),
                opp.drop_first(),
            )
        }
    }
}

/// The events a limit order produces against an opposite queue, the state
/// that queue is left in, and the residual quantity that goes on to rest on
/// the order's own side, if any. Matching stops the moment the opposite
/// best no longer overlaps the limit price.
pub open spec fn limit_match_spec(
    opp: Seq<QueueEntry>,
    order_id: OrderId,
    side: OrderSide,
    price: Decimal,
    qty: Decimal,
    now: u64,
) -> (Seq<Result<Success, Failed>>, Seq<QueueEntry>, Option<Decimal>)
    decreases opp.len(),
{
    if opp.len() == 0 {
        (Seq::<Result<Success, Failed>>::empty(), opp, Some(qty))
    } else {
        let o = opp[0].order;
        if !overlaps(side, price, o.price) {
            (Seq::<Result<Success, Failed>>::empty(), opp, Some(qty))
        } else if qty.units() < o.qty.units() {
            (
                trade_events_aggressor_smaller(
                    o,
                    order_id,
                    OrderType::Limit,
                    side,
                    qty,
                    now,
                    true,
                    false,
                ),
                reduced_head(opp, qty),
                None::<Decimal>,
            )
        } else if qty.units() > o.qty.units() {
            let first = trade_events_aggressor_smaller(
                o,
                order_id,
                OrderType::Limit,
                side,
                o.qty,
                now,
                false,
                true,
            );
            let rest = limit_match_spec(
                opp.drop_first(),
                order_id,
                side,
                price,
                spec_sub(qty, o.qty),
                now,
            );
            (first + rest.0, rest.1, rest.2)
        } else {
            (
                trade_events_aggressor_smaller(
                    o,
                    order_id,
                    OrderType::Limit,
                    side,
                    qty,
                    now,
                    true,
                    true,
                ),
                opp.drop_first(),
                None::<Decimal>,
            )
        }
    }
}

/// The quantity an event sequence reports as traded against the book: the
/// sum over maker events — fills and partial fills on the opposite side of
/// the aggressor — of their quantities, in 10^-18 units. Every trade emits
/// the same quantity once for the aggressor and once for the maker, so this
/// counts each trade once.
pub open spec fn maker_fill_units(
    events: Seq<Result<Success, Failed>>,
    aggressor_side: OrderSide,
) -> int
    decreases events.len(),
{
    if events.len() == 0 {
        0
    } else {
        (match events[0] {
            Ok(Success::Filled { side, qty, .. }) => if side == aggressor_side.opposite() {
                qty.units()
            } else {
                0
            },
            Ok(Success::PartiallyFilled { side, qty, .. }) => if side
                == aggressor_side.opposite() {
                qty.units()
            } else {
                0
            },
            _ => 0,
        }) + maker_fill_units(events.drop_first(), aggressor_side)
    }
}

pub proof fn lemma_maker_fill_units_concat(
    a: Seq<Result<Success, Failed>>,
    b: Seq<Result<Success, Failed>>,
    aggressor_side: OrderSide,
)
    ensures
        maker_fill_units(a + b, aggressor_side) == maker_fill_units(a, aggressor_side)
            + maker_fill_units(b, aggressor_side),
    decreases a.len(),
{
    if a.len() == 0 {
        assert(a + b =~= b);
    } else {
        assert((a + b)[0] == a[0]);
        assert((a + b).drop_first() =~= a.drop_first() + b);
        lemma_maker_fill_units_concat(a.drop_first(), b, aggressor_side);
    }
}

/// Conservation for a market order: the live quantity of the opposite
/// queue decreases by exactly the quantity the emitted events report as
/// traded. A market order never rests, so this is the whole book's change.
pub proof fn lemma_market_match_conservation(
    opp: Seq<QueueEntry>,
    order_id: OrderId,
    side: OrderSide,
    qty: Decimal,
    now: u64,
)
    requires
        entries_wf(side.opposite(), opp),
        qty.wf(),
        qty.units() > 0,
    ensures
        crate::order_queues::qty_sum(market_match_spec(opp, order_id, side, qty, now).1)
            == crate::order_queues::qty_sum(opp) - maker_fill_units(
            market_match_spec(opp, order_id, side, qty, now).0,
            side,
        ),
    decreases opp.len(),
{
    let r = market_match_spec(opp, order_id, side, qty, now);
    if opp.len() == 0 {
        assert(maker_fill_units(r.0, side) == 0) by {
            assert(r.0.len() == 1);
            assert(r.0.drop_first() =~= Seq::<Result<Success, Failed>>::empty());
            assert(maker_fill_units(r.0.drop_first(), side) == 0);
            assert(r.0[0] == Err::<Success, Failed>(Failed::NoMatch(order_id)));
        }
    } else {
        let o = opp[0].order;
        assert(o.side == side.opposite());
        assert(o.wf());
        if qty.units() < o.qty.units() {
            crate::decimal::lemma_spec_sub_units(o.qty, qty);
            crate::order_queues::lemma_qty_sum_update(opp, 0, reduced_head(opp, qty)[0]);
            assert(reduced_head(opp, qty)[0].order.qty.units() == o.qty.units() - qty.units());
            lemma_trade_pair_units(r.0, side, qty.units());
        } else if qty.units() > o.qty.units() {
            crate::decimal::lemma_spec_sub_units(qty, o.qty);
            let first = trade_events_aggressor_smaller(
                o,
                order_id,
                OrderType::Market,
                side,
                o.qty,
                now,
                false,
                true,
            );
            let rest = market_match_spec(
                opp.drop_first(),
                order_id,
                side,
                spec_sub(qty, o.qty),
                now,
            );
            assert(entries_wf(side.opposite(), opp.drop_first())) by {
                assert forall|i: int| 0 <= i < opp.drop_first().len() implies (#[trigger] opp.drop_first()[i]).order.side
                    == side.opposite() && opp.drop_first()[i].order.wf() by {
                    assert(opp.drop_first()[i] == opp[i + 1]);
                }
            }
            lemma_market_match_conservation(
                opp.drop_first(),
                order_id,
                side,
                spec_sub(qty, o.qty),
                now,
            );
            lemma_maker_fill_units_concat(first, rest.0, side);
            lemma_trade_pair_units(first, side, o.qty.units());
        } else {
            lemma_trade_pair_units(r.0, side, qty.units());
        }
    }
}

/// Conservation for a limit order's matching phase: the live quantity of
/// the opposite queue decreases by exactly the traded quantity the events
/// report. Any residual quantity the order goes on to rest is returned
/// separately and adds to its own side by `lemma_qty_sum_insert`.
pub proof fn lemma_limit_match_conservation(
    opp: Seq<QueueEntry>,
    order_id: OrderId,
    side: OrderSide,
    price: Decimal,
    qty: Decimal,
    now: u64,
)
    requires
        entries_wf(side.opposite(), opp),
        qty.wf(),
        qty.units() > 0,
    ensures
        crate::order_queues::qty_sum(limit_match_spec(opp, order_id, side, price, qty, now).1)
            == crate::order_queues::qty_sum(opp) - maker_fill_units(
            limit_match_spec(opp, order_id, side, price, qty, now).0,
            side,
        ),
        ({
            let r = limit_match_spec(opp, order_id, side, price, qty, now);
            r.2 matches Some(residual) ==> residual.units() + maker_fill_units(r.0, side)
                == qty.units()
        }),
    decreases opp.len(),
{
    let r = limit_match_spec(opp, order_id, side, price, qty, now);
    if opp.len() == 0 || !overlaps(side, price, opp[0].order.price) {
        assert(maker_fill_units(r.0, side) == 0);
    } else {
        let o = opp[0].order;
        assert(o.side == side.opposite());
        assert(o.wf());
        if qty.units() < o.qty.units() {
            crate::decimal::lemma_spec_sub_units(o.qty, qty);
            crate::order_queues::lemma_qty_sum_update(opp, 0, reduced_head(opp, qty)[0]);
            lemma_trade_pair_units(r.0, side, qty.units());
        } else if qty.units() > o.qty.units() {
            crate::decimal::lemma_spec_sub_units(qty, o.qty);
            let first = trade_events_aggressor_smaller(
                o,
                order_id,
                OrderType::Limit,
                side,
                o.qty,
                now,
                false,
                true,
            );
            let rest = limit_match_spec(
                opp.drop_first(),
                order_id,
                side,
                price,
                spec_sub(qty, o.qty),
                now,
            );
            assert(entries_wf(side.opposite(), opp.drop_first())) by {
                assert forall|i: int| 0 <= i < opp.drop_first().len() implies (#[trigger] opp.drop_first()[i]).order.side
                    == side.opposite() && opp.drop_first()[i].order.wf() by {
                    assert(opp.drop_first()[i] == opp[i + 1]);
                }
            }
            lemma_limit_match_conservation(
                opp.drop_first(),
                order_id,
                side,
                price,
                spec_sub(qty, o.qty),
                now,
            );
            lemma_maker_fill_units_concat(first, rest.0, side);
            lemma_trade_pair_units(first, side, o.qty.units());
        } else {
            lemma_trade_pair_units(r.0, side, qty.units());
        }
    }
}

/// Conservation for a limit order over the whole book: the decrease of the
/// total live quantity across both queues equals the quantity the events
/// report as traded, minus whatever residual the order rested. The residual
/// itself is exactly the incoming quantity less the traded quantity.
pub proof fn lemma_limit_book_conservation(
    own: Seq<QueueEntry>,
    opp: Seq<QueueEntry>,
    order_id: OrderId,
    order_asset: BrokerAsset,
    price_asset: BrokerAsset,
    side: OrderSide,
    price: Decimal,
    qty: Decimal,
    ts: u64,
    now: u64,
)
    requires
        entries_wf(side.opposite(), opp),
        qty.wf(),
        qty.units() > 0,
        !contains_id(own, order_id),
    ensures
        ({
            let r = limit_match_spec(opp, order_id, side, price, qty, now);
            let rested = match r.2 {
                Some(residual) => crate::order_queues::qty_sum(
                    insert_spec(
                        side,
                        own,
                        QueueEntry {
                            ts,
                            order: resting_order(
                                order_id,
                                order_asset,
                                price_asset,
                                side,
                                price,
                                residual,
                            ),
                        },
                    ),
                ) - crate::order_queues::qty_sum(own),
                None => 0,
            };
            &&& (crate::order_queues::qty_sum(own) + crate::order_queues::qty_sum(opp)) - (
            crate::order_queues::qty_sum(own) + rested + crate::order_queues::qty_sum(r.1))
                == maker_fill_units(r.0, side) - rested
            &&& (r.2 matches Some(residual) ==> rested == residual.units() && residual.units()
                == qty.units() - maker_fill_units(r.0, side))
        }),
{
    let r = limit_match_spec(opp, order_id, side, price, qty, now);
    lemma_limit_match_conservation(opp, order_id, side, price, qty, now);
    if let Some(residual) = r.2 {
        let e = QueueEntry {
            ts,
            order: resting_order(order_id, order_asset, price_asset, side, price, residual),
        };
        crate::order_queues::lemma_insert_pos(side, own, e);
        crate::order_queues::lemma_qty_sum_insert(
            own,
            crate::order_queues::insert_pos(side, own, e),
            e,
        );
    }
}

/// Matching runs to exhaustion before a residual limit rests: if a limit
/// order leaves a residual, the opposite queue is either empty or its best
/// price no longer overlaps the limit price. With the spread defined as the
/// pair of best prices, a rested residual therefore never crosses the book:
/// the best bid stays below the best ask.
pub proof fn lemma_limit_residual_does_not_cross(
    opp: Seq<QueueEntry>,
    order_id: OrderId,
    side: OrderSide,
    price: Decimal,
    qty: Decimal,
    now: u64,
)
    ensures
        ({
            let r = limit_match_spec(opp, order_id, side, price, qty, now);
            r.2 is Some ==> (r.1.len() == 0 || !overlaps(side, price, r.1[0].order.price))
        }),
    decreases opp.len(),
{
    if opp.len() > 0 && overlaps(side, price, opp[0].order.price) && qty.units()
        > opp[0].order.qty.units() {
        lemma_limit_residual_does_not_cross(
            opp.drop_first(),
            order_id,
            side,
            price,
            spec_sub(qty, opp[0].order.qty),
            now,
        );
    }
}

/// A single trade's event pair reports its quantity once on the maker's
/// side.
proof fn lemma_trade_pair_units(events: Seq<Result<Success, Failed>>, side: OrderSide, q: int)
    requires
        events.len() == 2,
        (match events[0] {
            Ok(Success::Filled { side: s, qty, .. }) => s == side && qty.units() == q,
            Ok(Success::PartiallyFilled { side: s, qty, .. }) => s == side && qty.units() == q,
            _ => false,
        }),
        (match events[1] {
            Ok(Success::Filled { side: s, qty, .. }) => s == side.opposite() && qty.units() == q,
            Ok(Success::PartiallyFilled { side: s, qty, .. }) => s == side.opposite()
                && qty.units() == q,
            _ => false,
        }),
    ensures
        maker_fill_units(events, side) == q,
{
    assert(side.opposite() != side);
    assert(events.drop_first()[0] == events[1]);
    assert(events.drop_first().len() == 1);
    assert(events.drop_first().drop_first() =~= Seq::<Result<Success, Failed>>::empty());
    assert(maker_fill_units(events.drop_first().drop_first(), side) == 0);
    assert(maker_fill_units(events.drop_first(), side) == q);
}

/// The record a residual or amended limit rests as.
pub open spec fn resting_order(
    order_id: OrderId,
    order_asset: BrokerAsset,
    price_asset: BrokerAsset,
    side: OrderSide,
    price: Decimal,
    qty: Decimal,
) -> Order {
    Order { order_id, order_asset, price_asset, side, price, qty }
}

/// The order book for one asset pair.
pub struct Orderbook {
    pub order_asset: BrokerAsset,
    pub price_asset: BrokerAsset,
    pub bid_queue: OrderQueue,
    pub ask_queue: OrderQueue,
    pub order_validator: OrderRequestValidator,
}

impl Orderbook {
    /// The queue a given side's orders rest on.
    pub open spec fn own_model(self, side: OrderSide) -> Seq<QueueEntry> {
        match side {
            OrderSide::Bid => self.bid_queue@,
            OrderSide::Ask => self.ask_queue@,
        }
    }

    /// The queue a given side's orders trade against.
    pub open spec fn opp_model(self, side: OrderSide) -> Seq<QueueEntry> {
        match side {
            OrderSide::Bid => self.ask_queue@,
            OrderSide::Ask => self.bid_queue@,
        }
    }

    /// The book invariant: both queues well-formed and of the right side,
    /// no id live on both sides, and the validator configured with this
    /// book's asset pair.
    pub open spec fn inv(self) -> bool {
        &&& self.bid_queue.wf()
        &&& self.ask_queue.wf()
        &&& self.bid_queue.side == OrderSide::Bid
        &&& self.ask_queue.side == OrderSide::Ask
        &&& forall|id: OrderId|
            #[trigger] contains_id(self.bid_queue@, id) ==> !contains_id(self.ask_queue@, id)
        &&& self.order_validator.orderbook_order_asset == self.order_asset
        &&& self.order_validator.orderbook_price_asset == self.price_asset
    }

    /// What every operation leaves untouched: the configuration.
    pub open spec fn frame_eq(self, o: Orderbook) -> bool {
        &&& self.order_asset == o.order_asset
        &&& self.price_asset == o.price_asset
        &&& self.order_validator == o.order_validator
        &&& self.bid_queue.side == o.bid_queue.side
        &&& self.ask_queue.side == o.ask_queue.side
    }

    /// Create a new order book for a pair of assets.
    pub fn new(order_asset: BrokerAsset, price_asset: BrokerAsset) -> (r: Orderbook)
        ensures
            r.inv(),
            r.order_asset == order_asset,
            r.price_asset == price_asset,
            r.bid_queue@.len() == 0,
            r.ask_queue@.len() == 0,
    {
        Orderbook {
            order_asset,
            price_asset,
            bid_queue: OrderQueue::new(
                OrderSide::Bid,
                MAX_STALLED_INDICES_IN_QUEUE,
                ORDER_QUEUE_INIT_CAPACITY,
            ),
            ask_queue: OrderQueue::new(
                OrderSide::Ask,
                MAX_STALLED_INDICES_IN_QUEUE,
                ORDER_QUEUE_INIT_CAPACITY,
            ),
            order_validator: OrderRequestValidator::new(order_asset, price_asset),
        }
    }

    /// One matching round against the current opposite best `opposite_order`:
    /// emits the aggressor's event then the maker's, trades at the maker's
    /// price, and shrinks or pops the maker. Returns whether the incoming
    /// quantity is exhausted.
    fn order_matching(
        &mut self,
        results: &mut OrderProcessingResult,
        opposite_order: &Order,
        order_id: OrderId,
        order_type: OrderType,
        side: OrderSide,
        qty: Decimal,
        now: u64,
    ) -> (complete: bool)
        requires
            old(self).inv(),
            qty.wf(),
            qty.units() > 0,
            old(self).opp_model(side).len() > 0,
            old(self).opp_model(side)[0].order == *opposite_order,
        ensures
            final(self).inv(),
            final(self).frame_eq(*old(self)),
            final(self).own_model(side) == old(self).own_model(side),
            complete == (qty.units() <= opposite_order.qty.units()),
            qty.units() < opposite_order.qty.units() ==> (final(results)@ == old(results)@
                + trade_events_aggressor_smaller(
                *opposite_order,
                order_id,
                order_type,
                side,
                qty,
                now,
                true,
                false,
            ) && final(self).opp_model(side) == reduced_head(old(self).opp_model(side), qty)),
            qty.units() > opposite_order.qty.units() ==> (final(results)@ == old(results)@
                + trade_events_aggressor_smaller(
                *opposite_order,
                order_id,
                order_type,
                side,
                opposite_order.qty,
                now,
                false,
                true,
            ) && final(self).opp_model(side) == old(self).opp_model(side).drop_first()),
            qty.units() == opposite_order.qty.units() ==> (final(results)@ == old(results)@
                + trade_events_aggressor_smaller(
                *opposite_order,
                order_id,
                order_type,
                side,
                qty,
                now,
                true,
                true,
            ) && final(self).opp_model(side) == old(self).opp_model(side).drop_first()),
    {
        proof {
            let opp = old(self).opp_model(side);
            assert(opp[0].order.wf());
        }
        let complete: bool;
        if qty.lt(&opposite_order.qty) {
            // fill the incoming order, partially fill the resting one
            results.push(
                Ok(
                    Success::Filled {
                        order_id,
                        side,
                        order_type,
                        price: opposite_order.price,
                        qty,
                        ts: now,
                    },
                ),
            );
            results.push(
                Ok(
                    Success::PartiallyFilled {
                        order_id: opposite_order.order_id,
                        side: opposite_order.side,
                        order_type: OrderType::Limit,
                        price: opposite_order.price,
                        qty,
                        ts: now,
                    },
                ),
            );
            let remainder = Order {
                order_id: opposite_order.order_id,
                order_asset: opposite_order.order_asset,
                price_asset: opposite_order.price_asset,
                side: opposite_order.side,
                price: opposite_order.price,
                qty: opposite_order.qty.minus(&qty),
            };
            match side {
                OrderSide::Bid => self.ask_queue.modify_current_order(remainder),
                OrderSide::Ask => self.bid_queue.modify_current_order(remainder),
            }
            proof {
                let opp = old(self).opp_model(side);
                assert(final(self).opp_model(side) =~= reduced_head(opp, qty));
                assert(final(results)@ =~= old(results)@ + trade_events_aggressor_smaller(
                    *opposite_order,
                    order_id,
                    order_type,
                    side,
                    qty,
                    now,
                    true,
                    false,
                ));
                lemma_update_head_ids(opp, reduced_head(opp, qty)[0]);
            }
            complete = true;
        } else if opposite_order.qty.lt(&qty) {
            // partially fill the incoming order, fill the resting one
            results.push(
                Ok(
                    Success::PartiallyFilled {
                        order_id,
                        side,
                        order_type,
                        price: opposite_order.price,
                        qty: opposite_order.qty,
                        ts: now,
                    },
                ),
            );
            results.push(
                Ok(
                    Success::Filled {
                        order_id: opposite_order.order_id,
                        side: opposite_order.side,
                        order_type: OrderType::Limit,
                        price: opposite_order.price,
                        qty: opposite_order.qty,
                        ts: now,
                    },
                ),
            );
            match side {
                OrderSide::Bid => {
                    self.ask_queue.pop();
                },
                OrderSide::Ask => {
                    self.bid_queue.pop();
                },
            }
            proof {
                let opp = old(self).opp_model(side);
                assert(final(results)@ =~= old(results)@ + trade_events_aggressor_smaller(
                    *opposite_order,
                    order_id,
                    order_type,
                    side,
                    opposite_order.qty,
                    now,
                    false,
                    true,
                ));
                lemma_drop_first_ids(opp);
            }
            complete = false;
        } else {
            // exact match: fill both and pop the resting order
            results.push(
                Ok(
                    Success::Filled {
                        order_id,
                        side,
                        order_type,
                        price: opposite_order.price,
                        qty,
                        ts: now,
                    },
                ),
            );
            results.push(
                Ok(
                    Success::Filled {
                        order_id: opposite_order.order_id,
                        side: opposite_order.side,
                        order_type: OrderType::Limit,
                        price: opposite_order.price,
                        qty,
                        ts: now,
                    },
                ),
            );
            match side {
                OrderSide::Bid => {
                    self.ask_queue.pop();
                },
                OrderSide::Ask => {
                    self.bid_queue.pop();
                },
            }
            proof {
                let opp = old(self).opp_model(side);
                assert(final(results)@ =~= old(results)@ + trade_events_aggressor_smaller(
                    *opposite_order,
                    order_id,
                    order_type,
                    side,
                    qty,
                    now,
                    true,
                    true,
                ));
                lemma_drop_first_ids(opp);
            }
            complete = true;
        }
        complete
    }

    /// Rest a new limit order on its own side; on an id collision the book
    /// is left unchanged and a `DuplicateOrderID` failure is emitted.
    fn store_new_limit_order(
        &mut self,
        results: &mut OrderProcessingResult,
        order_id: OrderId,
        order_asset: BrokerAsset,
        price_asset: BrokerAsset,
        side: OrderSide,
        price: Decimal,
        qty: Decimal,
        ts: u64,
    )
        requires
            old(self).inv(),
            price.wf(),
            price.units() > 0,
            qty.wf(),
            qty.units() > 0,
            !contains_id(old(self).opp_model(side), order_id),
        ensures
            final(self).inv(),
            final(self).frame_eq(*old(self)),
            final(self).opp_model(side) == old(self).opp_model(side),
            contains_id(old(self).own_model(side), order_id) ==> (final(results)@ == old(results)@
                + seq![Err(Failed::DuplicateOrderID(order_id))] && final(self).own_model(side)
                == old(self).own_model(side)),
            !contains_id(old(self).own_model(side), order_id) ==> (final(results)@ == old(results)@
                && final(self).own_model(side) == insert_spec(
                side,
                old(self).own_model(side),
                QueueEntry {
                    ts,
                    order: resting_order(order_id, order_asset, price_asset, side, price, qty),
                },
            )),
    {
        let order = Order { order_id, order_asset, price_asset, side, price, qty };
        let inserted = match side {
            OrderSide::Bid => self.bid_queue.insert(order_id, price, ts, order),
            OrderSide::Ask => self.ask_queue.insert(order_id, price, ts, order),
        };
        if !inserted {
            results.push(Err(Failed::DuplicateOrderID(order_id)));
            proof {
                assert(final(results)@ =~= old(results)@ + seq![
                    Err::<Success, Failed>(Failed::DuplicateOrderID(order_id)),
                ]);
            }
        } else {
            proof {
                let own = old(self).own_model(side);
                lemma_insert_keeps_wf(side, own, QueueEntry { ts, order });
            }
        }
    }

    /// Amend a live order: replace its record and refresh its priority with
    /// the request's timestamp. The replacement carries this book's asset
    /// pair.
    fn process_order_amend(
        &mut self,
        results: &mut OrderProcessingResult,
        order_id: OrderId,
        side: OrderSide,
        price: Decimal,
        qty: Decimal,
        ts: u64,
        now: u64,
    )
        requires
            old(self).inv(),
            price.wf(),
            price.units() > 0,
            qty.wf(),
            qty.units() > 0,
        ensures
            final(self).inv(),
            final(self).frame_eq(*old(self)),
            final(self).opp_model(side) == old(self).opp_model(side),
            contains_id(old(self).own_model(side), order_id) ==> (final(results)@ == old(results)@
                + seq![Ok(Success::Amended { order_id, price, qty, ts: now })]
                && final(self).own_model(side) == insert_spec(
                side,
                cancel_spec(old(self).own_model(side), order_id),
                QueueEntry {
                    ts,
                    order: resting_order(
                        order_id,
                        old(self).order_asset,
                        old(self).price_asset,
                        side,
                        price,
                        qty,
                    ),
                },
            )),
            !contains_id(old(self).own_model(side), order_id) ==> (final(results)@ == old(results)@
                + seq![Err(Failed::OrderNotFound(order_id))]
                && final(self).own_model(side) == old(self).own_model(side)),
    {
        let order = Order {
            order_id,
            order_asset: self.order_asset,
            price_asset: self.price_asset,
            side,
            price,
            qty,
        };
        let amended = match side {
            OrderSide::Bid => self.bid_queue.amend(order_id, price, ts, order),
            OrderSide::Ask => self.ask_queue.amend(order_id, price, ts, order),
        };
        if amended {
            results.push(Ok(Success::Amended { order_id, price, qty, ts: now }));
            proof {
                assert(final(results)@ =~= old(results)@ + seq![
                    Ok::<Success, Failed>(Success::Amended { order_id, price, qty, ts: now }),
                ]);
                let own = old(self).own_model(side);
                lemma_cancel_spec_ids(own, order_id);
                lemma_index_of_id(own, order_id);
                lemma_remove_keeps_wf(side, own, index_of_id(own, order_id));
                lemma_insert_keeps_wf(
                    side,
                    cancel_spec(own, order_id),
                    QueueEntry {
                        ts,
                        order: resting_order(
                            order_id,
                            old(self).order_asset,
                            old(self).price_asset,
                            side,
                            price,
                            qty,
                        ),
                    },
                );
            }
        } else {
            results.push(Err(Failed::OrderNotFound(order_id)));
            proof {
                assert(final(results)@ =~= old(results)@ + seq![
                    Err::<Success, Failed>(Failed::OrderNotFound(order_id)),
                ]);
            }
        }
    }

    /// Cancel a live order on the given side.
    fn process_order_cancel(
        &mut self,
        results: &mut OrderProcessingResult,
        order_id: OrderId,
        side: OrderSide,
        now: u64,
    )
        requires
            old(self).inv(),
        ensures
            final(self).inv(),
            final(self).frame_eq(*old(self)),
            final(self).opp_model(side) == old(self).opp_model(side),
            final(self).own_model(side) == cancel_spec(old(self).own_model(side), order_id),
            contains_id(old(self).own_model(side), order_id) ==> final(results)@ == old(results)@
                + seq![Ok(Success::Cancelled { order_id, ts: now })],
            !contains_id(old(self).own_model(side), order_id) ==> final(results)@ == old(results)@
                + seq![Err(Failed::OrderNotFound(order_id))],
    {
        let cancelled = match side {
            OrderSide::Bid => self.bid_queue.cancel(order_id),
            OrderSide::Ask => self.ask_queue.cancel(order_id),
        };
        if cancelled {
            results.push(Ok(Success::Cancelled { order_id, ts: now }));
            proof {
                assert(final(results)@ =~= old(results)@ + seq![
                    Ok::<Success, Failed>(Success::Cancelled { order_id, ts: now }),
                ]);
            }
        } else {
            results.push(Err(Failed::OrderNotFound(order_id)));
            proof {
                assert(final(results)@ =~= old(results)@ + seq![
                    Err::<Success, Failed>(Failed::OrderNotFound(order_id)),
                ]);
            }
        }
        proof {
            let own = old(self).own_model(side);
            lemma_cancel_spec_ids(own, order_id);
        }
    }

    /// Drive a market order against the opposite queue until it is filled
    /// or the queue is empty; a market order never rests.
    fn process_market_order(
        &mut self,
        results: &mut OrderProcessingResult,
        order_id: OrderId,
        side: OrderSide,
        qty: Decimal,
        now: u64,
    )
        requires
            old(self).inv(),
            qty.wf(),
            qty.units() > 0,
        ensures
            final(self).inv(),
            final(self).frame_eq(*old(self)),
            final(self).own_model(side) == old(self).own_model(side),
            final(results)@ == old(results)@ + market_match_spec(
                old(self).opp_model(side),
                order_id,
                side,
                qty,
                now,
            ).0,
            final(self).opp_model(side) == market_match_spec(
                old(self).opp_model(side),
                order_id,
                side,
                qty,
                now,
            ).1,
        decreases old(self).opp_model(side).len(),
    {
        let opposite_order_result = match side {
            OrderSide::Bid => self.ask_queue.peek(),
            OrderSide::Ask => self.bid_queue.peek(),
        };
        match opposite_order_result {
            Some(opposite_order) => {
                proof {
                    assert(old(self).opp_model(side)[0].order.wf());
                }
                let matching_complete = self.order_matching(
                    results,
                    &opposite_order,
                    order_id,
                    OrderType::Market,
                    side,
                    qty,
                    now,
                );
                if !matching_complete {
                    // match the rest against the new best
                    let rest_qty = qty.minus(&opposite_order.qty);
                    let ghost mid_results = results@;
                    self.process_market_order(results, order_id, side, rest_qty, now);
                    proof {
                        let opp0 = old(self).opp_model(side);
                        let first = trade_events_aggressor_smaller(
                            opposite_order,
                            order_id,
                            OrderType::Market,
                            side,
                            opposite_order.qty,
                            now,
                            false,
                            true,
                        );
                        let rest = market_match_spec(
                            opp0.drop_first(),
                            order_id,
                            side,
                            spec_sub(qty, opposite_order.qty),
                            now,
                        );
                        assert(final(results)@ == (old(results)@ + first) + rest.0);
                        assert((old(results)@ + first) + rest.0 =~= old(results)@ + (first
                            + rest.0));
                    }
                }
            },
            None => {
                // no resting order on the opposite side
                results.push(Err(Failed::NoMatch(order_id)));
                proof {
                    assert(final(results)@ =~= old(results)@ + seq![
                        Err::<Success, Failed>(Failed::NoMatch(order_id)),
                    ]);
                }
            },
        }
    }

    /// Drive a limit order against the opposite queue while its price
    /// overlaps the opposite best; any residual quantity rests at the limit
    /// price on the order's own side.
    fn process_limit_order(
        &mut self,
        results: &mut OrderProcessingResult,
        order_id: OrderId,
        order_asset: BrokerAsset,
        price_asset: BrokerAsset,
        side: OrderSide,
        price: Decimal,
        qty: Decimal,
        ts: u64,
        now: u64,
    )
        requires
            old(self).inv(),
            price.wf(),
            price.units() > 0,
            qty.wf(),
            qty.units() > 0,
            !contains_id(old(self).opp_model(side), order_id),
        ensures
            final(self).inv(),
            final(self).frame_eq(*old(self)),
            final(self).opp_model(side) == limit_match_spec(
                old(self).opp_model(side),
                order_id,
                side,
                price,
                qty,
                now,
            ).1,
            ({
                let r = limit_match_spec(old(self).opp_model(side), order_id, side, price, qty, now);
                match r.2 {
                    Some(residual) => if contains_id(old(self).own_model(side), order_id) {
                        final(results)@ == old(results)@ + r.0 + seq![
                            Err::<Success, Failed>(Failed::DuplicateOrderID(order_id)),
                        ] && final(self).own_model(side) == old(self).own_model(side)
                    } else {
                        final(results)@ == old(results)@ + r.0 && final(self).own_model(side)
                            == insert_spec(
                            side,
                            old(self).own_model(side),
                            QueueEntry {
                                ts,
                                order: resting_order(
                                    order_id,
                                    order_asset,
                                    price_asset,
                                    side,
                                    price,
                                    residual,
                                ),
                            },
                        )
                    },
                    None => final(results)@ == old(results)@ + r.0 && final(self).own_model(side)
                        == old(self).own_model(side),
                }
            }),
        decreases old(self).opp_model(side).len(),
    {
        let opposite_order_result = match side {
            OrderSide::Bid => self.ask_queue.peek(),
            OrderSide::Ask => self.bid_queue.peek(),
        };
        match opposite_order_result {
            Some(opposite_order) => {
                proof {
                    assert(old(self).opp_model(side)[0].order.wf());
                }
                let could_be_matched = match side {
                    // verify bid/ask price overlap
                    OrderSide::Bid => !price.lt(&opposite_order.price),
                    OrderSide::Ask => !opposite_order.price.lt(&price),
                };
                if could_be_matched {
                    let matching_complete = self.order_matching(
                        results,
                        &opposite_order,
                        order_id,
                        OrderType::Limit,
                        side,
                        qty,
                        now,
                    );
                    if !matching_complete {
                        // match the rest of the new limit order
                        let rest_qty = qty.minus(&opposite_order.qty);
                        proof {
                            lemma_drop_first_ids(old(self).opp_model(side));
                        }
                        self.process_limit_order(
                            results,
                            order_id,
                            order_asset,
                            price_asset,
                            side,
                            price,
                            rest_qty,
                            ts,
                            now,
                        );
                        proof {
                            let opp0 = old(self).opp_model(side);
                            let first = trade_events_aggressor_smaller(
                                opposite_order,
                                order_id,
                                OrderType::Limit,
                                side,
                                opposite_order.qty,
                                now,
                                false,
                                true,
                            );
                            let rest = limit_match_spec(
                                opp0.drop_first(),
                                order_id,
                                side,
                                price,
                                spec_sub(qty, opposite_order.qty),
                                now,
                            );
                            assert((old(results)@ + first) + rest.0 =~= old(results)@ + (first
                                + rest.0));
                            assert(((old(results)@ + first) + rest.0) + seq![
                                Err::<Success, Failed>(Failed::DuplicateOrderID(order_id)),
                            ] =~= (old(results)@ + (first + rest.0)) + seq![
                                Err::<Success, Failed>(Failed::DuplicateOrderID(order_id)),
                            ]);
                        }
                    }
                } else {
                    // no overlap: rest the order on its own side
                    self.store_new_limit_order(
                        results,
                        order_id,
                        order_asset,
                        price_asset,
                        side,
                        price,
                        qty,
                        ts,
                    );
                    proof {
                        assert(old(results)@ + Seq::<Result<Success, Failed>>::empty() =~= old(
                            results,
                        )@);
                    }
                }
            },
            None => {
                self.store_new_limit_order(
                    results,
                    order_id,
                    order_asset,
                    price_asset,
                    side,
                    price,
                    qty,
                    ts,
                );
                proof {
                    assert(old(results)@ + Seq::<Result<Success, Failed>>::empty() =~= old(
                        results,
                    )@);
                }
            },
        }
    }

    /// The single mutating entry point: validate the intent, dispatch it,
    /// and return the events it produced, in causal order. `now` stamps
    /// every emitted event.
    ///
    /// The contract mirrors the dispatch exactly: a rejected intent leaves
    /// the book unchanged and yields the one failure event; market and
    /// limit intents produce precisely the events and queue states of
    /// `market_match_spec` and `limit_match_spec` after the `Accepted`
    /// echo; amend and cancel succeed exactly when their id is live on the
    /// chosen side.
    pub fn process_order(&mut self, order: OrderRequest, now: u64) -> (res: OrderProcessingResult)
        requires
            old(self).inv(),
            request_wf(order),
            order matches OrderRequest::NewLimitOrder { order_id, side, .. } ==> !contains_id(
                old(self).opp_model(side),
                order_id,
            ),
        ensures
            final(self).inv(),
            final(self).frame_eq(*old(self)),
            ({
                let v = old(self).order_validator.validate_spec(order);
                v matches Some(e) ==> (res@ == seq![
                    Err::<Success, Failed>(Failed::ValidationFailed(e)),
                ] && final(self).bid_queue@ == old(self).bid_queue@ && final(self).ask_queue@
                    == old(self).ask_queue@)
            }),
            old(self).order_validator.validate_spec(order) is None ==> (match order {
                OrderRequest::NewMarketOrder { order_id, order_asset, price_asset, side, qty, .. } => ({
                    let r = market_match_spec(old(self).opp_model(side), order_id, side, qty, now);
                    &&& res@ == seq![
                        Ok::<Success, Failed>(
                            Success::Accepted {
                                order_id,
                                order_asset,
                                order_type: OrderType::Market,
                                price_asset,
                                price: None,
                                qty,
                                side,
                                ts: now,
                            },
                        ),
                    ] + r.0
                    &&& final(self).opp_model(side) == r.1
                    &&& final(self).own_model(side) == old(self).own_model(side)
                }),
                OrderRequest::NewLimitOrder {
                    order_id,
                    order_asset,
                    price_asset,
                    side,
                    price,
                    qty,
                    ts,
                } => ({
                    let r = limit_match_spec(
                        old(self).opp_model(side),
                        order_id,
                        side,
                        price,
                        qty,
                        now,
                    );
                    let accepted = seq![
                        Ok::<Success, Failed>(
                            Success::Accepted {
                                order_id,
                                order_asset,
                                order_type: OrderType::Limit,
                                price_asset,
                                price: Some(price),
                                qty,
                                side,
                                ts: now,
                            },
                        ),
                    ];
                    &&& final(self).opp_model(side) == r.1
                    &&& (match r.2 {
                        Some(residual) => if contains_id(old(self).own_model(side), order_id) {
                            res@ == accepted + r.0 + seq![
                                Err::<Success, Failed>(Failed::DuplicateOrderID(order_id)),
                            ] && final(self).own_model(side) == old(self).own_model(side)
                        } else {
                            res@ == accepted + r.0 && final(self).own_model(side) == insert_spec(
                                side,
                                old(self).own_model(side),
                                QueueEntry {
                                    ts,
                                    order: resting_order(
                                        order_id,
                                        order_asset,
                                        price_asset,
                                        side,
                                        price,
                                        residual,
                                    ),
                                },
                            )
                        },
                        None => res@ == accepted + r.0
                            && final(self).own_model(side) == old(self).own_model(side),
                    })
                }),
                OrderRequest::AmendOrder { id, side, price, qty, ts } => ({
                    &&& final(self).opp_model(side) == old(self).opp_model(side)
                    &&& (if contains_id(old(self).own_model(side), id) {
                        res@ == seq![
                            Ok::<Success, Failed>(
                                Success::Amended { order_id: id, price, qty, ts: now },
                            ),
                        ] && final(self).own_model(side) == insert_spec(
                            side,
                            cancel_spec(old(self).own_model(side), id),
                            QueueEntry {
                                ts,
                                order: resting_order(
                                    id,
                                    old(self).order_asset,
                                    old(self).price_asset,
                                    side,
                                    price,
                                    qty,
                                ),
                            },
                        )
                    } else {
                        res@ == seq![Err::<Success, Failed>(Failed::OrderNotFound(id))]
                            && final(self).own_model(side) == old(self).own_model(side)
                    })
                }),
                OrderRequest::CancelOrder { id, side } => ({
                    &&& final(self).opp_model(side) == old(self).opp_model(side)
                    &&& final(self).own_model(side) == cancel_spec(old(self).own_model(side), id)
                    &&& (if contains_id(old(self).own_model(side), id) {
                        res@ == seq![
                            Ok::<Success, Failed>(Success::Cancelled { order_id: id, ts: now }),
                        ]
                    } else {
                        res@ == seq![Err::<Success, Failed>(Failed::OrderNotFound(id))]
                    })
                }),
            }),
    {
        let mut proc_result: OrderProcessingResult = Vec::new();

        // validate the request; a rejected intent touches nothing
        if let Err(reason) = self.order_validator.validate(&order) {
            proc_result.push(Err(Failed::ValidationFailed(reason)));
            proof {
                assert(proc_result@ =~= seq![
                    Err::<Success, Failed>(
                        Failed::ValidationFailed(
                            old(self).order_validator.validate_spec(order)->Some_0,
                        ),
                    ),
                ]);
            }
            return proc_result;
        }
        match order {
            OrderRequest::NewMarketOrder { order_id, order_asset, price_asset, side, qty, ts: _ts } => {
                proc_result.push(
                    Ok(
                        Success::Accepted {
                            order_id,
                            order_asset,
                            price_asset,
                            price: None,
                            order_type: OrderType::Market,
                            qty,
                            side,
                            ts: now,
                        },
                    ),
                );
                let ghost accepted = proc_result@;
                self.process_market_order(&mut proc_result, order_id, side, qty, now);
                proof {
                    assert(accepted =~= seq![
                        Ok::<Success, Failed>(
                            Success::Accepted {
                                order_id,
                                order_asset,
                                order_type: OrderType::Market,
                                price_asset,
                                price: None,
                                qty,
                                side,
                                ts: now,
                            },
                        ),
                    ]);
                }
            },
            OrderRequest::NewLimitOrder {
                order_id,
                order_asset,
                price_asset,
                side,
                price,
                qty,
                ts,
            } => {
                proc_result.push(
                    Ok(
                        Success::Accepted {
                            order_id,
                            order_asset,
                            price_asset,
                            price: Some(price),
                            order_type: OrderType::Limit,
                            qty,
                            side,
                            ts: now,
                        },
                    ),
                );
                let ghost accepted = proc_result@;
                self.process_limit_order(
                    &mut proc_result,
                    order_id,
                    order_asset,
                    price_asset,
                    side,
                    price,
                    qty,
                    ts,
                    now,
                );
                proof {
                    assert(accepted =~= seq![
                        Ok::<Success, Failed>(
                            Success::Accepted {
                                order_id,
                                order_asset,
                                order_type: OrderType::Limit,
                                price_asset,
                                price: Some(price),
                                qty,
                                side,
                                ts: now,
                            },
                        ),
                    ]);
                }
            },
            OrderRequest::AmendOrder { id, side, price, qty, ts } => {
                self.process_order_amend(&mut proc_result, id, side, price, qty, ts, now);
                proof {
                    assert(Seq::<Result<Success, Failed>>::empty() + seq![
                        Ok::<Success, Failed>(
                            Success::Amended { order_id: id, price, qty, ts: now },
                        ),
                    ] =~= seq![
                        Ok::<Success, Failed>(
                            Success::Amended { order_id: id, price, qty, ts: now },
                        ),
                    ]);
                    assert(Seq::<Result<Success, Failed>>::empty() + seq![
                        Err::<Success, Failed>(Failed::OrderNotFound(id)),
                    ] =~= seq![Err::<Success, Failed>(Failed::OrderNotFound(id))]);
                }
            },
            OrderRequest::CancelOrder { id, side } => {
                self.process_order_cancel(&mut proc_result, id, side, now);
                proof {
                    assert(Seq::<Result<Success, Failed>>::empty() + seq![
                        Ok::<Success, Failed>(Success::Cancelled { order_id: id, ts: now }),
                    ] =~= seq![Ok::<Success, Failed>(Success::Cancelled { order_id: id, ts: now })]);
                    assert(Seq::<Result<Success, Failed>>::empty() + seq![
                        Err::<Success, Failed>(Failed::OrderNotFound(id)),
                    ] =~= seq![Err::<Success, Failed>(Failed::OrderNotFound(id))]);
                }
            },
        }
        proc_result
    }

    /// The current spread: the pair of best prices, defined only when both
    /// sides are non-empty.
    pub fn current_spread(&self) -> (r: Option<(Decimal, Decimal)>)
        requires
            self.inv(),
        ensures
            self.bid_queue@.len() == 0 || self.ask_queue@.len() == 0 ==> r is None,
            self.bid_queue@.len() > 0 && self.ask_queue@.len() > 0 ==> r == Some(
                (self.bid_queue@[0].order.price, self.ask_queue@[0].order.price),
            ),
    {
        match self.bid_queue.peek() {
            None => None,
            Some(bid) => match self.ask_queue.peek() {
                None => None,
                Some(ask) => Some((bid.price, ask.price)),
            },
        }
    }
}

} // verus!
