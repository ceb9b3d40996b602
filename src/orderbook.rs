use vstd::prelude::*;

use std::collections::HashMap;

use crate::error::MatchError;
use crate::price::Price;

verus! {

broadcast use vstd::std_specs::hash::group_hash_axioms;

/// The side of the book an order belongs to.
#[derive(Debug, Clone, Copy, PartialEq, Eq, Structural)]
pub enum BidOrAsk {
    Bid,
    Ask,
}

impl BidOrAsk {
    /// The side that an order of this side trades against.
    pub open spec fn opposite(self) -> BidOrAsk {
        match self {
            BidOrAsk::Bid => BidOrAsk::Ask,
            BidOrAsk::Ask => BidOrAsk::Bid,
        }
    }
}

/// A quantity to buy or sell: its remaining size and its side.
#[derive(Debug, Clone, Copy)]
pub struct Order {
    pub size: u64,
    pub order_type: BidOrAsk,
}

/// Sum of the remaining sizes of a queue of orders.
pub open spec fn volume(q: Seq<Order>) -> nat
    decreases q.len(),
{
    if q.len() == 0 {
        0
    } else {
        (volume(q.drop_last()) + q.last().spec_size()) as nat
    }
}

/// How much of an incoming size the order at `i` absorbs when the queue is
/// filled from its head: what the orders before it leave over, up to its size.
pub open spec fn taken_at(q: Seq<Order>, incoming: nat, i: int) -> nat {
    let before = volume(q.take(i));
    if incoming <= before {
        0
    } else if incoming - before >= q[i].spec_size() {
        q[i].spec_size() as nat
    } else {
        (incoming - before) as nat
    }
}

/// The queue after an incoming size has been filled against it, head first.
/// Fully consumed orders stay in place with size zero.
pub open spec fn filled_queue(q: Seq<Order>, incoming: nat) -> Seq<Order> {
    Seq::new(
        q.len(),
        |i: int| q[i].with_size((q[i].spec_size() - taken_at(q, incoming, i)) as u64),
    )
}

/// What is left of an incoming size once the whole queue has been offered to it.
pub open spec fn unfilled(q: Seq<Order>, incoming: nat) -> nat {
    if incoming >= volume(q) {
        (incoming - volume(q)) as nat
    } else {
        0
    }
}

/// The queue without its orders of size zero, in the same order.
pub open spec fn live_orders(q: Seq<Order>) -> Seq<Order> {
    q.filter(|o: Order| o.spec_size() > 0)
}

impl Order {
    pub open spec fn spec_size(self) -> u64 {
        self.size
    }

    pub open spec fn spec_side(self) -> BidOrAsk {
        self.order_type
    }

    /// The same order with another remaining size.
    pub open spec fn with_size(self, size: u64) -> Order {
        Order { size, ..self }
    }

    pub fn new(size: u64, order_type: BidOrAsk) -> (r: Order)
        ensures
            r.spec_size() == size,
            r.spec_side() == order_type,
    {
        Order { size, order_type }
    }

    /// An order is filled once nothing of it remains.
    pub fn is_filled(&self) -> (r: bool)
        ensures
            r == (self.spec_size() == 0),
    {
        self.size == 0
    }

    pub fn size(&self) -> (r: u64)
        ensures
            r == self.spec_size(),
    {
        self.size
    }

    pub fn order_type(&self) -> (r: BidOrAsk)
        ensures
            r == self.spec_side(),
    {
        self.order_type
    }
}

proof fn lemma_volume_take_step(q: Seq<Order>, i: int)
    requires
        0 <= i < q.len(),
    ensures
        volume(q.take(i + 1)) == volume(q.take(i)) + q[i].spec_size(),
{
    assert(q.take(i + 1).drop_last() =~= q.take(i));
}

proof fn lemma_volume_take_monotone(q: Seq<Order>, i: int, j: int)
    requires
        0 <= i <= j <= q.len(),
    ensures
        volume(q.take(i)) <= volume(q.take(j)),
    decreases j - i,
{
    if i < j {
        lemma_volume_take_step(q, j - 1);
        lemma_volume_take_monotone(q, i, j - 1);
    }
}

proof fn lemma_take_full(q: Seq<Order>)
    ensures
        q.take(q.len() as int) == q,
{
    assert(q.take(q.len() as int) =~= q);
}

/// All orders resting at one exact price, oldest first.
#[derive(Debug, Clone)]
pub struct Limit {
    price: Price,
    orders: Vec<Order>,
}

impl Limit {
    pub closed spec fn spec_price(self) -> Price {
        self.price
    }

    /// The queue of resting orders, oldest first.
    pub closed spec fn queue(self) -> Seq<Order> {
        self.orders@
    }

    pub fn new(price: Price) -> (r: Limit)
        ensures
            r.spec_price() == price,
            r.queue() == Seq::<Order>::empty(),
    {
        Limit { price, orders: Vec::new() }
    }

    /// Puts an order at the tail of the queue.
    pub fn add_order(&mut self, order: Order)
        ensures
            final(self).spec_price() == old(self).spec_price(),
            final(self).queue() == old(self).queue().push(order),
    {
        self.orders.push(order);
    }

    /// Fills an incoming order against the queue, oldest resting order first.
    /// Each resting order absorbs what the orders before it left over, up to
    /// its own size; the scan stops once the incoming order is filled.
    pub fn fill_order(&mut self, order: &mut Order)
        ensures
            final(self).spec_price() == old(self).spec_price(),
            final(self).queue() == filled_queue(old(self).queue(), old(order).spec_size() as nat),
            *final(order) == old(order).with_size(
                unfilled(old(self).queue(), old(order).spec_size() as nat) as u64,
            ),
    {
        let ghost q = self.orders@;
        let ghost incoming = order.size as nat;
        let n = self.orders.len();
        let mut i: usize = 0;
        while i < n
            invariant
                n == q.len(),
                self.orders@.len() == n,
                self.price == old(self).price,
                q == old(self).orders@,
                incoming == old(order).size,
                0 <= i <= n,
                order.order_type == old(order).order_type,
                order.size == unfilled(q.take(i as int), incoming),
                forall|j: int| 0 <= j < i ==> #[trigger] self.orders@[j] == filled_queue(q, incoming)[j],
                forall|j: int| i <= j < n ==> #[trigger] self.orders@[j] == q[j],
            ensures
                i >= n || order.size == 0,
            decreases n - i,
        {
            proof {
                lemma_volume_take_step(q, i as int);
            }
            let resting = self.orders[i].size;
            if order.size >= resting {
                order.size = order.size - resting;
                self.orders[i].size = 0;
            } else {
                self.orders[i].size = resting - order.size;
                order.size = 0;
            }
            proof {
                assert(self.orders@[i as int] == filled_queue(q, incoming)[i as int]);
            }
            i = i + 1;
            if order.size == 0 {
                break;
            }
        }
        proof {
            if i < n {
                assert(incoming <= volume(q.take(i as int)));
                assert forall|j: int| i <= j < n implies #[trigger] self.orders@[j] == filled_queue(q, incoming)[j] by {
                    lemma_volume_take_monotone(q, i as int, j);
                }
                lemma_volume_take_monotone(q, i as int, n as int);
            }
            lemma_take_full(q);
            assert(self.orders@ =~= filled_queue(q, incoming));
            assert(order.size == unfilled(q, incoming));
        }
    }

    /// Sum of the remaining sizes of the resting orders.
    pub fn total_volume(&self) -> (r: u128)
        ensures
            r == volume(self.queue()),
    {
        let n = self.orders.len();
        let mut sum: u128 = 0;
        let mut i: usize = 0;
        while i < n
            invariant
                n == self.orders@.len(),
                0 <= i <= n,
                sum == volume(self.orders@.take(i as int)),
                sum <= i * (u64::MAX as int),
            decreases n - i,
        {
            proof {
                lemma_volume_take_step(self.orders@, i as int);
                assert(sum + self.orders@[i as int].size <= (i + 1) * (u64::MAX as int)
                    <= u128::MAX) by (nonlinear_arith)
                    requires
                        sum <= i * (u64::MAX as int),
                        self.orders@[i as int].size <= u64::MAX,
                        i < usize::MAX,
                        usize::MAX <= u64::MAX,
                ;
            }
            sum = sum + self.orders[i].size as u128;
            i = i + 1;
        }
        proof {
            lemma_take_full(self.orders@);
        }
        sum
    }

    /// Removes the orders of size zero, keeping the others in their order.
    pub fn compact(&mut self)
        ensures
            final(self).spec_price() == old(self).spec_price(),
            final(self).queue() == live_orders(old(self).queue()),
    {
        let ghost q = self.orders@;
        let mut kept: Vec<Order> = Vec::new();
        let n = self.orders.len();
        let mut i: usize = 0;
        while i < n
            invariant
                n == q.len(),
                q == self.orders@,
                0 <= i <= n,
                kept@ == live_orders(q.take(i as int)),
            decreases n - i,
        {
            proof {
                assert(q.take(i + 1).drop_last() =~= q.take(i as int));
                reveal(Seq::filter);
            }
            let o = self.orders[i];
            if o.size > 0 {
                kept.push(o);
            }
            i = i + 1;
        }
        proof {
            lemma_take_full(q);
        }
        self.orders = kept;
    }

    pub fn price(&self) -> (r: Price)
        ensures
            r == self.spec_price(),
    {
        self.price
    }

    pub fn orders(&self) -> (r: &Vec<Order>)
        ensures
            r@ == self.queue(),
    {
        &self.orders
    }
}

proof fn lemma_fill_prefix(q: Seq<Order>, incoming: nat, i: int)
    requires
        0 <= i <= q.len(),
    ensures
        volume(filled_queue(q, incoming).take(i)) + (if incoming <= volume(q.take(i)) {
            incoming
        } else {
            volume(q.take(i))
        }) == volume(q.take(i)),
    decreases i,
{
    if i > 0 {
        let f = filled_queue(q, incoming);
        lemma_fill_prefix(q, incoming, i - 1);
        lemma_volume_take_step(q, i - 1);
        lemma_volume_take_step(f, i - 1);
    } else {
        assert(q.take(0).len() == 0);
        assert(filled_queue(q, incoming).take(0).len() == 0);
    }
}

/// Filling conserves quantity: the size that leaves the resting orders is
/// exactly the size filled of the incoming order, so resting volume before
/// plus what is left of the incoming order equals resting volume after plus
/// the incoming size.
pub proof fn lemma_fill_conservation(q: Seq<Order>, incoming: nat)
    ensures
        volume(q) + unfilled(q, incoming) == volume(filled_queue(q, incoming)) + incoming,
{
    let f = filled_queue(q, incoming);
    lemma_fill_prefix(q, incoming, q.len() as int);
    lemma_take_full(q);
    lemma_take_full(f);
    assert(f.len() == q.len());
    assert(volume(f.take(q.len() as int)) == volume(f));
}

/// The queues of a side of the book, by price key.
pub open spec fn queues(m: Map<u64, Limit>) -> Map<u64, Seq<Order>> {
    m.map_values(|l: Limit| l.queue())
}

/// The levels of one side after an order is placed at price key `k`: appended
/// to the level's queue, or in a new level of its own.
pub open spec fn with_order_added(levels: Map<u64, Seq<Order>>, k: u64, order: Order) -> Map<
    u64,
    Seq<Order>,
> {
    if levels.contains_key(k) {
        levels.insert(k, levels[k].push(order))
    } else {
        levels.insert(k, seq![order])
    }
}

/// The levels of one side after an incoming size has been filled against the
/// level at price key `k`: the level keeps its live orders, and leaves the
/// book once none is left.
pub open spec fn after_market_fill(levels: Map<u64, Seq<Order>>, k: u64, incoming: nat) -> Map<
    u64,
    Seq<Order>,
> {
    let rest = live_orders(filled_queue(levels[k], incoming));
    if rest.len() == 0 {
        levels.remove(k)
    } else {
        levels.insert(k, rest)
    }
}

/// The error a market fill of `incoming` against the level at `k` reports,
/// if any.
pub open spec fn market_fill_error(levels: Map<u64, Seq<Order>>, k: u64, incoming: u64) -> Option<
    MatchError,
> {
    if !levels.contains_key(k) {
        Some(MatchError::UnknownPriceLevel)
    } else if volume(levels[k]) < incoming {
        Some(
            MatchError::InsufficientLiquidity {
                requested: incoming,
                available: volume(levels[k]) as u128,
            },
        )
    } else {
        None
    }
}

/// Resting limit orders of one market, bids and asks, each side grouped into
/// levels by exact price.
#[derive(Debug)]
pub struct OrderBook {
    asks: HashMap<u64, Limit>,
    bids: HashMap<u64, Limit>,
}

/// Each level of a side sits under its own price's key and holds at least
/// one order.
pub closed spec fn side_wf(m: Map<u64, Limit>) -> bool {
    forall|k: u64| #[trigger]
        m.contains_key(k) ==> m[k].spec_price().key() == k && m[k].queue().len() > 0
}

fn add_to_side(side: &mut HashMap<u64, Limit>, price: Price, order: Order)
    requires
        side_wf(old(side)@),
    ensures
        side_wf(final(side)@),
        queues(final(side)@) == with_order_added(queues(old(side)@), price.key(), order),
{
    let key = price.ticks();
    match side.remove(&key) {
        Some(mut limit) => {
            limit.add_order(order);
            side.insert(key, limit);
        },
        None => {
            let mut limit = Limit::new(price);
            limit.add_order(order);
            side.insert(key, limit);
        },
    }
    assert(queues(side@) =~= with_order_added(queues(old(side)@), key, order));
}

fn fill_side(side: &mut HashMap<u64, Limit>, price: Price, order: Order) -> (r: Result<
    (),
    MatchError,
>)
    requires
        side_wf(old(side)@),
    ensures
        side_wf(final(side)@),
        ({
            let levels = queues(old(side)@);
            let incoming = order.spec_size();
            match market_fill_error(levels, price.key(), incoming) {
                Some(e) => r == Err::<(), MatchError>(e) && queues(final(side)@) == levels,
                None => r is Ok && queues(final(side)@) == after_market_fill(
                    levels,
                    price.key(),
                    incoming as nat,
                ),
            }
        }),
{
    let key = price.ticks();
    let incoming = order.size;
    let ghost levels = queues(side@);
    match side.remove(&key) {
        None => Err(MatchError::UnknownPriceLevel),
        Some(mut limit) => {
            let available = limit.total_volume();
            if available < incoming as u128 {
                side.insert(key, limit);
                assert(queues(side@) =~= levels);
                Err(MatchError::InsufficientLiquidity { requested: incoming, available })
            } else {
                let mut order = order;
                limit.fill_order(&mut order);
                limit.compact();
                if limit.orders.len() > 0 {
                    side.insert(key, limit);
                }
                assert(queues(side@) =~= after_market_fill(levels, key, incoming as nat));
                Ok(())
            }
        },
    }
}

impl OrderBook {
    /// Every level sits under its own price's key and holds at least one order.
    pub closed spec fn wf(self) -> bool {
        side_wf(self.bids@) && side_wf(self.asks@)
    }

    /// The levels of one side: each price key with its queue, oldest first.
    pub closed spec fn levels(self, side: BidOrAsk) -> Map<u64, Seq<Order>> {
        match side {
            BidOrAsk::Bid => queues(self.bids@),
            BidOrAsk::Ask => queues(self.asks@),
        }
    }

    pub fn new() -> (r: OrderBook)
        ensures
            r.wf(),
            r.levels(BidOrAsk::Bid) == Map::<u64, Seq<Order>>::empty(),
            r.levels(BidOrAsk::Ask) == Map::<u64, Seq<Order>>::empty(),
    {
        let r = OrderBook { bids: HashMap::new(), asks: HashMap::new() };
        assert(r.levels(BidOrAsk::Bid) =~= Map::<u64, Seq<Order>>::empty());
        assert(r.levels(BidOrAsk::Ask) =~= Map::<u64, Seq<Order>>::empty());
        r
    }

    /// Fills an incoming order against the level at `price` on the opposite
    /// side, provided the level exists and holds at least the order's size.
    /// Otherwise the book is left as it was and the reason is reported. After
    /// a fill the level drops its filled orders, and leaves the book if none
    /// remains.
    pub fn fill_market_order(&mut self, price: Price, order: Order) -> (r: Result<(), MatchError>)
        requires
            old(self).wf(),
        ensures
            final(self).wf(),
            final(self).levels(order.spec_side()) == old(self).levels(order.spec_side()),
            ({
                let levels = old(self).levels(order.spec_side().opposite());
                let after = final(self).levels(order.spec_side().opposite());
                match market_fill_error(levels, price.key(), order.spec_size()) {
                    Some(e) => r == Err::<(), MatchError>(e) && after == levels,
                    None => r is Ok && after == after_market_fill(
                        levels,
                        price.key(),
                        order.spec_size() as nat,
                    ),
                }
            }),
    {
        match order.order_type {
            BidOrAsk::Bid => fill_side(&mut self.asks, price, order),
            BidOrAsk::Ask => fill_side(&mut self.bids, price, order),
        }
    }

    /// Rests an order at `price` on its own side, at the tail of that price's
    /// queue, opening the level if it is new. The opposite side is not
    /// consulted: placing never crosses the book.
    pub fn add_limit_order(&mut self, price: Price, order: Order)
        requires
            old(self).wf(),
        ensures
            final(self).wf(),
            final(self).levels(order.spec_side()) == with_order_added(
                old(self).levels(order.spec_side()),
                price.key(),
                order,
            ),
            final(self).levels(order.spec_side().opposite()) == old(self).levels(
                order.spec_side().opposite(),
            ),
    {
        match order.order_type {
            BidOrAsk::Bid => add_to_side(&mut self.bids, price, order),
            BidOrAsk::Ask => add_to_side(&mut self.asks, price, order),
        }
    }

    /// The level at `price` on one side, if there is one.
    pub fn limit(&self, side: BidOrAsk, price: Price) -> (r: Option<&Limit>)
        requires
            self.wf(),
        ensures
            r is Some <==> self.levels(side).contains_key(price.key()),
            r is Some ==> r->Some_0.spec_price().key() == price.key(),
            r is Some ==> r->Some_0.queue() == self.levels(side)[price.key()],
    {
        let key = price.ticks();
        match side {
            BidOrAsk::Bid => self.bids.get(&key),
            BidOrAsk::Ask => self.asks.get(&key),
        }
    }
}

} // verus!
