use match_engine::error::MatchError;
use match_engine::orderbook::{BidOrAsk, Limit, Order, OrderBook};
use match_engine::price::{Price, SCALER};

#[test]
fn limit_order_single_fill() {
    let price = Price::new(10000, 0).unwrap();
    let mut limit = Limit::new(price);

    let buy_limit_order = Order::new(100, BidOrAsk::Bid);

    limit.add_order(buy_limit_order);

    let mut market_sell_order = Order::new(96, BidOrAsk::Ask);

    limit.fill_order(&mut market_sell_order);

    assert_eq!(market_sell_order.is_filled(), true);
    assert_eq!(limit.orders().get(0).unwrap().size, 4);
}

#[test]
fn limit_order_multiple_fill() {
    let price = Price::new(10000, 0).unwrap();
    let mut limit = Limit::new(price);

    let buy_limit_order_a = Order::new(100, BidOrAsk::Bid);
    let buy_limit_order_b = Order::new(155, BidOrAsk::Bid);

    limit.add_order(buy_limit_order_a);
    limit.add_order(buy_limit_order_b);

    let mut market_sell_order_a = Order::new(50, BidOrAsk::Ask);

    let mut market_sell_order_b = Order::new(56, BidOrAsk::Ask);

    limit.fill_order(&mut market_sell_order_a);

    limit.fill_order(&mut market_sell_order_b);

    assert_eq!(market_sell_order_a.is_filled(), true);
    assert_eq!(market_sell_order_b.is_filled(), true);

    assert_eq!(limit.orders().get(1).unwrap().size, 149);
}

#[test]
fn total_limit() {
    let price = Price::new(10000, 0).unwrap();
    let mut limit = Limit::new(price);

    let buy_limit_order_a = Order::new(100, BidOrAsk::Bid);
    let buy_limit_order_b = Order::new(155, BidOrAsk::Bid);

    limit.add_order(buy_limit_order_a);
    limit.add_order(buy_limit_order_b);

    assert_eq!(limit.total_volume(), 255);
}

#[test]
fn price_round_trip_through_ticks() {
    for ticks in [0u64, 1, 99_999, 100_000, 1_050_000, 1_000_000_000, u64::MAX] {
        assert_eq!(Price::from_ticks(ticks).ticks(), ticks);
    }
    let p = Price::from_ticks(1_050_000);
    assert_eq!(p.integral(), 10);
    assert_eq!(p.fractional(), 50_000);
    assert_eq!(p.scaler(), SCALER);
}

#[test]
fn price_from_parts_matches_ticks() {
    let p = Price::new(10, 50_000).unwrap();
    assert_eq!(p.ticks(), 1_050_000);
    assert_eq!(p, Price::from_ticks(1_050_000));
    assert_ne!(p, Price::from_ticks(1_050_001));
    assert_eq!(Price::from_ticks(123_456_789), Price::from_ticks(123_456_789));
}

#[test]
fn price_rejects_bad_parts() {
    assert_eq!(Price::new(1, SCALER), Err(MatchError::InvalidPrice));
    assert_eq!(Price::new(u64::MAX, 0), Err(MatchError::InvalidPrice));
    let top = u64::MAX / SCALER;
    let rest = u64::MAX % SCALER;
    assert_eq!(Price::new(top, rest).unwrap().ticks(), u64::MAX);
    assert_eq!(Price::new(top, rest + 1), Err(MatchError::InvalidPrice));
}

#[test]
fn fill_conserves_quantity() {
    let mut limit = Limit::new(Price::from_ticks(500));
    limit.add_order(Order::new(30, BidOrAsk::Bid));
    limit.add_order(Order::new(20, BidOrAsk::Bid));
    let before = limit.total_volume();
    let mut incoming = Order::new(70, BidOrAsk::Ask);
    limit.fill_order(&mut incoming);
    assert_eq!(before + incoming.size as u128, limit.total_volume() + 70);
    assert_eq!(incoming.size, 20);
    assert_eq!(limit.total_volume(), 0);
    assert_eq!(incoming.order_type(), BidOrAsk::Ask);
}

#[test]
fn fill_stops_when_incoming_is_filled() {
    let mut limit = Limit::new(Price::from_ticks(500));
    limit.add_order(Order::new(10, BidOrAsk::Ask));
    limit.add_order(Order::new(10, BidOrAsk::Ask));
    limit.add_order(Order::new(10, BidOrAsk::Ask));
    let mut incoming = Order::new(10, BidOrAsk::Bid);
    limit.fill_order(&mut incoming);
    assert!(incoming.is_filled());
    let sizes: Vec<u64> = limit.orders().iter().map(|o| o.size()).collect();
    assert_eq!(sizes, vec![0, 10, 10]);
}

#[test]
fn compact_drops_filled_orders() {
    let mut limit = Limit::new(Price::from_ticks(500));
    limit.add_order(Order::new(100, BidOrAsk::Bid));
    limit.add_order(Order::new(155, BidOrAsk::Bid));
    let mut incoming = Order::new(120, BidOrAsk::Ask);
    limit.fill_order(&mut incoming);
    limit.compact();
    assert_eq!(limit.orders().len(), 1);
    assert_eq!(limit.orders()[0].size, 135);
    assert_eq!(limit.price(), Price::from_ticks(500));
}

#[test]
fn limit_orders_rest_on_their_own_side() {
    let mut book = OrderBook::new();
    let p = Price::new(5, 50_000).unwrap();
    book.add_limit_order(p, Order::new(10, BidOrAsk::Bid));
    book.add_limit_order(p, Order::new(7, BidOrAsk::Bid));
    book.add_limit_order(Price::new(4, 0).unwrap(), Order::new(3, BidOrAsk::Ask));
    let bids = book.limit(BidOrAsk::Bid, p).unwrap();
    assert_eq!(bids.orders().len(), 2);
    assert_eq!(bids.orders()[0].size, 10);
    assert_eq!(bids.orders()[1].size, 7);
    assert!(book.limit(BidOrAsk::Ask, p).is_none());
    assert_eq!(book.limit(BidOrAsk::Ask, Price::new(4, 0).unwrap()).unwrap().total_volume(), 3);
}

#[test]
fn crossed_placement_rests_without_matching() {
    let mut book = OrderBook::new();
    let p = Price::new(4, 0).unwrap();
    book.add_limit_order(p, Order::new(10, BidOrAsk::Ask));
    book.add_limit_order(p, Order::new(10, BidOrAsk::Bid));
    assert_eq!(book.limit(BidOrAsk::Ask, p).unwrap().total_volume(), 10);
    assert_eq!(book.limit(BidOrAsk::Bid, p).unwrap().total_volume(), 10);
}

#[test]
fn market_fill_matches_opposite_side() {
    let mut book = OrderBook::new();
    let p = Price::new(100, 0).unwrap();
    book.add_limit_order(p, Order::new(100, BidOrAsk::Bid));
    book.add_limit_order(p, Order::new(155, BidOrAsk::Bid));
    assert_eq!(book.fill_market_order(p, Order::new(120, BidOrAsk::Ask)), Ok(()));
    let level = book.limit(BidOrAsk::Bid, p).unwrap();
    assert_eq!(level.orders().len(), 1);
    assert_eq!(level.orders()[0].size, 135);
    assert_eq!(
        book.fill_market_order(p, Order::new(1, BidOrAsk::Bid)),
        Err(MatchError::UnknownPriceLevel)
    );
}

#[test]
fn market_fill_evicts_emptied_level() {
    let mut book = OrderBook::new();
    let p = Price::new(100, 0).unwrap();
    book.add_limit_order(p, Order::new(40, BidOrAsk::Ask));
    assert_eq!(book.fill_market_order(p, Order::new(40, BidOrAsk::Bid)), Ok(()));
    assert!(book.limit(BidOrAsk::Ask, p).is_none());
}

#[test]
fn market_fill_unknown_price_level() {
    let mut book = OrderBook::new();
    book.add_limit_order(Price::new(100, 0).unwrap(), Order::new(40, BidOrAsk::Ask));
    assert_eq!(
        book.fill_market_order(Price::new(101, 0).unwrap(), Order::new(1, BidOrAsk::Bid)),
        Err(MatchError::UnknownPriceLevel)
    );
}

#[test]
fn market_fill_insufficient_liquidity_leaves_book() {
    let mut book = OrderBook::new();
    let p = Price::new(100, 0).unwrap();
    book.add_limit_order(p, Order::new(100, BidOrAsk::Bid));
    book.add_limit_order(p, Order::new(155, BidOrAsk::Bid));
    assert_eq!(
        book.fill_market_order(p, Order::new(300, BidOrAsk::Ask)),
        Err(MatchError::InsufficientLiquidity { requested: 300, available: 255 })
    );
    let level = book.limit(BidOrAsk::Bid, p).unwrap();
    assert_eq!(level.orders()[0].size, 100);
    assert_eq!(level.orders()[1].size, 155);
}
