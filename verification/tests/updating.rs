use bursa::model::{MarketError, Order, OrderType, Stock, UserRule};
use bursa::price::{scale_price, FACTOR_SCALE};
use bursa::updater::{
    apply_rule, factor_bounds, simplified_update_stock_price, update_stock_price,
    update_stock_price_by,
};
use rand::rngs::StdRng;
use rand::{Rng, SeedableRng};

fn stock(symbol: &str, price: i64, volume: i32) -> Stock {
    Stock { symbol: symbol.to_string(), price, volume }
}

fn rule(order: OrderType, volume: i32) -> UserRule {
    UserRule { user_id: 7, order, price: 1200, volume }
}

fn item(stock_id: usize, order: OrderType, volume: i32) -> Order {
    Order { stock_id, user_rule: rule(order, volume) }
}

#[test]
fn the_factor_one_leaves_a_price_as_it_is() {
    assert_eq!(FACTOR_SCALE, 1_000_000);
    for price in [0, 1, -1, 1000, -1000, i64::MAX, i64::MIN] {
        assert_eq!(scale_price(price, FACTOR_SCALE), Some(price));
    }
}

#[test]
fn a_price_times_a_factor_is_rounded_to_the_nearest_hundredth() {
    assert_eq!(scale_price(1000, 1_100_000), Some(1100));
    assert_eq!(scale_price(1000, 800_000), Some(800));
    assert_eq!(scale_price(1000, 1_199_999), Some(1200));
    assert_eq!(scale_price(1000, 1_199_499), Some(1199));
    assert_eq!(scale_price(1000, 1_199_500), Some(1200));
    assert_eq!(scale_price(333, 1_000_001), Some(333));
    assert_eq!(scale_price(3, 833_333), Some(2));
    assert_eq!(scale_price(3, 833_334), Some(3));
    assert_eq!(scale_price(0, 1_150_000), Some(0));
    assert_eq!(scale_price(1000, 0), Some(0));
}

#[test]
fn a_tie_goes_away_from_zero() {
    assert_eq!(scale_price(1, 500_000), Some(1));
    assert_eq!(scale_price(-1, 500_000), Some(-1));
    assert_eq!(scale_price(1, 499_999), Some(0));
    assert_eq!(scale_price(-1, 499_999), Some(0));
    assert_eq!(scale_price(5, 900_000), Some(5));
    assert_eq!(scale_price(-5, 900_000), Some(-5));
    assert_eq!(scale_price(15, 1_100_000), Some(17));
    assert_eq!(scale_price(-15, 1_100_000), Some(-17));
}

#[test]
fn a_price_that_cannot_be_held_is_refused() {
    assert_eq!(scale_price(i64::MAX, 1_000_001), None);
    assert_eq!(scale_price(i64::MIN, 1_000_001), None);
    assert_eq!(scale_price(i64::MAX, 999_999), Some(9_223_362_813_482_738_952));
    assert_eq!(scale_price(i64::MIN, 999_999), Some(-9_223_362_813_482_738_953));
    assert_eq!(scale_price(i64::MAX, u32::MAX), None);
    assert_eq!(scale_price(7_686_143_364_045_646_000, 1_200_000), Some(9_223_372_036_854_775_200));
    assert_eq!(scale_price(7_686_143_364_045_647_000, 1_200_000), None);
}

#[test]
fn each_kind_has_its_range_of_factors() {
    assert_eq!(factor_bounds(OrderType::Start), (800_000, 1_200_000));
    assert_eq!(factor_bounds(OrderType::Bid), (1_000_000, 1_200_000));
    assert_eq!(factor_bounds(OrderType::Ask), (800_000, 1_000_000));
}

#[test]
fn a_request_to_price_anew_leaves_the_volume() {
    let fresh = apply_rule(&stock("AAA", 1000, 100), &rule(OrderType::Start, 50), 900_000).unwrap();
    assert_eq!(fresh, stock("AAA", 900, 100));
}

#[test]
fn a_bid_takes_its_quantity_from_the_volume() {
    let fresh = apply_rule(&stock("AAA", 1000, 100), &rule(OrderType::Bid, 50), 1_100_000).unwrap();
    assert_eq!(fresh, stock("AAA", 1100, 50));
}

#[test]
fn an_ask_gives_its_quantity_to_the_volume() {
    let fresh = apply_rule(&stock("AAA", 1000, 100), &rule(OrderType::Ask, 50), 950_000).unwrap();
    assert_eq!(fresh, stock("AAA", 950, 150));
}

#[test]
fn the_volume_may_go_below_zero() {
    let fresh = apply_rule(&stock("AAA", 1000, 10), &rule(OrderType::Bid, 50), 1_000_000).unwrap();
    assert_eq!(fresh.volume, -40);
    let again = apply_rule(&fresh, &rule(OrderType::Bid, 50), 1_000_000).unwrap();
    assert_eq!(again.volume, -90);
}

#[test]
fn a_volume_that_cannot_be_held_is_refused() {
    assert!(apply_rule(&stock("A", 1, i32::MIN), &rule(OrderType::Bid, 1), 1_000_000).is_none());
    assert!(apply_rule(&stock("A", 1, i32::MAX), &rule(OrderType::Ask, 1), 1_000_000).is_none());
    assert!(apply_rule(&stock("A", 1, 0), &rule(OrderType::Bid, i32::MIN), 1_000_000).is_none());
    assert_eq!(
        apply_rule(&stock("A", 1, i32::MAX), &rule(OrderType::Bid, i32::MAX), 1_000_000),
        Some(stock("A", 1, 0))
    );
    assert_eq!(
        apply_rule(&stock("A", 1, i32::MIN), &rule(OrderType::Start, 1), 1_000_000),
        Some(stock("A", 1, i32::MIN))
    );
    assert_eq!(
        apply_rule(&stock("A", 1, -1), &rule(OrderType::Ask, i32::MIN), 1_000_000),
        None
    );
    assert_eq!(
        apply_rule(&stock("A", 1, 0), &rule(OrderType::Ask, i32::MIN), 1_000_000),
        Some(stock("A", 1, i32::MIN))
    );
}

#[test]
fn every_update_stores_the_symbol_in_upper_case() {
    for order in [OrderType::Start, OrderType::Bid, OrderType::Ask] {
        let fresh = apply_rule(&stock("aBc-1z\u{e9}", 1000, 100), &rule(order, 1), 1_000_000);
        assert_eq!(fresh.unwrap().symbol, "ABC-1Z\u{e9}");
    }
    let same = apply_rule(&stock("XYZ", 1000, 100), &rule(OrderType::Start, 1), 1_000_000);
    assert_eq!(same.unwrap().symbol, "XYZ");
}

#[test]
fn an_update_replaces_one_instrument_and_announces_it() {
    let mut stocks = vec![stock("aaa", 1000, 100), stock("bbb", 2000, 200), stock("ccc", 1, 1)];
    let announced = update_stock_price_by(item(1, OrderType::Bid, 30), &mut stocks, 1_050_000);
    assert_eq!(announced, Ok(1));
    assert_eq!(
        stocks,
        vec![stock("aaa", 1000, 100), stock("BBB", 2100, 170), stock("ccc", 1, 1)]
    );
}

#[test]
fn a_position_out_of_range_changes_nothing() {
    let mut stocks = vec![stock("aaa", 1000, 100)];
    let before = stocks.clone();
    assert_eq!(
        update_stock_price_by(item(1, OrderType::Start, 0), &mut stocks, 1_000_000),
        Err(MarketError::IndexOutOfRange)
    );
    assert_eq!(update_stock_price(1, item(7, OrderType::Bid, 1), &mut stocks), Err(MarketError::IndexOutOfRange));
    assert_eq!(
        simplified_update_stock_price(item(usize::MAX, OrderType::Ask, 1), &mut stocks),
        Err(MarketError::IndexOutOfRange)
    );
    assert_eq!(stocks, before);
    let mut none: Vec<Stock> = vec![];
    assert_eq!(update_stock_price(1, item(0, OrderType::Start, 0), &mut none), Err(MarketError::IndexOutOfRange));
}

#[test]
fn an_outcome_that_cannot_be_held_changes_nothing() {
    let mut stocks = vec![stock("aaa", i64::MAX, 100), stock("bbb", 1, i32::MIN)];
    let before = stocks.clone();
    assert_eq!(
        update_stock_price_by(item(0, OrderType::Start, 0), &mut stocks, 1_100_000),
        Err(MarketError::Overflow)
    );
    assert_eq!(
        update_stock_price_by(item(1, OrderType::Bid, 1), &mut stocks, 1_000_000),
        Err(MarketError::Overflow)
    );
    assert_eq!(update_stock_price(3, item(1, OrderType::Bid, 1), &mut stocks), Err(MarketError::Overflow));
    assert_eq!(stocks, before);
}

#[test]
fn the_same_factor_gives_the_same_outcome() {
    let mut source = StdRng::seed_from_u64(2024);
    for _ in 0..200 {
        let factor: u32 = source.gen_range(800_000..1_200_000);
        let mut one = vec![stock("aaa", 123_456, 100), stock("bbb", 2000, 200)];
        let mut other = one.clone();
        let first = update_stock_price_by(item(0, OrderType::Start, 0), &mut one, factor);
        let second = update_stock_price_by(item(0, OrderType::Start, 0), &mut other, factor);
        assert_eq!(first, Ok(0));
        assert_eq!(first, second);
        assert_eq!(one, other);
        assert_eq!(one[0].volume, 100);
        assert_eq!(one[0].symbol, "AAA");
        let exact = 123_456i128 * factor as i128;
        assert!((one[0].price as i128 * 1_000_000 - exact).abs() * 2 <= 1_000_000);
        assert!(98_765 <= one[0].price && one[0].price <= 148_147);
    }
}

#[test]
fn a_fixed_source_gives_a_fixed_run() {
    let run = |seed: u64| {
        let mut source = StdRng::seed_from_u64(seed);
        let mut stocks = vec![stock("aaa", 1000, 100), stock("bbb", 2000, 200)];
        for step in 0..50usize {
            let order = match step % 3 {
                0 => OrderType::Start,
                1 => OrderType::Bid,
                _ => OrderType::Ask,
            };
            let (low, high) = factor_bounds(order);
            let factor: u32 = source.gen_range(low..high);
            assert_eq!(update_stock_price_by(item(step % 2, order, 3), &mut stocks, factor), Ok(step % 2));
        }
        stocks
    };
    assert_eq!(run(1), run(1));
    assert_eq!(run(99), run(99));
    assert_ne!(run(1), run(99));
}

#[test]
fn a_drawn_factor_keeps_to_the_range_of_the_kind() {
    let start: i64 = 1_000_000_000;
    let mut seen_start = std::collections::BTreeSet::new();
    for worker in 0..300 {
        let mut stocks = vec![stock("aaa", start, 100)];
        assert_eq!(update_stock_price(worker, item(0, OrderType::Start, 5), &mut stocks), Ok(0));
        assert!(800_000_000 <= stocks[0].price && stocks[0].price < 1_200_000_000);
        assert_eq!(stocks[0].volume, 100);
        assert_eq!(stocks[0].symbol, "AAA");
        seen_start.insert(stocks[0].price);

        let mut stocks = vec![stock("aaa", start, 100)];
        assert_eq!(update_stock_price(worker, item(0, OrderType::Bid, 5), &mut stocks), Ok(0));
        assert!(1_000_000_000 <= stocks[0].price && stocks[0].price < 1_200_000_000);
        assert_eq!(stocks[0].volume, 95);

        let mut stocks = vec![stock("aaa", start, 100)];
        assert_eq!(simplified_update_stock_price(item(0, OrderType::Ask, 5), &mut stocks), Ok(0));
        assert!(800_000_000 <= stocks[0].price && stocks[0].price < 1_000_000_000);
        assert_eq!(stocks[0].volume, 105);
    }
    assert!(seen_start.len() > 1);
}
