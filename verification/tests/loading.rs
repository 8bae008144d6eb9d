use bursa::loader::{read_stock_file_to_vector, read_user_rule_file_to_hashmap};
use bursa::model::{MarketError, OrderType, UserRule};

fn price_of(field: &str) -> Result<i64, MarketError> {
    let line = format!("X,{},1", field);
    read_stock_file_to_vector(Some(&line)).map(|stocks| stocks[0].price)
}

fn volume_of(field: &str) -> Result<i32, MarketError> {
    let line = format!("X,1,{}", field);
    read_stock_file_to_vector(Some(&line)).map(|stocks| stocks[0].volume)
}

const BAD_FIRST_LINE: MarketError = MarketError::ParseError { line: 0 };

#[test]
fn one_line_gives_one_instrument() {
    let stocks = read_stock_file_to_vector(Some("AAA,10.00,100")).unwrap();
    assert_eq!(stocks.len(), 1);
    assert_eq!(stocks[0].symbol, "AAA");
    assert_eq!(stocks[0].price, 1000);
    assert_eq!(stocks[0].volume, 100);
}

#[test]
fn instruments_come_in_file_order() {
    let text = "AAA,10.00,100\nBBB,20.5,-7\nccc,0.07,0\n";
    let stocks = read_stock_file_to_vector(Some(text)).unwrap();
    assert_eq!(stocks.len(), 3);
    assert_eq!(stocks[0].symbol, "AAA");
    assert_eq!(stocks[1].symbol, "BBB");
    assert_eq!(stocks[2].symbol, "ccc");
    assert_eq!(stocks[1].price, 2050);
    assert_eq!(stocks[1].volume, -7);
    assert_eq!(stocks[2].price, 7);
}

#[test]
fn a_last_line_needs_no_line_feed() {
    let with = read_stock_file_to_vector(Some("A,1,1\nB,2,2\n")).unwrap();
    let without = read_stock_file_to_vector(Some("A,1,1\nB,2,2")).unwrap();
    assert_eq!(with, without);
    assert_eq!(with.len(), 2);
}

#[test]
fn a_carriage_return_before_a_line_feed_is_no_part_of_the_line() {
    let stocks = read_stock_file_to_vector(Some("A,1,10\r\nB,2,20\r\n")).unwrap();
    assert_eq!(stocks.len(), 2);
    assert_eq!(stocks[0].volume, 10);
    assert_eq!(stocks[1].volume, 20);
}

#[test]
fn a_carriage_return_without_a_line_feed_stays_in_the_line() {
    let loaded = read_stock_file_to_vector(Some("A,1,10\r"));
    assert_eq!(loaded, Err(BAD_FIRST_LINE));
}

#[test]
fn a_missing_instrument_file_gives_no_instruments() {
    assert_eq!(read_stock_file_to_vector(None).unwrap().len(), 0);
}

#[test]
fn an_empty_instrument_file_gives_no_instruments() {
    assert_eq!(read_stock_file_to_vector(Some("")).unwrap().len(), 0);
}

#[test]
fn an_empty_line_fails_the_load() {
    let loaded = read_stock_file_to_vector(Some("A,1,1\n\nB,2,2\n"));
    assert_eq!(loaded, Err(MarketError::ParseError { line: 1 }));
}

#[test]
fn a_wrong_field_count_fails_the_load() {
    assert_eq!(read_stock_file_to_vector(Some("AAA,10.00")), Err(BAD_FIRST_LINE));
    assert_eq!(read_stock_file_to_vector(Some("AAA,10.00,100,7")), Err(BAD_FIRST_LINE));
    assert_eq!(read_stock_file_to_vector(Some("AAA")), Err(BAD_FIRST_LINE));
}

#[test]
fn the_first_bad_line_is_named() {
    let text = "A,1,1\nB,2,2\nC,x,3\nD,y,4\n";
    assert_eq!(read_stock_file_to_vector(Some(text)), Err(MarketError::ParseError { line: 2 }));
}

#[test]
fn a_price_that_is_no_number_fails_the_load() {
    assert_eq!(price_of("abc"), Err(BAD_FIRST_LINE));
    assert_eq!(price_of(""), Err(BAD_FIRST_LINE));
    assert_eq!(price_of("."), Err(BAD_FIRST_LINE));
    assert_eq!(price_of("-"), Err(BAD_FIRST_LINE));
    assert_eq!(price_of("1.2.3"), Err(BAD_FIRST_LINE));
    assert_eq!(price_of("1e3"), Err(BAD_FIRST_LINE));
    assert_eq!(price_of(" 1"), Err(BAD_FIRST_LINE));
    assert_eq!(price_of("1-"), Err(BAD_FIRST_LINE));
    assert_eq!(price_of("--1"), Err(BAD_FIRST_LINE));
    assert_eq!(price_of("1.x"), Err(BAD_FIRST_LINE));
}

#[test]
fn a_volume_that_is_no_integer_fails_the_load() {
    assert_eq!(volume_of("abc"), Err(BAD_FIRST_LINE));
    assert_eq!(volume_of(""), Err(BAD_FIRST_LINE));
    assert_eq!(volume_of("1.0"), Err(BAD_FIRST_LINE));
    assert_eq!(volume_of("-"), Err(BAD_FIRST_LINE));
    assert_eq!(volume_of("+"), Err(BAD_FIRST_LINE));
    assert_eq!(volume_of("1 "), Err(BAD_FIRST_LINE));
}

#[test]
fn a_price_is_kept_in_hundredths() {
    assert_eq!(price_of("10.00"), Ok(1000));
    assert_eq!(price_of("12.0"), Ok(1200));
    assert_eq!(price_of("12"), Ok(1200));
    assert_eq!(price_of("0.07"), Ok(7));
    assert_eq!(price_of(".5"), Ok(50));
    assert_eq!(price_of("5."), Ok(500));
    assert_eq!(price_of("+3.2"), Ok(320));
    assert_eq!(price_of("-3.25"), Ok(-325));
    assert_eq!(price_of("0"), Ok(0));
    assert_eq!(price_of("-0.00"), Ok(0));
    assert_eq!(price_of("007.10"), Ok(710));
}

#[test]
fn a_price_is_rounded_to_the_nearest_hundredth() {
    assert_eq!(price_of("1.004"), Ok(100));
    assert_eq!(price_of("1.005"), Ok(101));
    assert_eq!(price_of("1.0049999"), Ok(100));
    assert_eq!(price_of("1.0050001"), Ok(101));
    assert_eq!(price_of("-1.005"), Ok(-101));
    assert_eq!(price_of("-1.004"), Ok(-100));
    assert_eq!(price_of("0.999"), Ok(100));
    assert_eq!(price_of("3.14159"), Ok(314));
}

#[test]
fn the_greatest_and_the_least_price_are_read() {
    assert_eq!(price_of("92233720368547758.07"), Ok(i64::MAX));
    assert_eq!(price_of("92233720368547758.08"), Err(BAD_FIRST_LINE));
    assert_eq!(price_of("-92233720368547758.08"), Ok(i64::MIN));
    assert_eq!(price_of("-92233720368547758.09"), Err(BAD_FIRST_LINE));
    assert_eq!(price_of("92233720368547758.074"), Ok(i64::MAX));
    assert_eq!(price_of("92233720368547758.075"), Err(BAD_FIRST_LINE));
    assert_eq!(price_of("99999999999999999999999999999999999999999"), Err(BAD_FIRST_LINE));
    assert_eq!(price_of("00000000000000000000000000000000000000001.00"), Ok(100));
}

#[test]
fn the_greatest_and_the_least_volume_are_read() {
    assert_eq!(volume_of("2147483647"), Ok(i32::MAX));
    assert_eq!(volume_of("2147483648"), Err(BAD_FIRST_LINE));
    assert_eq!(volume_of("-2147483648"), Ok(i32::MIN));
    assert_eq!(volume_of("-2147483649"), Err(BAD_FIRST_LINE));
    assert_eq!(volume_of("+17"), Ok(17));
    assert_eq!(volume_of("-0"), Ok(0));
    assert_eq!(volume_of("000000000000000000000000012"), Ok(12));
    assert_eq!(volume_of("123456789012345678901234567890"), Err(BAD_FIRST_LINE));
}

#[test]
fn a_symbol_is_kept_as_written() {
    let stocks = read_stock_file_to_vector(Some("aB c\u{e9},1,1\n,2,2")).unwrap();
    assert_eq!(stocks[0].symbol, "aB c\u{e9}");
    assert_eq!(stocks[1].symbol, "");
}

#[test]
fn one_line_of_orders_gives_one_symbol() {
    let book = read_user_rule_file_to_hashmap(Some("AAA:1,Bid,12.0,50")).unwrap();
    assert_eq!(book.len(), 1);
    assert!(book.contains("AAA"));
    assert_eq!(
        book.read_standing_orders("AAA"),
        vec![UserRule { user_id: 1, order: OrderType::Bid, price: 1200, volume: 50 }]
    );
}

#[test]
fn the_key_set_is_the_symbols_present() {
    let text = "AAA:1,Bid,12.0,50\nBBB:2,Ask,3,1;3,Start,0,0\nCCC:4,Bid,1,1\n";
    let book = read_user_rule_file_to_hashmap(Some(text)).unwrap();
    assert_eq!(book.len(), 3);
    assert!(book.contains("AAA"));
    assert!(book.contains("BBB"));
    assert!(book.contains("CCC"));
    assert!(!book.contains("DDD"));
    assert!(!book.contains("aaa"));
    assert!(!book.contains(""));
}

#[test]
fn orders_keep_the_order_of_their_line() {
    let text = "AAA:3,Ask,9.99,5;1,Bid,12.0,50;2,Start,0,0;1,Bid,12.0,50";
    let book = read_user_rule_file_to_hashmap(Some(text)).unwrap();
    assert_eq!(
        book.read_standing_orders("AAA"),
        vec![
            UserRule { user_id: 3, order: OrderType::Ask, price: 999, volume: 5 },
            UserRule { user_id: 1, order: OrderType::Bid, price: 1200, volume: 50 },
            UserRule { user_id: 2, order: OrderType::Start, price: 0, volume: 0 },
            UserRule { user_id: 1, order: OrderType::Bid, price: 1200, volume: 50 },
        ]
    );
}

#[test]
fn a_later_line_replaces_an_earlier_one_for_the_same_symbol() {
    let text = "AAA:1,Bid,1,1\nBBB:2,Bid,2,2\nAAA:3,Ask,3,3\n";
    let book = read_user_rule_file_to_hashmap(Some(text)).unwrap();
    assert_eq!(book.len(), 2);
    assert_eq!(
        book.read_standing_orders("AAA"),
        vec![UserRule { user_id: 3, order: OrderType::Ask, price: 300, volume: 3 }]
    );
    assert_eq!(
        book.read_standing_orders("BBB"),
        vec![UserRule { user_id: 2, order: OrderType::Bid, price: 200, volume: 2 }]
    );
}

#[test]
fn a_missing_file_of_orders_gives_an_empty_book() {
    let book = read_user_rule_file_to_hashmap(None).unwrap();
    assert_eq!(book.len(), 0);
    assert_eq!(book.read_standing_orders("AAA"), vec![]);
}

#[test]
fn an_empty_file_of_orders_gives_an_empty_book() {
    let book = read_user_rule_file_to_hashmap(Some("")).unwrap();
    assert_eq!(book.len(), 0);
}

#[test]
fn an_unknown_kind_fails_the_load() {
    for word in ["bid", "BID", "Buy", "", "Bid ", "Starts", "ask"] {
        let line = format!("AAA:1,{},12.0,50", word);
        let loaded = read_user_rule_file_to_hashmap(Some(&line));
        assert!(matches!(loaded, Err(MarketError::ParseError { line: 0 })), "{}", word);
    }
}

#[test]
fn a_malformed_line_of_orders_fails_the_load() {
    for line in [
        "AAA",
        "AAA:",
        "AAA:1,Bid,12.0",
        "AAA:1,Bid,12.0,50,9",
        "AAA:1,Bid,12.0,50;",
        "AAA:;1,Bid,12.0,50",
        "AAA:1,Bid,12.0,50:2,Ask,1,1",
        "AAA:x,Bid,12.0,50",
        "AAA:1,Bid,twelve,50",
        "AAA:1,Bid,12.0,5.5",
        "",
    ] {
        let text = format!("OK:1,Bid,1,1\n{}\n", line);
        let loaded = read_user_rule_file_to_hashmap(Some(&text));
        assert!(matches!(loaded, Err(MarketError::ParseError { line: 1 })), "{:?}", line);
    }
}

#[test]
fn each_kind_is_read_back_from_its_word() {
    for kind in [OrderType::Start, OrderType::Bid, OrderType::Ask] {
        assert_eq!(OrderType::parse(kind.name()), Some(kind));
    }
    assert_eq!(OrderType::Start.name(), "Start");
    assert_eq!(OrderType::Bid.name(), "Bid");
    assert_eq!(OrderType::Ask.name(), "Ask");
    assert_eq!(OrderType::parse("start"), None);
    assert_eq!(OrderType::parse("Bi"), None);
    assert_eq!(OrderType::parse("Askk"), None);
    assert_eq!(OrderType::parse(""), None);
}
