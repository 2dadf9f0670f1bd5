use fire_engine::schema::{default_page, default_page_size, ErrorJson, ErrorType, Pagination};
use fire_engine::trades::{holding_after_trade, holding_change, Country, HoldingAction, TradeType};

#[test]
fn pagination_defaults() {
    assert_eq!(default_page_size(), 100);
    assert_eq!(default_page(), 0);
    let p = Pagination::default();
    assert_eq!((p.page, p.page_size), (0, 0));
}

#[test]
fn error_json_constructors() {
    let e = ErrorJson::default(ErrorType::InvalidTicker);
    assert_eq!(e.error, ErrorType::InvalidTicker);
    assert_eq!(e.message, None);
    let m = ErrorJson::with_message(ErrorType::DatabaseError, "down".to_string());
    assert_eq!(m.error, ErrorType::DatabaseError);
    assert_eq!(m.message, Some("down".to_string()));
}

#[test]
fn country_from_any_case() {
    assert_eq!(Country::from("us".to_string()), Country::US);
    assert_eq!(Country::from("Ca".to_string()), Country::CA);
    assert_eq!(Country::from("UK".to_string()), Country::UK);
    assert_eq!(Country::from("au".to_string()), Country::AU);
    assert_eq!(Country::from("fr".to_string()), Country::AU);
    assert_eq!(Country::from_code(&"us".to_string()), Country::AU);
}

#[test]
fn trade_type_from_any_case() {
    assert_eq!(TradeType::from("SELL".to_string()), TradeType::Sell);
    assert_eq!(TradeType::from("Buy".to_string()), TradeType::Buy);
    assert_eq!(TradeType::from("hold".to_string()), TradeType::Buy);
    assert_eq!(TradeType::from_word(&"SELL".to_string()), TradeType::Buy);
}

#[test]
fn pagination_offset() {
    assert_eq!(Pagination { page: 3, page_size: 100 }.offset(), Some(300));
    assert_eq!(Pagination { page: 0, page_size: 100 }.offset(), Some(0));
    assert_eq!(Pagination { page: 2, page_size: i64::MAX }.offset(), None);
}

#[test]
fn trade_changes_holding() {
    assert_eq!(holding_change(TradeType::Buy, 10), Some(10));
    assert_eq!(holding_change(TradeType::Sell, 10), Some(-10));
    assert_eq!(holding_change(TradeType::Sell, i32::MIN), None);
    assert_eq!(holding_after_trade(None, 7), Some(HoldingAction::Insert(7)));
    assert_eq!(holding_after_trade(Some(10), -4), Some(HoldingAction::Update(6)));
    assert_eq!(holding_after_trade(Some(10), -10), Some(HoldingAction::Delete));
    assert_eq!(holding_after_trade(Some(i32::MAX), 1), None);
}
