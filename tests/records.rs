use cost_items_api::error::ApiError;
use cost_items_api::filter::CostItemFilter;
use cost_items_api::model::{CostItem, CostItems, DeleteResponse, ErrorResponse, StorageFailure};
use cost_items_api::price::Price;

fn params(pairs: &[(&str, &str)]) -> Vec<(String, String)> {
    pairs.iter().map(|(k, v)| (k.to_string(), v.to_string())).collect()
}

#[test]
fn empty_params_select_everything() {
    let f = CostItemFilter::from_params(&Vec::new()).ok().unwrap();
    assert_eq!(f.id, None);
    assert!(f.ids.is_none());
    assert!(f.name.is_none());
}

#[test]
fn filter_by_id_and_name() {
    let f = CostItemFilter::from_params(&params(&[("name", "Lunch"), ("id", "7"), ("notes", "n")])).ok().unwrap();
    assert_eq!(f.id, Some(7));
    assert!(f.ids.is_none());
    assert_eq!(f.name.as_deref(), Some("Lunch"));
}

#[test]
fn filter_ids_are_deduplicated() {
    let f = CostItemFilter::from_params(&params(&[("ids", "3,1,3,2,1")])).ok().unwrap();
    assert_eq!(f.id, None);
    assert_eq!(f.ids, Some(vec![3, 1, 2]));
}

#[test]
fn filter_errors_pass_through() {
    let e = CostItemFilter::from_params(&params(&[("id", "1"), ("ids", "2,3")])).err().unwrap();
    assert_eq!(e.to_string(), "select only one of them, id xor ids");
    let e = CostItemFilter::from_params(&params(&[("ids", "2,q")])).err().unwrap();
    assert_eq!(e.to_string(), "Error parsing string: 'q', not a valid integer");
    let e = CostItemFilter::from_params(&params(&[("limit", "2")])).err().unwrap();
    assert_eq!(e.to_string(), "the parameter 'limit' is incorrect");
}

#[test]
fn price_text_round_trip() {
    let p = Price::parse("19.99").ok().unwrap();
    assert_eq!(p.as_str(), "19.99");
    let p = Price::parse("12.50").ok().unwrap();
    assert_eq!(p.as_str(), "12.50");
}

#[test]
fn price_rejects_non_decimal_text() {
    let e = Price::parse("abc").err().unwrap();
    assert_eq!(e.status, 400);
    assert_eq!(e.to_string(), "Error parsing string: 'abc', not a valid decimal");
    assert!(Price::parse("").is_err());
    assert!(Price::parse("1.2.3").is_err());
    assert!(Price::parse("-0.5").is_ok());
}

#[test]
fn created_item_keeps_its_fields() {
    let item = CostItem {
        name: "Lunch".to_string(),
        price: Price::parse("12.50").ok().unwrap(),
        notes: Some("team".to_string()),
    };
    let copy = CostItem::from(item);
    assert_eq!(copy.name, "Lunch");
    assert_eq!(copy.price.as_str(), "12.50");
    assert_eq!(copy.notes.as_deref(), Some("team"));
    let row = CostItems { id: 4, name: copy.name, price: copy.price, notes: None };
    assert_eq!(row.id, 4);
    assert_eq!(row.price.as_str(), "12.50");
}

#[test]
fn missing_record_is_not_found() {
    let e = ApiError::from_storage(StorageFailure::NotFound);
    assert_eq!(e.status, 404);
    assert_eq!(e.to_string(), "record not found");
    let e = ApiError::from_storage(StorageFailure::Other("connection refused".to_string()));
    assert_eq!(e.status, 500);
    assert_eq!(e.to_string(), "connection refused");
    assert_eq!(ErrorResponse::from_error(&e).Err, "connection refused");
}

#[test]
fn delete_reports_count() {
    assert_eq!(DeleteResponse::new(1).deleted, 1);
    assert_eq!(DeleteResponse::new(0).deleted, 0);
}

#[test]
fn error_constructors() {
    let e = ApiError::new(418, "teapot".to_string());
    assert_eq!(e.status, 418);
    assert_eq!(e.to_string(), "teapot");
    assert_eq!(ApiError::unknown_parameter("k").to_string(), "the parameter 'k' is incorrect");
    assert_eq!(ApiError::id_xor_ids().status, 400);
    assert_eq!(ApiError::invalid_integer("z").to_string(), "Error parsing string: 'z', not a valid integer");
    assert_eq!(ApiError::invalid_decimal("z").to_string(), "Error parsing string: 'z', not a valid decimal");
}
