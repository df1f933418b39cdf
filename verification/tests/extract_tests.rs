use std::str::FromStr;

use fat_piggy_bank::CsvError;
use fat_piggy_bank::ExtractError;
use fat_piggy_bank::get_items;
use rust_decimal::Decimal;

#[test]
fn extracts_tagged_amounts() {
    let items = get_items(vec!["tag,amount", "food,75", "home,1055.60"], "tag", "amount").unwrap();
    assert_eq!(items.len(), 2);
    assert_eq!(items[0].tag, "food");
    assert_eq!(items[0].amount, Decimal::from_str("75").unwrap());
    assert_eq!(items[1].tag, "home");
    assert_eq!(items[1].amount, Decimal::from_str("1055.60").unwrap());
}

#[test]
fn comma_decimal_separator_is_normalized() {
    let items = get_items(vec!["tag,amount", "home,\"1055,60\""], "tag", "amount").unwrap();
    assert_eq!(items[0].amount, Decimal::from_str("1055.60").unwrap());
}

#[test]
fn column_order_does_not_matter() {
    let a = get_items(vec!["tag,amount,note", "food,75,x"], "tag", "amount").unwrap();
    let b = get_items(vec!["note,amount,tag", "x,75,food"], "tag", "amount").unwrap();
    assert_eq!(a.len(), b.len());
    assert_eq!(a[0].tag, b[0].tag);
    assert_eq!(a[0].amount, b[0].amount);
}

#[test]
fn header_cells_are_trimmed() {
    let items = get_items(vec![" tag , amount ", "food,75"], "tag", "amount").unwrap();
    assert_eq!(items[0].tag, "food");
}

#[test]
fn cells_are_trimmed() {
    let items = get_items(vec!["tag,amount", "  food  ,  75  "], "tag", "amount").unwrap();
    assert_eq!(items[0].tag, "food");
    assert_eq!(items[0].amount, Decimal::from_str("75").unwrap());
}

#[test]
fn missing_column_is_reported() {
    let r = get_items(vec!["tag,total", "food,75"], "tag", "amount");
    assert_eq!(r.unwrap_err(), ExtractError::MissingColumn(String::from("amount")));
}

#[test]
fn unreadable_amount_is_reported_with_its_text() {
    let r = get_items(vec!["tag,amount", "food,abc"], "tag", "amount");
    assert_eq!(r.unwrap_err(), ExtractError::BadAmount(String::from("abc")));
}

#[test]
fn short_row_is_reported() {
    let r = get_items(vec!["tag,amount", "food"], "tag", "amount");
    assert_eq!(r.unwrap_err(), ExtractError::ShortRow);
}

#[test]
fn malformed_row_is_reported() {
    let r = get_items(vec!["tag,amount", ",food"], "tag", "amount");
    assert_eq!(r.unwrap_err(), ExtractError::Row(CsvError::LeadingSeparator));
}

#[test]
fn row_order_and_duplicate_tags_are_kept() {
    let items = get_items(
        vec!["tag,amount", "food,1", "food,2", "home,3"],
        "tag",
        "amount",
    )
    .unwrap();
    assert_eq!(items.len(), 3);
    assert_eq!(items[0].amount, Decimal::from_str("1").unwrap());
    assert_eq!(items[1].tag, "food");
    assert_eq!(items[2].tag, "home");
}

#[test]
fn cost_item_new_keeps_its_fields() {
    let item = fat_piggy_bank::CostItem::new("food", Decimal::from_str("7.5").unwrap());
    assert_eq!(item.tag, "food");
    assert_eq!(item.amount, Decimal::from_str("7.5").unwrap());
}
