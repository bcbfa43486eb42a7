use e_commerce::events::{EventLog, EventLogVariant, PurchaseProduct};

fn one_item_log(owner_id: &str, info: &str, price: u128, memo: Option<&str>) -> EventLog {
    EventLog {
        standard: "e-commerce-1.0.0".to_string(),
        event: EventLogVariant::Purchase(vec![PurchaseProduct {
            owner_id: owner_id.to_string(),
            product_info: info.to_string(),
            price,
            memo: memo.map(|m| m.to_string()),
        }]),
    }
}

#[test]
fn plain_record_renders_exactly() {
    let line = one_item_log("sku-1", "a widget", 100, None).to_log_string();
    assert_eq!(
        line,
        "EVENT_JSON:{\"standard\":\"e-commerce-1.0.0\",\"event\":\"purchase\",\
         \"data\":[{\"owner_id\":\"sku-1\",\"product_info\":\"a widget\",\"price\":100}]}"
    );
}

#[test]
fn memo_is_written_only_when_present() {
    let with_memo = one_item_log("sku-1", "w", 5, Some("gift")).to_log_string();
    assert!(with_memo.ends_with("\"price\":5,\"memo\":\"gift\"}]}"));
    let without = one_item_log("sku-1", "w", 5, None).to_log_string();
    assert!(!without.contains("memo"));
}

#[test]
fn special_characters_are_escaped() {
    let line = one_item_log("a\"b", "back\\slash\nand tab\t", 7, None).to_log_string();
    assert!(line.contains("\"owner_id\":\"a\\\"b\""));
    assert!(line.contains("back\\\\slash\\nand tab\\t"));
}

#[test]
fn control_characters_use_unicode_escapes() {
    let line = one_item_log("x", "bell\u{7}mark\u{1f}", 1, None).to_log_string();
    assert!(line.contains("bell\\u0007mark\\u001f"));
}

#[test]
fn big_price_renders_all_digits() {
    let line = one_item_log("x", "y", u128::MAX, None).to_log_string();
    assert!(line.contains("\"price\":340282366920938463463374607431768211455"));
}

#[test]
fn rendered_line_parses_as_json() {
    let log = one_item_log("sku \"odd\"", "desc with \\ and \n", 123, Some("memo, too"));
    let line = log.to_log_string();
    let json = line.strip_prefix("EVENT_JSON:").expect("sentinel prefix");
    let value: serde_json::Value = serde_json::from_str(json).expect("valid JSON");
    assert_eq!(value["standard"], "e-commerce-1.0.0");
    assert_eq!(value["event"], "purchase");
    let data = value["data"].as_array().expect("data array");
    assert_eq!(data.len(), 1);
    assert_eq!(data[0]["owner_id"], "sku \"odd\"");
    assert_eq!(data[0]["product_info"], "desc with \\ and \n");
    assert_eq!(data[0]["price"], 123);
    assert_eq!(data[0]["memo"], "memo, too");
}

#[test]
fn several_items_are_comma_separated() {
    let log = EventLog {
        standard: "e-commerce-1.0.0".to_string(),
        event: EventLogVariant::Purchase(vec![
            PurchaseProduct {
                owner_id: "a".to_string(),
                product_info: "first".to_string(),
                price: 1,
                memo: None,
            },
            PurchaseProduct {
                owner_id: "b".to_string(),
                product_info: "second".to_string(),
                price: 2,
                memo: None,
            },
        ]),
    };
    let line = log.to_log_string();
    let json = line.strip_prefix("EVENT_JSON:").unwrap();
    let value: serde_json::Value = serde_json::from_str(json).unwrap();
    let data = value["data"].as_array().unwrap();
    assert_eq!(data.len(), 2);
    assert_eq!(data[0]["owner_id"], "a");
    assert_eq!(data[1]["price"], 2);
}
