use e_commerce::{Contract, Error};

fn shop_with_product(supply: u64, price: u128) -> Contract {
    let mut c = Contract::init("platform.near".to_string());
    c.new_shop("acme.near".to_string(), "Acme".to_string(), "general store".to_string())
        .unwrap();
    c.new_product(
        "acme.near".to_string(),
        "sku-1".to_string(),
        "Widget".to_string(),
        supply,
        price,
        "a widget".to_string(),
    )
    .unwrap();
    c
}

#[test]
fn new_shop_returns_record() {
    let mut c = Contract::init("platform.near".to_string());
    let shop = c
        .new_shop("acme.near".to_string(), "Acme".to_string(), "general store".to_string())
        .unwrap();
    assert_eq!(shop.owner, "acme.near");
    assert_eq!(shop.name, "Acme");
    assert_eq!(shop.desc, "general store");
    assert_eq!(shop.total_product, 0);
}

#[test]
fn duplicate_shop_rejected_and_original_kept() {
    let mut c = Contract::init("platform.near".to_string());
    c.new_shop("acme.near".to_string(), "Acme".to_string(), "first".to_string()).unwrap();
    let second = c.new_shop("acme.near".to_string(), "Evil Twin".to_string(), "second".to_string());
    assert_eq!(second.unwrap_err(), Error::AlreadyExists);
    let shop = c.get_shop_by_id("acme.near".to_string()).unwrap();
    assert_eq!(shop.name, "Acme");
    assert_eq!(shop.desc, "first");
    assert_eq!(c.get_all_shops().len(), 1);
}

#[test]
fn get_shop_by_id_missing() {
    let c = Contract::init("platform.near".to_string());
    assert_eq!(c.get_shop_by_id("nobody.near".to_string()).unwrap_err(), Error::NotFound);
}

#[test]
fn new_product_requires_shop() {
    let mut c = Contract::init("platform.near".to_string());
    let r = c.new_product(
        "stranger.near".to_string(),
        "sku-1".to_string(),
        "Widget".to_string(),
        1,
        100,
        "a widget".to_string(),
    );
    assert_eq!(r.unwrap_err(), Error::Unauthorized);
    assert!(c.get_all_products().is_empty());
}

#[test]
fn duplicate_product_id_rejected() {
    let mut c = shop_with_product(1, 100);
    c.new_shop("other.near".to_string(), "Other".to_string(), "shop".to_string()).unwrap();
    let r = c.new_product(
        "other.near".to_string(),
        "sku-1".to_string(),
        "Clone".to_string(),
        5,
        7,
        "same id".to_string(),
    );
    assert_eq!(r.unwrap_err(), Error::AlreadyExists);
    let original = c.get_product_by_id("sku-1".to_string()).unwrap();
    assert_eq!(original.name, "Widget");
    assert_eq!(original.owner, "acme.near");
}

#[test]
fn created_product_visible_once_in_both_lookups() {
    let c = shop_with_product(3, 100);
    let by_id = c.get_product_by_id("sku-1".to_string()).unwrap();
    assert_eq!(by_id.product_id, "sku-1");
    assert_eq!(by_id.total_supply, 3);
    assert_eq!(by_id.price, 100);
    let by_owner = c.get_products_by_owner("acme.near".to_string());
    assert_eq!(by_owner.len(), 1);
    assert_eq!(by_owner[0].product_id, "sku-1");
    let all = c.get_all_products();
    assert_eq!(all.len(), 1);
    assert_eq!(all[0].product_id, "sku-1");
    let shop = c.get_shop_by_id("acme.near".to_string()).unwrap();
    assert_eq!(shop.total_product, 1);
}

#[test]
fn products_by_owner_empty_without_products() {
    let c = Contract::init("platform.near".to_string());
    assert!(c.get_products_by_owner("acme.near".to_string()).is_empty());
}

#[test]
fn settlement_scenario_exact_price_then_out_of_stock() {
    let mut c = shop_with_product(1, 100);
    let receipt = c.payment("sku-1".to_string(), 100).unwrap();
    assert_eq!(receipt.beneficiary, "platform.near");
    assert_eq!(receipt.amount, 100);
    let line = receipt.record.to_log_string();
    assert_eq!(
        line,
        "EVENT_JSON:{\"standard\":\"e-commerce-1.0.0\",\"event\":\"purchase\",\
         \"data\":[{\"owner_id\":\"sku-1\",\"product_info\":\"a widget\",\"price\":100}]}"
    );
    assert_eq!(c.get_product_by_id("sku-1".to_string()).unwrap().total_supply, 0);
    let again = c.payment("sku-1".to_string(), 100);
    assert_eq!(again.unwrap_err(), Error::OutOfStock);
    assert_eq!(c.get_product_by_id("sku-1".to_string()).unwrap().total_supply, 0);
}

#[test]
fn supply_drops_by_one_per_settlement() {
    let mut c = shop_with_product(5, 42);
    for expected in [4u64, 3, 2, 1, 0] {
        c.payment("sku-1".to_string(), 42).unwrap();
        assert_eq!(c.get_product_by_id("sku-1".to_string()).unwrap().total_supply, expected);
    }
    assert_eq!(c.payment("sku-1".to_string(), 42).unwrap_err(), Error::OutOfStock);
}

#[test]
fn price_mismatch_changes_nothing() {
    let mut c = shop_with_product(2, 100);
    for attached in [0u128, 99, 101, u128::MAX] {
        let r = c.payment("sku-1".to_string(), attached);
        assert_eq!(r.unwrap_err(), Error::PriceMismatch);
    }
    let p = c.get_product_by_id("sku-1".to_string()).unwrap();
    assert_eq!(p.total_supply, 2);
    assert_eq!(p.price, 100);
    let by_owner = c.get_products_by_owner("acme.near".to_string());
    assert_eq!(by_owner.len(), 1);
    assert_eq!(by_owner[0].total_supply, 2);
    assert_eq!(c.get_all_products().len(), 1);
}

#[test]
fn get_product_by_id_missing() {
    let c = Contract::init("platform.near".to_string());
    assert_eq!(c.get_product_by_id("ghost".to_string()).unwrap_err(), Error::NotFound);
}

#[test]
fn settlement_of_missing_product() {
    let mut c = Contract::init("platform.near".to_string());
    assert_eq!(c.payment("ghost".to_string(), 1).unwrap_err(), Error::NotFound);
}

#[test]
fn ft_on_transfer_settles_like_payment() {
    let mut c = shop_with_product(1, 100);
    let record = c
        .ft_on_transfer("buyer.near".to_string(), 100, "hi".to_string(), "sku-1".to_string())
        .unwrap();
    assert!(record.to_log_string().contains("\"price\":100"));
    assert_eq!(c.get_product_by_id("sku-1".to_string()).unwrap().total_supply, 0);
    let r = c.ft_on_transfer("buyer.near".to_string(), 100, "hi".to_string(), "sku-1".to_string());
    assert_eq!(r.unwrap_err(), Error::OutOfStock);
}

#[test]
fn update_price_owner_only() {
    let mut c = shop_with_product(1, 100);
    let r = c.update_price("mallory.near".to_string(), 1, "sku-1".to_string());
    assert_eq!(r.unwrap_err(), Error::Unauthorized);
    assert_eq!(c.get_product_by_id("sku-1".to_string()).unwrap().price, 100);
    c.update_price("acme.near".to_string(), 250, "sku-1".to_string()).unwrap();
    assert_eq!(c.get_product_by_id("sku-1".to_string()).unwrap().price, 250);
    assert_eq!(c.get_products_by_owner("acme.near".to_string())[0].price, 250);
    assert_eq!(c.payment("sku-1".to_string(), 100).unwrap_err(), Error::PriceMismatch);
    assert!(c.payment("sku-1".to_string(), 250).is_ok());
}

#[test]
fn update_price_missing_product() {
    let mut c = Contract::init("platform.near".to_string());
    let r = c.update_price("acme.near".to_string(), 1, "ghost".to_string());
    assert_eq!(r.unwrap_err(), Error::NotFound);
}

#[test]
fn payment_product_reassigns_owner() {
    let mut c = shop_with_product(4, 100);
    let receipt = c
        .payment_product("buyer.near".to_string(), "sku-1".to_string(), 100, 1000)
        .unwrap();
    assert_eq!(receipt.amount, 100);
    assert_eq!(receipt.beneficiary, "platform.near");
    let p = c.get_product_by_id("sku-1".to_string()).unwrap();
    assert_eq!(p.owner, "buyer.near");
    assert_eq!(p.total_supply, 4);
    assert!(c.get_products_by_owner("acme.near".to_string()).is_empty());
    let theirs = c.get_products_by_owner("buyer.near".to_string());
    assert_eq!(theirs.len(), 1);
    assert_eq!(theirs[0].product_id, "sku-1");
}

#[test]
fn payment_product_checks_escrow_balance() {
    let mut c = shop_with_product(4, 100);
    let r = c.payment_product("buyer.near".to_string(), "sku-1".to_string(), 100, 99);
    assert_eq!(r.unwrap_err(), Error::InsufficientFunds);
    let r = c.payment_product("buyer.near".to_string(), "sku-1".to_string(), 99, 1000);
    assert_eq!(r.unwrap_err(), Error::PriceMismatch);
    assert_eq!(c.get_product_by_id("sku-1".to_string()).unwrap().owner, "acme.near");
}

#[test]
fn shops_enumerate_in_creation_order() {
    let mut c = Contract::init("platform.near".to_string());
    c.new_shop("a.near".to_string(), "A".to_string(), "".to_string()).unwrap();
    c.new_shop("b.near".to_string(), "B".to_string(), "".to_string()).unwrap();
    c.new_shop("c.near".to_string(), "C".to_string(), "".to_string()).unwrap();
    let names: Vec<String> = c.get_all_shops().into_iter().map(|s| s.name).collect();
    assert_eq!(names, vec!["A".to_string(), "B".to_string(), "C".to_string()]);
}
