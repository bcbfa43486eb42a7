use e_commerce::registry::Registry;
use e_commerce::Error;

fn registry_with_item() -> Registry {
    let mut r = Registry::new();
    let p = r.create_product(
        "alice.near".to_string(),
        "Lamp".to_string(),
        30,
        "a lamp".to_string(),
        "lamp.png".to_string(),
    );
    assert_eq!(p.id, 0);
    r
}

#[test]
fn create_assigns_sequential_ids() {
    let mut r = Registry::new();
    let a = r.create_product(
        "alice.near".to_string(),
        "Lamp".to_string(),
        30,
        "a lamp".to_string(),
        "lamp.png".to_string(),
    );
    let b = r.create_product(
        "bob.near".to_string(),
        "Rug".to_string(),
        50,
        "a rug".to_string(),
        "rug.png".to_string(),
    );
    assert_eq!(a.id, 0);
    assert_eq!(b.id, 1);
    let all = r.list_products();
    assert_eq!(all.len(), 2);
    assert_eq!(all[0].name, "Lamp");
    assert_eq!(all[1].name, "Rug");
}

#[test]
fn delete_by_non_owner_rejected_item_stays() {
    let mut r = registry_with_item();
    let denied = r.delete_product("mallory.near".to_string(), 0);
    assert_eq!(denied.unwrap_err(), Error::Unauthorized);
    let still = r.get_product(0).unwrap();
    assert_eq!(still.name, "Lamp");
    assert_eq!(still.owner, "alice.near");
    assert_eq!(r.list_products().len(), 1);
}

#[test]
fn delete_by_owner_removes_item() {
    let mut r = registry_with_item();
    r.delete_product("alice.near".to_string(), 0).unwrap();
    assert_eq!(r.get_product(0).unwrap_err(), Error::NotFound);
    assert!(r.list_products().is_empty());
}

#[test]
fn delete_missing_item() {
    let mut r = Registry::new();
    assert_eq!(r.delete_product("alice.near".to_string(), 7).unwrap_err(), Error::NotFound);
}

#[test]
fn ids_never_reused_after_deletion() {
    let mut r = registry_with_item();
    r.delete_product("alice.near".to_string(), 0).unwrap();
    let next = r.create_product(
        "alice.near".to_string(),
        "Chair".to_string(),
        20,
        "a chair".to_string(),
        "chair.png".to_string(),
    );
    assert_eq!(next.id, 1);
    assert_eq!(r.get_product(0).unwrap_err(), Error::NotFound);
    assert_eq!(r.get_product(1).unwrap().name, "Chair");
}
