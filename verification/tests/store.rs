use stockroom::store::{Item, OrderLine, StockError, Store};
use stockroom::units::{Cents, Grams};

fn item(name: &str, id: u32, cost: u32, weight: u32) -> Item {
    Item { name: name.to_string(), id, cost: Cents::new(cost), weight: Grams::new(weight) }
}

#[test]
fn stock_new_ids_start_at_one_and_increase() {
    let mut st = Store::new();
    let a = st.stock_new("washer".to_string(), Cents::new(8), Grams::new(2), 203);
    let b = st.stock_new("bearing".to_string(), Cents::new(3895), Grams::new(925), 2);
    let c = st.stock_new("housing".to_string(), Cents::new(83500), Grams::new(12613), 8);
    assert_eq!(a, 1);
    assert_eq!(b, 2);
    assert_eq!(c, 3);
}

#[test]
fn inventory_get_found_and_missing() {
    let mut st = Store::new();
    st.stock(item("packing kit", 308113, 2299, 81), 12);
    let (it, qty) = st.inventory_get(308113).expect("entry should be present");
    assert_eq!(it.name, "packing kit");
    assert_eq!(it.cost.as_u32(), 2299);
    assert_eq!(it.weight.as_u32(), 81);
    assert_eq!(qty, 12);
    assert!(st.inventory_get(1).is_none());
}

#[test]
fn stock_same_id_last_write_wins() {
    let mut st = Store::new();
    st.stock(item("first", 7, 100, 10), 5);
    st.stock(item("second", 7, 200, 20), 9);
    assert_eq!(st.inventory_len(), 1);
    let (it, qty) = st.inventory_get(7).expect("entry should be present");
    assert_eq!(it.name, "second");
    assert_eq!(it.cost.as_u32(), 200);
    assert_eq!(qty, 9);
}

#[test]
fn inventory_ids_sorted_ascending() {
    let mut st = Store::new();
    st.stock(item("packing kit", 308113, 2299, 81), 12);
    st.stock(item("housing", 389120, 83500, 12613), 8);
    st.stock(item("washer", 210001, 8, 2), 203);
    st.stock(item("bearing", 992871, 3895, 925), 2);
    assert_eq!(st.inventory_ids_sorted(), vec![210001, 308113, 389120, 992871]);
    assert_eq!(st.inventory_len(), 4);
}

#[test]
fn adjust_stock_unknown_item() {
    let mut st = Store::new();
    assert_eq!(st.adjust_stock(42, -1), Err(StockError::UnknownItem));
}

#[test]
fn adjust_stock_insufficient_leaves_quantity_unchanged() {
    let mut st = Store::new();
    st.stock(item("washer", 1, 8, 2), 3);
    assert_eq!(st.adjust_stock(1, -4), Err(StockError::InsufficientStock));
    let (_, qty) = st.inventory_get(1).expect("entry should be present");
    assert_eq!(qty, 3);
}

#[test]
fn adjust_stock_reserve_and_restock() {
    let mut st = Store::new();
    st.stock(item("washer", 1, 8, 2), 3);
    assert_eq!(st.adjust_stock(1, -3), Ok(0));
    assert_eq!(st.adjust_stock(1, -1), Err(StockError::InsufficientStock));
    assert_eq!(st.adjust_stock(1, 5), Ok(5));
    let (_, qty) = st.inventory_get(1).expect("entry should be present");
    assert_eq!(qty, 5);
}

#[test]
fn commit_order_aggregates_cost_and_weight() {
    let mut st = Store::new();
    st.stock(item("packing kit", 1, 2299, 81), 12);
    st.stock(item("washer", 2, 8, 2), 203);
    let lines = vec![OrderLine { item_id: 1, qty: 2 }, OrderLine { item_id: 2, qty: 3 }];
    let order = st.commit_order(lines);
    assert_eq!(order.id, 1);
    assert_eq!(order.cost.as_u32(), 2299 * 2 + 8 * 3);
    assert_eq!(order.ship_weight.as_u32(), 81 * 2 + 2 * 3);
    assert_eq!(order.items.len(), 2);
    assert_eq!(order.items[0], OrderLine { item_id: 1, qty: 2 });
    assert_eq!(order.items[1], OrderLine { item_id: 2, qty: 3 });
}

#[test]
fn commit_order_ids_increase() {
    let mut st = Store::new();
    st.stock(item("washer", 1, 8, 2), 203);
    let first = st.commit_order(vec![OrderLine { item_id: 1, qty: 1 }]);
    let second = st.commit_order(vec![OrderLine { item_id: 1, qty: 2 }]);
    assert_eq!(first.id, 1);
    assert_eq!(second.id, 2);
}

#[test]
fn order_totals_matches_commit() {
    let mut st = Store::new();
    st.stock(item("packing kit", 1, 2299, 81), 12);
    let lines = vec![OrderLine { item_id: 1, qty: 2 }];
    let (cost, weight) = st.order_totals(&lines).expect("totals should fit");
    assert_eq!(cost.as_u32(), 4598);
    assert_eq!(weight.as_u32(), 162);
}

#[test]
fn order_totals_missing_item() {
    let st = Store::new();
    let lines = vec![OrderLine { item_id: 1, qty: 2 }];
    assert!(st.order_totals(&lines).is_none());
}

#[test]
fn order_totals_overflow() {
    let mut st = Store::new();
    st.stock(item("bulk", 1, u32::MAX, 1), 10);
    let lines = vec![OrderLine { item_id: 1, qty: 2 }];
    assert!(st.order_totals(&lines).is_none());
}

#[test]
fn push_order_appends_to_history() {
    let mut st = Store::new();
    st.stock(item("washer", 1, 8, 2), 203);
    assert!(st.orders().is_empty());
    let order = st.commit_order(vec![OrderLine { item_id: 1, qty: 1 }]);
    st.push_order(order);
    assert_eq!(st.orders().len(), 1);
    assert_eq!(st.orders()[0].id, 1);
    assert_eq!(st.orders()[0].cost.as_u32(), 8);
}
