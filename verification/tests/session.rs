use stockroom::session::Session;
use stockroom::store::{Item, OrderLine, StockError, Store};
use stockroom::units::{Cents, Grams};

fn seeded_store() -> Store {
    let mut st = Store::new();
    st.stock(
        Item {
            name: "packing kit".to_string(),
            id: 308113,
            cost: Cents::new(2299),
            weight: Grams::new(81),
        },
        12,
    );
    st.stock(
        Item {
            name: "washer".to_string(),
            id: 210001,
            cost: Cents::new(8),
            weight: Grams::new(2),
        },
        203,
    );
    st
}

#[test]
fn select_reserves_stock_immediately() {
    let mut st = seeded_store();
    let mut sess = Session::new();
    assert_eq!(sess.select(&mut st, 308113, 5), Ok(7));
    let (_, qty) = st.inventory_get(308113).expect("entry should be present");
    assert_eq!(qty, 7);
    assert_eq!(sess.reserved_qty(308113), 5);
}

#[test]
fn select_unknown_item() {
    let mut st = seeded_store();
    let mut sess = Session::new();
    assert_eq!(sess.select(&mut st, 999, 1), Err(StockError::UnknownItem));
}

#[test]
fn select_insufficient_stock_has_no_effect() {
    let mut st = seeded_store();
    let mut sess = Session::new();
    assert_eq!(sess.select(&mut st, 308113, 13), Err(StockError::InsufficientStock));
    let (_, qty) = st.inventory_get(308113).expect("entry should be present");
    assert_eq!(qty, 12);
    assert_eq!(sess.reserved_qty(308113), 0);
}

#[test]
fn same_item_twice_yields_single_line() {
    let mut st = seeded_store();
    let mut sess = Session::new();
    assert_eq!(sess.select(&mut st, 308113, 2), Ok(10));
    assert_eq!(sess.select(&mut st, 308113, 3), Ok(7));
    let lines = sess.finish().expect("a non-empty session finishes");
    assert_eq!(lines, vec![OrderLine { item_id: 308113, qty: 5 }]);
}

#[test]
fn finish_empty_session_is_rejected() {
    let mut st = seeded_store();
    let mut sess = Session::new();
    assert!(sess.finish().is_none());
    // the session stays open: a later selection and finish still work
    assert_eq!(sess.select(&mut st, 210001, 1), Ok(202));
    assert_eq!(
        sess.finish().expect("a non-empty session finishes"),
        vec![OrderLine { item_id: 210001, qty: 1 }]
    );
}

#[test]
fn finish_orders_lines_by_item_id() {
    let mut st = seeded_store();
    let mut sess = Session::new();
    assert_eq!(sess.select(&mut st, 308113, 1), Ok(11));
    assert_eq!(sess.select(&mut st, 210001, 4), Ok(199));
    let lines = sess.finish().expect("a non-empty session finishes");
    assert_eq!(
        lines,
        vec![OrderLine { item_id: 210001, qty: 4 }, OrderLine { item_id: 308113, qty: 1 }]
    );
}

#[test]
fn cancel_restores_pre_session_quantities() {
    let mut st = seeded_store();
    let mut sess = Session::new();
    assert_eq!(sess.select(&mut st, 308113, 5), Ok(7));
    assert_eq!(sess.select(&mut st, 210001, 10), Ok(193));
    assert_eq!(sess.select(&mut st, 308113, 2), Ok(5));
    // a refused selection must not disturb the rollback accounting
    assert_eq!(sess.select(&mut st, 308113, 99), Err(StockError::InsufficientStock));
    assert!(sess.can_restore(&st));
    sess.cancel(&mut st);
    let (_, qty_kit) = st.inventory_get(308113).expect("entry should be present");
    let (_, qty_washer) = st.inventory_get(210001).expect("entry should be present");
    assert_eq!(qty_kit, 12);
    assert_eq!(qty_washer, 203);
}

#[test]
fn cancel_of_empty_session_changes_nothing() {
    let mut st = seeded_store();
    let sess = Session::new();
    sess.cancel(&mut st);
    let (_, qty) = st.inventory_get(308113).expect("entry should be present");
    assert_eq!(qty, 12);
}

#[test]
fn finish_then_commit_full_flow() {
    let mut st = seeded_store();
    let mut sess = Session::new();
    assert_eq!(sess.select(&mut st, 308113, 2), Ok(10));
    assert_eq!(sess.select(&mut st, 210001, 3), Ok(200));
    let lines = sess.finish().expect("a non-empty session finishes");
    let order = st.commit_order(lines);
    assert_eq!(order.id, 1);
    assert_eq!(order.cost.as_u32(), 2299 * 2 + 8 * 3);
    assert_eq!(order.ship_weight.as_u32(), 81 * 2 + 2 * 3);
    // commit does not re-adjust stock
    let (_, qty) = st.inventory_get(308113).expect("entry should be present");
    assert_eq!(qty, 10);
    st.push_order(order);
    assert_eq!(st.orders().len(), 1);
}
