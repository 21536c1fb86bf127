//! The store: the inventory mapping, the order history, and the two id
//! counters.  All mutation of these goes through the store's operations; the
//! one quantity-changing primitive, `adjust_stock`, guards the invariant that
//! an on-hand quantity is never negative.

use vstd::prelude::*;
use std::collections::HashMap;
use crate::units::{Cents, Grams};

verus! {

broadcast use vstd::std_specs::hash::group_hash_axioms;

/// A stocked product.  Immutable once created; `id` is unique within the
/// store.
#[derive(Debug)]
pub struct Item {
    pub name: String,
    pub id: u32,
    pub cost: Cents,
    pub weight: Grams,
}

/// One distinct item's total quantity within an order.
#[derive(Debug, Clone, Copy, PartialEq, Eq, Structural)]
pub struct OrderLine {
    pub item_id: u32,
    pub qty: u32,
}

/// A committed order: aggregated cost and shipping weight over its lines.
/// Immutable once committed.
#[derive(Debug)]
pub struct Order {
    pub id: u32,
    pub cost: Cents,
    pub ship_weight: Grams,
    pub items: Vec<OrderLine>,
}

/// Why a stock adjustment was refused.  Both cases are recoverable and leave
/// the store unchanged.
#[derive(Debug, Clone, Copy, PartialEq, Eq, Structural)]
pub enum StockError {
    /// The item id is not stocked.
    UnknownItem,
    /// The change would drive the on-hand quantity negative.
    InsufficientStock,
}

/// One id allocation: the id handed out is the counter's value before the
/// call, and the counter advances by exactly one.  Chained allocations
/// therefore issue strictly increasing ids (see `crate::laws`).
pub open spec fn issues_next(c0: int, id: int, c1: int) -> bool {
    id == c0 && c1 == c0 + 1
}

/// Every line's item id is present in the inventory.
pub open spec fn lines_stocked(inv: Map<u32, (Item, u32)>, lines: Seq<OrderLine>) -> bool {
    forall|i: int| 0 <= i < lines.len() ==> inv.contains_key((#[trigger] lines[i]).item_id)
}

/// Total cost in cents of the given lines: the sum over the lines of the
/// item's unit cost times the line quantity.
pub open spec fn total_cost(inv: Map<u32, (Item, u32)>, lines: Seq<OrderLine>) -> int
    decreases lines.len(),
{
    if lines.len() == 0 {
        0
    } else {
        total_cost(inv, lines.drop_last()) + inv[lines.last().item_id].0.cost@
            * lines.last().qty
    }
}

/// Total shipping weight in grams of the given lines: the sum over the lines
/// of the item's unit weight times the line quantity.
pub open spec fn total_weight(inv: Map<u32, (Item, u32)>, lines: Seq<OrderLine>) -> int
    decreases lines.len(),
{
    if lines.len() == 0 {
        0
    } else {
        total_weight(inv, lines.drop_last()) + inv[lines.last().item_id].0.weight@
            * lines.last().qty
    }
}

/// Extending a prefix sum by one line adds that line's cost and weight terms.
proof fn lemma_total_take_step(inv: Map<u32, (Item, u32)>, lines: Seq<OrderLine>, i: int)
    requires
        0 <= i < lines.len(),
    ensures
        total_cost(inv, lines.take(i + 1)) == total_cost(inv, lines.take(i))
            + inv[lines[i].item_id].0.cost@ * lines[i].qty,
        total_weight(inv, lines.take(i + 1)) == total_weight(inv, lines.take(i))
            + inv[lines[i].item_id].0.weight@ * lines[i].qty,
{
    assert(lines.take(i + 1).drop_last() =~= lines.take(i));
    assert(lines.take(i + 1).last() == lines[i]);
}

/// Every term is non-negative, so a prefix sum never exceeds the full sum.
proof fn lemma_total_take_le(inv: Map<u32, (Item, u32)>, lines: Seq<OrderLine>, i: int)
    requires
        0 <= i <= lines.len(),
    ensures
        total_cost(inv, lines.take(i)) <= total_cost(inv, lines),
        total_weight(inv, lines.take(i)) <= total_weight(inv, lines),
    decreases lines.len() - i,
{
    if i == lines.len() {
        assert(lines.take(i) =~= lines);
    } else {
        lemma_total_take_step(inv, lines, i);
        lemma_total_take_le(inv, lines, i + 1);
        let c = inv[lines[i].item_id].0.cost@;
        let w = inv[lines[i].item_id].0.weight@;
        let q = lines[i].qty;
        assert(c * q >= 0) by (nonlinear_arith)
            requires
                c >= 0,
                q >= 0,
        ;
        assert(w * q >= 0) by (nonlinear_arith)
            requires
                w >= 0,
                q >= 0,
        ;
    }
}

/// The process-lifetime owner of the inventory, the order history, and the
/// two id counters.
pub struct Store {
    inventory: HashMap<u32, (Item, u32)>,
    /// The inventory's keys in ascending order, kept alongside the map so
    /// that presentation order is deterministic.
    ids: Vec<u32>,
    orders: Vec<Order>,
    next_item_id: u32,
    next_order_id: u32,
}

impl Store {
    /// The inventory: item id to (item, on-hand quantity).
    pub closed spec fn inv_map(&self) -> Map<u32, (Item, u32)> {
        self.inventory@
    }

    /// The committed order history, oldest first.
    pub closed spec fn order_log(&self) -> Seq<Order> {
        self.orders@
    }

    /// The next item id to be issued by `stock_new`.
    pub closed spec fn item_counter(&self) -> u32 {
        self.next_item_id
    }

    /// The next order id to be issued by `commit_order`.
    pub closed spec fn order_counter(&self) -> u32 {
        self.next_order_id
    }

    /// Well-formedness: the sorted id list mirrors the inventory's keys, and
    /// each entry is stored under its own item's id.
    pub closed spec fn wf(&self) -> bool {
        &&& forall|i: int, j: int|
            0 <= i < j < self.ids@.len() ==> self.ids@[i] < self.ids@[j]
        &&& forall|id: u32|
            #[trigger] self.inventory@.contains_key(id) <==> self.ids@.contains(id)
        &&& forall|id: u32|
            self.inventory@.contains_key(id) ==> (#[trigger] self.inventory@[id]).0.id == id
    }

    pub fn new() -> (s: Store)
        ensures
            s.wf(),
            s.inv_map() == Map::<u32, (Item, u32)>::empty(),
            s.order_log() == Seq::<Order>::empty(),
            s.item_counter() == 1,
            s.order_counter() == 1,
    {
        Store {
            inventory: HashMap::new(),
            ids: Vec::new(),
            orders: Vec::new(),
            next_item_id: 1,
            next_order_id: 1,
        }
    }

    pub fn inventory_len(&self) -> (n: usize)
        ensures
            n == self.inv_map().dom().len(),
    {
        self.inventory.len()
    }

    /// The stocked item ids in ascending order: exactly the inventory's keys,
    /// so a row number in a sorted listing resolves deterministically to an
    /// id.
    pub fn inventory_ids_sorted(&self) -> (r: Vec<u32>)
        requires
            self.wf(),
        ensures
            forall|i: int, j: int| 0 <= i < j < r@.len() ==> r@[i] < r@[j],
            forall|id: u32| #[trigger] r@.contains(id) <==> self.inv_map().contains_key(id),
    {
        let mut out: Vec<u32> = Vec::new();
        let mut i: usize = 0;
        while i < self.ids.len()
            invariant
                i <= self.ids@.len(),
                out@ == self.ids@.take(i as int),
            decreases self.ids@.len() - i,
        {
            out.push(self.ids[i]);
            i += 1;
            proof {
                assert(out@ =~= self.ids@.take(i as int));
            }
        }
        proof {
            assert(out@ =~= self.ids@);
        }
        out
    }

    pub fn inventory_get(&self, item_id: u32) -> (r: Option<(&Item, u32)>)
        ensures
            match r {
                Some(p) => self.inv_map().contains_key(item_id) && *p.0
                    == self.inv_map()[item_id].0 && p.1 == self.inv_map()[item_id].1,
                None => !self.inv_map().contains_key(item_id),
            },
    {
        match self.inventory.get(&item_id) {
            Some(p) => Some((&p.0, p.1)),
            None => None,
        }
    }

    /// Inserts or replaces the inventory entry for `item.id` with the given
    /// quantity.  Last write wins; the caller owns id uniqueness when calling
    /// this directly.
    pub fn stock(&mut self, item: Item, quantity: u32)
        requires
            old(self).wf(),
        ensures
            final(self).wf(),
            final(self).inv_map() == old(self).inv_map().insert(item.id, (item, quantity)),
            final(self).order_log() == old(self).order_log(),
            final(self).item_counter() == old(self).item_counter(),
            final(self).order_counter() == old(self).order_counter(),
    {
        let id = item.id;
        let was_there = self.inventory.contains_key(&id);
        self.inventory.insert(id, (item, quantity));
        if !was_there {
            let n = self.ids.len();
            let mut i: usize = 0;
            while i < n && self.ids[i] < id
                invariant
                    i <= n,
                    n == self.ids@.len(),
                    forall|j: int| 0 <= j < i ==> self.ids@[j] < id,
                decreases n - i,
            {
                i += 1;
            }
            proof {
                if i < self.ids@.len() {
                    // id is absent from ids, so the first element not below
                    // id lies strictly above it
                    assert(self.ids@.contains(self.ids@[i as int]));
                    assert(self.ids@[i as int] != id);
                }
                self.ids@.insert_ensures(i as int, id);
            }
            let ghost pre = self.ids@;
            self.ids.insert(i, id);
            proof {
                assert forall|a: int, b: int|
                    0 <= a < b < self.ids@.len() implies self.ids@[a] < self.ids@[b] by {
                    if b < i {
                    } else if a >= i + 1 {
                        assert(self.ids@[a] == pre[a - 1]);
                        assert(self.ids@[b] == pre[b - 1]);
                    } else if a < i && b == i {
                        assert(self.ids@[a] == pre[a]);
                    } else if a == i {
                        assert(self.ids@[b] == pre[b - 1]);
                        assert(pre[b - 1] >= id);
                    } else {
                        // a < i < b
                        assert(self.ids@[a] == pre[a]);
                        assert(self.ids@[b] == pre[b - 1]);
                        assert(pre[b - 1] >= id);
                    }
                }
                assert forall|id2: u32|
                    #[trigger] self.inventory@.contains_key(id2) <==> self.ids@.contains(
                    id2,
                ) by {
                    if id2 == id {
                        assert(self.ids@[i as int] == id);
                        assert(self.ids@.contains(id));
                    } else {
                        if pre.contains(id2) {
                            let j = choose|j: int| 0 <= j < pre.len() && pre[j] == id2;
                            if j < i {
                                assert(self.ids@[j] == id2);
                            } else {
                                assert(self.ids@[j + 1] == id2);
                            }
                            assert(self.ids@.contains(id2));
                        }
                        if self.ids@.contains(id2) {
                            let j = choose|j: int|
                                0 <= j < self.ids@.len() && self.ids@[j] == id2;
                            if j < i {
                                assert(pre[j] == id2);
                            } else {
                                assert(pre[j - 1] == id2);
                            }
                            assert(pre.contains(id2));
                        }
                    }
                }
            }
        } else {
            proof {
                assert forall|id2: u32|
                    #[trigger] self.inventory@.contains_key(id2) <==> self.ids@.contains(
                    id2,
                ) by {}
            }
        }
    }

    /// Allocates the next sequential item id, constructs the item, and stores
    /// it with the given quantity.  The only path that guarantees id
    /// uniqueness for operator-created items.
    pub fn stock_new(&mut self, name: String, cost: Cents, weight: Grams, quantity: u32) -> (id:
        u32)
        requires
            old(self).wf(),
            old(self).item_counter() < u32::MAX,
        ensures
            final(self).wf(),
            id == old(self).item_counter(),
            issues_next(
                old(self).item_counter() as int,
                id as int,
                final(self).item_counter() as int,
            ),
            final(self).inv_map() == old(self).inv_map().insert(
                id,
                ((Item { name, id, cost, weight }), quantity),
            ),
            final(self).order_log() == old(self).order_log(),
            final(self).order_counter() == old(self).order_counter(),
    {
        let id = self.next_item_id;
        let item = Item { name, id, cost, weight };
        self.stock(item, quantity);
        self.next_item_id = self.next_item_id + 1;
        id
    }

    /// The single mutating primitive for on-hand quantity.  `qty_change` is a
    /// signed change: positive restocks, negative reserves or consumes.
    ///
    /// Fails with `UnknownItem` when the id is not stocked and with
    /// `InsufficientStock` when the change would drive the quantity negative;
    /// either way the store is unchanged.  On success the new quantity is
    /// stored and returned; a sum past `u32::MAX` wraps around, as the
    /// stored quantity is a `u32`.
    pub fn adjust_stock(&mut self, item_id: u32, qty_change: i32) -> (r: Result<
        u32,
        StockError,
    >)
        requires
            old(self).wf(),
        ensures
            final(self).wf(),
            final(self).order_log() == old(self).order_log(),
            final(self).item_counter() == old(self).item_counter(),
            final(self).order_counter() == old(self).order_counter(),
            match r {
                Ok(new_qty) => {
                    &&& old(self).inv_map().contains_key(item_id)
                    &&& old(self).inv_map()[item_id].1 + qty_change >= 0
                    &&& new_qty == (old(self).inv_map()[item_id].1 + qty_change)
                        % 0x1_0000_0000
                    &&& old(self).inv_map()[item_id].1 + qty_change <= u32::MAX
                        ==> new_qty == old(self).inv_map()[item_id].1 + qty_change
                    &&& final(self).inv_map() == old(self).inv_map().insert(
                        item_id,
                        (old(self).inv_map()[item_id].0, new_qty),
                    )
                },
                Err(e) => {
                    &&& final(self).inv_map() == old(self).inv_map()
                    &&& (e == StockError::UnknownItem <==> !old(self).inv_map().contains_key(
                        item_id,
                    ))
                    &&& (e == StockError::InsufficientStock <==> old(
                        self,
                    ).inv_map().contains_key(item_id) && old(self).inv_map()[item_id].1
                        + qty_change < 0)
                },
            },
    {
        match self.inventory.remove(&item_id) {
            None => Err(StockError::UnknownItem),
            Some((item, qty)) => {
                let new_qty_wide: i64 = qty as i64 + qty_change as i64;
                if new_qty_wide < 0 {
                    self.inventory.insert(item_id, (item, qty));
                    proof {
                        assert(self.inventory@ =~= old(self).inventory@);
                    }
                    Err(StockError::InsufficientStock)
                } else {
                    let new_qty: u32 = (new_qty_wide % 0x1_0000_0000i64) as u32;
                    self.inventory.insert(item_id, (item, new_qty));
                    proof {
                        assert(self.inventory@ =~= old(self).inventory@.insert(
                            item_id,
                            (old(self).inventory@[item_id].0, new_qty),
                        ));
                        assert forall|id2: u32|
                            #[trigger] self.inventory@.contains_key(id2)
                                <==> self.ids@.contains(id2) by {}
                    }
                    Ok(new_qty)
                }
            },
        }
    }

    /// Computes the aggregates `commit_order` would store, or `None` exactly
    /// when `commit_order` refuses the lines: a line's item is missing from
    /// the inventory, or an aggregate exceeds the storage width.
    pub fn order_totals(&self, lines: &Vec<OrderLine>) -> (r: Option<(Cents, Grams)>)
        ensures
            match r {
                Some(t) => {
                    &&& lines_stocked(self.inv_map(), lines@)
                    &&& total_cost(self.inv_map(), lines@) <= u32::MAX
                    &&& total_weight(self.inv_map(), lines@) <= u32::MAX
                    &&& t.0@ == total_cost(self.inv_map(), lines@)
                    &&& t.1@ == total_weight(self.inv_map(), lines@)
                },
                None => !(lines_stocked(self.inv_map(), lines@) && total_cost(
                    self.inv_map(),
                    lines@,
                ) <= u32::MAX && total_weight(self.inv_map(), lines@) <= u32::MAX),
            },
    {
        let mut order_cost: u64 = 0;
        let mut order_grams: u64 = 0;
        let mut i: usize = 0;
        while i < lines.len()
            invariant
                i <= lines@.len(),
                forall|j: int|
                    0 <= j < i ==> self.inv_map().contains_key((#[trigger] lines@[j]).item_id),
                order_cost == total_cost(self.inv_map(), lines@.take(i as int)),
                order_grams == total_weight(self.inv_map(), lines@.take(i as int)),
                order_cost <= u32::MAX,
                order_grams <= u32::MAX,
            decreases lines@.len() - i,
        {
            let l = lines[i];
            match self.inventory_get(l.item_id) {
                None => {
                    proof {
                        assert(!lines_stocked(self.inv_map(), lines@));
                    }
                    return None;
                },
                Some((it, _avail)) => {
                    proof {
                        assert((it.cost@ as u64) * (l.qty as u64) <= 0xFFFF_FFFFu64
                            * 0xFFFF_FFFFu64) by (nonlinear_arith)
                            requires
                                it.cost@ <= 0xFFFF_FFFFu32,
                                l.qty <= 0xFFFF_FFFFu32,
                        ;
                        assert((it.weight@ as u64) * (l.qty as u64)
                            <= 0xFFFF_FFFFu64 * 0xFFFF_FFFFu64) by (nonlinear_arith)
                            requires
                                it.weight@ <= 0xFFFF_FFFFu32,
                                l.qty <= 0xFFFF_FFFFu32,
                        ;
                        lemma_total_take_step(self.inv_map(), lines@, i as int);
                    }
                    let cost_term: u64 = (it.cost.as_u32() as u64) * (l.qty as u64);
                    let grams_term: u64 = (it.weight.as_u32() as u64) * (l.qty as u64);
                    order_cost = order_cost + cost_term;
                    order_grams = order_grams + grams_term;
                    if order_cost > 0xFFFF_FFFFu64 {
                        proof {
                            lemma_total_take_le(self.inv_map(), lines@, i as int + 1);
                        }
                        return None;
                    }
                    if order_grams > 0xFFFF_FFFFu64 {
                        proof {
                            lemma_total_take_le(self.inv_map(), lines@, i as int + 1);
                        }
                        return None;
                    }
                },
            }
            i += 1;
        }
        proof {
            assert(lines@.take(lines@.len() as int) =~= lines@);
        }
        Some((Cents::new(order_cost as u32), Grams::new(order_grams as u32)))
    }

    /// Converts a finalized, already-reserved line set into an immutable
    /// order with aggregated cost and shipping weight, and allocates the next
    /// sequential order id.  A pure read-and-aggregate step: stock was
    /// already decremented while the order was built, and the order is not
    /// appended to the history here — the caller decides whether to record
    /// it.
    ///
    /// Calling this with lines whose items are missing, or whose aggregates
    /// exceed the storage width, is a programmer error, excluded by
    /// precondition; `order_totals` tests exactly that condition.
    pub fn commit_order(&mut self, lines: Vec<OrderLine>) -> (r: Order)
        requires
            old(self).wf(),
            lines_stocked(old(self).inv_map(), lines@),
            total_cost(old(self).inv_map(), lines@) <= u32::MAX,
            total_weight(old(self).inv_map(), lines@) <= u32::MAX,
            old(self).order_counter() < u32::MAX,
        ensures
            final(self).wf(),
            final(self).inv_map() == old(self).inv_map(),
            final(self).order_log() == old(self).order_log(),
            final(self).item_counter() == old(self).item_counter(),
            issues_next(
                old(self).order_counter() as int,
                r.id as int,
                final(self).order_counter() as int,
            ),
            r.id == old(self).order_counter(),
            r.cost@ == total_cost(old(self).inv_map(), lines@),
            r.ship_weight@ == total_weight(old(self).inv_map(), lines@),
            r.items@ == lines@,
    {
        let mut order_cost: u64 = 0;
        let mut order_grams: u64 = 0;
        let mut i: usize = 0;
        while i < lines.len()
            invariant
                i <= lines@.len(),
                *self == *old(self),
                lines_stocked(self.inv_map(), lines@),
                total_cost(self.inv_map(), lines@) <= u32::MAX,
                total_weight(self.inv_map(), lines@) <= u32::MAX,
                order_cost == total_cost(self.inv_map(), lines@.take(i as int)),
                order_grams == total_weight(self.inv_map(), lines@.take(i as int)),
                order_cost <= u32::MAX,
                order_grams <= u32::MAX,
            decreases lines@.len() - i,
        {
            let l = lines[i];
            let (cost_term, grams_term) = match self.inventory_get(l.item_id) {
                Some((it, _avail)) => {
                    proof {
                        assert((it.cost@ as u64) * (l.qty as u64) <= 0xFFFF_FFFFu64
                            * 0xFFFF_FFFFu64) by (nonlinear_arith)
                            requires
                                it.cost@ <= 0xFFFF_FFFFu32,
                                l.qty <= 0xFFFF_FFFFu32,
                        ;
                        assert((it.weight@ as u64) * (l.qty as u64)
                            <= 0xFFFF_FFFFu64 * 0xFFFF_FFFFu64) by (nonlinear_arith)
                            requires
                                it.weight@ <= 0xFFFF_FFFFu32,
                                l.qty <= 0xFFFF_FFFFu32,
                        ;
                    }
                    ((it.cost.as_u32() as u64) * (l.qty as u64), (it.weight.as_u32() as u64) * (
                    l.qty as u64))
                },
                None => unreached(),
            };
            proof {
                lemma_total_take_step(self.inv_map(), lines@, i as int);
                lemma_total_take_le(self.inv_map(), lines@, i as int + 1);
            }
            order_cost = order_cost + cost_term;
            order_grams = order_grams + grams_term;
            i += 1;
        }
        proof {
            assert(lines@.take(lines@.len() as int) =~= lines@);
        }
        let cost_u32: u32 = order_cost as u32;
        let grams_u32: u32 = order_grams as u32;
        let new_order = Order {
            id: self.next_order_id,
            cost: Cents::new(cost_u32),
            ship_weight: Grams::new(grams_u32),
            items: lines,
        };
        self.next_order_id = self.next_order_id + 1;
        new_order
    }

    /// A read-only view of the committed order history.
    pub fn orders(&self) -> (r: &[Order])
        ensures
            r@ == self.order_log(),
    {
        self.orders.as_slice()
    }

    /// Appends a committed order to the history.  Orders are never removed.
    pub fn push_order(&mut self, order: Order)
        requires
            old(self).wf(),
        ensures
            final(self).wf(),
            final(self).order_log() == old(self).order_log().push(order),
            final(self).inv_map() == old(self).inv_map(),
            final(self).item_counter() == old(self).item_counter(),
            final(self).order_counter() == old(self).order_counter(),
    {
        self.orders.push(order);
    }
}

} // verus!
