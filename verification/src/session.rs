//! The interactive order-building session: a reservation-with-rollback
//! protocol over the store.
//!
//! Each selection reserves a quantity against stock immediately, so the
//! availability shown to the operator is always accurate.  The session keeps
//! one line per selected item, ordered by item id, summing repeated
//! selections.  Finishing yields the line set; cancelling restores every
//! reservation made so far.

use vstd::prelude::*;
use crate::store::{Item, OrderLine, StockError, Store};

verus! {

/// The cumulative reserved quantity for `id` in a session's line list: the
/// quantity of the first line carrying `id`, or 0 when none does.
pub open spec fn lookup(s: Seq<(u32, u32)>, id: u32) -> u32
    decreases s.len(),
{
    if s.len() == 0 {
        0
    } else if s[0].0 == id {
        s[0].1
    } else {
        lookup(s.drop_first(), id)
    }
}

/// The line list is ordered by strictly increasing item id (so ids are
/// unique) and every quantity is positive and fits an `i32`, so that every
/// reservation can be handed back to `Store::adjust_stock`.
pub open spec fn session_wf(s: Seq<(u32, u32)>) -> bool {
    &&& forall|i: int, j: int| 0 <= i < j < s.len() ==> s[i].0 < s[j].0
    &&& forall|i: int| 0 <= i < s.len() ==> 1 <= (#[trigger] s[i]).1 <= i32::MAX
}

/// Every reserved line can be restored against the inventory: the item is
/// stocked, and restoring its full reservation cannot overflow the stored
/// quantity.
pub open spec fn restorable(s: Seq<(u32, u32)>, inv: Map<u32, (Item, u32)>) -> bool {
    forall|i: int|
        0 <= i < s.len() ==> {
            let id = (#[trigger] s[i]).0;
            inv.contains_key(id) && inv[id].1 + s[i].1 <= u32::MAX
        }
}

/// `inv1` is `inv0` with every reservation of `s` handed back: the same
/// items, each with its on-hand quantity raised by exactly the quantity the
/// session had reserved for it.
pub open spec fn restored(
    inv0: Map<u32, (Item, u32)>,
    inv1: Map<u32, (Item, u32)>,
    s: Seq<(u32, u32)>,
) -> bool {
    &&& forall|id: u32| #[trigger] inv1.contains_key(id) <==> inv0.contains_key(id)
    &&& forall|id: u32|
        #[trigger] inv0.contains_key(id) ==> inv1[id].0 == inv0[id].0 && inv1[id].1 == inv0[id].1
            + lookup(s, id)
}

/// What one `select` call does to the inventory and to the session's line
/// list.  On success, exactly the chosen quantity moves from the item's
/// on-hand stock into the session's reservation; on failure, nothing
/// changes, and the error tells exactly why.
pub open spec fn select_post(
    inv0: Map<u32, (Item, u32)>,
    s0: Seq<(u32, u32)>,
    inv1: Map<u32, (Item, u32)>,
    s1: Seq<(u32, u32)>,
    item_id: u32,
    qty: u32,
    r: Result<u32, StockError>,
) -> bool {
    match r {
        Ok(avail) => {
            &&& inv0.contains_key(item_id)
            &&& qty <= inv0[item_id].1
            &&& avail == inv0[item_id].1 - qty
            &&& inv1 == inv0.insert(item_id, (inv0[item_id].0, (inv0[item_id].1 - qty) as u32))
            &&& forall|id: u32|
                #[trigger] lookup(s1, id) == lookup(s0, id) + if id == item_id {
                    qty as int
                } else {
                    0
                }
        },
        Err(e) => {
            &&& inv1 == inv0
            &&& s1 == s0
            &&& (e == StockError::UnknownItem <==> !inv0.contains_key(item_id))
            &&& (e == StockError::InsufficientStock <==> inv0.contains_key(item_id)
                && inv0[item_id].1 < qty)
        },
    }
}

/// Looking up the id at index `i` yields that line's quantity, when ids are
/// unique by sorting.
pub proof fn lemma_lookup_at(s: Seq<(u32, u32)>, i: int)
    requires
        forall|a: int, b: int| 0 <= a < b < s.len() ==> s[a].0 < s[b].0,
        0 <= i < s.len(),
    ensures
        lookup(s, s[i].0) == s[i].1,
    decreases i,
{
    if i > 0 {
        assert(s[0].0 != s[i].0);
        lemma_lookup_at(s.drop_first(), i - 1);
        assert(s.drop_first()[i - 1] == s[i]);
    }
}

/// Looking up an id no line carries yields 0.
pub proof fn lemma_lookup_absent(s: Seq<(u32, u32)>, id: u32)
    requires
        forall|j: int| 0 <= j < s.len() ==> (#[trigger] s[j]).0 != id,
    ensures
        lookup(s, id) == 0,
    decreases s.len(),
{
    if s.len() > 0 {
        assert(forall|j: int|
            0 <= j < s.drop_first().len() ==> (#[trigger] s.drop_first()[j]).0 != id);
        lemma_lookup_absent(s.drop_first(), id);
    }
}

/// A non-zero lookup names a line: some index carries the id with exactly
/// that quantity.
pub proof fn lemma_lookup_found(s: Seq<(u32, u32)>, id: u32)
    requires
        forall|a: int, b: int| 0 <= a < b < s.len() ==> s[a].0 < s[b].0,
        lookup(s, id) != 0,
    ensures
        exists|i: int| 0 <= i < s.len() && (#[trigger] s[i]).0 == id && s[i].1 == lookup(s, id),
{
    if forall|j: int| 0 <= j < s.len() ==> (#[trigger] s[j]).0 != id {
        lemma_lookup_absent(s, id);
    } else {
        let j = choose|j: int| 0 <= j < s.len() && (#[trigger] s[j]).0 == id;
        lemma_lookup_at(s, j);
    }
}

/// Replacing the quantity at index `i` changes exactly that id's lookup.
pub proof fn lemma_lookup_update_at(s: Seq<(u32, u32)>, i: int, q: u32, id: u32)
    requires
        forall|a: int, b: int| 0 <= a < b < s.len() ==> s[a].0 < s[b].0,
        0 <= i < s.len(),
    ensures
        lookup(s.update(i, (s[i].0, q)), id) == if id == s[i].0 {
            q
        } else {
            lookup(s, id)
        },
    decreases i,
{
    let s1 = s.update(i, (s[i].0, q));
    if i == 0 {
        if id != s[0].0 {
            assert(s1.drop_first() =~= s.drop_first());
        }
    } else {
        assert(s1[0] == s[0]);
        if id == s[0].0 {
            assert(s[i].0 != s[0].0);
        } else {
            assert(s1.drop_first() =~= s.drop_first().update(i - 1, (s.drop_first()[i - 1].0, q)));
            lemma_lookup_update_at(s.drop_first(), i - 1, q, id);
        }
    }
}

/// Inserting a line with a fresh id at its sorted position changes exactly
/// that id's lookup.
pub proof fn lemma_lookup_insert_at(s: Seq<(u32, u32)>, i: int, nid: u32, q: u32, id: u32)
    requires
        0 <= i <= s.len(),
        forall|j: int| 0 <= j < s.len() ==> (#[trigger] s[j]).0 != nid,
    ensures
        lookup(s.insert(i, (nid, q)), id) == if id == nid {
            q
        } else {
            lookup(s, id)
        },
    decreases i,
{
    let s1 = s.insert(i, (nid, q));
    s.insert_ensures(i, (nid, q));
    if i == 0 {
        assert(s1[0] == (nid, q));
        if id == nid {
        } else {
            assert(s1.drop_first() =~= s);
        }
    } else {
        assert(s1[0] == s[0]);
        if id == nid {
            assert(s[0].0 != nid);
            assert(s1.drop_first() =~= s.drop_first().insert(i - 1, (nid, q)));
            lemma_lookup_insert_at(s.drop_first(), i - 1, nid, q, id);
        } else if id == s[0].0 {
        } else {
            assert(s1.drop_first() =~= s.drop_first().insert(i - 1, (nid, q)));
            lemma_lookup_insert_at(s.drop_first(), i - 1, nid, q, id);
        }
    }
}

/// Appending a line with a fresh id changes exactly that id's lookup.
pub proof fn lemma_lookup_snoc(s: Seq<(u32, u32)>, p: (u32, u32), id: u32)
    requires
        forall|j: int| 0 <= j < s.len() ==> (#[trigger] s[j]).0 != p.0,
    ensures
        lookup(s.push(p), id) == if id == p.0 {
            p.1
        } else {
            lookup(s, id)
        },
    decreases s.len(),
{
    if s.len() == 0 {
        assert(s.push(p)[0] == p);
        if id != p.0 {
            assert(s.push(p).drop_first() =~= s);
            lemma_lookup_absent(s, id);
        }
    } else {
        assert(s.push(p)[0] == s[0]);
        assert(s.push(p).drop_first() =~= s.drop_first().push(p));
        lemma_lookup_snoc(s.drop_first(), p, id);
    }
}

/// An order-building session: the cumulative quantity reserved for each
/// selected item, one line per item, ordered by item id.
pub struct Session {
    lines: Vec<(u32, u32)>,
}

impl View for Session {
    type V = Seq<(u32, u32)>;

    closed spec fn view(&self) -> Seq<(u32, u32)> {
        self.lines@
    }
}

impl Session {
    /// Opens a session with no reservations.
    pub fn new() -> (s: Session)
        ensures
            s@ == Seq::<(u32, u32)>::empty(),
            session_wf(s@),
    {
        Session { lines: Vec::new() }
    }

    /// The quantity this session has reserved for `item_id` so far.
    pub fn reserved_qty(&self, item_id: u32) -> (r: u32)
        ensures
            r == lookup(self@, item_id),
    {
        let mut i: usize = 0;
        proof {
            assert(self@.skip(0) =~= self@);
        }
        while i < self.lines.len()
            invariant
                i <= self.lines@.len(),
                lookup(self@, item_id) == lookup(self@.skip(i as int), item_id),
            decreases self.lines@.len() - i,
        {
            if self.lines[i].0 == item_id {
                proof {
                    assert(self@.skip(i as int)[0] == self@[i as int]);
                }
                return self.lines[i].1;
            }
            proof {
                assert(self@.skip(i as int)[0] == self@[i as int]);
                assert(self@.skip(i as int).drop_first() =~= self@.skip(i as int + 1));
            }
            i += 1;
        }
        proof {
            assert(self@.skip(i as int).len() == 0);
        }
        0
    }

    /// Whether every reservation in this session could be restored to the
    /// given store — the condition `cancel` requires.
    pub fn can_restore(&self, store: &Store) -> (r: bool)
        ensures
            r == restorable(self@, store.inv_map()),
    {
        let mut i: usize = 0;
        while i < self.lines.len()
            invariant
                i <= self.lines@.len(),
                forall|k: int|
                    0 <= k < i ==> {
                        let id = (#[trigger] self@[k]).0;
                        store.inv_map().contains_key(id) && store.inv_map()[id].1 + self@[k].1
                            <= u32::MAX
                    },
            decreases self.lines@.len() - i,
        {
            let (id, q) = self.lines[i];
            match store.inventory_get(id) {
                None => {
                    proof {
                        assert(!restorable(self@, store.inv_map()));
                    }
                    return false;
                },
                Some((_it, avail)) => {
                    if q > u32::MAX - avail {
                        proof {
                            assert(!restorable(self@, store.inv_map()));
                        }
                        return false;
                    }
                },
            }
            i += 1;
        }
        true
    }

    /// Reserves `qty` units of `item_id` for this session: decrements the
    /// on-hand stock and accumulates the quantity into the session's line
    /// for the item, summing with any earlier selection.  On failure the
    /// store and the session are unchanged.
    pub fn select(&mut self, store: &mut Store, item_id: u32, qty: u32) -> (r: Result<
        u32,
        StockError,
    >)
        requires
            old(store).wf(),
            session_wf(old(self)@),
            restorable(old(self)@, old(store).inv_map()),
            1 <= qty,
            lookup(old(self)@, item_id) + qty <= i32::MAX,
        ensures
            final(store).wf(),
            session_wf(final(self)@),
            restorable(final(self)@, final(store).inv_map()),
            final(store).order_log() == old(store).order_log(),
            final(store).item_counter() == old(store).item_counter(),
            final(store).order_counter() == old(store).order_counter(),
            select_post(
                old(store).inv_map(),
                old(self)@,
                final(store).inv_map(),
                final(self)@,
                item_id,
                qty,
                r,
            ),
    {
        let neg: i32 = -(qty as i32);
        let res = store.adjust_stock(item_id, neg);
        match res {
            Err(e) => Err(e),
            Ok(avail) => {
                let ghost s0 = self@;
                let n = self.lines.len();
                let mut i: usize = 0;
                while i < n && self.lines[i].0 < item_id
                    invariant
                        i <= n,
                        n == self.lines@.len(),
                        self@ == s0,
                        forall|j: int| 0 <= j < i ==> self@[j].0 < item_id,
                    decreases n - i,
                {
                    i += 1;
                }
                if i < n && self.lines[i].0 == item_id {
                    proof {
                        lemma_lookup_at(s0, i as int);
                    }
                    let cur = self.lines[i].1;
                    let newq = cur + qty;
                    self.lines[i] = (item_id, newq);
                    proof {
                        assert(self@ =~= s0.update(i as int, (item_id, newq)));
                        assert forall|id: u32|
                            #[trigger] lookup(self@, id) == lookup(s0, id) + if id == item_id {
                                qty as int
                            } else {
                                0
                            } by {
                            lemma_lookup_update_at(s0, i as int, newq, id);
                        }
                        assert forall|a: int, b: int|
                            0 <= a < b < self@.len() implies self@[a].0 < self@[b].0 by {
                            assert(self@[a].0 == s0[a].0);
                            assert(self@[b].0 == s0[b].0);
                        }
                        assert forall|k: int| 0 <= k < self@.len() implies {
                            let id = (#[trigger] self@[k]).0;
                            final(store).inv_map().contains_key(id)
                                && final(store).inv_map()[id].1 + self@[k].1 <= u32::MAX
                        } by {
                            if k != i {
                                assert(self@[k] == s0[k]);
                                assert(s0[k].0 != s0[i as int].0);
                            }
                        }
                    }
                    Ok(avail)
                } else {
                    proof {
                        assert forall|j: int|
                            0 <= j < s0.len() implies (#[trigger] s0[j]).0 != item_id by {
                            if j >= i {
                                if i < n {
                                    if j > i {
                                        assert(s0[i as int].0 < s0[j].0);
                                    }
                                }
                            }
                        }
                        lemma_lookup_absent(s0, item_id);
                        s0.insert_ensures(i as int, (item_id, qty));
                    }
                    self.lines.insert(i, (item_id, qty));
                    proof {
                        assert(self@ == s0.insert(i as int, (item_id, qty)));
                        assert forall|id: u32|
                            #[trigger] lookup(self@, id) == lookup(s0, id) + if id == item_id {
                                qty as int
                            } else {
                                0
                            } by {
                            lemma_lookup_insert_at(s0, i as int, item_id, qty, id);
                        }
                        assert forall|a: int, b: int|
                            0 <= a < b < self@.len() implies self@[a].0 < self@[b].0 by {
                            if b < i {
                            } else if a >= i + 1 {
                                assert(self@[a] == s0[a - 1]);
                                assert(self@[b] == s0[b - 1]);
                            } else if a < i && b == i {
                                assert(self@[a] == s0[a]);
                            } else if a == i {
                                assert(self@[b] == s0[b - 1]);
                                assert(s0[b - 1].0 > item_id);
                            } else {
                                assert(self@[a] == s0[a]);
                                assert(self@[b] == s0[b - 1]);
                                assert(s0[b - 1].0 > item_id);
                            }
                        }
                        assert forall|k: int| 0 <= k < self@.len() implies {
                            let id = (#[trigger] self@[k]).0;
                            final(store).inv_map().contains_key(id)
                                && final(store).inv_map()[id].1 + self@[k].1 <= u32::MAX
                        } by {
                            if k < i {
                                assert(self@[k] == s0[k]);
                            } else if k == i {
                            } else {
                                assert(self@[k] == s0[k - 1]);
                            }
                        }
                    }
                    Ok(avail)
                }
            },
        }
    }

    /// Cancels the session: restores every reservation to the store,
    /// reversing the whole session's effect on on-hand quantities.
    pub fn cancel(self, store: &mut Store)
        requires
            old(store).wf(),
            session_wf(self@),
            restorable(self@, old(store).inv_map()),
        ensures
            final(store).wf(),
            final(store).order_log() == old(store).order_log(),
            final(store).item_counter() == old(store).item_counter(),
            final(store).order_counter() == old(store).order_counter(),
            restored(old(store).inv_map(), final(store).inv_map(), self@),
    {
        let n = self.lines.len();
        let mut i: usize = 0;
        while i < n
            invariant
                i <= n,
                n == self.lines@.len(),
                session_wf(self@),
                restorable(self@, old(store).inv_map()),
                store.wf(),
                store.order_log() == old(store).order_log(),
                store.item_counter() == old(store).item_counter(),
                store.order_counter() == old(store).order_counter(),
                restored(old(store).inv_map(), store.inv_map(), self@.take(i as int)),
            decreases n - i,
        {
            let (id, q) = self.lines[i];
            proof {
                assert forall|j: int|
                    0 <= j < self@.take(i as int).len() implies (#[trigger] self@.take(
                    i as int,
                )[j]).0 != id by {
                    assert(self@.take(i as int)[j] == self@[j]);
                    assert(self@[j].0 < self@[i as int].0);
                }
                lemma_lookup_absent(self@.take(i as int), id);
            }
            match store.adjust_stock(id, q as i32) {
                Ok(_) => {},
                Err(_) => {
                    proof {
                        assert(false);
                    }
                },
            }
            proof {
                assert(self@.take(i as int + 1) =~= self@.take(i as int).push(self@[i as int]));
                assert forall|id2: u32|
                    #[trigger] lookup(self@.take(i as int + 1), id2) == if id2 == id {
                        q
                    } else {
                        lookup(self@.take(i as int), id2)
                    } by {
                    assert forall|j: int|
                        0 <= j < self@.take(i as int).len() implies (#[trigger] self@.take(
                        i as int,
                    )[j]).0 != id by {
                        assert(self@.take(i as int)[j] == self@[j]);
                        assert(self@[j].0 < self@[i as int].0);
                    }
                    lemma_lookup_snoc(self@.take(i as int), self@[i as int], id2);
                }
            }
            i += 1;
        }
        proof {
            assert(self@.take(n as int) =~= self@);
        }
    }

    /// Finalizes the session into the ordered line set an order is committed
    /// from: one line per selected item, ordered by item id.  Rejected with
    /// `None` when nothing has been selected — an empty order cannot be
    /// finished, and the session stays open.
    pub fn finish(&self) -> (r: Option<Vec<OrderLine>>)
        ensures
            match r {
                Some(v) => {
                    &&& self@.len() > 0
                    &&& v@.len() == self@.len()
                    &&& forall|i: int|
                        0 <= i < v@.len() ==> (#[trigger] v@[i]).item_id == self@[i].0
                            && v@[i].qty == self@[i].1
                    &&& session_wf(self@) ==> forall|i: int, j: int|
                        0 <= i < j < v@.len() ==> v@[i].item_id < v@[j].item_id
                },
                None => self@.len() == 0,
            },
    {
        if self.lines.len() == 0 {
            return None;
        }
        let mut v: Vec<OrderLine> = Vec::new();
        let mut i: usize = 0;
        while i < self.lines.len()
            invariant
                i <= self.lines@.len(),
                v@.len() == i,
                forall|j: int|
                    0 <= j < i ==> (#[trigger] v@[j]).item_id == self@[j].0 && v@[j].qty
                        == self@[j].1,
            decreases self.lines@.len() - i,
        {
            let p = self.lines[i];
            v.push(OrderLine { item_id: p.0, qty: p.1 });
            i += 1;
        }
        Some(v)
    }
}

} // verus!
