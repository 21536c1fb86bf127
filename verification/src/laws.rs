//! General properties of the library, stated over the same spec functions
//! the operations' contracts use, and proved once for all inputs.

use vstd::prelude::*;
use crate::session::{lemma_lookup_at, lemma_lookup_found, lookup, restored, select_post,
    session_wf};
use crate::store::{issues_next, Item, OrderLine, StockError};

verus! {

/// Sequential id issue.  Whenever a chain of allocations each takes the
/// counter's current value as its id and advances the counter by one — as
/// `Store::stock_new` does for item ids and `Store::commit_order` for order
/// ids — the k-th id issued is the starting counter plus k.  The issued ids
/// are therefore pairwise distinct and strictly increasing, and a counter
/// that starts at 1 (as in a fresh `Store`) issues exactly 1, 2, 3, ...
pub proof fn lemma_issued_ids_sequential(counters: Seq<int>, ids: Seq<int>)
    requires
        counters.len() == ids.len() + 1,
        forall|k: int|
            0 <= k < ids.len() ==> issues_next(counters[k], #[trigger] ids[k], counters[k + 1]),
    ensures
        forall|k: int| 0 <= k < ids.len() ==> #[trigger] ids[k] == counters[0] + k,
        forall|a: int, b: int| 0 <= a < b < ids.len() ==> ids[a] < ids[b],
        counters[0] == 1 ==> forall|k: int| 0 <= k < ids.len() ==> #[trigger] ids[k] == k + 1,
    decreases ids.len(),
{
    if ids.len() > 0 {
        assert forall|k: int|
            0 <= k < ids.drop_first().len() implies issues_next(
            counters.drop_first()[k],
            #[trigger] ids.drop_first()[k],
            counters.drop_first()[k + 1],
        ) by {
            assert(ids.drop_first()[k] == ids[k + 1]);
            assert(counters.drop_first()[k] == counters[k + 1]);
            assert(counters.drop_first()[k + 1] == counters[k + 2]);
        }
        lemma_issued_ids_sequential(counters.drop_first(), ids.drop_first());
        assert forall|k: int| 0 <= k < ids.len() implies #[trigger] ids[k] == counters[0] + k by {
            if k == 0 {
                assert(issues_next(counters[0], ids[0], counters[1]));
            } else {
                assert(ids.drop_first()[k - 1] == ids[k]);
                assert(counters.drop_first()[0] == counters[1]);
                assert(issues_next(counters[0], ids[0], counters[1]));
            }
        }
    }
}

/// On-hand quantities are never negative.  A quantity is stored unsigned,
/// and `Store::adjust_stock` — the only primitive that changes one —
/// refuses, leaving the store unchanged, any change whose computed new
/// quantity would be below zero.
pub proof fn lemma_quantity_never_negative(inv: Map<u32, (Item, u32)>, id: u32)
    ensures
        inv.contains_key(id) ==> inv[id].1 >= 0,
{
}

/// Reserve-then-cancel round trip.  Across any sequence of selections,
/// successful or refused, each item's on-hand quantity plus the session's
/// reservation for it stays exactly the pre-session quantity, and no item
/// appears or vanishes.  `Session::cancel` hands every reservation back, so
/// the quantities after cancellation equal the pre-session quantities.
pub proof fn lemma_selections_conserve_stock(
    invs: Seq<Map<u32, (Item, u32)>>,
    sessions: Seq<Seq<(u32, u32)>>,
    picks: Seq<(u32, u32)>,
    outcomes: Seq<Result<u32, StockError>>,
)
    requires
        invs.len() == picks.len() + 1,
        sessions.len() == picks.len() + 1,
        outcomes.len() == picks.len(),
        sessions[0].len() == 0,
        forall|k: int|
            0 <= k < picks.len() ==> select_post(
                invs[k],
                sessions[k],
                invs[k + 1],
                sessions[k + 1],
                (#[trigger] picks[k]).0,
                picks[k].1,
                outcomes[k],
            ),
    ensures
        restored(invs.last(), invs[0], sessions.last()),
    decreases picks.len(),
{
    let n = picks.len() as int;
    if n == 0 {
        assert(invs.last() == invs[0]);
        assert(sessions.last() == sessions[0]);
    } else {
        assert forall|k: int|
            0 <= k < picks.drop_last().len() implies select_post(
            invs.drop_last()[k],
            sessions.drop_last()[k],
            invs.drop_last()[k + 1],
            sessions.drop_last()[k + 1],
            (#[trigger] picks.drop_last()[k]).0,
            picks.drop_last()[k].1,
            outcomes.drop_last()[k],
        ) by {
            assert(picks.drop_last()[k] == picks[k]);
            assert(invs.drop_last()[k] == invs[k]);
            assert(invs.drop_last()[k + 1] == invs[k + 1]);
            assert(sessions.drop_last()[k] == sessions[k]);
            assert(sessions.drop_last()[k + 1] == sessions[k + 1]);
            assert(outcomes.drop_last()[k] == outcomes[k]);
        }
        assert(sessions.drop_last()[0] == sessions[0]);
        lemma_selections_conserve_stock(
            invs.drop_last(),
            sessions.drop_last(),
            picks.drop_last(),
            outcomes.drop_last(),
        );
        let inv_prev = invs[n - 1];
        let s_prev = sessions[n - 1];
        let inv_cur = invs[n];
        let s_cur = sessions[n];
        assert(invs.drop_last().last() == inv_prev);
        assert(sessions.drop_last().last() == s_prev);
        assert(restored(inv_prev, invs[0], s_prev));
        assert(select_post(inv_prev, s_prev, inv_cur, s_cur, picks[n - 1].0, picks[n - 1].1,
            outcomes[n - 1]));
        let item_id = picks[n - 1].0;
        let qty = picks[n - 1].1;
        match outcomes[n - 1] {
            Ok(_) => {
                assert forall|id: u32|
                    #[trigger] invs[0].contains_key(id) <==> inv_cur.contains_key(id) by {
                    assert(inv_cur.contains_key(id) <==> inv_prev.contains_key(id));
                }
                assert forall|id: u32|
                    #[trigger] inv_cur.contains_key(id) implies invs[0][id].0 == inv_cur[id].0
                    && invs[0][id].1 == inv_cur[id].1 + lookup(s_cur, id) by {
                    assert(lookup(s_cur, id) == lookup(s_prev, id) + if id == item_id {
                        qty as int
                    } else {
                        0
                    });
                    if id == item_id {
                        assert(inv_cur[id].1 == inv_prev[id].1 - qty);
                    } else {
                        assert(inv_cur[id] == inv_prev[id]);
                    }
                }
            },
            Err(_) => {
                assert(inv_cur == inv_prev);
                assert(s_cur == s_prev);
            },
        }
    }
}

/// Completing the round trip: when a session's reservations conserve the
/// pre-session inventory (as any sequence of selections does) and are then
/// all handed back (as `Session::cancel` ensures), the resulting inventory
/// holds exactly the pre-session entries — same items, same quantities.
pub proof fn lemma_cancel_restores_initial(
    inv_pre: Map<u32, (Item, u32)>,
    inv_cur: Map<u32, (Item, u32)>,
    inv_post: Map<u32, (Item, u32)>,
    s: Seq<(u32, u32)>,
)
    requires
        restored(inv_cur, inv_pre, s),
        restored(inv_cur, inv_post, s),
    ensures
        forall|id: u32| #[trigger] inv_post.contains_key(id) <==> inv_pre.contains_key(id),
        forall|id: u32| #[trigger] inv_pre.contains_key(id) ==> inv_post[id] == inv_pre[id],
{
    assert forall|id: u32|
        #[trigger] inv_pre.contains_key(id) implies inv_post[id] == inv_pre[id] by {
        assert(inv_cur.contains_key(id));
        assert(inv_pre[id].1 == inv_cur[id].1 + lookup(s, id));
        assert(inv_post[id].1 == inv_cur[id].1 + lookup(s, id));
        assert(inv_post[id].0 == inv_pre[id].0);
    }
}

/// Selecting the same item twice in one session leaves a single line
/// carrying the summed quantity: the line set a `finish` after the two
/// selections yields has exactly one line, for that item, with the two
/// quantities added — never two lines.
pub proof fn lemma_same_item_twice_merges(
    inv0: Map<u32, (Item, u32)>,
    s0: Seq<(u32, u32)>,
    inv1: Map<u32, (Item, u32)>,
    s1: Seq<(u32, u32)>,
    inv2: Map<u32, (Item, u32)>,
    s2: Seq<(u32, u32)>,
    item_id: u32,
    q1: u32,
    q2: u32,
    r1: Result<u32, StockError>,
    r2: Result<u32, StockError>,
    lines: Seq<OrderLine>,
)
    requires
        s0.len() == 0,
        1 <= q1,
        1 <= q2,
        q1 + q2 <= u32::MAX,
        r1 is Ok,
        r2 is Ok,
        select_post(inv0, s0, inv1, s1, item_id, q1, r1),
        select_post(inv1, s1, inv2, s2, item_id, q2, r2),
        session_wf(s2),
        lines.len() == s2.len(),
        forall|i: int|
            0 <= i < lines.len() ==> (#[trigger] lines[i]).item_id == s2[i].0 && lines[i].qty
                == s2[i].1,
    ensures
        lines.len() == 1,
        lines[0].item_id == item_id,
        lines[0].qty == q1 + q2,
{
    assert(lookup(s0, item_id) == 0);
    assert(lookup(s1, item_id) == q1);
    assert(lookup(s2, item_id) == q1 + q2);
    assert forall|j: int| 0 <= j < s2.len() implies (#[trigger] s2[j]).0 == item_id by {
        lemma_lookup_at(s2, j);
        if s2[j].0 != item_id {
            assert(lookup(s2, s2[j].0) == lookup(s1, s2[j].0));
            assert(lookup(s1, s2[j].0) == lookup(s0, s2[j].0));
            assert(lookup(s0, s2[j].0) == 0);
        }
    }
    lemma_lookup_found(s2, item_id);
    if s2.len() >= 2 {
        assert(s2[0].0 < s2[1].0);
        assert(false);
    }
    lemma_lookup_at(s2, 0);
}

} // verus!
