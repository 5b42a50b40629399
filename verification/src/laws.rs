//! Properties of the auction that span its operations.
use vstd::prelude::*;

use crate::db;
use crate::db::{
    bids_track_locks,
    picked_total,
    lemma_find_bid_at,
    lemma_find_product_at,
    key_result,
    new_key_record,
    IDEMPOTENCY_TTL_MILLIS,
    apply_change,
    is_first_active_of_bid,
    new_bid,
    new_lock,
    new_product,
    set_bid_status,
    DbState,
    KeyFilter,
    LockFilter,
    StockChange,
};
use crate::clock::{MILLIS_PER_MINUTE, TIME_BOUND};
use crate::errors::AppError;
use crate::models::{AuctionStatus, BidRecord, CreateProductRequest, Product, BidResponse, BidStatus, LockStatus, PlaceBidRequest, StockLock};
use crate::services::{
    expired_state,
    cancel_bid_post,
    cancelled_state,
    create_product_post,
    confirm_purchase_post,
    confirmed_state,
    bid_lookup,
    live_key,
    place_bid_post,
    placed_response,
    placed_state,
    refused_with,
    release_products,
    ended_ids,
    released_for,
    replayed_bid,
};

verus! {

/// A bid that is placed (not answered from its idempotency key) takes its
/// quantity from the stock that is available once the bidder's earlier locks
/// are released, moves it to locked stock, raises the price to the bid, which
/// is at least the former price plus the minimum increment, never oversells,
/// and is reported afterwards exactly as placement reported it: confirmed,
/// with its lock's expiry. Its lock is then the bidder's only active lock on
/// the product.
pub proof fn lemma_place_bid_success(
    d: DbState,
    req: PlaceBidRequest,
    now: i64,
    bid_id: u128,
    lock_id: u128,
    r: Result<crate::models::BidResponse, AppError>,
    e: DbState,
)
    requires
        d.wf(),
        e.wf(),
        place_bid_post(d, req, now, bid_id, lock_id, r, e),
        r is Ok,
        replayed_bid(d, req, now) is None,
    ensures
        d.has_product(req.product_id),
        e.has_product(req.product_id),
        ({
            let p = d.find_product(req.product_id)->0;
            let p1 = released_for(d, req, now).find_product(req.product_id)->0;
            let q = e.find_product(req.product_id)->0;
            &&& req.bid_price >= p.current_price + p.min_increment
            &&& q.current_price == req.bid_price
            &&& q.available_stock == p1.available_stock - req.quantity
            &&& q.locked_stock == p1.locked_stock + req.quantity
            &&& q.total_stock == p.total_stock
            &&& 0 <= q.available_stock
            &&& q.id == p.id
            &&& q.name == p.name
            &&& q.description == p.description
            &&& q.start_price == p.start_price
            &&& q.min_increment == p.min_increment
            &&& q.room_id == p.room_id
            &&& q.end_time == p.end_time
            &&& q.created_at == p.created_at
            &&& q.updated_at == now
        }),
        r->Ok_0.id == bid_id,
        r->Ok_0.status == BidStatus::Confirmed,
        r == bid_lookup(e, r->Ok_0.id),
        e.find_bid(bid_id) == Some(
            BidRecord {
                status: BidStatus::Confirmed,
                ..new_bid(req.product_id, req.user_id, req.bid_price, req.quantity, bid_id, now)
            },
        ),
        e.locks.len() > 0,
        e.locks.last() == new_lock(req.product_id, bid_id, req.user_id, req.quantity, lock_id, now),
        e.active_lock_of_bid(bid_id) == Some(
            new_lock(req.product_id, bid_id, req.user_id, req.quantity, lock_id, now),
        ),
        forall|k: int|
            0 <= k < e.locks.len() - 1 && (#[trigger] e.locks[k]).status == LockStatus::Active
                ==> !(e.locks[k].product_id == req.product_id && e.locks[k].user_id@
                == req.user_id@),
{
    let pid = req.product_id;
    let d1 = released_for(d, req, now);
    let f = LockFilter::HeldBy(pid, req.user_id);
    db::lemma_settle_picked_keeps_ids(d, f, LockStatus::Released, BidStatus::Cancelled, now, d.locks.len());
    db::lemma_settle_picked_wf(d, f, LockStatus::Released, BidStatus::Cancelled, now, d.locks.len());
    assert(e == placed_state(d, req, now, bid_id, lock_id));
    assert(r == Ok::<crate::models::BidResponse, AppError>(placed_response(req, now, bid_id)));
    let k = d.product_index(pid);
    lemma_find_product_at(d, k);
    lemma_find_product_at(d1, k);
    let p1 = d1.products[k];
    assert(p1.available_stock >= req.quantity);
    let nb = new_bid(pid, req.user_id, req.bid_price, req.quantity, bid_id, now);
    let nl = new_lock(pid, bid_id, req.user_id, req.quantity, lock_id, now);
    let ps3 = apply_change(d1.products, pid, StockChange::Reserve(req.quantity), now);
    assert(ps3[k] == StockChange::Reserve(req.quantity).apply(p1, now));
    assert(e.products == apply_change(ps3, pid, StockChange::Reprice(req.bid_price), now));
    assert(e.products[k] == StockChange::Reprice(req.bid_price).apply(ps3[k], now));
    lemma_find_product_at(e, k);
    // The bid as recorded.
    let m = d1.bids.len() as int;
    assert(e.bids == set_bid_status(d1.bids.push(nb), bid_id, BidStatus::Confirmed));
    assert(e.bids[m].id == bid_id);
    lemma_find_bid_at(e, m);
    // Its lock is the first active lock held for it.
    let ll = d1.locks.len() as int;
    assert(e.locks == d1.locks.push(nl));
    assert(!d1.has_bid(bid_id)) by {
        if d1.has_bid(bid_id) {
            let j = d1.bid_index(bid_id);
            assert(d.bids[j].id == bid_id);
        }
    }
    assert forall|j: int| 0 <= j < ll implies !(#[trigger] e.locks[j].bid_id == bid_id
        && e.locks[j].status == LockStatus::Active) by {
        assert(e.locks[j] == d1.locks[j]);
        if d1.locks[j].status == LockStatus::Active {
            assert(d1.has_bid(d1.locks[j].bid_id));
        }
    }
    assert(is_first_active_of_bid(e.locks, bid_id, ll));
    let c = choose|c: int| is_first_active_of_bid(e.locks, bid_id, c);
    assert(c == ll) by {
        if c < ll {
            assert(!(e.locks[c].bid_id == bid_id && e.locks[c].status == LockStatus::Active));
        }
    }
    assert(e.active_lock_of_bid(bid_id) == Some(nl));
    // The bidder's earlier locks on the product are no longer active.
    db::lemma_settle_picked_locks(d, f, LockStatus::Released, BidStatus::Cancelled, now, d.locks.len());
    assert forall|j: int|
        0 <= j < e.locks.len() - 1 && (#[trigger] e.locks[j]).status == LockStatus::Active
            implies !(e.locks[j].product_id == req.product_id && e.locks[j].user_id@
            == req.user_id@) by {
        assert(e.locks[j] == d1.locks[j]);
    }
}

/// A bid placed under an idempotency key answers, for a day, every later
/// request with that key, whatever else it asks (its quantity and price being
/// positive): the answer is the bid it placed, and nothing changes. Between the
/// two, the service's operations keep the key's answer (each ensures
/// `live_keys_kept` from its own instant on, and such steps compose by
/// `lemma_live_keys_kept_trans`); asked again right away, the same request
/// gets the same answer: two placements have the effect of one.
pub proof fn lemma_place_bid_idempotent(
    d: DbState,
    req: PlaceBidRequest,
    now: i64,
    bid_id: u128,
    lock_id: u128,
    r: Result<BidResponse, AppError>,
    e: DbState,
    m: DbState,
    req2: PlaceBidRequest,
    later: i64,
    bid_id2: u128,
    lock_id2: u128,
    r2: Result<BidResponse, AppError>,
    e2: DbState,
)
    requires
        d.wf(),
        e.wf(),
        place_bid_post(d, req, now, bid_id, lock_id, r, e),
        r is Ok,
        replayed_bid(d, req, now) is None,
        live_key(req) is Some,
        -TIME_BOUND <= now <= TIME_BOUND,
        later < now + IDEMPOTENCY_TTL_MILLIS,
        db::live_keys_kept(e.keys, m.keys, later),
        req2.idempotency_key == req.idempotency_key,
        req2.quantity > 0,
        req2.bid_price > 0,
        place_bid_post(m, req2, later, bid_id2, lock_id2, r2, e2),
    ensures
        r->Ok_0.id == bid_id,
        r2 == bid_lookup(m, bid_id),
        e2 == m,
        m == e ==> r2 == r,
{
    lemma_place_bid_success(d, req, now, bid_id, lock_id, r, e);
    let k = live_key(req)->0;
    assert(e == placed_state(d, req, now, bid_id, lock_id));
    let ks = e.keys;
    let last = ks.len() - 1;
    assert(ks[last] == new_key_record(k, bid_id, now));
    db::lemma_key_result_at(ks, last, later);
    assert(key_result(m.keys, k@, later) == Some(bid_id));
    assert(replayed_bid(m, req2, later) == Some(bid_id));
}

/// A confirmed purchase sells what the bid's lock held: the product's total
/// and locked stock fall by the lock's quantity, its available stock stays,
/// the lock is confirmed and the bid remains confirmed.
pub proof fn lemma_confirm_purchase_success(
    d: DbState,
    bid_id: u128,
    user: Seq<char>,
    now: i64,
    r: Result<(), AppError>,
    e: DbState,
)
    requires
        d.wf(),
        e.wf(),
        confirm_purchase_post(d, bid_id, user, now, r, e),
        r is Ok,
    ensures
        d.active_lock_of_bid(bid_id) is Some,
        ({
            let l = d.active_lock_of_bid(bid_id)->0;
            let p = d.find_product(l.product_id)->0;
            let q = e.find_product(l.product_id)->0;
            &&& l.expires_at >= now
            &&& d.has_product(l.product_id)
            &&& e.has_product(l.product_id)
            &&& q.total_stock == p.total_stock - l.quantity
            &&& q.locked_stock == p.locked_stock - l.quantity
            &&& q.available_stock == p.available_stock
            &&& q.current_price == p.current_price
            &&& q.id == p.id
            &&& q.name == p.name
            &&& q.description == p.description
            &&& q.start_price == p.start_price
            &&& q.min_increment == p.min_increment
            &&& q.room_id == p.room_id
            &&& q.end_time == p.end_time
            &&& q.created_at == p.created_at
            &&& q.updated_at == now
            &&& e.locks[d.lock_index(l.id)] == (StockLock { status: LockStatus::Confirmed, ..l })
            &&& e.find_bid(bid_id) == d.find_bid(bid_id)
        }),
{
    let b = d.find_bid(bid_id)->0;
    let l = d.active_lock_of_bid(bid_id)->0;
    assert(e == confirmed_state(d, l, bid_id, now));
    db::lemma_active_lock_of_bid_row(d, bid_id);
    let i = d.lock_index(l.id);
    let k = d.product_index(l.product_id);
    lemma_find_product_at(d, k);
    assert(e.products[k] == StockChange::Consume(l.quantity).apply(d.products[k], now));
    lemma_find_product_at(e, k);
    let m = d.bid_index(bid_id);
    lemma_find_bid_at(d, m);
    assert(e.bids[m].id == bid_id);
    lemma_find_bid_at(e, m);
}

/// A cancelled bid gives back what its lock held: the product's available
/// stock rises and its locked stock falls by the lock's quantity, its total
/// stays, the lock is released and the bid cancelled.
pub proof fn lemma_cancel_bid_success(
    d: DbState,
    bid_id: u128,
    user: Seq<char>,
    now: i64,
    r: Result<(), AppError>,
    e: DbState,
)
    requires
        d.wf(),
        e.wf(),
        cancel_bid_post(d, bid_id, user, now, r, e),
        r is Ok,
    ensures
        d.active_lock_of_bid(bid_id) is Some,
        ({
            let l = d.active_lock_of_bid(bid_id)->0;
            let p = d.find_product(l.product_id)->0;
            let q = e.find_product(l.product_id)->0;
            &&& d.has_product(l.product_id)
            &&& e.has_product(l.product_id)
            &&& q.available_stock == p.available_stock + l.quantity
            &&& q.locked_stock == p.locked_stock - l.quantity
            &&& q.total_stock == p.total_stock
            &&& q.current_price == p.current_price
            &&& q.id == p.id
            &&& q.name == p.name
            &&& q.description == p.description
            &&& q.start_price == p.start_price
            &&& q.min_increment == p.min_increment
            &&& q.room_id == p.room_id
            &&& q.end_time == p.end_time
            &&& q.created_at == p.created_at
            &&& q.updated_at == now
            &&& e.locks[d.lock_index(l.id)] == (StockLock { status: LockStatus::Released, ..l })
            &&& e.find_bid(bid_id) == Some(
                BidRecord { status: BidStatus::Cancelled, ..d.find_bid(bid_id)->0 },
            )
        }),
{
    let l = d.active_lock_of_bid(bid_id)->0;
    assert(e == cancelled_state(d, l, bid_id, now));
    db::lemma_active_lock_of_bid_row(d, bid_id);
    let k = d.product_index(l.product_id);
    lemma_find_product_at(d, k);
    assert(e.products[k] == StockChange::Restore(l.quantity).apply(d.products[k], now));
    lemma_find_product_at(e, k);
    let m = d.bid_index(bid_id);
    lemma_find_bid_at(d, m);
    assert(e.bids[m].id == bid_id);
    lemma_find_bid_at(e, m);
}

/// Expiring the locks that lapsed before `now` leaves no lapsed lock active
/// and gives their stock back: each product keeps its total, its available
/// stock rises and its locked stock falls by the sum of what its lapsed locks
/// held.
pub proof fn lemma_expiry_returns_stock(d: DbState, now: i64)
    requires
        d.wf(),
    ensures
        ({
            let e = expired_state(d, now);
            &&& e.wf()
            &&& e.products.len() == d.products.len()
            &&& forall|k: int|
                0 <= k < e.locks.len() && (#[trigger] e.locks[k]).status == LockStatus::Active
                    ==> e.locks[k].expires_at >= now
            &&& forall|k: int|
                0 <= k < d.products.len() ==> {
                    let p = d.products[k];
                    let q = #[trigger] e.products[k];
                    &&& q.id == p.id
                    &&& q.total_stock == p.total_stock
                    &&& q.available_stock == p.available_stock + picked_total(
                        d.locks,
                        LockFilter::ExpiredBefore(now),
                        p.id,
                    )
                    &&& q.locked_stock == p.locked_stock - picked_total(
                        d.locks,
                        LockFilter::ExpiredBefore(now),
                        p.id,
                    )
                }
        }),
{
    let f = LockFilter::ExpiredBefore(now);
    let e = expired_state(d, now);
    db::lemma_settle_picked_wf(d, f, LockStatus::Expired, BidStatus::Expired, now, d.locks.len());
    db::lemma_settle_picked_keeps_ids(d, f, LockStatus::Expired, BidStatus::Expired, now, d.locks.len());
    db::lemma_settle_picked_locks(d, f, LockStatus::Expired, BidStatus::Expired, now, d.locks.len());
    assert forall|k: int| 0 <= k < d.products.len() implies ({
        let p = d.products[k];
        let q = #[trigger] e.products[k];
        &&& q.id == p.id
        &&& q.total_stock == p.total_stock
        &&& q.available_stock == p.available_stock + picked_total(d.locks, f, p.id)
        &&& q.locked_stock == p.locked_stock - picked_total(d.locks, f, p.id)
    }) by {
        assert(db::stock_balanced(d.products[k], d.locks));
        assert(db::stock_balanced(e.products[k], e.locks));
        db::lemma_settle_picked_locked_total(d, f, LockStatus::Expired, BidStatus::Expired, now, d.products[k].id);
    }
}

/// A bidder's earlier locks on a product pay towards the new bid. Where every
/// check but the stock passes, the bid is placed exactly when the available
/// stock and what the bidder's active locks on the product hold together cover
/// its quantity. The product's available stock is then that sum less the
/// quantity, its locked stock loses what those locks held and gains the
/// quantity, each of those locks is released and its bid cancelled. Otherwise
/// the bid is refused for want of stock and nothing changes.
pub proof fn lemma_place_bid_after_own_locks(
    d: DbState,
    req: PlaceBidRequest,
    now: i64,
    bid_id: u128,
    lock_id: u128,
    r: Result<BidResponse, AppError>,
    e: DbState,
)
    requires
        d.wf(),
        e.wf(),
        place_bid_post(d, req, now, bid_id, lock_id, r, e),
        req.quantity > 0,
        req.bid_price > 0,
        replayed_bid(d, req, now) is None,
        d.has_product(req.product_id),
        d.find_product(req.product_id)->0.status_at(now) == AuctionStatus::Ongoing,
        req.bid_price >= d.find_product(req.product_id)->0.current_price,
        req.bid_price >= d.find_product(req.product_id)->0.current_price + d.find_product(
            req.product_id,
        )->0.min_increment,
        !d.has_bid(bid_id),
        !d.has_lock(lock_id),
    ensures
        ({
            let pid = req.product_id;
            let f = LockFilter::HeldBy(pid, req.user_id);
            let p = d.find_product(pid)->0;
            let held = picked_total(d.locks, f, pid);
            &&& p.available_stock + held >= req.quantity ==> {
                let q = e.find_product(pid)->0;
                &&& r is Ok
                &&& e.has_product(pid)
                &&& q.available_stock == p.available_stock + held - req.quantity
                &&& q.locked_stock == p.locked_stock - held + req.quantity
                &&& forall|k: int|
                    0 <= k < d.locks.len() && f.picks(#[trigger] d.locks[k]) ==> e.locks[k] == (
                    StockLock { status: LockStatus::Released, ..d.locks[k] }) && (e.find_bid(
                        d.locks[k].bid_id,
                    ) matches Some(b) && b.status == BidStatus::Cancelled)
            }
            &&& p.available_stock + held < req.quantity ==> r == Err::<BidResponse, AppError>(
                AppError::InsufficientStock,
            ) && e == d
        }),
{
    let pid = req.product_id;
    let f = LockFilter::HeldBy(pid, req.user_id);
    let n = d.locks.len();
    let d1 = released_for(d, req, now);
    let held = picked_total(d.locks, f, pid);
    db::lemma_settle_picked_wf(d, f, LockStatus::Released, BidStatus::Cancelled, now, n);
    db::lemma_settle_picked_keeps_ids(d, f, LockStatus::Released, BidStatus::Cancelled, now, n);
    db::lemma_settle_picked_locked_total(d, f, LockStatus::Released, BidStatus::Cancelled, now, pid);
    let k = d.product_index(pid);
    lemma_find_product_at(d, k);
    lemma_find_product_at(d1, k);
    let p = d.products[k];
    let p1 = d1.products[k];
    assert(db::stock_balanced(p, d.locks));
    assert(db::stock_balanced(p1, d1.locks));
    assert(p1.available_stock == p.available_stock + held);
    if p.available_stock + held >= req.quantity {
        lemma_place_bid_success(d, req, now, bid_id, lock_id, r, e);
        db::lemma_settle_picked_locks(d, f, LockStatus::Released, BidStatus::Cancelled, now, n);
        db::lemma_settle_picked_bids(d, f, LockStatus::Released, BidStatus::Cancelled, now, n);
        assert(e == placed_state(d, req, now, bid_id, lock_id));
        let nb = new_bid(pid, req.user_id, req.bid_price, req.quantity, bid_id, now);
        let nl = new_lock(pid, bid_id, req.user_id, req.quantity, lock_id, now);
        assert(e.locks == d1.locks.push(nl));
        assert(e.bids == set_bid_status(d1.bids.push(nb), bid_id, BidStatus::Confirmed));
        assert forall|m: int| 0 <= m < d.locks.len() && f.picks(#[trigger] d.locks[m]) implies e.locks[m]
            == (StockLock { status: LockStatus::Released, ..d.locks[m] }) && (e.find_bid(
            d.locks[m].bid_id,
        ) matches Some(b) && b.status == BidStatus::Cancelled) by {
            assert(e.locks[m] == d1.locks[m]);
            let x = d.locks[m].bid_id;
            assert(d.has_bid(x));
            let j = d.bid_index(x);
            assert(d1.bids[j].id == x);
            assert(d1.bids[j].status == BidStatus::Cancelled);
            assert(x != bid_id);
            assert(e.bids[j] == d1.bids[j]);
            lemma_find_bid_at(e, j);
        }
    }
}

/// Placing a bid, placed or refused, keeps every product's total stock and
/// never lowers a price; a bid that is placed sets its product's price to the
/// bid. The tables stay well formed, every product's stock balanced.
pub proof fn lemma_place_bid_keeps_totals(
    d: DbState,
    req: PlaceBidRequest,
    now: i64,
    bid_id: u128,
    lock_id: u128,
    r: Result<BidResponse, AppError>,
    e: DbState,
)
    requires
        d.wf(),
        e.wf(),
        place_bid_post(d, req, now, bid_id, lock_id, r, e),
    ensures
        e.products.len() == d.products.len(),
        forall|k: int|
            0 <= k < d.products.len() ==> {
                let p = d.products[k];
                let q = #[trigger] e.products[k];
                &&& q.id == p.id
                &&& q.total_stock == p.total_stock
                &&& q.current_price >= p.current_price
                &&& db::stock_balanced(q, e.locks)
            },
        r is Ok && replayed_bid(d, req, now) is None ==> e.has_product(req.product_id)
            && e.find_product(req.product_id)->0.current_price == req.bid_price,
{
    if r is Ok && replayed_bid(d, req, now) is None {
        lemma_place_bid_success(d, req, now, bid_id, lock_id, r, e);
    }
    if !(e == d) {
        // Only a placement changes the tables.
        let pid = req.product_id;
        let f = LockFilter::HeldBy(pid, req.user_id);
        let n = d.locks.len();
        let d1 = released_for(d, req, now);
        db::lemma_settle_picked_keeps_ids(d, f, LockStatus::Released, BidStatus::Cancelled, now, n);
        assert(e == placed_state(d, req, now, bid_id, lock_id));
        let ps3 = apply_change(d1.products, pid, StockChange::Reserve(req.quantity), now);
        assert(e.products == apply_change(ps3, pid, StockChange::Reprice(req.bid_price), now));
        let pk = d.product_index(pid);
        lemma_find_product_at(d, pk);
        assert forall|k: int| 0 <= k < d.products.len() implies {
            let p = d.products[k];
            let q = #[trigger] e.products[k];
            &&& q.id == p.id
            &&& q.total_stock == p.total_stock
            &&& q.current_price >= p.current_price
        } by {
            assert(db::same_listing(d1.products[k], d.products[k]));
            if d.products[k].id == pid {
                lemma_find_product_at(d, k);
            }
        }
    }
}

/// Once the only lock of bid `bid_id` leaves the active state, the bid holds
/// no active lock.
proof fn lemma_no_active_lock_after_settle(d: DbState, bid_id: u128, e: DbState, status: LockStatus)
    requires
        d.wf(),
        bids_track_locks(d),
        d.active_lock_of_bid(bid_id) is Some,
        status != LockStatus::Active,
        e.locks == d.locks.update(
            d.lock_index(d.active_lock_of_bid(bid_id)->0.id),
            StockLock { status, ..d.active_lock_of_bid(bid_id)->0 },
        ),
    ensures
        !e.bid_has_active_lock(bid_id),
        e.active_lock_of_bid(bid_id) is None,
{
    db::lemma_active_lock_of_bid_row(d, bid_id);
    let l = d.active_lock_of_bid(bid_id)->0;
    let i = d.lock_index(l.id);
    assert forall|c: int|
        0 <= c < e.locks.len() && e.locks[c].bid_id == bid_id implies e.locks[c].status
        != LockStatus::Active by {
        if c != i {
            assert(e.locks[c] == d.locks[c]);
            if c < i {
                assert(d.locks[c].bid_id != d.locks[i].bid_id);
            } else {
                assert(d.locks[i].bid_id != d.locks[c].bid_id);
            }
        }
    }
    lemma_no_first_active_lock(e, bid_id);
}

/// A bid with no active lock has no first one.
proof fn lemma_no_first_active_lock(d: DbState, bid_id: u128)
    requires
        !d.bid_has_active_lock(bid_id),
    ensures
        d.active_lock_of_bid(bid_id) is None,
{
    assert forall|c: int| !is_first_active_of_bid(d.locks, bid_id, c) by {
        if is_first_active_of_bid(d.locks, bid_id, c) {
            assert(d.bid_has_active_lock(bid_id));
        }
    }
}

/// A purchase is confirmed at most once: whatever the service does in between
/// (each of its operations keeps a bid without an active lock as it is, see
/// `settled_bids_kept`), confirming it again fails for want of an active lock
/// and changes nothing, so its stock leaves the product once.
pub proof fn lemma_confirm_purchase_twice(
    d: DbState,
    bid_id: u128,
    user: Seq<char>,
    now: i64,
    r: Result<(), AppError>,
    e: DbState,
    m: DbState,
    later: i64,
    r2: Result<(), AppError>,
    e2: DbState,
)
    requires
        d.wf(),
        bids_track_locks(d),
        e.wf(),
        confirm_purchase_post(d, bid_id, user, now, r, e),
        r is Ok,
        db::settled_bids_kept(e, m),
        confirm_purchase_post(m, bid_id, user, later, r2, e2),
    ensures
        r2 == Err::<(), AppError>(AppError::LockExpired),
        e2 == m,
{
    lemma_confirm_purchase_success(d, bid_id, user, now, r, e);
    let l = d.active_lock_of_bid(bid_id)->0;
    assert(e == confirmed_state(d, l, bid_id, now));
    lemma_no_active_lock_after_settle(d, bid_id, e, LockStatus::Confirmed);
    assert(e.has_bid(bid_id));
    assert(m.find_bid(bid_id) == e.find_bid(bid_id));
    lemma_no_first_active_lock(m, bid_id);
}

/// A bid can be cancelled only while its lock holds: once its purchase is
/// confirmed a cancellation is refused for want of an active lock, once it is
/// cancelled a cancellation is refused for its status, whatever the service
/// does in between (each of its operations keeps a bid without an active lock
/// as it is, see `settled_bids_kept`), and neither refusal changes anything:
/// sold stock never returns, a lock is released once.
pub proof fn lemma_cancel_after_settled(
    d: DbState,
    bid_id: u128,
    user: Seq<char>,
    now: i64,
    confirmed: bool,
    r: Result<(), AppError>,
    e: DbState,
    m: DbState,
    later: i64,
    r2: Result<(), AppError>,
    e2: DbState,
)
    requires
        d.wf(),
        bids_track_locks(d),
        e.wf(),
        confirmed ==> confirm_purchase_post(d, bid_id, user, now, r, e),
        !confirmed ==> cancel_bid_post(d, bid_id, user, now, r, e),
        r is Ok,
        db::settled_bids_kept(e, m),
        cancel_bid_post(m, bid_id, user, later, r2, e2),
    ensures
        confirmed ==> refused_with(r2, "No active lock for this bid"@),
        !confirmed ==> refused_with(
            r2,
            "Bid status is "@ + BidStatus::Cancelled.name() + ", cannot cancel"@,
        ),
        e2 == m,
{
    let l = d.active_lock_of_bid(bid_id)->0;
    if confirmed {
        lemma_confirm_purchase_success(d, bid_id, user, now, r, e);
        assert(e == confirmed_state(d, l, bid_id, now));
    } else {
        lemma_cancel_bid_success(d, bid_id, user, now, r, e);
        assert(e == cancelled_state(d, l, bid_id, now));
    }
    lemma_no_active_lock_after_settle(d, bid_id, e, if confirmed {
        LockStatus::Confirmed
    } else {
        LockStatus::Released
    });
    assert(e.has_bid(bid_id));
    assert(m.find_bid(bid_id) == e.find_bid(bid_id));
    lemma_no_first_active_lock(m, bid_id);
}

/// Placing a bid and then cancelling it undoes the placement's hold on stock:
/// for a bidder with no active lock on the product, the product's available,
/// locked and total stock are back where they were, its price stays at the
/// bid, the bid is cancelled and its lock released.
pub proof fn lemma_place_then_cancel(
    d: DbState,
    req: PlaceBidRequest,
    now: i64,
    bid_id: u128,
    lock_id: u128,
    r: Result<BidResponse, AppError>,
    e: DbState,
    later: i64,
    r2: Result<(), AppError>,
    e2: DbState,
)
    requires
        d.wf(),
        e.wf(),
        e2.wf(),
        forall|k: int|
            0 <= k < d.locks.len() ==> !LockFilter::HeldBy(req.product_id, req.user_id).picks(
                #[trigger] d.locks[k],
            ),
        place_bid_post(d, req, now, bid_id, lock_id, r, e),
        r is Ok,
        replayed_bid(d, req, now) is None,
        cancel_bid_post(e, bid_id, req.user_id@, later, r2, e2),
    ensures
        r2 == Ok::<(), AppError>(()),
        d.has_product(req.product_id),
        e2.has_product(req.product_id),
        ({
            let p = d.find_product(req.product_id)->0;
            let q = e2.find_product(req.product_id)->0;
            &&& q.available_stock == p.available_stock
            &&& q.locked_stock == p.locked_stock
            &&& q.total_stock == p.total_stock
            &&& q.current_price == req.bid_price
        }),
        e2.find_bid(bid_id) matches Some(b) && b.status == BidStatus::Cancelled,
        e2.locks[e.locks.len() - 1] == (StockLock {
            status: LockStatus::Released,
            ..new_lock(req.product_id, bid_id, req.user_id, req.quantity, lock_id, now)
        }),
{
    let pid = req.product_id;
    let f = LockFilter::HeldBy(pid, req.user_id);
    let n = d.locks.len();
    let d1 = released_for(d, req, now);
    lemma_place_bid_success(d, req, now, bid_id, lock_id, r, e);
    db::lemma_picked_total_none(d.locks, f, pid);
    db::lemma_settle_picked_wf(d, f, LockStatus::Released, BidStatus::Cancelled, now, n);
    db::lemma_settle_picked_keeps_ids(d, f, LockStatus::Released, BidStatus::Cancelled, now, n);
    db::lemma_settle_picked_locked_total(d, f, LockStatus::Released, BidStatus::Cancelled, now, pid);
    let k = d.product_index(pid);
    lemma_find_product_at(d, k);
    lemma_find_product_at(d1, k);
    assert(db::stock_balanced(d.products[k], d.locks));
    assert(db::stock_balanced(d1.products[k], d1.locks));
    let nl = new_lock(pid, bid_id, req.user_id, req.quantity, lock_id, now);
    lemma_cancel_bid_success(e, bid_id, req.user_id@, later, r2, e2);
    db::lemma_find_lock_at(e, e.locks.len() - 1);
}

/// Locking stock and then releasing the lock gives the product back the stock
/// it had, available and locked as before, whatever the quantity (zero or
/// negative too) as long as that much was available to lock; the lock is then
/// released, and no active lock is left under its identifier, so a second
/// release is refused and changes nothing.
pub proof fn lemma_lock_then_release(
    d: DbState,
    product_id: u128,
    bid_id: u128,
    user_id: String,
    quantity: i64,
    id: u128,
    now: i64,
    e: DbState,
    later: i64,
    e2: DbState,
)
    requires
        d.keyed(),
        d.has_product(product_id),
        quantity <= d.find_product(product_id)->0.available_stock,
        db::reserve_fits(d, product_id, quantity),
        d.has_bid(bid_id),
        !d.has_lock(id),
        e == (DbState {
            products: apply_change(d.products, product_id, StockChange::Reserve(quantity), now),
            locks: d.locks.push(new_lock(product_id, bid_id, user_id, quantity, id, now)),
            ..d
        }),
        db::settle_fits(e, d.locks.len() as int, false),
        e2 == db::settle_lock(e, e.lock_index(id), LockStatus::Released, None, false, later),
    ensures
        e.keyed(),
        e.has_active_lock(id),
        e2.keyed(),
        e2.has_product(product_id),
        e2.find_product(product_id)->0.available_stock == d.find_product(product_id)->0.available_stock,
        e2.find_product(product_id)->0.locked_stock == d.find_product(product_id)->0.locked_stock,
        e2.locks[d.locks.len() as int] == (StockLock {
            status: LockStatus::Released,
            ..new_lock(product_id, bid_id, user_id, quantity, id, now)
        }),
        !e2.has_active_lock(id),
{
    let last = d.locks.len() as int;
    let nl = new_lock(product_id, bid_id, user_id, quantity, id, now);
    assert(e.locks[last] == nl);
    assert forall|a: int, b: int| 0 <= a < b < e.products.len() implies e.products[a].id
        != e.products[b].id by {
        assert(e.products[a].id == d.products[a].id);
        assert(e.products[b].id == d.products[b].id);
    }
    assert forall|a: int, b: int| 0 <= a < b < e.locks.len() implies e.locks[a].id != e.locks[b].id by {
        assert(e.locks[a] == d.locks[a]);
        if b < last {
            assert(e.locks[b] == d.locks[b]);
        }
    }
    db::lemma_find_lock_at(e, last);
    db::lemma_settle_lock_keyed(e, last, LockStatus::Released, None, false, later);
    let k = d.product_index(product_id);
    lemma_find_product_at(d, k);
    assert(e.products[k] == StockChange::Reserve(quantity).apply(d.products[k], now));
    assert(StockChange::Reserve(quantity).fits(d.products[k]));
    lemma_find_product_at(e2, k);
    assert forall|m: int| 0 <= m < e2.locks.len() && e2.locks[m].id == id implies e2.locks[m].status
        != LockStatus::Active by {
        assert(e.locks[m].id == e2.locks[m].id);
    }
}

/// A product listed under a fresh identifier reads back exactly as listed,
/// whatever the request holds (a negative stock too).
pub proof fn lemma_listed_product_reads_back(
    d: DbState,
    req: CreateProductRequest,
    id: u128,
    now: i64,
    e: DbState,
)
    requires
        d.keyed(),
        !d.has_product(id),
        e == (DbState { products: d.products.push(new_product(req, id, now)), ..d }),
    ensures
        e.keyed(),
        e.find_product(id) == Some(new_product(req, id, now)),
{
    let last = d.products.len() as int;
    assert forall|a: int, b: int| 0 <= a < b < e.products.len() implies e.products[a].id
        != e.products[b].id by {
        assert(e.products[a] == d.products[a]);
        if b < last {
            assert(e.products[b] == d.products[b]);
        }
    }
    lemma_find_product_at(e, last);
}

/// The latest recording of an idempotency key is what the key answers for a
/// day: before its expiry it gives that bid, from then on nothing. Between the
/// recording and the read (`m`), operations that keep the key's answers and
/// make no new record for it may run: the clean-up keeps every live key and
/// recording another key keeps this one (`lemma_key_kept_by`), and neither
/// makes a record for it (`lemma_no_new_record_by`).
pub proof fn lemma_idempotency_key_lifetime(
    d: DbState,
    key: String,
    bid_id: u128,
    now: i64,
    e: DbState,
    m: DbState,
    later: i64,
)
    requires
        d.keyed(),
        -TIME_BOUND <= now <= TIME_BOUND,
        e == (DbState {
            keys: d.keys.filter(KeyFilter::AllBut(key).pred()).push(new_key_record(key, bid_id, now)),
            ..d
        }),
        e.keyed(),
        m.keyed(),
        db::key_kept(e.keys, m.keys, key@, later),
        db::no_new_record(e.keys, m.keys, key@),
    ensures
        later < now + IDEMPOTENCY_TTL_MILLIS ==> key_result(m.keys, key@, later) == Some(bid_id),
        later >= now + IDEMPOTENCY_TTL_MILLIS ==> key_result(m.keys, key@, later) is None,
{
    let kept = d.keys.filter(KeyFilter::AllBut(key).pred());
    let last = kept.len() as int;
    assert(e.keys[last] == new_key_record(key, bid_id, now));
    if later < now + IDEMPOTENCY_TTL_MILLIS {
        db::lemma_key_result_at(e.keys, last, later);
    } else {
        assert forall|i: int| 0 <= i < e.keys.len() && e.keys[i].key@ == key@ implies i == last by {
            if i < last {
                d.keys.lemma_filter_pred(KeyFilter::AllBut(key).pred(), i);
                assert(e.keys[i] == kept[i]);
            }
        }
        assert forall|i: int| 0 <= i < m.keys.len() implies !(m.keys[i].key@ == key@
            && m.keys[i].expires_at > later) by {
            if m.keys[i].key@ == key@ {
                assert(e.keys.contains(m.keys[i]));
                let x = choose|x: int| 0 <= x < e.keys.len() && e.keys[x] == m.keys[i];
                assert(e.keys[x].key@ == key@);
            }
        }
    }
}

/// A request whose idempotency key still stands for a bid is answered with
/// that bid, whatever else it asks (its quantity and price being positive),
/// and changes nothing.
pub proof fn lemma_place_bid_replays(
    d: DbState,
    req: PlaceBidRequest,
    now: i64,
    bid_id: u128,
    lock_id: u128,
    r: Result<BidResponse, AppError>,
    e: DbState,
    b: u128,
)
    requires
        place_bid_post(d, req, now, bid_id, lock_id, r, e),
        req.quantity > 0,
        req.bid_price > 0,
        live_key(req) matches Some(k) && key_result(d.keys, k@, now) == Some(b),
    ensures
        r == bid_lookup(d, b),
        e == d,
{
}

/// Releasing every active lock on a product frees all of its stock: afterwards
/// no lock on it is active, nothing of it is locked and all of it is available.
pub proof fn lemma_release_product_frees_stock(d: DbState, product_id: u128, now: i64)
    requires
        d.wf(),
        d.has_product(product_id),
    ensures
        ({
            let e = db::settle_picked(
                d,
                LockFilter::OnProduct(product_id),
                LockStatus::Released,
                BidStatus::Cancelled,
                now,
                d.locks.len(),
            );
            let q = e.find_product(product_id)->0;
            &&& e.wf()
            &&& e.has_product(product_id)
            &&& q.locked_stock == 0
            &&& q.available_stock == q.total_stock
            &&& q.total_stock == d.find_product(product_id)->0.total_stock
            &&& forall|k: int|
                0 <= k < e.locks.len() && (#[trigger] e.locks[k]).status == LockStatus::Active
                    ==> e.locks[k].product_id != product_id
        }),
{
    let f = LockFilter::OnProduct(product_id);
    let n = d.locks.len();
    let e = db::settle_picked(d, f, LockStatus::Released, BidStatus::Cancelled, now, n);
    db::lemma_settle_picked_wf(d, f, LockStatus::Released, BidStatus::Cancelled, now, n);
    db::lemma_settle_picked_keeps_ids(d, f, LockStatus::Released, BidStatus::Cancelled, now, n);
    db::lemma_settle_picked_locks(d, f, LockStatus::Released, BidStatus::Cancelled, now, n);
    let k = d.product_index(product_id);
    lemma_find_product_at(d, k);
    lemma_find_product_at(e, k);
    assert forall|m: int| 0 <= m < e.locks.len() implies db::held_quantity(#[trigger] e.locks[m], product_id)
        == 0 by {}
    db::lemma_locked_total_bounds(e.locks, product_id);
    assert(db::stock_balanced(e.products[k], e.locks));
}

/// Placing a bid touches only the bidder's own locks on that product: every
/// other lock (on another product, or another user's) stays exactly as it
/// was, every bid that such a lock belongs to stays as it was, and every
/// other product keeps its row unchanged. This holds whatever the placement
/// answers.
pub proof fn lemma_place_bid_spares_others(
    d: DbState,
    req: PlaceBidRequest,
    now: i64,
    bid_id: u128,
    lock_id: u128,
    r: Result<BidResponse, AppError>,
    e: DbState,
)
    requires
        d.wf(),
        bids_track_locks(d),
        e.wf(),
        place_bid_post(d, req, now, bid_id, lock_id, r, e),
    ensures
        d.locks.len() <= e.locks.len(),
        d.bids.len() <= e.bids.len(),
        d.products.len() == e.products.len(),
        forall|k: int|
            0 <= k < d.locks.len() && !(d.locks[k].product_id == req.product_id
                && d.locks[k].user_id@ == req.user_id@) ==> #[trigger] e.locks[k] == d.locks[k],
        forall|j: int, k: int|
            #![trigger e.bids[j], d.locks[k]]
            0 <= j < d.bids.len() && 0 <= k < d.locks.len() && d.locks[k].bid_id == d.bids[j].id
                && !(d.locks[k].product_id == req.product_id && d.locks[k].user_id@
                == req.user_id@) ==> e.bids[j] == d.bids[j],
        forall|j: int|
            0 <= j < d.products.len() && d.products[j].id != req.product_id
                ==> #[trigger] e.products[j] == d.products[j],
{
    if !(e == d) {
        let pid = req.product_id;
        let f = LockFilter::HeldBy(pid, req.user_id);
        let n = d.locks.len();
        let d1 = released_for(d, req, now);
        assert(e == placed_state(d, req, now, bid_id, lock_id));
        db::lemma_settle_picked_locks(d, f, LockStatus::Released, BidStatus::Cancelled, now, n);
        db::lemma_settle_picked_keeps_ids(d, f, LockStatus::Released, BidStatus::Cancelled, now, n);
        db::lemma_settle_picked_other_bids(d, f, LockStatus::Released, BidStatus::Cancelled, now, n);
        db::lemma_settle_picked_other_products(
            d,
            f,
            LockStatus::Released,
            BidStatus::Cancelled,
            now,
            n,
        );
        let nb = new_bid(pid, req.user_id, req.bid_price, req.quantity, bid_id, now);
        let nl = new_lock(pid, bid_id, req.user_id, req.quantity, lock_id, now);
        assert(e.locks == d1.locks.push(nl));
        assert(e.bids == set_bid_status(d1.bids.push(nb), bid_id, BidStatus::Confirmed));
        let ps3 = apply_change(d1.products, pid, StockChange::Reserve(req.quantity), now);
        assert(e.products == apply_change(ps3, pid, StockChange::Reprice(req.bid_price), now));
        assert forall|k: int|
            0 <= k < d.locks.len() && !(d.locks[k].product_id == req.product_id
                && d.locks[k].user_id@ == req.user_id@) implies #[trigger] e.locks[k] == d.locks[k] by {
            assert(e.locks[k] == d1.locks[k]);
        }
        assert forall|j: int, k: int|
            #![trigger e.bids[j], d.locks[k]]
            0 <= j < d.bids.len() && 0 <= k < d.locks.len() && d.locks[k].bid_id == d.bids[j].id
                && !(d.locks[k].product_id == req.product_id && d.locks[k].user_id@
                == req.user_id@) implies e.bids[j] == d.bids[j] by {
            assert forall|m: int| 0 <= m < n && f.picks(#[trigger] d.locks[m]) implies d.locks[m].bid_id
                != d.bids[j].id by {
                if d.locks[m].bid_id == d.bids[j].id {
                    assert(m != k);
                    if m < k {
                        assert(d.locks[m].bid_id != d.locks[k].bid_id);
                    } else {
                        assert(d.locks[k].bid_id != d.locks[m].bid_id);
                    }
                }
            }
            assert(d1.bids[j] == d.bids[j]);
            assert(!d.has_bid(bid_id));
            assert(d1.bids[j].id != bid_id);
        }
        assert forall|j: int|
            0 <= j < d.products.len() && d.products[j].id != req.product_id implies #[trigger] e.products[j]
            == d.products[j] by {
            assert forall|m: int| 0 <= m < n && f.picks(#[trigger] d.locks[m]) implies d.locks[m].product_id
                != d.products[j].id by {}
            assert(d1.products[j] == d.products[j]);
        }
    }
}

/// Releasing the locks of products `ids` one after the other leaves alone
/// every lock on, and every row of, a product not among them.
proof fn lemma_release_products_spares(d: DbState, ids: Seq<u128>, now: i64)
    ensures
        ({
            let e = release_products(d, ids, now);
            &&& e.locks.len() == d.locks.len()
            &&& e.products.len() == d.products.len()
            &&& forall|k: int|
                0 <= k < d.locks.len() && !ids.contains(d.locks[k].product_id) ==> #[trigger] e.locks[k]
                    == d.locks[k]
            &&& forall|j: int|
                0 <= j < d.products.len() && !ids.contains(d.products[j].id) ==> #[trigger] e.products[j]
                    == d.products[j]
        }),
    decreases ids.len(),
{
    if ids.len() > 0 {
        let init = ids.drop_last();
        lemma_release_products_spares(d, init, now);
        let prev = release_products(d, init, now);
        let f = LockFilter::OnProduct(ids.last());
        let n = prev.locks.len();
        db::lemma_settle_picked_locks(prev, f, LockStatus::Released, BidStatus::Cancelled, now, n);
        db::lemma_settle_picked_keeps_ids(prev, f, LockStatus::Released, BidStatus::Cancelled, now, n);
        db::lemma_settle_picked_other_products(
            prev,
            f,
            LockStatus::Released,
            BidStatus::Cancelled,
            now,
            n,
        );
        let e = release_products(d, ids, now);
        assert forall|k: int|
            0 <= k < d.locks.len() && !ids.contains(d.locks[k].product_id) implies #[trigger] e.locks[k]
            == d.locks[k] by {
            assert(!init.contains(d.locks[k].product_id)) by {
                if init.contains(d.locks[k].product_id) {
                    let i = choose|i: int| 0 <= i < init.len() && init[i] == d.locks[k].product_id;
                    assert(ids[i] == init[i]);
                }
            }
            assert(ids[ids.len() - 1] != d.locks[k].product_id);
        }
        assert forall|j: int|
            0 <= j < d.products.len() && !ids.contains(d.products[j].id) implies #[trigger] e.products[j]
            == d.products[j] by {
            assert(!init.contains(d.products[j].id)) by {
                if init.contains(d.products[j].id) {
                    let i = choose|i: int| 0 <= i < init.len() && init[i] == d.products[j].id;
                    assert(ids[i] == init[i]);
                }
            }
            assert(ids[ids.len() - 1] != d.products[j].id);
            assert(prev.products[j] == d.products[j]);
            assert forall|m: int| 0 <= m < n && f.picks(#[trigger] prev.locks[m]) implies prev.locks[m].product_id
                != prev.products[j].id by {}
        }
    }
}

/// The clean-up of ended auctions only touches auctions that have ended: every
/// lock on a product whose auction has not ended at `now` (one without an end
/// time never ends) stays exactly as it was, and so does that product's row.
pub proof fn lemma_cleanup_ended_spares_live_auctions(d: DbState, now: i64)
    requires
        d.wf(),
    ensures
        ({
            let e = release_products(d, ended_ids(d, now), now);
            &&& forall|k: int, j: int|
                #![trigger e.locks[k], d.products[j]]
                0 <= k < d.locks.len() && 0 <= j < d.products.len() && d.products[j].id
                    == d.locks[k].product_id && d.products[j].status_at(now) != AuctionStatus::Ended
                    ==> e.locks[k] == d.locks[k]
            &&& forall|j: int|
                0 <= j < d.products.len() && d.products[j].status_at(now) != AuctionStatus::Ended
                    ==> #[trigger] e.products[j] == d.products[j]
        }),
{
    let ids = ended_ids(d, now);
    let e = release_products(d, ids, now);
    let pred = db::ended_with_active_locks(d.locks, now);
    let fl = d.products.filter(pred);
    lemma_release_products_spares(d, ids, now);
    assert forall|j: int|
        0 <= j < d.products.len() && d.products[j].status_at(now) != AuctionStatus::Ended implies !ids.contains(
        d.products[j].id,
    ) by {
        if ids.contains(d.products[j].id) {
            let i = choose|i: int| 0 <= i < ids.len() && ids[i] == d.products[j].id;
            assert(ids[i] == fl[i].id);
            d.products.lemma_filter_pred(pred, i);
            assert(fl.contains(fl[i]));
            d.products.lemma_filter_contains_rev(pred, fl[i]);
            let x = choose|x: int| 0 <= x < d.products.len() && d.products[x] == fl[i];
            lemma_find_product_at(d, x);
            lemma_find_product_at(d, j);
        }
    }
    assert forall|k: int, j: int|
        #![trigger e.locks[k], d.products[j]]
        0 <= k < d.locks.len() && 0 <= j < d.products.len() && d.products[j].id == d.locks[k].product_id
            && d.products[j].status_at(now) != AuctionStatus::Ended implies e.locks[k] == d.locks[k] by {
        assert(!ids.contains(d.products[j].id));
    }
}

/// Product `p` is what request `req` lists under identifier `id` at `now`:
/// the request's name, description, room, prices and stock, all of it
/// available and none locked, the price at the start price, created and
/// updated at `now`, ending `now` plus the duration, if there is one.
pub open spec fn lists_request(p: Product, req: CreateProductRequest, id: u128, now: i64) -> bool {
    &&& p.id == id
    &&& p.name == req.name
    &&& p.description == req.description
    &&& p.room_id == req.room_id
    &&& p.total_stock == req.total_stock
    &&& p.available_stock == req.total_stock
    &&& p.locked_stock == 0
    &&& p.start_price == req.start_price
    &&& p.current_price == req.start_price
    &&& p.min_increment == req.min_increment
    &&& p.created_at == now
    &&& p.updated_at == now
    &&& (req.auction_duration_minutes is None <==> p.end_time is None)
    &&& (req.auction_duration_minutes matches Some(m) ==> p.end_time matches Some(t) && t == now + m
        * MILLIS_PER_MINUTE)
}

/// A product listed by the table operation is the request, as `lists_request`
/// spells it out, and reads back as such.
pub proof fn lemma_inserted_product_terms(
    d: DbState,
    req: CreateProductRequest,
    id: u128,
    now: i64,
    r: Result<Product, AppError>,
    e: DbState,
)
    requires
        d.keyed(),
        db::insert_product_post(d, req, id, now, r, e),
        r is Ok,
    ensures
        lists_request(r->Ok_0, req, id, now),
        e.find_product(id) == Some(r->Ok_0),
{
    lemma_listed_product_reads_back(d, req, id, now, e);
}

/// A product listed by the service is the request, as `lists_request` spells
/// it out: it reads back as such, and the listing reports it, its auction
/// under way.
pub proof fn lemma_listed_product_terms(
    d: DbState,
    req: CreateProductRequest,
    id: u128,
    now: i64,
    r: Result<crate::models::ProductResponse, AppError>,
    e: DbState,
)
    requires
        d.keyed(),
        create_product_post(d, req, id, now, r, e),
        r is Ok,
    ensures
        e.has_product(id),
        lists_request(e.find_product(id)->0, req, id, now),
        ({
            let p = e.find_product(id)->0;
            let s = r->Ok_0;
            &&& s.id == id
            &&& s.name == req.name
            &&& s.description == req.description
            &&& s.room_id == req.room_id
            &&& s.total_stock == req.total_stock
            &&& s.available_stock == req.total_stock
            &&& s.locked_stock == 0
            &&& s.start_price == req.start_price
            &&& s.current_price == req.start_price
            &&& s.min_increment == req.min_increment
            &&& s.end_time == p.end_time
            &&& s.created_at == now
            &&& s.auction_status == AuctionStatus::Ongoing
        }),
{
    lemma_listed_product_reads_back(d, req, id, now, e);
}

/// A listing of product `product_id`'s locks holds every lock on that product
/// whatever its status, and nothing else; a listing for user `u` holds exactly
/// that user's active locks on the product.
pub proof fn lemma_lock_listing_members(
    locks: Seq<StockLock>,
    product_id: u128,
    user: Option<Seq<char>>,
    r: Seq<StockLock>,
)
    requires
        r.to_multiset() == locks.filter(db::lock_query(product_id, user)).to_multiset(),
    ensures
        forall|l: StockLock|
            #[trigger] r.contains(l) <==> locks.contains(l) && l.product_id == product_id && match user {
                None => true,
                Some(u) => l.user_id@ == u && l.status == LockStatus::Active,
            },
{
    let pred = db::lock_query(product_id, user);
    let fl = locks.filter(pred);
    r.to_multiset_ensures();
    fl.to_multiset_ensures();
    assert forall|l: StockLock| #[trigger] r.contains(l) <==> locks.contains(l) && l.product_id
        == product_id && match user {
        None => true,
        Some(u) => l.user_id@ == u && l.status == LockStatus::Active,
    } by {
        assert(r.to_multiset().count(l) == fl.to_multiset().count(l));
        assert(r.contains(l) <==> fl.contains(l));
        if fl.contains(l) {
            locks.lemma_filter_contains_rev(pred, l);
            let i = choose|i: int| 0 <= i < fl.len() && fl[i] == l;
            locks.lemma_filter_pred(pred, i);
        }
        if locks.contains(l) && pred(l) {
            let i = choose|i: int| 0 <= i < locks.len() && locks[i] == l;
            locks.lemma_filter_contains(pred, i);
        }
    }
}

/// A room's listing holds every product of that room and nothing else.
pub proof fn lemma_room_listing_members(ps: Seq<Product>, room_id: Seq<char>, r: Seq<Product>)
    requires
        r.to_multiset() == ps.filter(db::in_room(room_id)).to_multiset(),
    ensures
        forall|p: Product| #[trigger] r.contains(p) <==> ps.contains(p) && p.room_id@ == room_id,
{
    let pred = db::in_room(room_id);
    let fl = ps.filter(pred);
    r.to_multiset_ensures();
    fl.to_multiset_ensures();
    assert forall|p: Product| #[trigger] r.contains(p) <==> ps.contains(p) && p.room_id@ == room_id by {
        assert(r.to_multiset().count(p) == fl.to_multiset().count(p));
        assert(r.contains(p) <==> fl.contains(p));
        if fl.contains(p) {
            ps.lemma_filter_contains_rev(pred, p);
            let i = choose|i: int| 0 <= i < fl.len() && fl[i] == p;
            ps.lemma_filter_pred(pred, i);
        }
        if ps.contains(p) && pred(p) {
            let i = choose|i: int| 0 <= i < ps.len() && ps[i] == p;
            ps.lemma_filter_contains(pred, i);
        }
    }
}

/// A placed bid is the request: the bid recorded and reported carries the
/// request's product, bidder, price and quantity, stands confirmed and was
/// made at `now`; its lock holds that quantity of that product for that
/// bidder and bid, from `now` for fifteen minutes.
pub proof fn lemma_place_bid_terms(
    d: DbState,
    req: PlaceBidRequest,
    now: i64,
    bid_id: u128,
    lock_id: u128,
    r: Result<BidResponse, AppError>,
    e: DbState,
)
    requires
        d.wf(),
        e.wf(),
        -TIME_BOUND <= now <= TIME_BOUND,
        place_bid_post(d, req, now, bid_id, lock_id, r, e),
        r is Ok,
        replayed_bid(d, req, now) is None,
    ensures
        ({
            let b = e.find_bid(bid_id)->0;
            let l = e.locks.last();
            let s = r->Ok_0;
            &&& e.has_bid(bid_id)
            &&& b.id == bid_id
            &&& b.product_id == req.product_id
            &&& b.user_id == req.user_id
            &&& b.bid_price == req.bid_price
            &&& b.quantity == req.quantity
            &&& b.status == BidStatus::Confirmed
            &&& b.created_at == now
            &&& l.id == lock_id
            &&& l.product_id == req.product_id
            &&& l.bid_id == bid_id
            &&& l.user_id == req.user_id
            &&& l.quantity == req.quantity
            &&& l.status == LockStatus::Active
            &&& l.locked_at == now
            &&& l.expires_at == now + 15 * 60 * 1000
            &&& s.id == bid_id
            &&& s.product_id == req.product_id
            &&& s.user_id == req.user_id
            &&& s.bid_price == req.bid_price
            &&& s.quantity == req.quantity
            &&& s.status == BidStatus::Confirmed
            &&& s.lock_expires_at == now + 15 * 60 * 1000
            &&& s.created_at == now
        }),
        req.quantity > 0,
        req.bid_price > 0,
        ({
            let p = d.find_product(req.product_id)->0;
            &&& req.bid_price >= p.current_price
            &&& p.end_time matches Some(end) ==> p.created_at <= now && now < end
        }),
{
    lemma_place_bid_success(d, req, now, bid_id, lock_id, r, e);
}

/// The bidder's confirmation of a confirmed bid whose lock has not lapsed
/// succeeds.
pub proof fn lemma_confirm_purchase_succeeds_while_locked(
    d: DbState,
    bid_id: u128,
    now: i64,
    r: Result<(), AppError>,
    e: DbState,
)
    requires
        d.find_bid(bid_id) matches Some(b) && b.status == BidStatus::Confirmed,
        d.active_lock_of_bid(bid_id) matches Some(l) && l.expires_at >= now,
        confirm_purchase_post(d, bid_id, d.find_bid(bid_id)->0.user_id@, now, r, e),
    ensures
        r is Ok,
{
}

/// Only the bidder confirms a purchase or cancels a bid, and only a confirmed
/// bid: a confirmation or cancellation that succeeds was asked for by the
/// bid's user, of a bid that stood confirmed with an active lock, and a
/// confirmation only before that lock lapsed.
pub proof fn lemma_settling_needs_owner(
    d: DbState,
    bid_id: u128,
    user: Seq<char>,
    now: i64,
    confirm: bool,
    r: Result<(), AppError>,
    e: DbState,
)
    requires
        confirm ==> confirm_purchase_post(d, bid_id, user, now, r, e),
        !confirm ==> cancel_bid_post(d, bid_id, user, now, r, e),
        r is Ok,
    ensures
        d.find_bid(bid_id) matches Some(b) && b.user_id@ == user && b.status == BidStatus::Confirmed,
        d.active_lock_of_bid(bid_id) matches Some(l) && (confirm ==> l.expires_at >= now),
{
}

/// The bidder's cancellation of a confirmed bid that still holds an active
/// lock succeeds.
pub proof fn lemma_cancel_bid_succeeds_while_locked(
    d: DbState,
    bid_id: u128,
    now: i64,
    r: Result<(), AppError>,
    e: DbState,
)
    requires
        d.find_bid(bid_id) matches Some(b) && b.status == BidStatus::Confirmed,
        d.active_lock_of_bid(bid_id) is Some,
        cancel_bid_post(d, bid_id, d.find_bid(bid_id)->0.user_id@, now, r, e),
    ensures
        r is Ok,
{
}

/// Expiring lapsed locks at `now` expires exactly the active locks that
/// lapsed before `now`, and expires their bids; every other lock stays as it
/// was.
pub proof fn lemma_expiry_takes_exactly_lapsed_locks(d: DbState, now: i64)
    requires
        d.wf(),
    ensures
        ({
            let e = expired_state(d, now);
            &&& e.locks.len() == d.locks.len()
            &&& forall|k: int|
                0 <= k < d.locks.len() ==> #[trigger] e.locks[k] == if d.locks[k].status
                    == LockStatus::Active && d.locks[k].expires_at < now {
                    StockLock { status: LockStatus::Expired, ..d.locks[k] }
                } else {
                    d.locks[k]
                }
            &&& forall|k: int, j: int|
                #![trigger d.locks[k], e.bids[j]]
                0 <= k < d.locks.len() && d.locks[k].status == LockStatus::Active
                    && d.locks[k].expires_at < now && 0 <= j < e.bids.len() && e.bids[j].id
                    == d.locks[k].bid_id ==> e.bids[j].status == BidStatus::Expired
        }),
{
    let f = LockFilter::ExpiredBefore(now);
    db::lemma_settle_picked_locks(d, f, LockStatus::Expired, BidStatus::Expired, now, d.locks.len());
    db::lemma_settle_picked_bids(d, f, LockStatus::Expired, BidStatus::Expired, now, d.locks.len());
}

/// The clean-up of idempotency records at `now` keeps exactly the records
/// that expire at `now` or later.
pub proof fn lemma_key_cleanup_members(keys: Seq<db::IdempotencyRecord>, now: i64)
    ensures
        forall|rec: db::IdempotencyRecord|
            #[trigger] keys.filter(KeyFilter::LiveAt(now).pred()).contains(rec) <==> keys.contains(rec)
                && rec.expires_at >= now,
{
    let pred = KeyFilter::LiveAt(now).pred();
    let fl = keys.filter(pred);
    assert forall|rec: db::IdempotencyRecord| #[trigger] fl.contains(rec) <==> keys.contains(rec)
        && rec.expires_at >= now by {
        if fl.contains(rec) {
            keys.lemma_filter_contains_rev(pred, rec);
            let i = choose|i: int| 0 <= i < fl.len() && fl[i] == rec;
            keys.lemma_filter_pred(pred, i);
        }
        if keys.contains(rec) && rec.expires_at >= now {
            let i = choose|i: int| 0 <= i < keys.len() && keys[i] == rec;
            keys.lemma_filter_contains(pred, i);
        }
    }
}

/// Listings come newest first: products by creation, locks by when they were
/// taken.
pub proof fn lemma_listings_newest_first(ps: Seq<Product>, ls: Seq<StockLock>)
    requires
        db::newest_products_first(ps),
        db::newest_locks_first(ls),
    ensures
        forall|i: int, j: int| 0 <= i < j < ps.len() ==> ps[j].created_at <= ps[i].created_at,
        forall|i: int, j: int| 0 <= i < j < ls.len() ==> ls[j].locked_at <= ls[i].locked_at,
{
}

/// What the table operations record, spelled out: `create_bid_at` records a
/// pending bid with the given product, bidder, price and quantity, made at
/// `now`; `lock_stock_at` records an active lock of the given product, bid,
/// bidder and quantity, taken at `now` for fifteen minutes.
pub proof fn lemma_recorded_rows_terms(
    product_id: u128,
    bid_id: u128,
    user_id: String,
    bid_price: i64,
    quantity: i64,
    id: u128,
    now: i64,
)
    requires
        -TIME_BOUND <= now <= TIME_BOUND,
    ensures
        ({
            let b = new_bid(product_id, user_id, bid_price, quantity, id, now);
            &&& b.id == id
            &&& b.product_id == product_id
            &&& b.user_id == user_id
            &&& b.bid_price == bid_price
            &&& b.quantity == quantity
            &&& b.status == BidStatus::Pending
            &&& b.created_at == now
        }),
        ({
            let l = new_lock(product_id, bid_id, user_id, quantity, id, now);
            &&& l.id == id
            &&& l.product_id == product_id
            &&& l.bid_id == bid_id
            &&& l.user_id == user_id
            &&& l.quantity == quantity
            &&& l.locked_at == now
            &&& l.expires_at == now + 15 * 60 * 1000
            &&& l.status == LockStatus::Active
        }),
{
}

} // verus!
