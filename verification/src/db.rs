//! The auction's tables and every operation on them, with the accounting
//! that keeps stock balanced against the locks that hold it.
use vstd::prelude::*;

use crate::clock::{new_id, now_millis, EARLIEST_MILLIS, LATEST_MILLIS, MILLIS_PER_MINUTE, TIME_BOUND};
use crate::errors::{AppError, AppResult};
use crate::models::{
    AuctionStatus,
    BidRecord,
    BidStatus,
    CreateProductRequest,
    LockStatus,
    Product,
    StockLock,
};
use crate::text::str_eq;

verus! {

broadcast use vstd::string::to_string_from_display_ensures_for_str;

/// How long a bid holds its stock before the hold lapses.
pub const LOCK_DURATION_MINUTES: i64 = 15;

pub const LOCK_DURATION_MILLIS: i64 = LOCK_DURATION_MINUTES * MILLIS_PER_MINUTE;

/// How long an idempotency key keeps answering with the bid it recorded (a day).
pub const IDEMPOTENCY_TTL_MILLIS: i64 = 24 * 60 * MILLIS_PER_MINUTE;

/// The bid that a client's idempotency key stands for, until it expires.
#[derive(Clone, Debug, PartialEq, Eq)]
pub struct IdempotencyRecord {
    pub key: String,
    pub bid_id: u128,
    pub created_at: i64,
    pub expires_at: i64,
}

/// The auction's tables: products, bids, stock locks and idempotency keys,
/// each in insertion order.
pub struct Database {
    products: Vec<Product>,
    bids: Vec<BidRecord>,
    locks: Vec<StockLock>,
    idempotency_keys: Vec<IdempotencyRecord>,
}

/// The contents of a `Database`.
#[verifier::ext_equal]
pub struct DbState {
    pub products: Seq<Product>,
    pub bids: Seq<BidRecord>,
    pub locks: Seq<StockLock>,
    pub keys: Seq<IdempotencyRecord>,
}

impl View for Database {
    type V = DbState;

    closed spec fn view(&self) -> DbState {
        DbState {
            products: self.products@,
            bids: self.bids@,
            locks: self.locks@,
            keys: self.idempotency_keys@,
        }
    }
}

/// What lock `l` holds of product `pid`: its quantity while it is active.
pub open spec fn held_quantity(l: StockLock, pid: u128) -> int {
    if l.status == LockStatus::Active && l.product_id == pid {
        l.quantity as int
    } else {
        0
    }
}

/// The stock of product `pid` that the active locks in `locks` hold.
pub open spec fn locked_total(locks: Seq<StockLock>, pid: u128) -> int
    decreases locks.len(),
{
    if locks.len() == 0 {
        0
    } else {
        locked_total(locks.drop_last(), pid) + held_quantity(locks.last(), pid)
    }
}

/// Stock accounting of one product: what is available and what is locked
/// make up the total, and what is locked is what its active locks hold.
pub open spec fn stock_balanced(p: Product, locks: Seq<StockLock>) -> bool {
    &&& 0 <= p.available_stock
    &&& 0 <= p.locked_stock
    &&& p.available_stock + p.locked_stock == p.total_stock
    &&& p.locked_stock == locked_total(locks, p.id)
}

impl DbState {
    pub open spec fn has_product(self, id: u128) -> bool {
        exists|i: int| 0 <= i < self.products.len() && self.products[i].id == id
    }

    pub open spec fn product_index(self, id: u128) -> int {
        choose|i: int| 0 <= i < self.products.len() && self.products[i].id == id
    }

    /// The product with identifier `id`, if there is one.
    pub open spec fn find_product(self, id: u128) -> Option<Product> {
        if self.has_product(id) {
            Some(self.products[self.product_index(id)])
        } else {
            None
        }
    }

    pub open spec fn has_bid(self, id: u128) -> bool {
        exists|i: int| 0 <= i < self.bids.len() && self.bids[i].id == id
    }

    pub open spec fn bid_index(self, id: u128) -> int {
        choose|i: int| 0 <= i < self.bids.len() && self.bids[i].id == id
    }

    /// The bid with identifier `id`, if there is one.
    pub open spec fn find_bid(self, id: u128) -> Option<BidRecord> {
        if self.has_bid(id) {
            Some(self.bids[self.bid_index(id)])
        } else {
            None
        }
    }

    pub open spec fn has_lock(self, id: u128) -> bool {
        exists|i: int| 0 <= i < self.locks.len() && self.locks[i].id == id
    }

    pub open spec fn has_active_lock(self, id: u128) -> bool {
        exists|i: int|
            0 <= i < self.locks.len() && self.locks[i].id == id && self.locks[i].status
                == LockStatus::Active
    }

    pub open spec fn lock_index(self, id: u128) -> int {
        choose|i: int| 0 <= i < self.locks.len() && self.locks[i].id == id
    }

    /// An active lock held for bid `bid_id`.
    pub open spec fn is_active_lock_of_bid(self, l: StockLock, bid_id: u128) -> bool {
        &&& self.locks.contains(l)
        &&& l.bid_id == bid_id
        &&& l.status == LockStatus::Active
    }

    pub open spec fn bid_has_active_lock(self, bid_id: u128) -> bool {
        exists|i: int|
            0 <= i < self.locks.len() && self.locks[i].bid_id == bid_id && self.locks[i].status
                == LockStatus::Active
    }

    /// Identifiers are keys, as the tables' primary keys make them: no product,
    /// bid, lock or idempotency key occurs twice.
    pub open spec fn keyed(self) -> bool {
        &&& forall|i: int, j: int|
            0 <= i < j < self.products.len() ==> self.products[i].id != self.products[j].id
        &&& forall|i: int, j: int| 0 <= i < j < self.bids.len() ==> self.bids[i].id != self.bids[j].id
        &&& forall|i: int, j: int| 0 <= i < j < self.locks.len() ==> self.locks[i].id != self.locks[j].id
        &&& forall|i: int, j: int| 0 <= i < j < self.keys.len() ==> self.keys[i].key@ != self.keys[j].key@
    }

    /// The tables are keyed; every product's stock is balanced against its
    /// locks; every active lock holds a positive quantity of a listed product
    /// for a recorded bid. The service keeps this; the table operations keep it
    /// where their inputs allow.
    pub open spec fn wf(self) -> bool {
        &&& self.keyed()
        &&& forall|i: int| 0 <= i < self.products.len() ==> stock_balanced(#[trigger] self.products[i], self.locks)
        &&& forall|i: int|
            0 <= i < self.locks.len() && (#[trigger] self.locks[i]).status == LockStatus::Active
                ==> self.locks[i].quantity > 0 && self.has_product(self.locks[i].product_id)
        &&& forall|i: int|
            0 <= i < self.locks.len() && (#[trigger] self.locks[i]).status == LockStatus::Active
                ==> self.has_bid(self.locks[i].bid_id)
    }
}

/// The end of an auction that runs `minutes` from `now`, if it has one.
pub open spec fn end_time_after(now: i64, minutes: Option<i64>) -> Option<i64> {
    match minutes {
        None => None,
        Some(m) => Some((now + m * MILLIS_PER_MINUTE) as i64),
    }
}

/// An auction of `minutes` from `now` ends at an instant that chrono can
/// represent, so that its end can be written as a date.
pub open spec fn duration_fits(now: i64, minutes: Option<i64>) -> bool {
    match minutes {
        None => true,
        Some(m) => EARLIEST_MILLIS <= now + m * MILLIS_PER_MINUTE <= LATEST_MILLIS,
    }
}

/// The product that request `req` lists, as created at `now` under `id`: all
/// of its stock available, its price at the start price.
pub open spec fn new_product(req: CreateProductRequest, id: u128, now: i64) -> Product {
    Product {
        id,
        name: req.name,
        description: req.description,
        total_stock: req.total_stock,
        available_stock: req.total_stock,
        locked_stock: 0,
        start_price: req.start_price,
        current_price: req.start_price,
        min_increment: req.min_increment,
        room_id: req.room_id,
        end_time: end_time_after(now, req.auction_duration_minutes),
        created_at: now,
        updated_at: now,
    }
}

/// A pending bid, as recorded at `now` under `id`.
pub open spec fn new_bid(
    product_id: u128,
    user_id: String,
    bid_price: i64,
    quantity: i64,
    id: u128,
    now: i64,
) -> BidRecord {
    BidRecord {
        id,
        product_id,
        user_id,
        bid_price,
        quantity,
        status: BidStatus::Pending,
        created_at: now,
    }
}

/// An active lock taken at `now` under `id`, lapsing after the lock duration.
pub open spec fn new_lock(
    product_id: u128,
    bid_id: u128,
    user_id: String,
    quantity: i64,
    id: u128,
    now: i64,
) -> StockLock {
    StockLock {
        id,
        product_id,
        bid_id,
        user_id,
        quantity,
        locked_at: now,
        expires_at: (now + LOCK_DURATION_MILLIS) as i64,
        status: LockStatus::Active,
    }
}

/// A change to a product's row.
#[derive(Clone, Copy, Debug, PartialEq, Eq, Structural)]
pub enum StockChange {
    /// Move stock from available to locked, where that much is available.
    Reserve(i64),
    /// Move stock from locked back to available.
    Restore(i64),
    /// Take locked stock out of the product: it has been sold.
    Consume(i64),
    /// Set the current price.
    Reprice(i64),
}

impl StockChange {
    /// Whether the change takes effect on `p`.
    pub open spec fn applies(self, p: Product) -> bool {
        match self {
            StockChange::Reserve(q) => p.available_stock >= q,
            _ => true,
        }
    }

    /// The change's arithmetic on `p` stays within `i64`.
    pub open spec fn fits(self, p: Product) -> bool {
        match self {
            StockChange::Reserve(q) => i64::MIN <= p.available_stock - q <= i64::MAX && i64::MIN
                <= p.locked_stock + q <= i64::MAX,
            StockChange::Restore(q) => i64::MIN <= p.available_stock + q <= i64::MAX && i64::MIN
                <= p.locked_stock - q <= i64::MAX,
            StockChange::Consume(q) => i64::MIN <= p.total_stock - q <= i64::MAX && i64::MIN
                <= p.locked_stock - q <= i64::MAX,
            StockChange::Reprice(_) => true,
        }
    }

    /// Product `p` after the change, made at `now`.
    pub open spec fn apply(self, p: Product, now: i64) -> Product {
        match self {
            StockChange::Reserve(q) => Product {
                available_stock: (p.available_stock - q) as i64,
                locked_stock: (p.locked_stock + q) as i64,
                updated_at: now,
                ..p
            },
            StockChange::Restore(q) => Product {
                available_stock: (p.available_stock + q) as i64,
                locked_stock: (p.locked_stock - q) as i64,
                updated_at: now,
                ..p
            },
            StockChange::Consume(q) => Product {
                total_stock: (p.total_stock - q) as i64,
                locked_stock: (p.locked_stock - q) as i64,
                updated_at: now,
                ..p
            },
            StockChange::Reprice(price) => Product { current_price: price, updated_at: now, ..p },
        }
    }

    fn applies_to(self, p: &Product) -> (r: bool)
        ensures
            r == self.applies(*p),
    {
        match self {
            StockChange::Reserve(q) => p.available_stock >= q,
            _ => true,
        }
    }

    fn apply_to(self, p: &Product, now: i64) -> (r: Product)
        requires
            self.fits(*p),
        ensures
            r == self.apply(*p, now),
    {
        let mut r = p.copied();
        match self {
            StockChange::Reserve(q) => {
                r.available_stock = p.available_stock - q;
                r.locked_stock = p.locked_stock + q;
            },
            StockChange::Restore(q) => {
                r.available_stock = p.available_stock + q;
                r.locked_stock = p.locked_stock - q;
            },
            StockChange::Consume(q) => {
                r.total_stock = p.total_stock - q;
                r.locked_stock = p.locked_stock - q;
            },
            StockChange::Reprice(price) => {
                r.current_price = price;
            },
        }
        r.updated_at = now;
        r
    }
}

/// The products table after `c` is made, at `now`, to the row of product `pid`
/// where it applies.
pub open spec fn apply_change(ps: Seq<Product>, pid: u128, c: StockChange, now: i64) -> Seq<
    Product,
> {
    ps.map_values(|p: Product| if p.id == pid && c.applies(p) { c.apply(p, now) } else { p })
}

/// The bids table after bid `bid_id` takes status `status`.
pub open spec fn set_bid_status(bids: Seq<BidRecord>, bid_id: u128, status: BidStatus) -> Seq<
    BidRecord,
> {
    bids.map_values(|b: BidRecord| if b.id == bid_id { BidRecord { status, ..b } } else { b })
}

/// The state after lock `i` leaves the active state for `status`: its stock is
/// sold off (`consume`) or made available again, and its bid, where
/// `bid_status` names a status, takes that status.
pub open spec fn settle_lock(
    d: DbState,
    i: int,
    status: LockStatus,
    bid_status: Option<BidStatus>,
    consume: bool,
    now: i64,
) -> DbState {
    let l = d.locks[i];
    let change = if consume {
        StockChange::Consume(l.quantity)
    } else {
        StockChange::Restore(l.quantity)
    };
    DbState {
        products: apply_change(d.products, l.product_id, change, now),
        bids: match bid_status {
            Some(s) => set_bid_status(d.bids, l.bid_id, s),
            None => d.bids,
        },
        locks: d.locks.update(i, StockLock { status, ..l }),
        keys: d.keys,
    }
}

// ---------------------------------------------------------------------------
// Sums of locked stock

pub proof fn lemma_locked_total_push(locks: Seq<StockLock>, l: StockLock, pid: u128)
    ensures
        locked_total(locks.push(l), pid) == locked_total(locks, pid) + held_quantity(l, pid),
{
    assert(locks.push(l).drop_last() =~= locks);
}

pub proof fn lemma_locked_total_update(locks: Seq<StockLock>, i: int, l: StockLock, pid: u128)
    requires
        0 <= i < locks.len(),
    ensures
        locked_total(locks.update(i, l), pid) == locked_total(locks, pid) - held_quantity(
            locks[i],
            pid,
        ) + held_quantity(l, pid),
    decreases locks.len(),
{
    if i == locks.len() - 1 {
        assert(locks.update(i, l).drop_last() =~= locks.drop_last());
    } else {
        lemma_locked_total_update(locks.drop_last(), i, l, pid);
        assert(locks.update(i, l).drop_last() =~= locks.drop_last().update(i, l));
    }
}

/// With no active lock of negative quantity, the total is at least what any
/// one lock holds, and is zero when no active lock holds the product.
pub proof fn lemma_locked_total_bounds(locks: Seq<StockLock>, pid: u128)
    requires
        forall|k: int| 0 <= k < locks.len() ==> held_quantity(#[trigger] locks[k], pid) >= 0,
    ensures
        locked_total(locks, pid) >= 0,
        forall|k: int|
            0 <= k < locks.len() ==> held_quantity(#[trigger] locks[k], pid) <= locked_total(
                locks,
                pid,
            ),
        (forall|k: int| 0 <= k < locks.len() ==> held_quantity(#[trigger] locks[k], pid) == 0)
            ==> locked_total(locks, pid) == 0,
    decreases locks.len(),
{
    if locks.len() > 0 {
        let init = locks.drop_last();
        assert forall|k: int| 0 <= k < init.len() implies held_quantity(#[trigger] init[k], pid)
            >= 0 by {
            assert(init[k] == locks[k]);
        }
        lemma_locked_total_bounds(init, pid);
        assert forall|k: int| 0 <= k < locks.len() implies held_quantity(#[trigger] locks[k], pid)
            <= locked_total(locks, pid) by {
            if k < locks.len() - 1 {
                assert(init[k] == locks[k]);
            }
        }
        if forall|k: int| 0 <= k < locks.len() ==> held_quantity(#[trigger] locks[k], pid) == 0 {
            assert forall|k: int| 0 <= k < init.len() implies held_quantity(
                #[trigger] init[k],
                pid,
            ) == 0 by {
                assert(init[k] == locks[k]);
            }
            assert(held_quantity(locks[locks.len() - 1], pid) == 0);
        }
    }
}

/// In a well-formed state, a product's locked stock bounds what each lock
/// holds of it, and a product that no active lock holds has none locked.
pub proof fn lemma_wf_locked_bounds(d: DbState, pid: u128)
    requires
        d.wf(),
    ensures
        locked_total(d.locks, pid) >= 0,
        forall|k: int|
            0 <= k < d.locks.len() ==> held_quantity(#[trigger] d.locks[k], pid) <= locked_total(
                d.locks,
                pid,
            ),
        !d.has_product(pid) ==> locked_total(d.locks, pid) == 0,
{
    assert forall|k: int| 0 <= k < d.locks.len() implies held_quantity(#[trigger] d.locks[k], pid)
        >= 0 by {
        if d.locks[k].status == LockStatus::Active {
            assert(d.locks[k].quantity > 0);
        }
    }
    if !d.has_product(pid) {
        assert forall|k: int| 0 <= k < d.locks.len() implies held_quantity(
            #[trigger] d.locks[k],
            pid,
        ) == 0 by {
            if d.locks[k].status == LockStatus::Active && d.locks[k].product_id == pid {
                assert(d.has_product(d.locks[k].product_id));
            }
        }
    }
    lemma_locked_total_bounds(d.locks, pid);
}

/// Settling lock `i`, its stock sold off (`consume`) or made available again,
/// stays within `i64` on every row of its product.
pub open spec fn settle_fits(d: DbState, i: int, consume: bool) -> bool {
    let l = d.locks[i];
    let change = if consume {
        StockChange::Consume(l.quantity)
    } else {
        StockChange::Restore(l.quantity)
    };
    forall|k: int|
        0 <= k < d.products.len() && (#[trigger] d.products[k]).id == l.product_id ==> change.fits(
            d.products[k],
        )
}

/// In a well-formed state, settling an active lock stays within `i64`: the
/// stock it holds is part of its product's locked stock.
pub proof fn lemma_wf_settle_fits(d: DbState, i: int, consume: bool)
    requires
        d.wf(),
        0 <= i < d.locks.len(),
        d.locks[i].status == LockStatus::Active,
    ensures
        settle_fits(d, i, consume),
{
    let l = d.locks[i];
    lemma_wf_locked_bounds(d, l.product_id);
    assert(held_quantity(d.locks[i], l.product_id) == l.quantity);
    assert forall|k: int|
        0 <= k < d.products.len() && (#[trigger] d.products[k]).id == l.product_id implies (if consume {
        StockChange::Consume(l.quantity)
    } else {
        StockChange::Restore(l.quantity)
    }).fits(d.products[k]) by {
        assert(stock_balanced(d.products[k], d.locks));
    }
}

/// Settling a lock keeps the tables keyed: no identifier changes.
pub proof fn lemma_settle_lock_keyed(
    d: DbState,
    i: int,
    status: LockStatus,
    bid_status: Option<BidStatus>,
    consume: bool,
    now: i64,
)
    requires
        d.keyed(),
        0 <= i < d.locks.len(),
    ensures
        settle_lock(d, i, status, bid_status, consume, now).keyed(),
{
    let e = settle_lock(d, i, status, bid_status, consume, now);
    assert forall|a: int, b: int| 0 <= a < b < e.products.len() implies e.products[a].id
        != e.products[b].id by {
        assert(e.products[a].id == d.products[a].id);
        assert(e.products[b].id == d.products[b].id);
    }
    assert forall|a: int, b: int| 0 <= a < b < e.bids.len() implies e.bids[a].id != e.bids[b].id by {
        assert(e.bids[a].id == d.bids[a].id);
        assert(e.bids[b].id == d.bids[b].id);
    }
    assert forall|a: int, b: int| 0 <= a < b < e.locks.len() implies e.locks[a].id
        != e.locks[b].id by {
        assert(e.locks[a].id == d.locks[a].id);
        assert(e.locks[b].id == d.locks[b].id);
    }
}

/// Settling an active lock keeps the tables well formed: the stock it held
/// leaves the locked count, for the available count or out of the product.
pub proof fn lemma_settle_lock_wf(
    d: DbState,
    i: int,
    status: LockStatus,
    bid_status: Option<BidStatus>,
    consume: bool,
    now: i64,
)
    requires
        d.wf(),
        0 <= i < d.locks.len(),
        d.locks[i].status == LockStatus::Active,
        status != LockStatus::Active,
    ensures
        settle_lock(d, i, status, bid_status, consume, now).wf(),
{
    let l = d.locks[i];
    let pid = l.product_id;
    let nl = StockLock { status, ..l };
    let e = settle_lock(d, i, status, bid_status, consume, now);
    lemma_wf_locked_bounds(d, pid);
    assert(e.products.len() == d.products.len());
    assert(e.locks.len() == d.locks.len());
    assert forall|k: int| 0 <= k < e.products.len() implies #[trigger] e.products[k].id
        == d.products[k].id by {}
    assert forall|k: int| 0 <= k < e.products.len() implies stock_balanced(
        #[trigger] e.products[k],
        e.locks,
    ) by {
        let p = d.products[k];
        assert(stock_balanced(p, d.locks));
        lemma_locked_total_update(d.locks, i, nl, p.id);
        if p.id == pid {
            assert(held_quantity(l, pid) == l.quantity);
        }
    }
    assert forall|a: int, b: int| 0 <= a < b < e.products.len() implies e.products[a].id
        != e.products[b].id by {
        assert(e.products[a].id == d.products[a].id);
        assert(e.products[b].id == d.products[b].id);
    }
    match bid_status {
        Some(s) => {
            assert forall|a: int, b: int| 0 <= a < b < e.bids.len() implies e.bids[a].id
                != e.bids[b].id by {
                assert(e.bids[a].id == d.bids[a].id);
                assert(e.bids[b].id == d.bids[b].id);
            }
        },
        None => {},
    }
    assert forall|a: int, b: int| 0 <= a < b < e.locks.len() implies e.locks[a].id
        != e.locks[b].id by {
        assert(e.locks[a].id == d.locks[a].id);
        assert(e.locks[b].id == d.locks[b].id);
    }
    assert forall|k: int|
        0 <= k < e.locks.len() && (#[trigger] e.locks[k]).status == LockStatus::Active
            implies e.locks[k].quantity > 0 && e.has_product(e.locks[k].product_id) by {
        assert(k != i);
        assert(e.locks[k] == d.locks[k]);
        let pk = d.locks[k].product_id;
        assert(d.has_product(pk));
        let m = choose|m: int| 0 <= m < d.products.len() && d.products[m].id == pk;
        assert(e.products[m].id == d.products[m].id);
    }
    assert forall|k: int|
        0 <= k < e.locks.len() && (#[trigger] e.locks[k]).status == LockStatus::Active
            implies e.has_bid(e.locks[k].bid_id) by {
        assert(e.locks[k] == d.locks[k]);
        let bk = d.locks[k].bid_id;
        assert(d.has_bid(bk));
        let m = choose|m: int| 0 <= m < d.bids.len() && d.bids[m].id == bk;
        assert(e.bids[m].id == d.bids[m].id);
    }
}

// ---------------------------------------------------------------------------
// Construction, lookups and inserts

/// The tables, empty.
pub fn init_db() -> (db: Database)
    ensures
        db@.products.len() == 0,
        db@.bids.len() == 0,
        db@.locks.len() == 0,
        db@.keys.len() == 0,
        db@.wf(),
        bids_track_locks(db@),
{
    Database {
        products: Vec::new(),
        bids: Vec::new(),
        locks: Vec::new(),
        idempotency_keys: Vec::new(),
    }
}

impl Database {
    pub fn products(&self) -> (r: &Vec<Product>)
        ensures
            r@ == self@.products,
    {
        &self.products
    }

    pub fn bids(&self) -> (r: &Vec<BidRecord>)
        ensures
            r@ == self@.bids,
    {
        &self.bids
    }

    pub fn locks(&self) -> (r: &Vec<StockLock>)
        ensures
            r@ == self@.locks,
    {
        &self.locks
    }

    pub fn idempotency_keys(&self) -> (r: &Vec<IdempotencyRecord>)
        ensures
            r@ == self@.keys,
    {
        &self.idempotency_keys
    }

    /// Where product `id` stands in its table.
    fn product_position(&self, id: u128) -> (r: Option<usize>)
        ensures
            r matches Some(k) ==> k < self@.products.len() && self@.products[k as int].id == id,
            r is None ==> !self@.has_product(id),
    {
        let mut i: usize = 0;
        while i < self.products.len()
            invariant
                i <= self.products@.len(),
                forall|k: int| 0 <= k < i ==> self.products@[k].id != id,
            decreases self.products@.len() - i,
        {
            if self.products[i].id == id {
                return Some(i);
            }
            i = i + 1;
        }
        None
    }

    /// Makes `c`, at `now`, to the row of product `pid` where it applies.
    fn change_product(&mut self, pid: u128, c: StockChange, now: i64)
        requires
            forall|k: int|
                0 <= k < old(self)@.products.len() && (#[trigger] old(self)@.products[k]).id == pid
                    && c.applies(old(self)@.products[k]) ==> c.fits(old(self)@.products[k]),
        ensures
            final(self)@ == (DbState {
                products: apply_change(old(self)@.products, pid, c, now),
                ..old(self)@
            }),
    {
        let ghost d0 = self@;
        let n = self.products.len();
        let mut j: usize = 0;
        while j < n
            invariant
                n == d0.products.len(),
                j <= n,
                self.products@.len() == n,
                self@.bids == d0.bids,
                self@.locks == d0.locks,
                self@.keys == d0.keys,
                forall|k: int| 0 <= k < j ==> self.products@[k] == apply_change(d0.products, pid, c, now)[k],
                forall|k: int| j <= k < n ==> self.products@[k] == d0.products[k],
                forall|k: int|
                    0 <= k < n && (#[trigger] d0.products[k]).id == pid && c.applies(d0.products[k])
                        ==> c.fits(d0.products[k]),
            decreases n - j,
        {
            if self.products[j].id == pid && c.applies_to(&self.products[j]) {
                assert(self.products@[j as int] == d0.products[j as int]);
                let np = c.apply_to(&self.products[j], now);
                self.products.set(j, np);
            }
            j = j + 1;
        }
        assert(self.products@ =~= apply_change(d0.products, pid, c, now));
    }

    /// Sets the status of bid `bid_id`.
    fn change_bid_status(&mut self, bid_id: u128, status: BidStatus)
        ensures
            final(self)@ == (DbState { bids: set_bid_status(old(self)@.bids, bid_id, status), ..old(self)@ }),
    {
        let ghost d0 = self@;
        let n = self.bids.len();
        let mut j: usize = 0;
        while j < n
            invariant
                n == d0.bids.len(),
                j <= n,
                self.bids@.len() == n,
                self@.products == d0.products,
                self@.locks == d0.locks,
                self@.keys == d0.keys,
                forall|k: int| 0 <= k < j ==> self.bids@[k] == set_bid_status(d0.bids, bid_id, status)[k],
                forall|k: int| j <= k < n ==> self.bids@[k] == d0.bids[k],
            decreases n - j,
        {
            if self.bids[j].id == bid_id {
                let mut b = self.bids[j].copied();
                b.status = status;
                self.bids.set(j, b);
            }
            j = j + 1;
        }
        assert(self.bids@ =~= set_bid_status(d0.bids, bid_id, status));
    }

    /// Settles the active lock at position `i`.
    fn settle_at(
        &mut self,
        i: usize,
        status: LockStatus,
        bid_status: Option<BidStatus>,
        consume: bool,
        now: i64,
    )
        requires
            old(self)@.keyed(),
            i < old(self)@.locks.len(),
            old(self)@.locks[i as int].status == LockStatus::Active,
            status != LockStatus::Active,
            settle_fits(old(self)@, i as int, consume),
        ensures
            final(self)@ == settle_lock(old(self)@, i as int, status, bid_status, consume, now),
            final(self)@.keyed(),
            old(self)@.wf() ==> final(self)@.wf(),
    {
        let ghost d0 = self@;
        let l = self.locks[i].copied();
        let change = if consume {
            StockChange::Consume(l.quantity)
        } else {
            StockChange::Restore(l.quantity)
        };
        self.change_product(l.product_id, change, now);
        match bid_status {
            Some(bs) => self.change_bid_status(l.bid_id, bs),
            None => {},
        }
        let mut nl = l;
        nl.status = status;
        self.locks.set(i, nl);
        proof {
            assert(self@ =~= settle_lock(d0, i as int, status, bid_status, consume, now));
            lemma_settle_lock_keyed(d0, i as int, status, bid_status, consume, now);
            if d0.wf() {
                lemma_settle_lock_wf(d0, i as int, status, bid_status, consume, now);
            }
        }
    }

    /// Where bid `id` stands in its table.
    fn bid_position(&self, id: u128) -> (r: Option<usize>)
        ensures
            r matches Some(k) ==> k < self@.bids.len() && self@.bids[k as int].id == id,
            r is None ==> !self@.has_bid(id),
    {
        let mut i: usize = 0;
        while i < self.bids.len()
            invariant
                i <= self.bids@.len(),
                forall|k: int| 0 <= k < i ==> self.bids@[k].id != id,
            decreases self.bids@.len() - i,
        {
            if self.bids[i].id == id {
                return Some(i);
            }
            i = i + 1;
        }
        None
    }

    /// Where lock `id` stands in its table.
    fn lock_position(&self, id: u128) -> (r: Option<usize>)
        ensures
            r matches Some(k) ==> k < self@.locks.len() && self@.locks[k as int].id == id,
            r is None ==> !self@.has_lock(id),
    {
        let mut i: usize = 0;
        while i < self.locks.len()
            invariant
                i <= self.locks@.len(),
                forall|k: int| 0 <= k < i ==> self.locks@[k].id != id,
            decreases self.locks@.len() - i,
        {
            if self.locks[i].id == id {
                return Some(i);
            }
            i = i + 1;
        }
        None
    }
}

/// In a table with distinct product identifiers, the product found under the
/// identifier of row `k` is row `k`.
pub proof fn lemma_find_product_at(d: DbState, k: int)
    requires
        d.keyed(),
        0 <= k < d.products.len(),
    ensures
        d.has_product(d.products[k].id),
        d.product_index(d.products[k].id) == k,
        d.find_product(d.products[k].id) == Some(d.products[k]),
{
    let id = d.products[k].id;
    assert(d.has_product(id));
    let c = d.product_index(id);
    if c < k {
        assert(d.products[c].id != d.products[k].id);
    } else if c > k {
        assert(d.products[k].id != d.products[c].id);
    }
}

/// In a table with distinct bid identifiers, the bid found under the
/// identifier of row `k` is row `k`.
pub proof fn lemma_find_bid_at(d: DbState, k: int)
    requires
        d.keyed(),
        0 <= k < d.bids.len(),
    ensures
        d.has_bid(d.bids[k].id),
        d.bid_index(d.bids[k].id) == k,
        d.find_bid(d.bids[k].id) == Some(d.bids[k]),
{
    let id = d.bids[k].id;
    assert(d.has_bid(id));
    let c = d.bid_index(id);
    if c < k {
        assert(d.bids[c].id != d.bids[k].id);
    } else if c > k {
        assert(d.bids[k].id != d.bids[c].id);
    }
}

/// In a table with distinct lock identifiers, the lock found under the
/// identifier of row `k` is row `k`, and no other row carries that identifier.
pub proof fn lemma_find_lock_at(d: DbState, k: int)
    requires
        d.keyed(),
        0 <= k < d.locks.len(),
    ensures
        d.has_lock(d.locks[k].id),
        d.lock_index(d.locks[k].id) == k,
        forall|m: int| 0 <= m < d.locks.len() && d.locks[m].id == d.locks[k].id ==> m == k,
{
    let id = d.locks[k].id;
    assert(d.has_lock(id));
    let c = d.lock_index(id);
    if c < k {
        assert(d.locks[c].id != d.locks[k].id);
    } else if c > k {
        assert(d.locks[k].id != d.locks[c].id);
    }
    assert forall|m: int| 0 <= m < d.locks.len() && d.locks[m].id == id implies m == k by {
        if m < k {
            assert(d.locks[m].id != d.locks[k].id);
        } else if m > k {
            assert(d.locks[k].id != d.locks[m].id);
        }
    }
}

/// The product with identifier `product_id`, if it is listed.
pub fn get_product(db: &Database, product_id: u128) -> (r: Option<Product>)
    requires
        db@.keyed(),
    ensures
        r == db@.find_product(product_id),
{
    match db.product_position(product_id) {
        Some(k) => {
            proof {
                lemma_find_product_at(db@, k as int);
            }
            Some(db.products[k].copied())
        },
        None => None,
    }
}

/// The bid with identifier `bid_id`, if it is recorded.
pub fn get_bid(db: &Database, bid_id: u128) -> (r: Option<BidRecord>)
    requires
        db@.keyed(),
    ensures
        r == db@.find_bid(bid_id),
{
    match db.bid_position(bid_id) {
        Some(k) => {
            proof {
                lemma_find_bid_at(db@, k as int);
            }
            Some(db.bids[k].copied())
        },
        None => None,
    }
}

/// `r` is the database error with message `msg`.
pub open spec fn db_error<T>(r: AppResult<T>, msg: Seq<char>) -> bool {
    r matches Err(AppError::DatabaseError(m)) && m@ == msg
}

/// Lists the product that `req` describes under identifier `id`, created at
/// `now`. An identifier already in use is refused, as the table's key refuses
/// it; nothing else about the request is checked.
pub fn create_product_at(
    db: &mut Database,
    req: &CreateProductRequest,
    id: u128,
    now: i64,
) -> (r: AppResult<Product>)
    requires
        old(db)@.keyed(),
        -TIME_BOUND <= now <= TIME_BOUND,
        duration_fits(now, req.auction_duration_minutes),
    ensures
        old(db)@.has_product(id) ==> db_error(r, "UNIQUE constraint failed: products.id"@)
            && final(db)@ == old(db)@,
        !old(db)@.has_product(id) ==> r == Ok::<Product, AppError>(new_product(*req, id, now))
            && final(db)@ == (DbState {
            products: old(db)@.products.push(new_product(*req, id, now)),
            ..old(db)@
        }),
        final(db)@.keyed(),
        old(db)@.wf() && req.total_stock >= 0 ==> final(db)@.wf(),
{
    if db.product_position(id).is_some() {
        return Err(AppError::DatabaseError("UNIQUE constraint failed: products.id".to_string()));
    }
    let end_time = match req.auction_duration_minutes {
        None => None,
        Some(m) => Some(now + m * MILLIS_PER_MINUTE),
    };
    let product = Product {
        id,
        name: req.name.clone(),
        description: req.description.clone(),
        total_stock: req.total_stock,
        available_stock: req.total_stock,
        locked_stock: 0,
        start_price: req.start_price,
        current_price: req.start_price,
        min_increment: req.min_increment,
        room_id: req.room_id.clone(),
        end_time,
        created_at: now,
        updated_at: now,
    };
    let ghost d0 = db@;
    db.products.push(product.copied());
    proof {
        let d1 = db@;
        assert(d1.products == d0.products.push(product));
        assert forall|i: int, j: int| 0 <= i < j < d1.products.len() implies d1.products[i].id
            != d1.products[j].id by {
            assert(d1.products[i] == d0.products[i]);
            if j < d0.products.len() {
                assert(d1.products[j] == d0.products[j]);
            }
        }
        if d0.wf() && req.total_stock >= 0 {
            lemma_wf_locked_bounds(d0, id);
            assert forall|i: int| 0 <= i < d1.products.len() implies stock_balanced(
                #[trigger] d1.products[i],
                d1.locks,
            ) by {
                if i < d0.products.len() {
                    assert(d1.products[i] == d0.products[i]);
                }
            }
            assert forall|i: int|
                0 <= i < d1.locks.len() && (#[trigger] d1.locks[i]).status == LockStatus::Active
                    implies d1.locks[i].quantity > 0 && d1.has_product(d1.locks[i].product_id) by {
                let pid = d1.locks[i].product_id;
                assert(d0.has_product(pid));
                let k = choose|k: int| 0 <= k < d0.products.len() && d0.products[k].id == pid;
                assert(d1.products[k] == d0.products[k]);
            }
        }
    }
    Ok(product)
}

/// Records a pending bid for product `product_id` under identifier `id`, made
/// at `now`. An identifier already in use is refused, as the table's key
/// refuses it; a product that is not listed is refused, as the foreign key on
/// the product refuses it.
pub fn create_bid_at(
    db: &mut Database,
    product_id: u128,
    user_id: &String,
    bid_price: i64,
    quantity: i64,
    id: u128,
    now: i64,
) -> (r: AppResult<BidRecord>)
    requires
        old(db)@.keyed(),
    ensures
        old(db)@.has_bid(id) ==> db_error(r, "UNIQUE constraint failed: bid_records.id"@)
            && final(db)@ == old(db)@,
        !old(db)@.has_bid(id) && !old(db)@.has_product(product_id) ==> db_error(
            r,
            "FOREIGN KEY constraint failed"@,
        ) && final(db)@ == old(db)@,
        !old(db)@.has_bid(id) && old(db)@.has_product(product_id) ==> r == Ok::<BidRecord, AppError>(
            new_bid(product_id, *user_id, bid_price, quantity, id, now),
        ) && final(db)@ == (DbState {
            bids: old(db)@.bids.push(new_bid(product_id, *user_id, bid_price, quantity, id, now)),
            ..old(db)@
        }),
        final(db)@.keyed(),
        old(db)@.wf() ==> final(db)@.wf(),
{
    if db.bid_position(id).is_some() {
        return Err(AppError::DatabaseError("UNIQUE constraint failed: bid_records.id".to_string()));
    }
    if db.product_position(product_id).is_none() {
        return Err(AppError::DatabaseError("FOREIGN KEY constraint failed".to_string()));
    }
    let bid = BidRecord {
        id,
        product_id,
        user_id: user_id.clone(),
        bid_price,
        quantity,
        status: BidStatus::Pending,
        created_at: now,
    };
    let ghost d0 = db@;
    db.bids.push(bid.copied());
    proof {
        let d1 = db@;
        assert forall|i: int, j: int| 0 <= i < j < d1.bids.len() implies d1.bids[i].id
            != d1.bids[j].id by {
            if j == d0.bids.len() {
                assert(d1.bids[i] == d0.bids[i]);
            } else {
                assert(d1.bids[i] == d0.bids[i]);
                assert(d1.bids[j] == d0.bids[j]);
            }
        }
        if d0.wf() {
            assert forall|k: int|
                0 <= k < d1.locks.len() && (#[trigger] d1.locks[k]).status == LockStatus::Active
                    implies d1.has_bid(d1.locks[k].bid_id) by {
                let bk = d0.locks[k].bid_id;
                assert(d0.has_bid(bk));
                let m = choose|m: int| 0 <= m < d0.bids.len() && d0.bids[m].id == bk;
                assert(d1.bids[m] == d0.bids[m]);
            }
        }
    }
    Ok(bid)
}

/// Reserving `quantity` of product `pid` stays within `i64` wherever it applies.
pub open spec fn reserve_fits(d: DbState, pid: u128, quantity: i64) -> bool {
    forall|k: int|
        0 <= k < d.products.len() && (#[trigger] d.products[k]).id == pid
            && StockChange::Reserve(quantity).applies(d.products[k]) ==> StockChange::Reserve(
            quantity,
        ).fits(d.products[k])
}

/// Sets the current price of product `product_id`, at `now`.
pub fn update_product_price_at(db: &mut Database, product_id: u128, new_price: i64, now: i64)
    requires
        old(db)@.keyed(),
    ensures
        final(db)@ == (DbState {
            products: apply_change(old(db)@.products, product_id, StockChange::Reprice(new_price), now),
            ..old(db)@
        }),
        final(db)@.keyed(),
        old(db)@.wf() ==> final(db)@.wf(),
{
    let ghost d0 = db@;
    db.change_product(product_id, StockChange::Reprice(new_price), now);
    proof {
        let d1 = db@;
        assert forall|k: int| 0 <= k < d1.products.len() implies #[trigger] d1.products[k].id
            == d0.products[k].id && d1.products[k].total_stock == d0.products[k].total_stock
            && d1.products[k].available_stock == d0.products[k].available_stock
            && d1.products[k].locked_stock == d0.products[k].locked_stock by {}
        assert forall|a: int, b: int| 0 <= a < b < d1.products.len() implies d1.products[a].id
            != d1.products[b].id by {
            assert(d1.products[a].id == d0.products[a].id);
            assert(d1.products[b].id == d0.products[b].id);
        }
        if d0.wf() {
            assert forall|k: int| 0 <= k < d1.products.len() implies stock_balanced(
                #[trigger] d1.products[k],
                d1.locks,
            ) by {
                assert(stock_balanced(d0.products[k], d0.locks));
            }
            assert forall|k: int|
                0 <= k < d1.locks.len() && (#[trigger] d1.locks[k]).status == LockStatus::Active
                    implies d1.locks[k].quantity > 0 && d1.has_product(d1.locks[k].product_id) by {
                let pk = d0.locks[k].product_id;
                assert(d0.has_product(pk));
                let m = choose|m: int| 0 <= m < d0.products.len() && d0.products[m].id == pk;
                assert(d1.products[m].id == d0.products[m].id);
            }
        }
    }
}

/// Sets the status of bid `bid_id`.
pub fn update_bid_status(db: &mut Database, bid_id: u128, status: BidStatus)
    requires
        old(db)@.keyed(),
    ensures
        final(db)@ == (DbState { bids: set_bid_status(old(db)@.bids, bid_id, status), ..old(db)@ }),
        final(db)@.keyed(),
        old(db)@.wf() ==> final(db)@.wf(),
{
    let ghost d0 = db@;
    db.change_bid_status(bid_id, status);
    proof {
        let d1 = db@;
        assert forall|a: int, b: int| 0 <= a < b < d1.bids.len() implies d1.bids[a].id
            != d1.bids[b].id by {
            assert(d1.bids[a].id == d0.bids[a].id);
            assert(d1.bids[b].id == d0.bids[b].id);
        }
        if d0.wf() {
            assert forall|k: int|
                0 <= k < d1.locks.len() && (#[trigger] d1.locks[k]).status == LockStatus::Active
                    implies d1.has_bid(d1.locks[k].bid_id) by {
                let bk = d0.locks[k].bid_id;
                assert(d0.has_bid(bk));
                let m = choose|m: int| 0 <= m < d0.bids.len() && d0.bids[m].id == bk;
                assert(d1.bids[m].id == d0.bids[m].id);
            }
        }
    }
}

/// Locks `quantity` of product `product_id` for bid `bid_id` under lock
/// identifier `id`, at `now`: where that much is available it moves from
/// available to locked stock, and the lock is recorded in any case. After the
/// stock has moved, a lock identifier already in use is refused, as the
/// table's key refuses it, and so is a lock for a product or bid that is not
/// recorded, as the foreign keys refuse it.
pub fn lock_stock_at(
    db: &mut Database,
    product_id: u128,
    bid_id: u128,
    user_id: &String,
    quantity: i64,
    id: u128,
    now: i64,
) -> (r: AppResult<StockLock>)
    requires
        old(db)@.keyed(),
        -TIME_BOUND <= now <= TIME_BOUND,
        reserve_fits(old(db)@, product_id, quantity),
    ensures
        ({
            let products = apply_change(
                old(db)@.products,
                product_id,
                StockChange::Reserve(quantity),
                now,
            );
            let lock = new_lock(product_id, bid_id, *user_id, quantity, id, now);
            let known = old(db)@.has_product(product_id) && old(db)@.has_bid(bid_id);
            &&& old(db)@.has_lock(id) ==> db_error(r, "UNIQUE constraint failed: stock_locks.id"@)
                && final(db)@ == (DbState { products, ..old(db)@ })
            &&& !old(db)@.has_lock(id) && !known ==> db_error(r, "FOREIGN KEY constraint failed"@)
                && final(db)@ == (DbState { products, ..old(db)@ })
            &&& !old(db)@.has_lock(id) && known ==> r == Ok::<StockLock, AppError>(lock)
                && final(db)@ == (DbState { products, locks: old(db)@.locks.push(lock), ..old(db)@ })
        }),
        final(db)@.keyed(),
        old(db)@.wf() && old(db)@.has_product(product_id) && 0 < quantity <= old(db)@.find_product(
            product_id,
        )->0.available_stock && !old(db)@.has_lock(id) && old(db)@.has_bid(bid_id) ==> final(db)@.wf(),
{
    let ghost d0 = db@;
    let known = db.product_position(product_id).is_some() && db.bid_position(bid_id).is_some();
    db.change_product(product_id, StockChange::Reserve(quantity), now);
    let lock = StockLock {
        id,
        product_id,
        bid_id,
        user_id: user_id.clone(),
        quantity,
        locked_at: now,
        expires_at: now + LOCK_DURATION_MILLIS,
        status: LockStatus::Active,
    };
    let ghost d1 = db@;
    proof {
        assert forall|k: int| 0 <= k < d1.products.len() implies #[trigger] d1.products[k].id
            == d0.products[k].id by {}
        assert forall|a: int, b: int| 0 <= a < b < d1.products.len() implies d1.products[a].id
            != d1.products[b].id by {
            assert(d1.products[a].id == d0.products[a].id);
            assert(d1.products[b].id == d0.products[b].id);
        }
    }
    if db.lock_position(id).is_some() {
        return Err(AppError::DatabaseError("UNIQUE constraint failed: stock_locks.id".to_string()));
    }
    if !known {
        return Err(AppError::DatabaseError("FOREIGN KEY constraint failed".to_string()));
    }
    db.locks.push(lock.copied());
    proof {
        let d2 = db@;
        assert forall|a: int, b: int| 0 <= a < b < d2.locks.len() implies d2.locks[a].id
            != d2.locks[b].id by {
            assert(d2.locks[a] == d0.locks[a]);
            if b < d0.locks.len() {
                assert(d2.locks[b] == d0.locks[b]);
            }
        }
        if d0.wf() && d0.has_product(product_id) && 0 < quantity <= d0.find_product(
            product_id,
        )->0.available_stock && d0.has_bid(bid_id) {
            assert forall|k: int| 0 <= k < d2.products.len() implies stock_balanced(
                #[trigger] d2.products[k],
                d2.locks,
            ) by {
                let p = d0.products[k];
                assert(stock_balanced(p, d0.locks));
                lemma_locked_total_push(d0.locks, lock, p.id);
                lemma_find_product_at(d0, k);
            }
            assert forall|k: int|
                0 <= k < d2.locks.len() && (#[trigger] d2.locks[k]).status == LockStatus::Active
                    implies d2.locks[k].quantity > 0 && d2.has_product(d2.locks[k].product_id) by {
                let pid = d2.locks[k].product_id;
                if k < d0.locks.len() {
                    assert(d2.locks[k] == d0.locks[k]);
                    assert(d0.has_product(pid));
                } else {
                    assert(d2.locks[k] == lock);
                }
                let m = choose|m: int| 0 <= m < d0.products.len() && d0.products[m].id == pid;
                assert(d2.products[m].id == d0.products[m].id);
            }
            assert forall|k: int|
                0 <= k < d2.locks.len() && (#[trigger] d2.locks[k]).status == LockStatus::Active
                    implies d2.has_bid(d2.locks[k].bid_id) by {
                if k < d0.locks.len() {
                    assert(d2.locks[k] == d0.locks[k]);
                }
            }
        }
    }
    Ok(lock)
}

/// Lock `i` is the first active lock held for bid `bid_id`.
pub open spec fn is_first_active_of_bid(locks: Seq<StockLock>, bid_id: u128, i: int) -> bool {
    &&& 0 <= i < locks.len()
    &&& locks[i].bid_id == bid_id
    &&& locks[i].status == LockStatus::Active
    &&& forall|j: int|
        0 <= j < i ==> !(#[trigger] locks[j].bid_id == bid_id && locks[j].status == LockStatus::Active)
}

impl DbState {
    /// The first active lock held for bid `bid_id`, if there is one.
    pub open spec fn active_lock_of_bid(self, bid_id: u128) -> Option<StockLock> {
        if exists|i: int| is_first_active_of_bid(self.locks, bid_id, i) {
            Some(self.locks[choose|i: int| is_first_active_of_bid(self.locks, bid_id, i)])
        } else {
            None
        }
    }
}

/// The first active lock of bid `bid_id` is the row found under its own
/// identifier, and an active lock of a listed product.
pub proof fn lemma_active_lock_of_bid_row(d: DbState, bid_id: u128)
    requires
        d.wf(),
        d.active_lock_of_bid(bid_id) is Some,
    ensures
        ({
            let l = d.active_lock_of_bid(bid_id)->0;
            let i = d.lock_index(l.id);
            &&& 0 <= i < d.locks.len()
            &&& d.locks[i] == l
            &&& l.bid_id == bid_id
            &&& l.status == LockStatus::Active
            &&& d.has_active_lock(l.id)
            &&& d.has_product(l.product_id)
        }),
{
    let c = choose|c: int| is_first_active_of_bid(d.locks, bid_id, c);
    lemma_find_lock_at(d, c);
}

/// The first active lock held for bid `bid_id`, if there is one.
pub fn get_active_lock_by_bid(db: &Database, bid_id: u128) -> (r: Option<StockLock>)
    ensures
        r == db@.active_lock_of_bid(bid_id),
        r is None <==> !db@.bid_has_active_lock(bid_id),
        r matches Some(l) ==> db@.is_active_lock_of_bid(l, bid_id),
{
    let mut i: usize = 0;
    while i < db.locks.len()
        invariant
            i <= db@.locks.len(),
            forall|k: int|
                0 <= k < i ==> !(#[trigger] db@.locks[k].bid_id == bid_id && db@.locks[k].status
                    == LockStatus::Active),
        decreases db@.locks.len() - i,
    {
        if db.locks[i].bid_id == bid_id && db.locks[i].status == LockStatus::Active {
            let l = db.locks[i].copied();
            proof {
                let ls = db@.locks;
                assert(is_first_active_of_bid(ls, bid_id, i as int));
                let c = choose|c: int| is_first_active_of_bid(ls, bid_id, c);
                assert(c == i as int) by {
                    if c < i {
                        assert(!(ls[c].bid_id == bid_id && ls[c].status == LockStatus::Active));
                    } else if c > i {
                        assert(!(ls[i as int].bid_id == bid_id && ls[i as int].status == LockStatus::Active));
                    }
                }
                assert(ls[i as int] == l);
            }
            return Some(l);
        }
        i = i + 1;
    }
    None
}

/// What the tables answer when no row matches a query that needs one.
pub open spec fn row_not_found() -> Seq<char> {
    "no rows returned by a query that expected to return at least one row"@
}

/// Where the active lock `lock_id` stands, or why it cannot be had.
fn active_lock_position(db: &Database, lock_id: u128) -> (r: AppResult<usize>)
    requires
        db@.keyed(),
    ensures
        db@.has_active_lock(lock_id) <==> r is Ok,
        r matches Ok(k) ==> k == db@.lock_index(lock_id) && k < db@.locks.len()
            && db@.locks[k as int].status == LockStatus::Active,
        r is Err ==> db_error(r, row_not_found()),
{
    match db.lock_position(lock_id) {
        Some(k) => {
            proof {
                lemma_find_lock_at(db@, k as int);
            }
            if db.locks[k].status == LockStatus::Active {
                Ok(k)
            } else {
                Err(AppError::DatabaseError(
                    "no rows returned by a query that expected to return at least one row".to_string(),
                ))
            }
        },
        None => Err(AppError::DatabaseError(
            "no rows returned by a query that expected to return at least one row".to_string(),
        )),
    }
}

/// Confirms the active lock `lock_id`, at `now`: its stock is sold, leaving
/// the locked and the total stock of its product. Without an active lock of
/// that identifier no row is found.
pub fn confirm_lock_at(db: &mut Database, lock_id: u128, now: i64) -> (r: AppResult<()>)
    requires
        old(db)@.keyed(),
        old(db)@.has_active_lock(lock_id) ==> settle_fits(
            old(db)@,
            old(db)@.lock_index(lock_id),
            true,
        ),
    ensures
        !old(db)@.has_active_lock(lock_id) ==> db_error(r, row_not_found()) && final(db)@
            == old(db)@,
        old(db)@.has_active_lock(lock_id) ==> r is Ok && final(db)@ == settle_lock(
            old(db)@,
            old(db)@.lock_index(lock_id),
            LockStatus::Confirmed,
            None,
            true,
            now,
        ),
        final(db)@.keyed(),
        old(db)@.wf() ==> final(db)@.wf(),
{
    let k = active_lock_position(db, lock_id)?;
    db.settle_at(k, LockStatus::Confirmed, None, true, now);
    Ok(())
}

/// Releases the active lock `lock_id`, at `now`: its stock becomes available
/// again. Without an active lock of that identifier no row is found.
pub fn release_lock_at(db: &mut Database, lock_id: u128, now: i64) -> (r: AppResult<()>)
    requires
        old(db)@.keyed(),
        old(db)@.has_active_lock(lock_id) ==> settle_fits(
            old(db)@,
            old(db)@.lock_index(lock_id),
            false,
        ),
    ensures
        !old(db)@.has_active_lock(lock_id) ==> db_error(r, row_not_found()) && final(db)@
            == old(db)@,
        old(db)@.has_active_lock(lock_id) ==> r is Ok && final(db)@ == settle_lock(
            old(db)@,
            old(db)@.lock_index(lock_id),
            LockStatus::Released,
            None,
            false,
            now,
        ),
        final(db)@.keyed(),
        old(db)@.wf() ==> final(db)@.wf(),
{
    let k = active_lock_position(db, lock_id)?;
    db.settle_at(k, LockStatus::Released, None, false, now);
    Ok(())
}

// ---------------------------------------------------------------------------
// Settling many locks

/// Which active locks a bulk settlement takes.
#[derive(Clone, Debug, PartialEq, Eq)]
pub enum LockFilter {
    /// Locks that lapsed before the instant.
    ExpiredBefore(i64),
    /// Locks that a user holds on a product.
    HeldBy(u128, String),
    /// Locks on a product.
    OnProduct(u128),
}

impl LockFilter {
    pub open spec fn picks(self, l: StockLock) -> bool {
        &&& l.status == LockStatus::Active
        &&& match self {
            LockFilter::ExpiredBefore(now) => l.expires_at < now,
            LockFilter::HeldBy(pid, user) => l.product_id == pid && l.user_id@ == user@,
            LockFilter::OnProduct(pid) => l.product_id == pid,
        }
    }

    fn picks_lock(&self, l: &StockLock) -> (r: bool)
        ensures
            r == self.picks(*l),
    {
        l.status == LockStatus::Active && match self {
            LockFilter::ExpiredBefore(now) => l.expires_at < *now,
            LockFilter::HeldBy(pid, user) => l.product_id == *pid && l.user_id == *user,
            LockFilter::OnProduct(pid) => l.product_id == *pid,
        }
    }
}

/// The state after each of the first `n` locks that `f` picks in `d` is
/// settled in turn, its stock made available again and its bid given
/// `bid_status`.
pub open spec fn settle_picked(
    d: DbState,
    f: LockFilter,
    status: LockStatus,
    bid_status: BidStatus,
    now: i64,
    n: nat,
) -> DbState
    decreases n,
{
    if n == 0 {
        d
    } else {
        let prev = settle_picked(d, f, status, bid_status, now, (n - 1) as nat);
        if n - 1 < d.locks.len() && f.picks(d.locks[n - 1]) {
            settle_lock(prev, n - 1, status, Some(bid_status), false, now)
        } else {
            prev
        }
    }
}

/// How many of the first `n` locks `f` picks.
pub open spec fn count_picked(locks: Seq<StockLock>, f: LockFilter, n: nat) -> nat
    decreases n,
{
    if n == 0 {
        0
    } else {
        count_picked(locks, f, (n - 1) as nat) + if n - 1 < locks.len() && f.picks(
            locks[n - 1],
        ) {
            1nat
        } else {
            0nat
        }
    }
}

/// A settlement of the first `n` locks gives each picked one among them the
/// new status and leaves every other lock as it was.
pub proof fn lemma_settle_picked_locks(
    d: DbState,
    f: LockFilter,
    status: LockStatus,
    bid_status: BidStatus,
    now: i64,
    n: nat,
)
    requires
        n <= d.locks.len(),
    ensures
        ({
            let e = settle_picked(d, f, status, bid_status, now, n);
            &&& e.locks.len() == d.locks.len()
            &&& forall|k: int|
                0 <= k < d.locks.len() ==> #[trigger] e.locks[k] == if k < n && f.picks(
                    d.locks[k],
                ) {
                    StockLock { status, ..d.locks[k] }
                } else {
                    d.locks[k]
                }
        }),
    decreases n,
{
    if n > 0 {
        lemma_settle_picked_locks(d, f, status, bid_status, now, (n - 1) as nat);
    }
}

/// What the locks of `locks` that `f` picks hold of product `pid`.
pub open spec fn picked_total(locks: Seq<StockLock>, f: LockFilter, pid: u128) -> int
    decreases locks.len(),
{
    if locks.len() == 0 {
        0
    } else {
        picked_total(locks.drop_last(), f, pid) + if f.picks(locks.last()) {
            held_quantity(locks.last(), pid)
        } else {
            0
        }
    }
}

/// Where `f` picks none of `locks`, the locks it picks hold nothing.
pub proof fn lemma_picked_total_none(locks: Seq<StockLock>, f: LockFilter, pid: u128)
    requires
        forall|k: int| 0 <= k < locks.len() ==> !f.picks(#[trigger] locks[k]),
    ensures
        picked_total(locks, f, pid) == 0,
    decreases locks.len(),
{
    if locks.len() > 0 {
        let init = locks.drop_last();
        assert forall|k: int| 0 <= k < init.len() implies !f.picks(#[trigger] init[k]) by {
            assert(init[k] == locks[k]);
        }
        lemma_picked_total_none(init, f, pid);
        assert(!f.picks(locks[locks.len() - 1]));
    }
}

/// Taking the locks that `f` picks out of the active state takes what they
/// hold out of every product's locked total.
proof fn lemma_locked_total_picked(
    a: Seq<StockLock>,
    b: Seq<StockLock>,
    f: LockFilter,
    status: LockStatus,
    pid: u128,
)
    requires
        status != LockStatus::Active,
        a.len() == b.len(),
        forall|k: int|
            0 <= k < a.len() ==> #[trigger] b[k] == if f.picks(a[k]) {
                StockLock { status, ..a[k] }
            } else {
                a[k]
            },
    ensures
        locked_total(b, pid) == locked_total(a, pid) - picked_total(a, f, pid),
    decreases a.len(),
{
    if a.len() > 0 {
        let a0 = a.drop_last();
        let b0 = b.drop_last();
        assert forall|k: int| 0 <= k < a0.len() implies #[trigger] b0[k] == if f.picks(a0[k]) {
            StockLock { status, ..a0[k] }
        } else {
            a0[k]
        } by {
            assert(b0[k] == b[k]);
            assert(a0[k] == a[k]);
        }
        lemma_locked_total_picked(a0, b0, f, status, pid);
        assert(b.last() == b[a.len() - 1]);
    }
}

/// A settlement of every lock that `f` picks takes what those locks held of
/// product `pid` out of its locked total.
pub proof fn lemma_settle_picked_locked_total(
    d: DbState,
    f: LockFilter,
    status: LockStatus,
    bid_status: BidStatus,
    now: i64,
    pid: u128,
)
    requires
        status != LockStatus::Active,
    ensures
        locked_total(settle_picked(d, f, status, bid_status, now, d.locks.len()).locks, pid)
            == locked_total(d.locks, pid) - picked_total(d.locks, f, pid),
{
    let e = settle_picked(d, f, status, bid_status, now, d.locks.len());
    lemma_settle_picked_locks(d, f, status, bid_status, now, d.locks.len());
    lemma_locked_total_picked(d.locks, e.locks, f, status, pid);
}

/// A settlement of the first `n` locks gives `bid_status` to the bid of each
/// lock it picks.
pub proof fn lemma_settle_picked_bids(
    d: DbState,
    f: LockFilter,
    status: LockStatus,
    bid_status: BidStatus,
    now: i64,
    n: nat,
)
    requires
        n <= d.locks.len(),
    ensures
        ({
            let e = settle_picked(d, f, status, bid_status, now, n);
            &&& e.bids.len() == d.bids.len()
            &&& forall|k: int, j: int|
                #![trigger d.locks[k], e.bids[j]]
                0 <= k < n && f.picks(d.locks[k]) && 0 <= j < e.bids.len() && e.bids[j].id
                    == d.locks[k].bid_id ==> e.bids[j].status == bid_status
        }),
    decreases n,
{
    if n > 0 {
        lemma_settle_picked_bids(d, f, status, bid_status, now, (n - 1) as nat);
        lemma_settle_picked_locks(d, f, status, bid_status, now, (n - 1) as nat);
        let prev = settle_picked(d, f, status, bid_status, now, (n - 1) as nat);
        let e = settle_picked(d, f, status, bid_status, now, n);
        if f.picks(d.locks[n - 1]) {
            assert(prev.locks[n - 1] == d.locks[n - 1]);
            assert forall|k: int, j: int|
                #![trigger d.locks[k], e.bids[j]]
                0 <= k < n && f.picks(d.locks[k]) && 0 <= j < e.bids.len() && e.bids[j].id
                    == d.locks[k].bid_id implies e.bids[j].status == bid_status by {
                if e.bids[j].id != d.locks[n - 1].bid_id {
                    assert(e.bids[j] == prev.bids[j]);
                }
            }
        }
    }
}

/// A bid that no active lock holds for stays as it is and gains none: from `d`
/// to `e`, every such recorded bid is found unchanged and still has no active
/// lock.
pub open spec fn settled_bids_kept(d: DbState, e: DbState) -> bool {
    forall|bid_id: u128|
        #[trigger] d.has_bid(bid_id) && !d.bid_has_active_lock(bid_id) ==> e.find_bid(bid_id)
            == d.find_bid(bid_id) && !e.bid_has_active_lock(bid_id)
}

/// Bids without an active lock are kept where every such row stays as it was
/// and each active lock of `e` is an active lock of `d` or belongs to a bid
/// that `d` does not have.
pub proof fn lemma_settled_bids_kept_by(d: DbState, e: DbState)
    requires
        d.keyed(),
        e.keyed(),
        d.bids.len() <= e.bids.len(),
        forall|j: int|
            0 <= j < d.bids.len() && !d.bid_has_active_lock(d.bids[j].id) ==> #[trigger] e.bids[j]
                == d.bids[j],
        forall|k: int|
            0 <= k < e.locks.len() && (#[trigger] e.locks[k]).status == LockStatus::Active ==> (k
                < d.locks.len() && d.locks[k].status == LockStatus::Active && d.locks[k].bid_id
                == e.locks[k].bid_id) || !d.has_bid(e.locks[k].bid_id),
    ensures
        settled_bids_kept(d, e),
{
    assert forall|x: u128| #[trigger] d.has_bid(x) && !d.bid_has_active_lock(x) implies e.find_bid(x)
        == d.find_bid(x) && !e.bid_has_active_lock(x) by {
        let j = d.bid_index(x);
        lemma_find_bid_at(d, j);
        assert(e.bids[j] == d.bids[j]);
        lemma_find_bid_at(e, j);
        if e.bid_has_active_lock(x) {
            let k = choose|k: int|
                0 <= k < e.locks.len() && e.locks[k].bid_id == x && e.locks[k].status
                    == LockStatus::Active;
            assert(e.locks[k].status == LockStatus::Active);
            if k < d.locks.len() && d.locks[k].status == LockStatus::Active && d.locks[k].bid_id == x {
                assert(d.bid_has_active_lock(x));
            }
        }
    }
}

pub proof fn lemma_settled_bids_kept_trans(a: DbState, b: DbState, c: DbState)
    requires
        settled_bids_kept(a, b),
        settled_bids_kept(b, c),
    ensures
        settled_bids_kept(a, c),
{
    assert forall|x: u128| #[trigger] a.has_bid(x) && !a.bid_has_active_lock(x) implies c.find_bid(x)
        == a.find_bid(x) && !c.bid_has_active_lock(x) by {
        assert(b.find_bid(x) == a.find_bid(x));
        assert(b.has_bid(x));
    }
}

/// A settlement of the first `n` locks leaves alone every bid that none of
/// the locks it picks belongs to.
pub proof fn lemma_settle_picked_other_bids(
    d: DbState,
    f: LockFilter,
    status: LockStatus,
    bid_status: BidStatus,
    now: i64,
    n: nat,
)
    requires
        n <= d.locks.len(),
    ensures
        ({
            let e = settle_picked(d, f, status, bid_status, now, n);
            forall|j: int|
                0 <= j < d.bids.len() && (forall|k: int|
                    0 <= k < n && f.picks(#[trigger] d.locks[k]) ==> d.locks[k].bid_id
                        != d.bids[j].id) ==> #[trigger] e.bids[j] == d.bids[j]
        }),
    decreases n,
{
    if n > 0 {
        lemma_settle_picked_other_bids(d, f, status, bid_status, now, (n - 1) as nat);
        lemma_settle_picked_locks(d, f, status, bid_status, now, (n - 1) as nat);
        lemma_settle_picked_keeps_ids(d, f, status, bid_status, now, (n - 1) as nat);
        let prev = settle_picked(d, f, status, bid_status, now, (n - 1) as nat);
        let e = settle_picked(d, f, status, bid_status, now, n);
        assert forall|j: int|
            0 <= j < d.bids.len() && (forall|k: int|
                0 <= k < n && f.picks(#[trigger] d.locks[k]) ==> d.locks[k].bid_id != d.bids[j].id)
                implies #[trigger] e.bids[j] == d.bids[j] by {
            assert(prev.bids[j] == d.bids[j]);
            if f.picks(d.locks[n - 1]) {
                assert(prev.locks[n - 1] == d.locks[n - 1]);
                assert(d.locks[n - 1].bid_id != d.bids[j].id);
            }
        }
    }
}

/// A settlement of the first `n` locks leaves alone every product that none of
/// the locks it picks holds.
pub proof fn lemma_settle_picked_other_products(
    d: DbState,
    f: LockFilter,
    status: LockStatus,
    bid_status: BidStatus,
    now: i64,
    n: nat,
)
    requires
        n <= d.locks.len(),
    ensures
        ({
            let e = settle_picked(d, f, status, bid_status, now, n);
            &&& e.products.len() == d.products.len()
            &&& forall|j: int|
                0 <= j < d.products.len() && (forall|k: int|
                    0 <= k < n && f.picks(#[trigger] d.locks[k]) ==> d.locks[k].product_id
                        != d.products[j].id) ==> #[trigger] e.products[j] == d.products[j]
        }),
    decreases n,
{
    if n > 0 {
        lemma_settle_picked_other_products(d, f, status, bid_status, now, (n - 1) as nat);
        lemma_settle_picked_locks(d, f, status, bid_status, now, (n - 1) as nat);
        let prev = settle_picked(d, f, status, bid_status, now, (n - 1) as nat);
        let e = settle_picked(d, f, status, bid_status, now, n);
        assert forall|j: int|
            0 <= j < d.products.len() && (forall|k: int|
                0 <= k < n && f.picks(#[trigger] d.locks[k]) ==> d.locks[k].product_id
                    != d.products[j].id) implies #[trigger] e.products[j] == d.products[j] by {
            assert(prev.products[j] == d.products[j]);
            if f.picks(d.locks[n - 1]) {
                assert(prev.locks[n - 1] == d.locks[n - 1]);
                assert(d.locks[n - 1].product_id != d.products[j].id);
            }
        }
    }
}

/// A settlement of picked locks keeps every bid without an active lock as it
/// was.
pub proof fn lemma_settle_picked_keeps_settled(
    d: DbState,
    f: LockFilter,
    status: LockStatus,
    bid_status: BidStatus,
    now: i64,
)
    requires
        d.keyed(),
        status != LockStatus::Active,
    ensures
        settled_bids_kept(d, settle_picked(d, f, status, bid_status, now, d.locks.len())),
{
    let n = d.locks.len();
    let e = settle_picked(d, f, status, bid_status, now, n);
    lemma_settle_picked_keyed(d, f, status, bid_status, now, n);
    lemma_settle_picked_keeps_ids(d, f, status, bid_status, now, n);
    lemma_settle_picked_locks(d, f, status, bid_status, now, n);
    lemma_settle_picked_other_bids(d, f, status, bid_status, now, n);
    assert forall|j: int|
        0 <= j < d.bids.len() && !d.bid_has_active_lock(d.bids[j].id) implies #[trigger] e.bids[j]
        == d.bids[j] by {
        assert forall|k: int| 0 <= k < n && f.picks(#[trigger] d.locks[k]) implies d.locks[k].bid_id
            != d.bids[j].id by {
            if d.locks[k].bid_id == d.bids[j].id {
                assert(d.bid_has_active_lock(d.bids[j].id));
            }
        }
    }
    lemma_settled_bids_kept_by(d, e);
}

/// Settling an active lock, and then giving its bid a status, keeps every
/// other bid without an active lock as it was.
pub proof fn lemma_settle_lock_keeps_settled(
    d: DbState,
    i: int,
    status: LockStatus,
    consume: bool,
    now: i64,
    mark: Option<BidStatus>,
)
    requires
        d.keyed(),
        0 <= i < d.locks.len(),
        d.locks[i].status == LockStatus::Active,
        status != LockStatus::Active,
    ensures
        ({
            let s = settle_lock(d, i, status, None, consume, now);
            let e = match mark {
                Some(bs) => DbState { bids: set_bid_status(s.bids, d.locks[i].bid_id, bs), ..s },
                None => s,
            };
            settled_bids_kept(d, e)
        }),
{
    let s = settle_lock(d, i, status, None, consume, now);
    let e = match mark {
        Some(bs) => DbState { bids: set_bid_status(s.bids, d.locks[i].bid_id, bs), ..s },
        None => s,
    };
    lemma_settle_lock_keyed(d, i, status, None, consume, now);
    assert forall|a: int, b: int| 0 <= a < b < e.bids.len() implies e.bids[a].id != e.bids[b].id by {
        assert(e.bids[a].id == d.bids[a].id);
        assert(e.bids[b].id == d.bids[b].id);
    }
    assert forall|j: int|
        0 <= j < d.bids.len() && !d.bid_has_active_lock(d.bids[j].id) implies #[trigger] e.bids[j]
        == d.bids[j] by {
        if d.locks[i].bid_id == d.bids[j].id {
            assert(d.bid_has_active_lock(d.bids[j].id));
        }
    }
    lemma_settled_bids_kept_by(d, e);
}

/// Locks are never removed and a settled lock never changes again: from `d`
/// to `e`, every lock stays as it was, unless it was active and has only
/// changed its status.
pub open spec fn lock_history_kept(d: DbState, e: DbState) -> bool {
    &&& d.locks.len() <= e.locks.len()
    &&& forall|k: int|
        0 <= k < d.locks.len() ==> #[trigger] e.locks[k] == d.locks[k] || (d.locks[k].status
            == LockStatus::Active && e.locks[k] == StockLock { status: e.locks[k].status, ..d.locks[k] })
}

pub proof fn lemma_lock_history_trans(a: DbState, b: DbState, c: DbState)
    requires
        lock_history_kept(a, b),
        lock_history_kept(b, c),
    ensures
        lock_history_kept(a, c),
{
    assert forall|k: int| 0 <= k < a.locks.len() implies #[trigger] c.locks[k] == a.locks[k] || (
    a.locks[k].status == LockStatus::Active && c.locks[k] == StockLock {
        status: c.locks[k].status,
        ..a.locks[k]
    }) by {
        assert(b.locks[k] == a.locks[k] || (a.locks[k].status == LockStatus::Active && b.locks[k]
            == StockLock { status: b.locks[k].status, ..a.locks[k] }));
        assert(c.locks[k] == b.locks[k] || (b.locks[k].status == LockStatus::Active && c.locks[k]
            == StockLock { status: c.locks[k].status, ..b.locks[k] }));
    }
}

/// A settlement of picked locks only changes the status of active locks.
pub proof fn lemma_settle_picked_history(
    d: DbState,
    f: LockFilter,
    status: LockStatus,
    bid_status: BidStatus,
    now: i64,
)
    ensures
        lock_history_kept(d, settle_picked(d, f, status, bid_status, now, d.locks.len())),
{
    lemma_settle_picked_locks(d, f, status, bid_status, now, d.locks.len());
}

/// Settling an active lock only changes its status.
pub proof fn lemma_settle_lock_history(
    d: DbState,
    i: int,
    status: LockStatus,
    bid_status: Option<BidStatus>,
    consume: bool,
    now: i64,
)
    requires
        0 <= i < d.locks.len(),
        d.locks[i].status == LockStatus::Active,
    ensures
        lock_history_kept(d, settle_lock(d, i, status, bid_status, consume, now)),
{
}

/// Each bid has at most one lock, every lock's bid is recorded, and a lock is
/// active only while its bid stands confirmed.
pub open spec fn bids_track_locks(d: DbState) -> bool {
    &&& forall|i: int, j: int| 0 <= i < j < d.locks.len() ==> d.locks[i].bid_id != d.locks[j].bid_id
    &&& forall|k: int| 0 <= k < d.locks.len() ==> d.has_bid(#[trigger] d.locks[k].bid_id)
    &&& forall|k: int|
        0 <= k < d.locks.len() && (#[trigger] d.locks[k]).status == LockStatus::Active
            ==> exists|j: int|
            0 <= j < d.bids.len() && d.bids[j].id == d.locks[k].bid_id && #[trigger] d.bids[j].status
                == BidStatus::Confirmed
}

/// Setting the status of bid `bid_id` keeps every lock's bid recorded and
/// leaves the bids of the other locks as they were.
pub proof fn lemma_set_bid_status_frame(d: DbState, e: DbState, bid_id: u128, status: BidStatus)
    requires
        bids_track_locks(d),
        e.locks == d.locks,
        e.bids == set_bid_status(d.bids, bid_id, status),
    ensures
        forall|k: int| 0 <= k < e.locks.len() ==> e.has_bid(#[trigger] e.locks[k].bid_id),
        forall|k: int|
            0 <= k < e.locks.len() && (#[trigger] e.locks[k]).status == LockStatus::Active
                && e.locks[k].bid_id != bid_id ==> exists|j: int|
                0 <= j < e.bids.len() && e.bids[j].id == e.locks[k].bid_id && #[trigger] e.bids[j].status
                    == BidStatus::Confirmed,
{
    assert forall|k: int| 0 <= k < e.locks.len() implies e.has_bid(#[trigger] e.locks[k].bid_id) by {
        let b = d.locks[k].bid_id;
        assert(d.has_bid(b));
        let j = choose|j: int| 0 <= j < d.bids.len() && d.bids[j].id == b;
        assert(e.bids[j].id == b);
    }
    assert forall|k: int|
        0 <= k < e.locks.len() && (#[trigger] e.locks[k]).status == LockStatus::Active
            && e.locks[k].bid_id != bid_id implies exists|j: int|
            0 <= j < e.bids.len() && e.bids[j].id == e.locks[k].bid_id && #[trigger] e.bids[j].status
                == BidStatus::Confirmed by {
        let j = choose|j: int|
            0 <= j < d.bids.len() && d.bids[j].id == d.locks[k].bid_id && #[trigger] d.bids[j].status
                == BidStatus::Confirmed;
        assert(e.bids[j] == d.bids[j]);
    }
}

/// Setting the status of bid `bid_id` keeps bids tracking locks when the new
/// status is confirmed or no active lock is held for that bid.
pub proof fn lemma_set_bid_status_tracks(d: DbState, e: DbState, bid_id: u128, status: BidStatus)
    requires
        bids_track_locks(d),
        e.locks == d.locks,
        e.bids == set_bid_status(d.bids, bid_id, status),
        status == BidStatus::Confirmed || forall|k: int|
            0 <= k < d.locks.len() && (#[trigger] d.locks[k]).status == LockStatus::Active
                ==> d.locks[k].bid_id != bid_id,
    ensures
        bids_track_locks(e),
{
    lemma_set_bid_status_frame(d, e, bid_id, status);
    assert forall|k: int|
        0 <= k < e.locks.len() && (#[trigger] e.locks[k]).status == LockStatus::Active
            implies exists|j: int|
            0 <= j < e.bids.len() && e.bids[j].id == e.locks[k].bid_id && #[trigger] e.bids[j].status
                == BidStatus::Confirmed by {
        if e.locks[k].bid_id == bid_id {
            assert(status == BidStatus::Confirmed);
            let j = choose|j: int|
                0 <= j < d.bids.len() && d.bids[j].id == d.locks[k].bid_id && #[trigger] d.bids[j].status
                    == BidStatus::Confirmed;
            assert(e.bids[j].status == BidStatus::Confirmed);
        }
    }
}

/// Settling an active lock keeps bids tracking locks.
pub proof fn lemma_settle_lock_tracks(
    d: DbState,
    i: int,
    status: LockStatus,
    bid_status: Option<BidStatus>,
    consume: bool,
    now: i64,
)
    requires
        bids_track_locks(d),
        0 <= i < d.locks.len(),
        d.locks[i].status == LockStatus::Active,
        status != LockStatus::Active,
    ensures
        bids_track_locks(settle_lock(d, i, status, bid_status, consume, now)),
{
    let e = settle_lock(d, i, status, bid_status, consume, now);
    let l = d.locks[i];
    assert forall|a: int, b: int| 0 <= a < b < e.locks.len() implies e.locks[a].bid_id
        != e.locks[b].bid_id by {
        assert(e.locks[a].bid_id == d.locks[a].bid_id);
        assert(e.locks[b].bid_id == d.locks[b].bid_id);
    }
    let mid = DbState { locks: d.locks, ..e };
    match bid_status {
        Some(bs) => {
            lemma_set_bid_status_frame(d, mid, l.bid_id, bs);
        },
        None => {
            assert(mid.bids == d.bids);
        },
    }
    assert forall|k: int| 0 <= k < e.locks.len() implies e.has_bid(#[trigger] e.locks[k].bid_id) by {
        assert(e.locks[k].bid_id == mid.locks[k].bid_id);
        assert(mid.has_bid(mid.locks[k].bid_id));
    }
    assert forall|k: int|
        0 <= k < e.locks.len() && (#[trigger] e.locks[k]).status == LockStatus::Active
            implies exists|j: int|
            0 <= j < e.bids.len() && e.bids[j].id == e.locks[k].bid_id && #[trigger] e.bids[j].status
                == BidStatus::Confirmed by {
        assert(k != i);
        assert(e.locks[k] == d.locks[k]);
        assert(d.locks[k].bid_id != l.bid_id) by {
            if k < i {
                assert(d.locks[k].bid_id != d.locks[i].bid_id);
            } else {
                assert(d.locks[i].bid_id != d.locks[k].bid_id);
            }
        }
        assert(mid.locks[k] == d.locks[k]);
        if bid_status is None {
            let j = choose|j: int|
                0 <= j < d.bids.len() && d.bids[j].id == d.locks[k].bid_id && #[trigger] d.bids[j].status
                    == BidStatus::Confirmed;
            assert(e.bids[j] == d.bids[j]);
        }
    }
}

/// Settling picked locks keeps bids tracking locks.
pub proof fn lemma_settle_picked_tracks(
    d: DbState,
    f: LockFilter,
    status: LockStatus,
    bid_status: BidStatus,
    now: i64,
    n: nat,
)
    requires
        bids_track_locks(d),
        n <= d.locks.len(),
        status != LockStatus::Active,
    ensures
        bids_track_locks(settle_picked(d, f, status, bid_status, now, n)),
    decreases n,
{
    if n > 0 {
        lemma_settle_picked_tracks(d, f, status, bid_status, now, (n - 1) as nat);
        lemma_settle_picked_locks(d, f, status, bid_status, now, (n - 1) as nat);
        let prev = settle_picked(d, f, status, bid_status, now, (n - 1) as nat);
        if f.picks(d.locks[n - 1]) {
            assert(prev.locks[n - 1] == d.locks[n - 1]);
            lemma_settle_lock_tracks(prev, n - 1, status, Some(bid_status), false, now);
        }
    }
}

/// Settling picked locks keeps the tables well formed.
pub proof fn lemma_settle_picked_wf(
    d: DbState,
    f: LockFilter,
    status: LockStatus,
    bid_status: BidStatus,
    now: i64,
    n: nat,
)
    requires
        d.wf(),
        n <= d.locks.len(),
        status != LockStatus::Active,
    ensures
        settle_picked(d, f, status, bid_status, now, n).wf(),
    decreases n,
{
    if n > 0 {
        lemma_settle_picked_wf(d, f, status, bid_status, now, (n - 1) as nat);
        lemma_settle_picked_locks(d, f, status, bid_status, now, (n - 1) as nat);
        let prev = settle_picked(d, f, status, bid_status, now, (n - 1) as nat);
        if f.picks(d.locks[n - 1]) {
            assert(prev.locks[n - 1] == d.locks[n - 1]);
            lemma_settle_lock_wf(prev, n - 1, status, Some(bid_status), false, now);
        }
    }
}

/// A product's identity, listing and auction terms, which stock movements
/// leave alone.
pub open spec fn same_listing(a: Product, b: Product) -> bool {
    &&& a.id == b.id
    &&& a.name == b.name
    &&& a.description == b.description
    &&& a.start_price == b.start_price
    &&& a.current_price == b.current_price
    &&& a.min_increment == b.min_increment
    &&& a.room_id == b.room_id
    &&& a.end_time == b.end_time
    &&& a.created_at == b.created_at
}

/// Settling locks keeps every identifier where it was and the listings as
/// they were.
pub proof fn lemma_settle_picked_keeps_ids(
    d: DbState,
    f: LockFilter,
    status: LockStatus,
    bid_status: BidStatus,
    now: i64,
    n: nat,
)
    requires
        n <= d.locks.len(),
    ensures
        ({
            let e = settle_picked(d, f, status, bid_status, now, n);
            &&& e.products.len() == d.products.len()
            &&& e.bids.len() == d.bids.len()
            &&& e.locks.len() == d.locks.len()
            &&& e.keys == d.keys
            &&& forall|k: int| 0 <= k < d.products.len() ==> same_listing(#[trigger] e.products[k], d.products[k])
                && e.products[k].total_stock == d.products[k].total_stock
            &&& forall|k: int| 0 <= k < d.bids.len() ==> (#[trigger] e.bids[k]).id == d.bids[k].id
            &&& forall|k: int| 0 <= k < d.locks.len() ==> (#[trigger] e.locks[k]).id == d.locks[k].id
        }),
    decreases n,
{
    if n > 0 {
        lemma_settle_picked_keeps_ids(d, f, status, bid_status, now, (n - 1) as nat);
        lemma_settle_picked_locks(d, f, status, bid_status, now, (n - 1) as nat);
        let prev = settle_picked(d, f, status, bid_status, now, (n - 1) as nat);
        let e = settle_picked(d, f, status, bid_status, now, n);
        if f.picks(d.locks[n - 1]) {
            assert forall|k: int| 0 <= k < d.products.len() implies same_listing(
                #[trigger] e.products[k],
                d.products[k],
            ) && e.products[k].total_stock == d.products[k].total_stock by {
                assert(same_listing(prev.products[k], d.products[k]));
            }
            assert forall|k: int| 0 <= k < d.bids.len() implies (#[trigger] e.bids[k]).id
                == d.bids[k].id by {
                assert(prev.bids[k].id == d.bids[k].id);
            }
            assert forall|k: int| 0 <= k < d.locks.len() implies (#[trigger] e.locks[k]).id
                == d.locks[k].id by {
                assert(prev.locks[k].id == d.locks[k].id);
            }
        }
    }
}

/// How many of `locks` are active.
pub open spec fn active_count(locks: Seq<StockLock>) -> nat
    decreases locks.len(),
{
    if locks.len() == 0 {
        0
    } else {
        active_count(locks.drop_last()) + if locks.last().status == LockStatus::Active {
            1nat
        } else {
            0nat
        }
    }
}

pub proof fn lemma_active_count_bound(locks: Seq<StockLock>)
    ensures
        active_count(locks) <= locks.len(),
    decreases locks.len(),
{
    if locks.len() > 0 {
        lemma_active_count_bound(locks.drop_last());
    }
}

/// A settlement of every lock deactivates exactly the locks it picks: the
/// active count falls by the number it reports.
pub proof fn lemma_settle_picked_active_count(
    d: DbState,
    f: LockFilter,
    status: LockStatus,
    bid_status: BidStatus,
    now: i64,
)
    requires
        status != LockStatus::Active,
    ensures
        active_count(settle_picked(d, f, status, bid_status, now, d.locks.len()).locks)
            + count_picked(d.locks, f, d.locks.len()) == active_count(d.locks),
{
    let n = d.locks.len();
    let e = settle_picked(d, f, status, bid_status, now, n);
    lemma_settle_picked_locks(d, f, status, bid_status, now, n);
    lemma_active_count_prefix(d.locks, e.locks, f, status, n);
    assert(d.locks.take(n as int) =~= d.locks);
    assert(e.locks.take(n as int) =~= e.locks);
}

proof fn lemma_active_count_prefix(
    a: Seq<StockLock>,
    b: Seq<StockLock>,
    f: LockFilter,
    status: LockStatus,
    m: nat,
)
    requires
        status != LockStatus::Active,
        a.len() == b.len(),
        m <= a.len(),
        forall|k: int|
            0 <= k < a.len() ==> #[trigger] b[k] == if f.picks(a[k]) {
                StockLock { status, ..a[k] }
            } else {
                a[k]
            },
    ensures
        active_count(b.take(m as int)) + count_picked(a, f, m) == active_count(a.take(m as int)),
    decreases m,
{
    if m > 0 {
        lemma_active_count_prefix(a, b, f, status, (m - 1) as nat);
        assert(a.take(m as int).drop_last() =~= a.take(m - 1));
        assert(b.take(m as int).drop_last() =~= b.take(m - 1));
        assert(b[m - 1] == b.take(m as int).last());
        assert(a[m - 1] == a.take(m as int).last());
    }
}

/// Settling, one after the other, each lock that `f` picks stays within
/// `i64` at every step.
pub open spec fn picked_fits(
    d: DbState,
    f: LockFilter,
    status: LockStatus,
    bid_status: BidStatus,
    now: i64,
) -> bool {
    forall|m: int|
        0 <= m < d.locks.len() && f.picks(#[trigger] d.locks[m]) ==> settle_fits(
            settle_picked(d, f, status, bid_status, now, m as nat),
            m,
            false,
        )
}

/// Settling picked locks keeps the tables keyed.
pub proof fn lemma_settle_picked_keyed(
    d: DbState,
    f: LockFilter,
    status: LockStatus,
    bid_status: BidStatus,
    now: i64,
    n: nat,
)
    requires
        d.keyed(),
        n <= d.locks.len(),
    ensures
        settle_picked(d, f, status, bid_status, now, n).keyed(),
    decreases n,
{
    if n > 0 {
        lemma_settle_picked_keyed(d, f, status, bid_status, now, (n - 1) as nat);
        lemma_settle_picked_keeps_ids(d, f, status, bid_status, now, (n - 1) as nat);
        let prev = settle_picked(d, f, status, bid_status, now, (n - 1) as nat);
        if f.picks(d.locks[n - 1]) {
            lemma_settle_lock_keyed(prev, n - 1, status, Some(bid_status), false, now);
        }
    }
}

/// In a well-formed state every settlement of picked locks stays within `i64`.
pub proof fn lemma_wf_picked_fits(
    d: DbState,
    f: LockFilter,
    status: LockStatus,
    bid_status: BidStatus,
    now: i64,
)
    requires
        d.wf(),
        status != LockStatus::Active,
    ensures
        picked_fits(d, f, status, bid_status, now),
{
    assert forall|m: int| 0 <= m < d.locks.len() && f.picks(#[trigger] d.locks[m]) implies settle_fits(
        settle_picked(d, f, status, bid_status, now, m as nat),
        m,
        false,
    ) by {
        lemma_settle_picked_wf(d, f, status, bid_status, now, m as nat);
        lemma_settle_picked_locks(d, f, status, bid_status, now, m as nat);
        lemma_wf_settle_fits(settle_picked(d, f, status, bid_status, now, m as nat), m, false);
    }
}

impl Database {
    /// Settles, in table order, every lock that `f` picks.
    fn settle_all(
        &mut self,
        f: &LockFilter,
        status: LockStatus,
        bid_status: BidStatus,
        now: i64,
    ) -> (count: usize)
        requires
            old(self)@.keyed(),
            status != LockStatus::Active,
            picked_fits(old(self)@, *f, status, bid_status, now),
        ensures
            final(self)@ == settle_picked(
                old(self)@,
                *f,
                status,
                bid_status,
                now,
                old(self)@.locks.len(),
            ),
            count == count_picked(old(self)@.locks, *f, old(self)@.locks.len()),
            final(self)@.keyed(),
            old(self)@.wf() ==> final(self)@.wf(),
    {
        let ghost d0 = self@;
        let n = self.locks.len();
        let mut count: usize = 0;
        let mut i: usize = 0;
        while i < n
            invariant
                n == d0.locks.len(),
                i <= n,
                count <= i,
                status != LockStatus::Active,
                self@ == settle_picked(d0, *f, status, bid_status, now, i as nat),
                count == count_picked(d0.locks, *f, i as nat),
                self@.keyed(),
                picked_fits(d0, *f, status, bid_status, now),
                d0.wf() ==> self@.wf(),
            decreases n - i,
        {
            proof {
                lemma_settle_picked_locks(d0, *f, status, bid_status, now, i as nat);
                assert(self@.locks[i as int] == d0.locks[i as int]);
            }
            if f.picks_lock(&self.locks[i]) {
                self.settle_at(i, status, Some(bid_status), false, now);
                count = count + 1;
            }
            i = i + 1;
        }
        count
    }
}

/// Expires, at `now`, every active lock that lapsed before `now`: its stock
/// becomes available again and its bid expires. Answers how many there were.
pub fn expire_old_locks_at(db: &mut Database, now: i64) -> (count: usize)
    requires
        old(db)@.keyed(),
        picked_fits(old(db)@, LockFilter::ExpiredBefore(now), LockStatus::Expired, BidStatus::Expired, now),
    ensures
        final(db)@ == settle_picked(
            old(db)@,
            LockFilter::ExpiredBefore(now),
            LockStatus::Expired,
            BidStatus::Expired,
            now,
            old(db)@.locks.len(),
        ),
        count == count_picked(old(db)@.locks, LockFilter::ExpiredBefore(now), old(db)@.locks.len()),
        final(db)@.keyed(),
        old(db)@.wf() ==> final(db)@.wf(),
        forall|k: int|
            0 <= k < final(db)@.locks.len() && (#[trigger] final(db)@.locks[k]).status
                == LockStatus::Active ==> final(db)@.locks[k].expires_at >= now,
{
    let count = db.settle_all(
        &LockFilter::ExpiredBefore(now),
        LockStatus::Expired,
        BidStatus::Expired,
        now,
    );
    proof {
        lemma_settle_picked_locks(
            old(db)@,
            LockFilter::ExpiredBefore(now),
            LockStatus::Expired,
            BidStatus::Expired,
            now,
            old(db)@.locks.len(),
        );
    }
    count
}

/// Releases, at `now`, every active lock that `user_id` holds on product
/// `product_id`: its stock becomes available again and its bid is cancelled.
/// Answers how many there were.
pub fn release_user_active_locks_at(
    db: &mut Database,
    product_id: u128,
    user_id: &String,
    now: i64,
) -> (count: usize)
    requires
        old(db)@.keyed(),
        picked_fits(old(db)@, LockFilter::HeldBy(product_id, *user_id), LockStatus::Released, BidStatus::Cancelled, now),
    ensures
        final(db)@ == settle_picked(
            old(db)@,
            LockFilter::HeldBy(product_id, *user_id),
            LockStatus::Released,
            BidStatus::Cancelled,
            now,
            old(db)@.locks.len(),
        ),
        count == count_picked(
            old(db)@.locks,
            LockFilter::HeldBy(product_id, *user_id),
            old(db)@.locks.len(),
        ),
        final(db)@.keyed(),
        old(db)@.wf() ==> final(db)@.wf(),
        forall|k: int|
            0 <= k < final(db)@.locks.len() && (#[trigger] final(db)@.locks[k]).status
                == LockStatus::Active ==> !(final(db)@.locks[k].product_id == product_id
                && final(db)@.locks[k].user_id@ == user_id@),
{
    let f = LockFilter::HeldBy(product_id, user_id.clone());
    let count = db.settle_all(&f, LockStatus::Released, BidStatus::Cancelled, now);
    proof {
        lemma_settle_picked_locks(
            old(db)@,
            f,
            LockStatus::Released,
            BidStatus::Cancelled,
            now,
            old(db)@.locks.len(),
        );
    }
    count
}

/// Releases, at `now`, every active lock on product `product_id`: its stock
/// becomes available again and its bid is cancelled. Answers how many there were.
pub fn release_all_active_locks_for_product_at(
    db: &mut Database,
    product_id: u128,
    now: i64,
) -> (count: usize)
    requires
        old(db)@.keyed(),
        picked_fits(old(db)@, LockFilter::OnProduct(product_id), LockStatus::Released, BidStatus::Cancelled, now),
    ensures
        final(db)@ == settle_picked(
            old(db)@,
            LockFilter::OnProduct(product_id),
            LockStatus::Released,
            BidStatus::Cancelled,
            now,
            old(db)@.locks.len(),
        ),
        count == count_picked(old(db)@.locks, LockFilter::OnProduct(product_id), old(db)@.locks.len()),
        final(db)@.keyed(),
        old(db)@.wf() ==> final(db)@.wf(),
        forall|k: int|
            0 <= k < final(db)@.locks.len() && (#[trigger] final(db)@.locks[k]).status
                == LockStatus::Active ==> final(db)@.locks[k].product_id != product_id,
{
    let count = db.settle_all(
        &LockFilter::OnProduct(product_id),
        LockStatus::Released,
        BidStatus::Cancelled,
        now,
    );
    proof {
        lemma_settle_picked_locks(
            old(db)@,
            LockFilter::OnProduct(product_id),
            LockStatus::Released,
            BidStatus::Cancelled,
            now,
            old(db)@.locks.len(),
        );
    }
    count
}

// ---------------------------------------------------------------------------
// Idempotency keys

/// The bid that `key` stands for at `now`: that of its record, while the
/// record has not expired.
pub open spec fn key_result(keys: Seq<IdempotencyRecord>, key: Seq<char>, now: i64) -> Option<u128> {
    if exists|i: int| 0 <= i < keys.len() && keys[i].key@ == key && keys[i].expires_at > now {
        Some(
            keys[choose|i: int|
                0 <= i < keys.len() && keys[i].key@ == key && keys[i].expires_at > now].bid_id,
        )
    } else {
        None
    }
}

/// Where no key occurs twice, a record that has not expired by `now` is what
/// its key answers at `now`.
pub proof fn lemma_key_result_at(keys: Seq<IdempotencyRecord>, k: int, now: i64)
    requires
        forall|i: int, j: int| 0 <= i < j < keys.len() ==> keys[i].key@ != keys[j].key@,
        0 <= k < keys.len(),
        keys[k].expires_at > now,
    ensures
        key_result(keys, keys[k].key@, now) == Some(keys[k].bid_id),
{
    let key = keys[k].key@;
    let c = choose|c: int| 0 <= c < keys.len() && keys[c].key@ == key && keys[c].expires_at > now;
    if c < k {
        assert(keys[c].key@ != keys[k].key@);
    } else if c > k {
        assert(keys[k].key@ != keys[c].key@);
    }
}

/// No key occurs twice among `keys`.
pub open spec fn keys_distinct(keys: Seq<IdempotencyRecord>) -> bool {
    forall|i: int, j: int| 0 <= i < j < keys.len() ==> keys[i].key@ != keys[j].key@
}

/// Every key that stands for a bid in `d` at an instant no earlier than `now`
/// stands for the same bid in `e` at that instant.
pub open spec fn live_keys_kept(d: Seq<IdempotencyRecord>, e: Seq<IdempotencyRecord>, now: i64) -> bool {
    forall|key: Seq<char>, t: i64|
        now <= t && (#[trigger] key_result(d, key, t)) is Some ==> key_result(e, key, t)
            == key_result(d, key, t)
}

/// Every key other than `key` that stands for a bid in `d` at some instant
/// stands for the same bid in `e` at that instant.
pub open spec fn other_keys_kept(
    d: Seq<IdempotencyRecord>,
    e: Seq<IdempotencyRecord>,
    key: Seq<char>,
) -> bool {
    forall|k: Seq<char>, t: i64|
        k != key && (#[trigger] key_result(d, k, t)) is Some ==> key_result(e, k, t) == key_result(
            d,
            k,
            t,
        )
}

/// A record that answers for its key at `t` answers the same wherever it is
/// kept among distinct keys.
proof fn lemma_key_result_moved(a: Seq<IdempotencyRecord>, b: Seq<IdempotencyRecord>, i: int, t: i64)
    requires
        keys_distinct(a),
        keys_distinct(b),
        0 <= i < a.len(),
        a[i].expires_at > t,
        b.contains(a[i]),
    ensures
        key_result(b, a[i].key@, t) == key_result(a, a[i].key@, t),
        key_result(a, a[i].key@, t) == Some(a[i].bid_id),
{
    lemma_key_result_at(a, i, t);
    let j = choose|j: int| 0 <= j < b.len() && b[j] == a[i];
    lemma_key_result_at(b, j, t);
}

/// Deleting the records that expired before `now` keeps every answer at `now`
/// and later.
pub proof fn lemma_cleanup_keeps_live_keys(keys: Seq<IdempotencyRecord>, now: i64)
    requires
        keys_distinct(keys),
        keys_distinct(keys.filter(KeyFilter::LiveAt(now).pred())),
    ensures
        live_keys_kept(keys, keys.filter(KeyFilter::LiveAt(now).pred()), now),
{
    let pred = KeyFilter::LiveAt(now).pred();
    assert forall|key: Seq<char>, t: i64|
        now <= t && (#[trigger] key_result(keys, key, t)) is Some implies key_result(
        keys.filter(pred),
        key,
        t,
    ) == key_result(keys, key, t) by {
        let i = choose|i: int| 0 <= i < keys.len() && keys[i].key@ == key && keys[i].expires_at > t;
        keys.lemma_filter_contains(pred, i);
        lemma_key_result_moved(keys, keys.filter(pred), i, t);
    }
}

/// Recording key `k` anew, where it stands for no bid at `now`, keeps every
/// answer at `now` and later.
pub proof fn lemma_replace_keeps_live_keys(
    keys: Seq<IdempotencyRecord>,
    k: String,
    rec: IdempotencyRecord,
    now: i64,
)
    requires
        keys_distinct(keys),
        keys_distinct(keys.filter(KeyFilter::AllBut(k).pred()).push(rec)),
        key_result(keys, k@, now) is None,
    ensures
        live_keys_kept(keys, keys.filter(KeyFilter::AllBut(k).pred()).push(rec), now),
{
    let pred = KeyFilter::AllBut(k).pred();
    let kept = keys.filter(pred);
    let b = kept.push(rec);
    assert forall|key: Seq<char>, t: i64|
        now <= t && (#[trigger] key_result(keys, key, t)) is Some implies key_result(b, key, t)
        == key_result(keys, key, t) by {
        let i = choose|i: int| 0 <= i < keys.len() && keys[i].key@ == key && keys[i].expires_at > t;
        if key == k@ {
            assert(keys[i].expires_at > now);
        }
        keys.lemma_filter_contains(pred, i);
        let j = choose|j: int| 0 <= j < kept.len() && kept[j] == keys[i];
        assert(b[j] == keys[i]);
        lemma_key_result_moved(keys, b, i, t);
    }
}

/// Recording key `k` anew keeps what every other key answers.
pub proof fn lemma_set_keeps_other_keys(keys: Seq<IdempotencyRecord>, k: String, rec: IdempotencyRecord)
    requires
        keys_distinct(keys),
        keys_distinct(keys.filter(KeyFilter::AllBut(k).pred()).push(rec)),
    ensures
        other_keys_kept(keys, keys.filter(KeyFilter::AllBut(k).pred()).push(rec), k@),
{
    let pred = KeyFilter::AllBut(k).pred();
    let kept = keys.filter(pred);
    let b = kept.push(rec);
    assert forall|key: Seq<char>, t: i64|
        key != k@ && (#[trigger] key_result(keys, key, t)) is Some implies key_result(b, key, t)
        == key_result(keys, key, t) by {
        let i = choose|i: int| 0 <= i < keys.len() && keys[i].key@ == key && keys[i].expires_at > t;
        keys.lemma_filter_contains(pred, i);
        let j = choose|j: int| 0 <= j < kept.len() && kept[j] == keys[i];
        assert(b[j] == keys[i]);
        lemma_key_result_moved(keys, b, i, t);
    }
}

/// What key `key` stands for in `d` at `now` and later, it stands for in `e`.
pub open spec fn key_kept(
    d: Seq<IdempotencyRecord>,
    e: Seq<IdempotencyRecord>,
    key: Seq<char>,
    now: i64,
) -> bool {
    forall|t: i64|
        now <= t && (#[trigger] key_result(d, key, t)) is Some ==> key_result(e, key, t)
            == key_result(d, key, t)
}

/// Every record of `e` under key `key` was already a record of `d`: no new
/// one was made for that key.
pub open spec fn no_new_record(
    d: Seq<IdempotencyRecord>,
    e: Seq<IdempotencyRecord>,
    key: Seq<char>,
) -> bool {
    forall|j: int| 0 <= j < e.len() && (#[trigger] e[j]).key@ == key ==> d.contains(e[j])
}

/// A step that keeps every live key, or every key but another one, keeps the
/// answers of `key`; steps that keep them compose.
pub proof fn lemma_key_kept_by(
    a: Seq<IdempotencyRecord>,
    b: Seq<IdempotencyRecord>,
    c: Seq<IdempotencyRecord>,
    key: Seq<char>,
    n: i64,
)
    ensures
        live_keys_kept(a, b, n) ==> key_kept(a, b, key, n),
        forall|other: Seq<char>| other != key && #[trigger] other_keys_kept(a, b, other) ==> key_kept(a, b, key, n),
        key_kept(a, b, key, n) && key_kept(b, c, key, n) ==> key_kept(a, c, key, n),
{
    if key_kept(a, b, key, n) && key_kept(b, c, key, n) {
        assert forall|t: i64| n <= t && (#[trigger] key_result(a, key, t)) is Some implies key_result(
            c,
            key,
            t,
        ) == key_result(a, key, t) by {
            assert(key_result(b, key, t) == key_result(a, key, t));
        }
    }
}

/// Deleting records makes none; recording another key makes none for `key`;
/// and steps that make none compose.
pub proof fn lemma_no_new_record_by(
    keys: Seq<IdempotencyRecord>,
    now: i64,
    k: String,
    rec: IdempotencyRecord,
    key: Seq<char>,
)
    ensures
        no_new_record(keys, keys.filter(KeyFilter::LiveAt(now).pred()), key),
        rec.key@ == k@ && k@ != key ==> no_new_record(
            keys,
            keys.filter(KeyFilter::AllBut(k).pred()).push(rec),
            key,
        ),
{
    let live = keys.filter(KeyFilter::LiveAt(now).pred());
    assert forall|j: int| 0 <= j < live.len() && (#[trigger] live[j]).key@ == key implies keys.contains(
        live[j],
    ) by {
        keys.lemma_filter_contains_rev(KeyFilter::LiveAt(now).pred(), live[j]);
    }
    let kept = keys.filter(KeyFilter::AllBut(k).pred());
    let b = kept.push(rec);
    if rec.key@ == k@ && k@ != key {
        assert forall|j: int| 0 <= j < b.len() && (#[trigger] b[j]).key@ == key implies keys.contains(
            b[j],
        ) by {
            assert(b[j] == kept[j]);
            keys.lemma_filter_contains_rev(KeyFilter::AllBut(k).pred(), kept[j]);
        }
    }
}

pub proof fn lemma_no_new_record_trans(
    a: Seq<IdempotencyRecord>,
    b: Seq<IdempotencyRecord>,
    c: Seq<IdempotencyRecord>,
    key: Seq<char>,
)
    requires
        no_new_record(a, b, key),
        no_new_record(b, c, key),
    ensures
        no_new_record(a, c, key),
{
    assert forall|j: int| 0 <= j < c.len() && (#[trigger] c[j]).key@ == key implies a.contains(c[j]) by {
        let i = choose|i: int| 0 <= i < b.len() && b[i] == c[j];
        assert(b[i].key@ == key);
    }
}

/// Answers kept from `a` to `b` from `n1` on, and from `b` to `c` from `n2`
/// on, are kept from `a` to `c` from any instant after both.
pub proof fn lemma_live_keys_kept_trans(
    a: Seq<IdempotencyRecord>,
    b: Seq<IdempotencyRecord>,
    c: Seq<IdempotencyRecord>,
    n1: i64,
    n2: i64,
    n: i64,
)
    requires
        live_keys_kept(a, b, n1),
        live_keys_kept(b, c, n2),
        n1 <= n,
        n2 <= n,
    ensures
        live_keys_kept(a, c, n),
{
    assert forall|key: Seq<char>, t: i64|
        n <= t && (#[trigger] key_result(a, key, t)) is Some implies key_result(c, key, t)
        == key_result(a, key, t) by {
        assert(key_result(b, key, t) == key_result(a, key, t));
    }
}

/// Which idempotency records a clean-up keeps.
#[derive(Clone, Debug, PartialEq, Eq)]
pub enum KeyFilter {
    /// All but the record of this key.
    AllBut(String),
    /// Those that did not expire before this instant.
    LiveAt(i64),
}

impl KeyFilter {
    pub open spec fn keeps(self, r: IdempotencyRecord) -> bool {
        match self {
            KeyFilter::AllBut(key) => r.key@ != key@,
            KeyFilter::LiveAt(now) => !(r.expires_at < now),
        }
    }

    pub open spec fn pred(self) -> spec_fn(IdempotencyRecord) -> bool {
        |r: IdempotencyRecord| self.keeps(r)
    }

    fn keeps_record(&self, r: &IdempotencyRecord) -> (b: bool)
        ensures
            b == self.keeps(*r),
    {
        match self {
            KeyFilter::AllBut(key) => !(r.key == *key),
            KeyFilter::LiveAt(now) => !(r.expires_at < *now),
        }
    }
}

impl IdempotencyRecord {
    /// A field-by-field copy.
    pub fn copied(&self) -> (r: IdempotencyRecord)
        ensures
            r == *self,
    {
        IdempotencyRecord {
            key: self.key.clone(),
            bid_id: self.bid_id,
            created_at: self.created_at,
            expires_at: self.expires_at,
        }
    }
}

impl Database {
    /// Keeps the idempotency records that `f` keeps; answers how many went.
    fn retain_keys(&mut self, f: &KeyFilter) -> (removed: usize)
        requires
            old(self)@.keyed(),
        ensures
            final(self)@ == (DbState { keys: old(self)@.keys.filter(f.pred()), ..old(self)@ }),
            removed == old(self)@.keys.len() - final(self)@.keys.len(),
            final(self)@.keyed(),
            old(self)@.wf() ==> final(self)@.wf(),
    {
        let ghost d0 = self@;
        let ghost keys = d0.keys;
        let n = self.idempotency_keys.len();
        let mut kept: Vec<IdempotencyRecord> = Vec::new();
        let mut i: usize = 0;
        while i < n
            invariant
                n == keys.len(),
                i <= n,
                self@ == d0,
                self.idempotency_keys@ == keys,
                d0.keyed(),
                kept@ == keys.take(i as int).filter(f.pred()),
                kept@.len() <= i,
                forall|m: int| #![trigger kept@[m]] 0 <= m < kept@.len() ==> exists|j: int| #![trigger keys[j]] 0 <= j < i && keys[j] == kept@[m],
                forall|a: int, b: int| 0 <= a < b < kept@.len() ==> kept@[a].key@ != kept@[b].key@,
            decreases n - i,
        {
            let r = &self.idempotency_keys[i];
            proof {
                assert(keys.take(i + 1) =~= keys.take(i as int).push(keys[i as int]));
                keys.take(i as int).lemma_filter_push(keys[i as int], f.pred());
                keys.take(i as int).filter(f.pred()).lemma_filter_len(f.pred());
                keys.take(i as int).lemma_filter_len(f.pred());
            }
            if f.keeps_record(r) {
                let ghost before = kept@;
                kept.push(r.copied());
                proof {
                    assert forall|a: int, b: int| 0 <= a < b < kept@.len() implies kept@[a].key@
                        != kept@[b].key@ by {
                        if b == before.len() {
                            assert(before[a] == kept@[a]);
                            assert(exists|j: int| #![trigger keys[j]] 0 <= j < i && keys[j] == before[a]);
                            let j = choose|j: int| #![trigger keys[j]] 0 <= j < i && keys[j] == before[a];
                            assert(d0.keys[j].key@ != d0.keys[i as int].key@);
                            assert(kept@[b] == keys[i as int]);
                        } else {
                            assert(kept@[a] == before[a]);
                            assert(kept@[b] == before[b]);
                        }
                    }
                    assert forall|m: int| #![trigger kept@[m]] 0 <= m < kept@.len() implies exists|j: int|
                        #![trigger keys[j]] 0 <= j < i + 1 && keys[j] == kept@[m] by {
                        if m == before.len() {
                            assert(keys[i as int] == kept@[m]);
                        } else {
                            assert(kept@[m] == before[m]);
                            let j = choose|j: int| 0 <= j < i && #[trigger] keys[j] == before[m];
                            assert(keys[j] == kept@[m]);
                        }
                    }
                }
            }
            i = i + 1;
        }
        proof {
            assert(keys.take(n as int) =~= keys);
        }
        let removed = n - kept.len();
        self.idempotency_keys = kept;
        removed
    }
}

/// The bid that idempotency key `key` stands for at `now`, if it stands for one.
pub fn get_idempotency_result_at(db: &Database, key: &str, now: i64) -> (r: Option<u128>)
    requires
        db@.keyed(),
    ensures
        r == key_result(db@.keys, key@, now),
{
    let keys = &db.idempotency_keys;
    let mut i: usize = 0;
    while i < keys.len()
        invariant
            i <= keys@.len(),
            keys@ == db@.keys,
            db@.keyed(),
            forall|k: int| 0 <= k < i ==> !(keys@[k].key@ == key@ && keys@[k].expires_at > now),
        decreases keys@.len() - i,
    {
        if str_eq(keys[i].key.as_str(), key) && keys[i].expires_at > now {
            proof {
                lemma_key_result_at(db@.keys, i as int, now);
            }
            return Some(keys[i].bid_id);
        }
        i = i + 1;
    }
    None
}

/// The record that idempotency key `key` makes at `now` for bid `bid_id`.
pub open spec fn new_key_record(key: String, bid_id: u128, now: i64) -> IdempotencyRecord {
    IdempotencyRecord {
        key,
        bid_id,
        created_at: now,
        expires_at: (now + IDEMPOTENCY_TTL_MILLIS) as i64,
    }
}

/// Records, at `now`, that idempotency key `key` stands for bid `bid_id`,
/// replacing what it stood for before.
pub fn set_idempotency_result_at(db: &mut Database, key: &String, bid_id: u128, now: i64)
    requires
        old(db)@.keyed(),
        -TIME_BOUND <= now <= TIME_BOUND,
    ensures
        final(db)@ == (DbState {
            keys: old(db)@.keys.filter(KeyFilter::AllBut(*key).pred()).push(
                new_key_record(*key, bid_id, now),
            ),
            ..old(db)@
        }),
        final(db)@.keyed(),
        old(db)@.wf() ==> final(db)@.wf(),
        other_keys_kept(old(db)@.keys, final(db)@.keys, key@),
{
    let f = KeyFilter::AllBut(key.clone());
    let ghost d0 = db@;
    db.retain_keys(&f);
    let ghost d1 = db@;
    let record = IdempotencyRecord {
        key: key.clone(),
        bid_id,
        created_at: now,
        expires_at: now + IDEMPOTENCY_TTL_MILLIS,
    };
    db.idempotency_keys.push(record);
    proof {
        let d2 = db@;
        assert forall|a: int, b: int| 0 <= a < b < d2.keys.len() implies d2.keys[a].key@
            != d2.keys[b].key@ by {
            assert(d2.keys[a] == d1.keys[a]);
            if b == d1.keys.len() {
                d0.keys.lemma_filter_pred(f.pred(), a);
            } else {
                assert(d2.keys[b] == d1.keys[b]);
            }
        }
        lemma_set_keeps_other_keys(d0.keys, *key, new_key_record(*key, bid_id, now));
    }
}

/// Deletes the idempotency records that expired before `now`; answers how many.
pub fn cleanup_expired_idempotency_keys_at(db: &mut Database, now: i64) -> (count: usize)
    requires
        old(db)@.keyed(),
    ensures
        final(db)@ == (DbState { keys: old(db)@.keys.filter(KeyFilter::LiveAt(now).pred()), ..old(db)@ }),
        count == old(db)@.keys.len() - final(db)@.keys.len(),
        final(db)@.keyed(),
        old(db)@.wf() ==> final(db)@.wf(),
        live_keys_kept(old(db)@.keys, final(db)@.keys, now),
{
    let ghost d0 = db@;
    let count = db.retain_keys(&KeyFilter::LiveAt(now));
    proof {
        lemma_cleanup_keeps_live_keys(d0.keys, now);
    }
    count
}

// ---------------------------------------------------------------------------
// Listings

/// Products by creation, newest first.
pub open spec fn newest_products_first(s: Seq<Product>) -> bool {
    forall|i: int, j: int| 0 <= i < j < s.len() ==> s[i].created_at >= s[j].created_at
}

/// Locks by when they were taken, newest first.
pub open spec fn newest_locks_first(s: Seq<StockLock>) -> bool {
    forall|i: int, j: int| 0 <= i < j < s.len() ==> s[i].locked_at >= s[j].locked_at
}

/// Puts `p` into `out` after every product created no earlier than it.
fn insert_newest_first_product(out: &mut Vec<Product>, p: Product)
    requires
        newest_products_first(old(out)@),
    ensures
        newest_products_first(final(out)@),
        final(out)@.to_multiset() == old(out)@.to_multiset().insert(p),
{
    let mut pos: usize = 0;
    while pos < out.len() && out[pos].created_at >= p.created_at
        invariant
            pos <= out@.len(),
            forall|k: int| 0 <= k < pos ==> out@[k].created_at >= p.created_at,
        decreases out@.len() - pos,
    {
        pos = pos + 1;
    }
    let ghost before = out@;
    out.insert(pos, p);
    proof {
        vstd::seq_lib::to_multiset_insert(before, pos as int, p);
        assert forall|i: int, j: int| 0 <= i < j < out@.len() implies out@[i].created_at
            >= out@[j].created_at by {
            if j < pos {
            } else if j == pos {
            } else if i < pos {
                assert(out@[j] == before[j - 1]);
            } else if i == pos {
                assert(before[pos as int].created_at < p.created_at);
                assert(out@[j] == before[j - 1]);
            } else {
                assert(out@[i] == before[i - 1]);
                assert(out@[j] == before[j - 1]);
            }
        }
    }
}

/// Puts `l` into `out` after every lock taken no earlier than it.
fn insert_newest_first_lock(out: &mut Vec<StockLock>, l: StockLock)
    requires
        newest_locks_first(old(out)@),
    ensures
        newest_locks_first(final(out)@),
        final(out)@.to_multiset() == old(out)@.to_multiset().insert(l),
{
    let mut pos: usize = 0;
    while pos < out.len() && out[pos].locked_at >= l.locked_at
        invariant
            pos <= out@.len(),
            forall|k: int| 0 <= k < pos ==> out@[k].locked_at >= l.locked_at,
        decreases out@.len() - pos,
    {
        pos = pos + 1;
    }
    let ghost before = out@;
    out.insert(pos, l);
    proof {
        vstd::seq_lib::to_multiset_insert(before, pos as int, l);
        assert forall|i: int, j: int| 0 <= i < j < out@.len() implies out@[i].locked_at
            >= out@[j].locked_at by {
            if j < pos {
            } else if j == pos {
            } else if i < pos {
                assert(out@[j] == before[j - 1]);
            } else if i == pos {
                assert(before[pos as int].locked_at < l.locked_at);
                assert(out@[j] == before[j - 1]);
            } else {
                assert(out@[i] == before[i - 1]);
                assert(out@[j] == before[j - 1]);
            }
        }
    }
}

pub open spec fn in_room(room_id: Seq<char>) -> spec_fn(Product) -> bool {
    |p: Product| p.room_id@ == room_id
}

/// The products of room `room_id`, newest first.
pub fn get_products_by_room(db: &Database, room_id: &str) -> (r: Vec<Product>)
    ensures
        newest_products_first(r@),
        r@.to_multiset() == db@.products.filter(in_room(room_id@)).to_multiset(),
{
    let ghost ps = db@.products;
    let ghost pred = in_room(room_id@);
    let mut out: Vec<Product> = Vec::new();
    let n = db.products.len();
    let mut i: usize = 0;
    proof {
        ps.take(0).lemma_filter_len(pred);
        assert(ps.take(0).filter(pred) =~= out@);
    }
    while i < n
        invariant
            n == ps.len(),
            db.products@ == ps,
            i <= n,
            pred == in_room(room_id@),
            newest_products_first(out@),
            out@.to_multiset() == ps.take(i as int).filter(pred).to_multiset(),
        decreases n - i,
    {
        proof {
            assert(ps.take(i + 1) =~= ps.take(i as int).push(ps[i as int]));
            ps.take(i as int).lemma_filter_push(ps[i as int], pred);
        }
        if str_eq(db.products[i].room_id.as_str(), room_id) {
            let p = db.products[i].copied();
            insert_newest_first_product(&mut out, p);
            proof {
                vstd::seq_lib::to_multiset_build(ps.take(i as int).filter(pred), p);
            }
        }
        i = i + 1;
    }
    proof {
        assert(ps.take(n as int) =~= ps);
    }
    out
}

/// Locks on product `product_id` and, where `user_id` names a user, held by
/// that user and active.
pub open spec fn lock_query(product_id: u128, user_id: Option<Seq<char>>) -> spec_fn(StockLock) -> bool {
    |l: StockLock|
        l.product_id == product_id && match user_id {
            None => true,
            Some(u) => l.user_id@ == u && l.status == LockStatus::Active,
        }
}

fn collect_locks(db: &Database, product_id: u128, user_id: Option<&str>) -> (r: Vec<StockLock>)
    ensures
        newest_locks_first(r@),
        r@.to_multiset() == db@.locks.filter(
            lock_query(
                product_id,
                match user_id {
                    None => None,
                    Some(u) => Some(u@),
                },
            ),
        ).to_multiset(),
{
    let ghost ls = db@.locks;
    let ghost user = match user_id {
        None => None,
        Some(u) => Some(u@),
    };
    let ghost pred = lock_query(product_id, user);
    let mut out: Vec<StockLock> = Vec::new();
    let n = db.locks.len();
    let mut i: usize = 0;
    proof {
        ls.take(0).lemma_filter_len(pred);
        assert(ls.take(0).filter(pred) =~= out@);
    }
    while i < n
        invariant
            n == ls.len(),
            db.locks@ == ls,
            i <= n,
            pred == lock_query(product_id, user),
            user == match user_id {
                None => None,
                Some(u) => Some(u@),
            },
            newest_locks_first(out@),
            out@.to_multiset() == ls.take(i as int).filter(pred).to_multiset(),
        decreases n - i,
    {
        proof {
            assert(ls.take(i + 1) =~= ls.take(i as int).push(ls[i as int]));
            ls.take(i as int).lemma_filter_push(ls[i as int], pred);
        }
        let l = &db.locks[i];
        let wanted = l.product_id == product_id && match user_id {
            None => true,
            Some(u) => str_eq(l.user_id.as_str(), u) && l.status == LockStatus::Active,
        };
        if wanted {
            let c = l.copied();
            insert_newest_first_lock(&mut out, c);
            proof {
                vstd::seq_lib::to_multiset_build(ls.take(i as int).filter(pred), c);
            }
        }
        i = i + 1;
    }
    proof {
        assert(ls.take(n as int) =~= ls);
    }
    out
}

/// All locks on product `product_id`, newest first.
pub fn get_product_locks(db: &Database, product_id: u128) -> (r: Vec<StockLock>)
    ensures
        newest_locks_first(r@),
        r@.to_multiset() == db@.locks.filter(lock_query(product_id, None)).to_multiset(),
{
    collect_locks(db, product_id, None)
}

/// The active locks that `user_id` holds on product `product_id`, newest first.
pub fn get_active_locks_by_user_and_product(db: &Database, product_id: u128, user_id: &str) -> (r:
    Vec<StockLock>)
    ensures
        newest_locks_first(r@),
        r@.to_multiset() == db@.locks.filter(lock_query(product_id, Some(user_id@))).to_multiset(),
{
    collect_locks(db, product_id, Some(user_id))
}

/// A product whose auction has ended at `now` while some lock on it is still active.
pub open spec fn ended_with_active_locks(locks: Seq<StockLock>, now: i64) -> spec_fn(Product) -> bool {
    |p: Product|
        p.status_at(now) == AuctionStatus::Ended && exists|j: int|
            0 <= j < locks.len() && locks[j].status == LockStatus::Active && #[trigger] locks[j].product_id
                == p.id
}

impl Database {
    /// Whether some active lock holds product `pid`.
    fn holds_active_lock_on(&self, pid: u128) -> (r: bool)
        ensures
            r == exists|j: int|
                0 <= j < self@.locks.len() && self@.locks[j].status == LockStatus::Active
                    && #[trigger] self@.locks[j].product_id == pid,
    {
        let mut j: usize = 0;
        while j < self.locks.len()
            invariant
                j <= self@.locks.len(),
                forall|m: int|
                    0 <= m < j ==> !(self@.locks[m].status == LockStatus::Active
                        && #[trigger] self@.locks[m].product_id == pid),
            decreases self@.locks.len() - j,
        {
            if self.locks[j].status == LockStatus::Active && self.locks[j].product_id == pid {
                return true;
            }
            j = j + 1;
        }
        false
    }
}

/// The products whose auction has ended at `now` while locks on them are
/// still active, in table order.
pub fn get_ended_auctions_with_active_locks_at(db: &Database, now: i64) -> (r: Vec<Product>)
    ensures
        r@ == db@.products.filter(ended_with_active_locks(db@.locks, now)),
{
    let ghost ps = db@.products;
    let ghost pred = ended_with_active_locks(db@.locks, now);
    let mut out: Vec<Product> = Vec::new();
    let n = db.products.len();
    let mut i: usize = 0;
    proof {
        ps.take(0).lemma_filter_len(pred);
        assert(ps.take(0).filter(pred) =~= out@);
    }
    while i < n
        invariant
            n == ps.len(),
            db.products@ == ps,
            i <= n,
            pred == ended_with_active_locks(db@.locks, now),
            out@ == ps.take(i as int).filter(pred),
        decreases n - i,
    {
        proof {
            assert(ps.take(i + 1) =~= ps.take(i as int).push(ps[i as int]));
            ps.take(i as int).lemma_filter_push(ps[i as int], pred);
        }
        let p = &db.products[i];
        if p.auction_status(now) == AuctionStatus::Ended && db.holds_active_lock_on(p.id) {
            out.push(p.copied());
        }
        i = i + 1;
    }
    proof {
        assert(ps.take(n as int) =~= ps);
    }
    out
}

// ---------------------------------------------------------------------------
// Transactions

impl Database {
    /// A copy of every table: the working state of a transaction.
    pub fn duplicate(&self) -> (r: Database)
        ensures
            r@ == self@,
    {
        let mut products: Vec<Product> = Vec::new();
        let mut i: usize = 0;
        while i < self.products.len()
            invariant
                i <= self.products@.len(),
                products@ =~= self.products@.take(i as int),
            decreases self.products@.len() - i,
        {
            products.push(self.products[i].copied());
            i = i + 1;
        }
        let mut bids: Vec<BidRecord> = Vec::new();
        let mut i: usize = 0;
        while i < self.bids.len()
            invariant
                i <= self.bids@.len(),
                bids@ =~= self.bids@.take(i as int),
            decreases self.bids@.len() - i,
        {
            bids.push(self.bids[i].copied());
            i = i + 1;
        }
        let mut locks: Vec<StockLock> = Vec::new();
        let mut i: usize = 0;
        while i < self.locks.len()
            invariant
                i <= self.locks@.len(),
                locks@ =~= self.locks@.take(i as int),
            decreases self.locks@.len() - i,
        {
            locks.push(self.locks[i].copied());
            i = i + 1;
        }
        let mut keys: Vec<IdempotencyRecord> = Vec::new();
        let mut i: usize = 0;
        while i < self.idempotency_keys.len()
            invariant
                i <= self.idempotency_keys@.len(),
                keys@ =~= self.idempotency_keys@.take(i as int),
            decreases self.idempotency_keys@.len() - i,
        {
            keys.push(self.idempotency_keys[i].copied());
            i = i + 1;
        }
        proof {
            assert(products@ =~= self.products@);
            assert(bids@ =~= self.bids@);
            assert(locks@ =~= self.locks@);
            assert(keys@ =~= self.idempotency_keys@);
        }
        Database { products, bids, locks, idempotency_keys: keys }
    }
}

// ---------------------------------------------------------------------------
// The same operations at the present instant, under fresh identifiers

/// Whether an auction of `minutes` from `now` ends at a representable instant.
pub fn check_duration(now: i64, minutes: Option<i64>) -> (r: bool)
    requires
        -TIME_BOUND <= now <= TIME_BOUND,
    ensures
        r == duration_fits(now, minutes),
{
    match minutes {
        None => true,
        Some(m) => {
            let end = (now as i128) + (m as i128) * (MILLIS_PER_MINUTE as i128);
            EARLIEST_MILLIS as i128 <= end && end <= LATEST_MILLIS as i128
        },
    }
}

/// The contract of listing the product that `req` describes at `now` under
/// identifier `id`: an auction that would end beyond chrono's range is
/// refused, as is an identifier already in use; otherwise the product is
/// appended to its table and returned.
pub open spec fn insert_product_post(
    d: DbState,
    req: CreateProductRequest,
    id: u128,
    now: i64,
    r: AppResult<Product>,
    e: DbState,
) -> bool {
    if !duration_fits(now, req.auction_duration_minutes) {
        (r matches Err(AppError::InvalidRequest(m)) && m@ == "Auction duration is too long"@) && e
            == d
    } else if d.has_product(id) {
        db_error(r, "UNIQUE constraint failed: products.id"@) && e == d
    } else {
        r == Ok::<Product, AppError>(new_product(req, id, now)) && e == (DbState {
            products: d.products.push(new_product(req, id, now)),
            ..d
        })
    }
}

/// Lists the product that `req` describes under a fresh identifier, now. An
/// auction too long to end at a representable instant is refused.
pub fn create_product(db: &mut Database, req: &CreateProductRequest) -> (r: AppResult<Product>)
    requires
        old(db)@.keyed(),
    ensures
        exists|id: u128, now: i64|
            EARLIEST_MILLIS <= now <= LATEST_MILLIS && #[trigger] insert_product_post(
                old(db)@,
                *req,
                id,
                now,
                r,
                final(db)@,
            ),
        final(db)@.keyed(),
        old(db)@.wf() && req.total_stock >= 0 ==> final(db)@.wf(),
{
    let now = now_millis();
    if !check_duration(now, req.auction_duration_minutes) {
        let r = Err(AppError::InvalidRequest("Auction duration is too long".to_string()));
        assert(insert_product_post(db@, *req, 0, now, r, db@));
        return r;
    }
    let id = new_id();
    let r = create_product_at(db, req, id, now);
    assert(insert_product_post(old(db)@, *req, id, now, r, db@));
    r
}

/// Sets the current price of product `product_id`, now.
pub fn update_product_price(db: &mut Database, product_id: u128, new_price: i64)
    requires
        old(db)@.keyed(),
    ensures
        exists|now: i64|
            EARLIEST_MILLIS <= now <= LATEST_MILLIS && final(db)@ == (DbState {
                products: #[trigger] apply_change(old(db)@.products, product_id, StockChange::Reprice(new_price), now),
                ..old(db)@
            }),
        final(db)@.keyed(),
        old(db)@.wf() ==> final(db)@.wf(),
{
    let now = now_millis();
    update_product_price_at(db, product_id, new_price, now);
}

/// Records a pending bid under a fresh identifier, now (see `create_bid_at`).
pub fn create_bid(
    db: &mut Database,
    product_id: u128,
    user_id: &String,
    bid_price: i64,
    quantity: i64,
) -> (r: AppResult<BidRecord>)
    requires
        old(db)@.keyed(),
    ensures
        exists|id: u128, now: i64|
            {
                let b = #[trigger] new_bid(product_id, *user_id, bid_price, quantity, id, now);
                &&& EARLIEST_MILLIS <= now <= LATEST_MILLIS
                &&& old(db)@.has_bid(id) ==> db_error(r, "UNIQUE constraint failed: bid_records.id"@)
                    && final(db)@ == old(db)@
                &&& !old(db)@.has_bid(id) && !old(db)@.has_product(product_id) ==> db_error(
                    r,
                    "FOREIGN KEY constraint failed"@,
                ) && final(db)@ == old(db)@
                &&& !old(db)@.has_bid(id) && old(db)@.has_product(product_id) ==> r == Ok::<
                    BidRecord,
                    AppError,
                >(b) && final(db)@ == (DbState { bids: old(db)@.bids.push(b), ..old(db)@ })
            },
        final(db)@.keyed(),
        old(db)@.wf() ==> final(db)@.wf(),
{
    let now = now_millis();
    let id = new_id();
    let r = create_bid_at(db, product_id, user_id, bid_price, quantity, id, now);
    assert(new_bid(product_id, *user_id, bid_price, quantity, id, now) == new_bid(
        product_id,
        *user_id,
        bid_price,
        quantity,
        id,
        now,
    ));
    r
}

/// Locks `quantity` of product `product_id` for bid `bid_id` under a fresh
/// lock identifier, now (see `lock_stock_at`).
pub fn lock_stock(
    db: &mut Database,
    product_id: u128,
    bid_id: u128,
    user_id: &String,
    quantity: i64,
) -> (r: AppResult<StockLock>)
    requires
        old(db)@.keyed(),
        reserve_fits(old(db)@, product_id, quantity),
    ensures
        exists|id: u128, now: i64|
            {
                let products = apply_change(
                    old(db)@.products,
                    product_id,
                    StockChange::Reserve(quantity),
                    now,
                );
                let lock = #[trigger] new_lock(product_id, bid_id, *user_id, quantity, id, now);
                let known = old(db)@.has_product(product_id) && old(db)@.has_bid(bid_id);
                &&& EARLIEST_MILLIS <= now <= LATEST_MILLIS
                &&& old(db)@.has_lock(id) ==> db_error(r, "UNIQUE constraint failed: stock_locks.id"@)
                    && final(db)@ == (DbState { products, ..old(db)@ })
                &&& !old(db)@.has_lock(id) && !known ==> db_error(
                    r,
                    "FOREIGN KEY constraint failed"@,
                ) && final(db)@ == (DbState { products, ..old(db)@ })
                &&& !old(db)@.has_lock(id) && known ==> r == Ok::<StockLock, AppError>(lock)
                    && final(db)@ == (DbState { products, locks: old(db)@.locks.push(lock), ..old(db)@ })
                &&& old(db)@.wf() && old(db)@.has_product(product_id) && 0 < quantity
                    <= old(db)@.find_product(product_id)->0.available_stock && !old(db)@.has_lock(id)
                    && old(db)@.has_bid(bid_id) ==> final(db)@.wf()
            },
        final(db)@.keyed(),
{
    let now = now_millis();
    let id = new_id();
    lock_stock_at(db, product_id, bid_id, user_id, quantity, id, now)
}

/// Confirms the active lock `lock_id`, now (see `confirm_lock_at`).
pub fn confirm_lock(db: &mut Database, lock_id: u128) -> (r: AppResult<()>)
    requires
        old(db)@.keyed(),
        old(db)@.has_active_lock(lock_id) ==> settle_fits(
            old(db)@,
            old(db)@.lock_index(lock_id),
            true,
        ),
    ensures
        !old(db)@.has_active_lock(lock_id) ==> db_error(r, row_not_found()) && final(db)@
            == old(db)@,
        old(db)@.has_active_lock(lock_id) ==> r is Ok && exists|now: i64|
            EARLIEST_MILLIS <= now <= LATEST_MILLIS && final(db)@ == #[trigger] settle_lock(
                old(db)@,
                old(db)@.lock_index(lock_id),
                LockStatus::Confirmed,
                None,
                true,
                now,
            ),
        final(db)@.keyed(),
        old(db)@.wf() ==> final(db)@.wf(),
{
    let now = now_millis();
    confirm_lock_at(db, lock_id, now)
}

/// Releases the active lock `lock_id`, now (see `release_lock_at`).
pub fn release_lock(db: &mut Database, lock_id: u128) -> (r: AppResult<()>)
    requires
        old(db)@.keyed(),
        old(db)@.has_active_lock(lock_id) ==> settle_fits(
            old(db)@,
            old(db)@.lock_index(lock_id),
            false,
        ),
    ensures
        !old(db)@.has_active_lock(lock_id) ==> db_error(r, row_not_found()) && final(db)@
            == old(db)@,
        old(db)@.has_active_lock(lock_id) ==> r is Ok && exists|now: i64|
            EARLIEST_MILLIS <= now <= LATEST_MILLIS && final(db)@ == #[trigger] settle_lock(
                old(db)@,
                old(db)@.lock_index(lock_id),
                LockStatus::Released,
                None,
                false,
                now,
            ),
        final(db)@.keyed(),
        old(db)@.wf() ==> final(db)@.wf(),
{
    let now = now_millis();
    release_lock_at(db, lock_id, now)
}

/// Expires every active lock that has lapsed by now (see `expire_old_locks_at`).
pub fn expire_old_locks(db: &mut Database) -> (count: usize)
    requires
        old(db)@.keyed(),
        forall|now: i64|
            #[trigger] picked_fits(old(db)@, LockFilter::ExpiredBefore(now), LockStatus::Expired, BidStatus::Expired, now),
    ensures
        exists|now: i64|
            EARLIEST_MILLIS <= now <= LATEST_MILLIS && final(db)@ == #[trigger] settle_picked(
                old(db)@,
                LockFilter::ExpiredBefore(now),
                LockStatus::Expired,
                BidStatus::Expired,
                now,
                old(db)@.locks.len(),
            ) && count == count_picked(
                old(db)@.locks,
                LockFilter::ExpiredBefore(now),
                old(db)@.locks.len(),
            ),
        final(db)@.keyed(),
        old(db)@.wf() ==> final(db)@.wf(),
{
    let now = now_millis();
    expire_old_locks_at(db, now)
}

/// Releases, now, every active lock that `user_id` holds on product
/// `product_id` (see `release_user_active_locks_at`).
pub fn release_user_active_locks(db: &mut Database, product_id: u128, user_id: &String) -> (count:
    usize)
    requires
        old(db)@.keyed(),
        forall|now: i64|
            #[trigger] picked_fits(old(db)@, LockFilter::HeldBy(product_id, *user_id), LockStatus::Released, BidStatus::Cancelled, now),
    ensures
        exists|now: i64|
            EARLIEST_MILLIS <= now <= LATEST_MILLIS && final(db)@ == #[trigger] settle_picked(
                old(db)@,
                LockFilter::HeldBy(product_id, *user_id),
                LockStatus::Released,
                BidStatus::Cancelled,
                now,
                old(db)@.locks.len(),
            ),
        count == count_picked(
            old(db)@.locks,
            LockFilter::HeldBy(product_id, *user_id),
            old(db)@.locks.len(),
        ),
        final(db)@.keyed(),
        old(db)@.wf() ==> final(db)@.wf(),
{
    let now = now_millis();
    release_user_active_locks_at(db, product_id, user_id, now)
}

/// Releases, now, every active lock on product `product_id`.
pub fn release_all_active_locks_for_product(db: &mut Database, product_id: u128) -> (count: usize)
    requires
        old(db)@.keyed(),
        forall|now: i64|
            #[trigger] picked_fits(old(db)@, LockFilter::OnProduct(product_id), LockStatus::Released, BidStatus::Cancelled, now),
    ensures
        exists|now: i64|
            EARLIEST_MILLIS <= now <= LATEST_MILLIS && final(db)@ == #[trigger] settle_picked(
                old(db)@,
                LockFilter::OnProduct(product_id),
                LockStatus::Released,
                BidStatus::Cancelled,
                now,
                old(db)@.locks.len(),
            ),
        count == count_picked(old(db)@.locks, LockFilter::OnProduct(product_id), old(db)@.locks.len()),
        final(db)@.keyed(),
        old(db)@.wf() ==> final(db)@.wf(),
{
    let now = now_millis();
    release_all_active_locks_for_product_at(db, product_id, now)
}

/// The bid that idempotency key `key` stands for now, if it stands for one.
pub fn get_idempotency_result(db: &Database, key: &str) -> (r: Option<u128>)
    requires
        db@.keyed(),
    ensures
        exists|now: i64|
            EARLIEST_MILLIS <= now <= LATEST_MILLIS && r == #[trigger] key_result(db@.keys, key@, now),
{
    let now = now_millis();
    get_idempotency_result_at(db, key, now)
}

/// Records, now, that idempotency key `key` stands for bid `bid_id`.
pub fn set_idempotency_result(db: &mut Database, key: &String, bid_id: u128)
    requires
        old(db)@.keyed(),
    ensures
        exists|now: i64|
            EARLIEST_MILLIS <= now <= LATEST_MILLIS && final(db)@ == (DbState {
                keys: old(db)@.keys.filter(KeyFilter::AllBut(*key).pred()).push(
                    #[trigger] new_key_record(*key, bid_id, now),
                ),
                ..old(db)@
            }),
        final(db)@.keyed(),
        old(db)@.wf() ==> final(db)@.wf(),
        other_keys_kept(old(db)@.keys, final(db)@.keys, key@),
{
    let now = now_millis();
    set_idempotency_result_at(db, key, bid_id, now);
}

/// Deletes the idempotency records that have expired by now; answers how many.
pub fn cleanup_expired_idempotency_keys(db: &mut Database) -> (count: usize)
    requires
        old(db)@.keyed(),
    ensures
        exists|now: i64|
            EARLIEST_MILLIS <= now <= LATEST_MILLIS && final(db)@ == (DbState {
                keys: old(db)@.keys.filter(#[trigger] KeyFilter::LiveAt(now).pred()),
                ..old(db)@
            }) && live_keys_kept(old(db)@.keys, final(db)@.keys, now),
        count == old(db)@.keys.len() - final(db)@.keys.len(),
        final(db)@.keyed(),
        old(db)@.wf() ==> final(db)@.wf(),
{
    let now = now_millis();
    cleanup_expired_idempotency_keys_at(db, now)
}

/// The products whose auction has ended by now while locks on them are still active.
pub fn get_ended_auctions_with_active_locks(db: &Database) -> (r: Vec<Product>)
    ensures
        exists|now: i64|
            EARLIEST_MILLIS <= now <= LATEST_MILLIS && r@ == db@.products.filter(
                #[trigger] ended_with_active_locks(db@.locks, now),
            ),
{
    let now = now_millis();
    get_ended_auctions_with_active_locks_at(db, now)
}

// ---------------------------------------------------------------------------
// Tables read back from storage

/// No identifier occurs twice in `ids`.
pub open spec fn distinct(ids: Seq<u128>) -> bool {
    forall|i: int, j: int| 0 <= i < j < ids.len() ==> ids[i] != ids[j]
}

fn check_distinct(ids: &Vec<u128>) -> (r: bool)
    ensures
        r == distinct(ids@),
{
    let n = ids.len();
    let mut i: usize = 0;
    while i < n
        invariant
            n == ids@.len(),
            i <= n,
            forall|a: int, b: int| 0 <= a < b < n && a < i ==> ids@[a] != ids@[b],
        decreases n - i,
    {
        let mut j: usize = i + 1;
        while j < n
            invariant
                n == ids@.len(),
                i < n,
                i + 1 <= j <= n,
                forall|a: int, b: int| 0 <= a < b < n && a < i ==> ids@[a] != ids@[b],
                forall|b: int| i < b < j ==> ids@[i as int] != ids@[b],
            decreases n - j,
        {
            if ids[i] == ids[j] {
                return false;
            }
            j = j + 1;
        }
        i = i + 1;
    }
    true
}

fn check_distinct_keys(keys: &Vec<IdempotencyRecord>) -> (r: bool)
    ensures
        r == forall|i: int, j: int| 0 <= i < j < keys@.len() ==> keys@[i].key@ != keys@[j].key@,
{
    let n = keys.len();
    let mut i: usize = 0;
    while i < n
        invariant
            n == keys@.len(),
            i <= n,
            forall|a: int, b: int| 0 <= a < b < n && a < i ==> keys@[a].key@ != keys@[b].key@,
        decreases n - i,
    {
        let mut j: usize = i + 1;
        while j < n
            invariant
                n == keys@.len(),
                i < n,
                i + 1 <= j <= n,
                forall|a: int, b: int| 0 <= a < b < n && a < i ==> keys@[a].key@ != keys@[b].key@,
                forall|b: int| i < b < j ==> keys@[i as int].key@ != keys@[b].key@,
            decreases n - j,
        {
            if keys[i].key == keys[j].key {
                return false;
            }
            j = j + 1;
        }
        i = i + 1;
    }
    true
}

impl Database {
    fn product_ids(&self) -> (r: Vec<u128>)
        ensures
            r@.len() == self@.products.len(),
            forall|k: int| 0 <= k < r@.len() ==> r@[k] == #[trigger] self@.products[k].id,
    {
        let mut r: Vec<u128> = Vec::new();
        let mut i: usize = 0;
        while i < self.products.len()
            invariant
                i <= self.products@.len(),
                r@.len() == i,
                forall|k: int| 0 <= k < i ==> r@[k] == #[trigger] self.products@[k].id,
            decreases self.products@.len() - i,
        {
            r.push(self.products[i].id);
            i = i + 1;
        }
        r
    }

    fn bid_ids(&self) -> (r: Vec<u128>)
        ensures
            r@.len() == self@.bids.len(),
            forall|k: int| 0 <= k < r@.len() ==> r@[k] == #[trigger] self@.bids[k].id,
    {
        let mut r: Vec<u128> = Vec::new();
        let mut i: usize = 0;
        while i < self.bids.len()
            invariant
                i <= self.bids@.len(),
                r@.len() == i,
                forall|k: int| 0 <= k < i ==> r@[k] == #[trigger] self.bids@[k].id,
            decreases self.bids@.len() - i,
        {
            r.push(self.bids[i].id);
            i = i + 1;
        }
        r
    }

    fn lock_ids(&self) -> (r: Vec<u128>)
        ensures
            r@.len() == self@.locks.len(),
            forall|k: int| 0 <= k < r@.len() ==> r@[k] == #[trigger] self@.locks[k].id,
    {
        let mut r: Vec<u128> = Vec::new();
        let mut i: usize = 0;
        while i < self.locks.len()
            invariant
                i <= self.locks@.len(),
                r@.len() == i,
                forall|k: int| 0 <= k < i ==> r@[k] == #[trigger] self.locks@[k].id,
            decreases self.locks@.len() - i,
        {
            r.push(self.locks[i].id);
            i = i + 1;
        }
        r
    }

    /// The stock of product `pid` that the active locks hold.
    fn locked_sum(&self, pid: u128) -> (r: i128)
        ensures
            r == locked_total(self@.locks, pid),
    {
        let ghost ls = self@.locks;
        let n = self.locks.len();
        let mut acc: i128 = 0;
        let mut i: usize = 0;
        while i < n
            invariant
                n == ls.len(),
                self.locks@ == ls,
                i <= n,
                acc == locked_total(ls.take(i as int), pid),
                -(i as int) * 0x8000_0000_0000_0000 <= acc <= (i as int) * 0x8000_0000_0000_0000,
            decreases n - i,
        {
            proof {
                assert(ls.take(i + 1).drop_last() =~= ls.take(i as int));
            }
            let l = &self.locks[i];
            if l.status == LockStatus::Active && l.product_id == pid {
                acc = acc + l.quantity as i128;
            }
            i = i + 1;
        }
        proof {
            assert(ls.take(n as int) =~= ls);
        }
        acc
    }

    /// Whether the tables are well formed.
    fn check_wf(&self) -> (r: bool)
        ensures
            r == self@.wf(),
    {
        let ghost d = self@;
        let pids = self.product_ids();
        let bids = self.bid_ids();
        let lids = self.lock_ids();
        let keys_ok = check_distinct_keys(&self.idempotency_keys);
        let unique = check_distinct(&pids) && check_distinct(&bids) && check_distinct(&lids)
            && keys_ok;
        assert(self.idempotency_keys@ == d.keys);
        proof {
            assert(distinct(pids@) <==> forall|i: int, j: int|
                0 <= i < j < d.products.len() ==> d.products[i].id != d.products[j].id) by {
                if distinct(pids@) {
                    assert forall|i: int, j: int| 0 <= i < j < d.products.len() implies d.products[i].id
                        != d.products[j].id by {
                        assert(pids@[i] == d.products[i].id);
                        assert(pids@[j] == d.products[j].id);
                    }
                }
                if forall|i: int, j: int| 0 <= i < j < d.products.len() ==> d.products[i].id != d.products[j].id {
                    assert forall|i: int, j: int| 0 <= i < j < pids@.len() implies pids@[i]
                        != pids@[j] by {
                        assert(pids@[i] == d.products[i].id);
                        assert(pids@[j] == d.products[j].id);
                    }
                }
            }
            assert(distinct(bids@) <==> forall|i: int, j: int|
                0 <= i < j < d.bids.len() ==> d.bids[i].id != d.bids[j].id) by {
                if distinct(bids@) {
                    assert forall|i: int, j: int| 0 <= i < j < d.bids.len() implies d.bids[i].id
                        != d.bids[j].id by {
                        assert(bids@[i] == d.bids[i].id);
                        assert(bids@[j] == d.bids[j].id);
                    }
                }
                if forall|i: int, j: int| 0 <= i < j < d.bids.len() ==> d.bids[i].id != d.bids[j].id {
                    assert forall|i: int, j: int| 0 <= i < j < bids@.len() implies bids@[i]
                        != bids@[j] by {
                        assert(bids@[i] == d.bids[i].id);
                        assert(bids@[j] == d.bids[j].id);
                    }
                }
            }
            assert(distinct(lids@) <==> forall|i: int, j: int|
                0 <= i < j < d.locks.len() ==> d.locks[i].id != d.locks[j].id) by {
                if distinct(lids@) {
                    assert forall|i: int, j: int| 0 <= i < j < d.locks.len() implies d.locks[i].id
                        != d.locks[j].id by {
                        assert(lids@[i] == d.locks[i].id);
                        assert(lids@[j] == d.locks[j].id);
                    }
                }
                if forall|i: int, j: int| 0 <= i < j < d.locks.len() ==> d.locks[i].id != d.locks[j].id {
                    assert forall|i: int, j: int| 0 <= i < j < lids@.len() implies lids@[i]
                        != lids@[j] by {
                        assert(lids@[i] == d.locks[i].id);
                        assert(lids@[j] == d.locks[j].id);
                    }
                }
            }
        }
        if !unique {
            proof {
                if !distinct(pids@) {
                    assert(!(forall|i: int, j: int|
                        0 <= i < j < d.products.len() ==> d.products[i].id != d.products[j].id));
                } else if !distinct(bids@) {
                    assert(!(forall|i: int, j: int|
                        0 <= i < j < d.bids.len() ==> d.bids[i].id != d.bids[j].id));
                } else if !distinct(lids@) {
                    assert(!(forall|i: int, j: int|
                        0 <= i < j < d.locks.len() ==> d.locks[i].id != d.locks[j].id));
                } else {
                    assert(!(forall|i: int, j: int|
                        0 <= i < j < d.keys.len() ==> d.keys[i].key@ != d.keys[j].key@));
                }
            }
            return false;
        }
        let mut i: usize = 0;
        while i < self.products.len()
            invariant
                d == self@,
                i <= d.products.len(),
                forall|k: int| 0 <= k < i ==> stock_balanced(#[trigger] d.products[k], d.locks),
            decreases d.products.len() - i,
        {
            let p = &self.products[i];
            let held = self.locked_sum(p.id);
            if !(p.available_stock >= 0 && p.locked_stock >= 0 && (p.available_stock as i128)
                + (p.locked_stock as i128) == p.total_stock as i128 && p.locked_stock as i128 == held) {
                return false;
            }
            i = i + 1;
        }
        let mut i: usize = 0;
        while i < self.locks.len()
            invariant
                d == self@,
                i <= d.locks.len(),
                forall|k: int|
                    0 <= k < i && (#[trigger] d.locks[k]).status == LockStatus::Active ==> d.locks[k].quantity
                        > 0 && d.has_product(d.locks[k].product_id) && d.has_bid(d.locks[k].bid_id),
            decreases d.locks.len() - i,
        {
            let l = &self.locks[i];
            if l.status == LockStatus::Active {
                if !(l.quantity > 0 && self.product_position(l.product_id).is_some()
                    && self.bid_position(l.bid_id).is_some()) {
                    return false;
                }
            }
            i = i + 1;
        }
        true
    }

    /// Whether bids track locks.
    fn check_tracking(&self) -> (r: bool)
        requires
            self@.wf(),
        ensures
            r == bids_track_locks(self@),
    {
        let ghost d = self@;
        let mut owners: Vec<u128> = Vec::new();
        let mut i: usize = 0;
        while i < self.locks.len()
            invariant
                d == self@,
                i <= d.locks.len(),
                owners@.len() == i,
                forall|k: int| 0 <= k < i ==> owners@[k] == #[trigger] d.locks[k].bid_id,
            decreases d.locks.len() - i,
        {
            owners.push(self.locks[i].bid_id);
            i = i + 1;
        }
        let one_each = check_distinct(&owners);
        proof {
            assert(distinct(owners@) <==> forall|a: int, b: int|
                0 <= a < b < d.locks.len() ==> d.locks[a].bid_id != d.locks[b].bid_id) by {
                if distinct(owners@) {
                    assert forall|a: int, b: int| 0 <= a < b < d.locks.len() implies d.locks[a].bid_id
                        != d.locks[b].bid_id by {
                        assert(owners@[a] == d.locks[a].bid_id);
                        assert(owners@[b] == d.locks[b].bid_id);
                    }
                }
                if forall|a: int, b: int| 0 <= a < b < d.locks.len() ==> d.locks[a].bid_id != d.locks[b].bid_id {
                    assert forall|a: int, b: int| 0 <= a < b < owners@.len() implies owners@[a]
                        != owners@[b] by {
                        assert(owners@[a] == d.locks[a].bid_id);
                        assert(owners@[b] == d.locks[b].bid_id);
                    }
                }
            }
        }
        if !one_each {
            return false;
        }
        let mut i: usize = 0;
        while i < self.locks.len()
            invariant
                d == self@,
                d.wf(),
                i <= d.locks.len(),
                forall|k: int| 0 <= k < i ==> d.has_bid(#[trigger] d.locks[k].bid_id),
                forall|k: int|
                    0 <= k < i && (#[trigger] d.locks[k]).status == LockStatus::Active
                        ==> exists|j: int|
                        0 <= j < d.bids.len() && d.bids[j].id == d.locks[k].bid_id
                            && #[trigger] d.bids[j].status == BidStatus::Confirmed,
            decreases d.locks.len() - i,
        {
            let l = &self.locks[i];
            match self.bid_position(l.bid_id) {
                None => {
                    return false;
                },
                Some(j) => {
                    if l.status == LockStatus::Active && self.bids[j].status != BidStatus::Confirmed {
                        proof {
                            assert forall|m: int|
                                0 <= m < d.bids.len() && d.bids[m].id == d.locks[i as int].bid_id
                                    implies d.bids[m].status != BidStatus::Confirmed by {
                                if m < j {
                                    assert(d.bids[m].id != d.bids[j as int].id);
                                } else if m > j {
                                    assert(d.bids[j as int].id != d.bids[m].id);
                                }
                            }
                        }
                        return false;
                    }
                },
            }
            i = i + 1;
        }
        true
    }

    /// Tables as read back from storage, taken only if they are well formed
    /// and bids track locks.
    pub fn restore(
        products: Vec<Product>,
        bids: Vec<BidRecord>,
        locks: Vec<StockLock>,
        idempotency_keys: Vec<IdempotencyRecord>,
    ) -> (r: Option<Database>)
        ensures
            ({
                let d = DbState { products: products@, bids: bids@, locks: locks@, keys: idempotency_keys@ };
                &&& r is Some <==> d.wf() && bids_track_locks(d)
                &&& r matches Some(db) ==> db@ == d
            }),
    {
        let db = Database { products, bids, locks, idempotency_keys };
        if db.check_wf() && db.check_tracking() {
            Some(db)
        } else {
            None
        }
    }
}

} // verus!
