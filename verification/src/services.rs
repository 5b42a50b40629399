//! The auction's operations: listing products, placing, confirming and
//! cancelling bids, and the clean-ups.
use vstd::prelude::*;

use crate::clock::{new_id, now_millis, TIME_BOUND};
use crate::db;
use crate::db::{
    is_first_active_of_bid,
    bids_track_locks,
    lock_history_kept,
    duration_fits,
    key_result,
    new_bid,
    new_key_record,
    new_lock,
    new_product,
    set_bid_status,
    settle_picked,
    apply_change,
    Database,
    DbState,
    KeyFilter,
    LockFilter,
    StockChange,
    LOCK_DURATION_MILLIS,
};
use crate::errors::{AppError, AppResult};
use crate::models::{
    AuctionStatus,
    BidRecord,
    BidResponse,
    BidStatus,
    CreateProductRequest,
    LockStatus,
    PlaceBidRequest,
    Product,
    ProductResponse,
    StockLock,
};

verus! {

broadcast use vstd::string::to_string_from_display_ensures_for_str;

/// The auction's operations over its tables.
pub struct AuctionService {
    db: Database,
}

/// Why a bid cannot be settled by the user who asks.
#[derive(Clone, Copy, Debug, PartialEq, Eq, Structural)]
enum BidCheck {
    NotFound,
    NotOwner,
    NotConfirmed(BidStatus),
    NoLock,
}

/// `r` refuses the request with message `msg`.
pub open spec fn refused_with<T>(r: AppResult<T>, msg: Seq<char>) -> bool {
    r matches Err(AppError::InvalidRequest(m)) && m@ == msg
}

/// The report of bid `b`: its lock's expiry while an active lock holds stock
/// for it, else its creation.
pub open spec fn bid_response_of(d: DbState, b: BidRecord) -> BidResponse {
    BidResponse {
        id: b.id,
        product_id: b.product_id,
        user_id: b.user_id,
        bid_price: b.bid_price,
        quantity: b.quantity,
        status: b.status,
        lock_expires_at: match d.active_lock_of_bid(b.id) {
            Some(l) => l.expires_at,
            None => b.created_at,
        },
        created_at: b.created_at,
    }
}

/// What looking up bid `bid_id` answers.
pub open spec fn bid_lookup(d: DbState, bid_id: u128) -> AppResult<BidResponse> {
    match d.find_bid(bid_id) {
        Some(b) => Ok(bid_response_of(d, b)),
        None => Err(AppError::BidNotFound),
    }
}

/// What looking up product `product_id` at `now` answers.
pub open spec fn product_lookup(d: DbState, product_id: u128, now: i64) -> AppResult<ProductResponse> {
    match d.find_product(product_id) {
        Some(p) => Ok(ProductResponse::of(p, now)),
        None => Err(AppError::ProductNotFound),
    }
}

/// What is wrong with a product listing, checked in this order.
pub open spec fn product_request_problem(req: CreateProductRequest, now: i64) -> Option<Seq<char>> {
    if req.total_stock <= 0 {
        Some("Total stock must be greater than 0"@)
    } else if req.start_price <= 0 {
        Some("Start price must be greater than 0"@)
    } else if req.min_increment <= 0 {
        Some("Min increment must be greater than 0"@)
    } else if req.auction_duration_minutes matches Some(m) && m <= 0 {
        Some("Auction duration must be greater than 0"@)
    } else if !duration_fits(now, req.auction_duration_minutes) {
        Some("Auction duration is too long"@)
    } else {
        None
    }
}

/// The contract of listing a product at `now` under identifier `id`.
pub open spec fn create_product_post(
    d: DbState,
    req: CreateProductRequest,
    id: u128,
    now: i64,
    r: AppResult<ProductResponse>,
    e: DbState,
) -> bool {
    match product_request_problem(req, now) {
        Some(msg) => (r matches Err(AppError::InvalidRequest(m)) && m@ == msg) && e == d,
        None => if d.has_product(id) {
            db::db_error(r, "UNIQUE constraint failed: products.id"@) && e == d
        } else {
            &&& r == Ok::<ProductResponse, AppError>(ProductResponse::of(new_product(req, id, now), now))
            &&& e == (DbState { products: d.products.push(new_product(req, id, now)), ..d })
        },
    }
}

/// The idempotency key of a bid request, unless it is missing or empty.
pub open spec fn live_key(req: PlaceBidRequest) -> Option<String> {
    match req.idempotency_key {
        Some(k) => if k@.len() > 0 {
            Some(k)
        } else {
            None
        },
        None => None,
    }
}

/// The bid that the request's idempotency key stands for at `now`, if any.
pub open spec fn replayed_bid(d: DbState, req: PlaceBidRequest, now: i64) -> Option<u128> {
    match live_key(req) {
        Some(k) => key_result(d.keys, k@, now),
        None => None,
    }
}

/// The tables once the bidder's earlier locks on the product are released.
pub open spec fn released_for(d: DbState, req: PlaceBidRequest, now: i64) -> DbState {
    settle_picked(
        d,
        LockFilter::HeldBy(req.product_id, req.user_id),
        LockStatus::Released,
        BidStatus::Cancelled,
        now,
        d.locks.len(),
    )
}

/// The tables after a bid is placed at `now` under bid identifier `bid_id`
/// and lock identifier `lock_id`: the bidder's earlier locks on the product
/// are released, the bid is recorded, its quantity is locked, the product's
/// price becomes the bid price, the bid is confirmed, and its idempotency key,
/// if it has one, is recorded.
pub open spec fn placed_state(
    d: DbState,
    req: PlaceBidRequest,
    now: i64,
    bid_id: u128,
    lock_id: u128,
) -> DbState {
    let d1 = released_for(d, req, now);
    let d2 = DbState {
        bids: d1.bids.push(
            new_bid(req.product_id, req.user_id, req.bid_price, req.quantity, bid_id, now),
        ),
        ..d1
    };
    let d3 = DbState {
        products: apply_change(
            d2.products,
            req.product_id,
            StockChange::Reserve(req.quantity),
            now,
        ),
        locks: d2.locks.push(
            new_lock(req.product_id, bid_id, req.user_id, req.quantity, lock_id, now),
        ),
        ..d2
    };
    let d4 = DbState {
        products: apply_change(
            d3.products,
            req.product_id,
            StockChange::Reprice(req.bid_price),
            now,
        ),
        ..d3
    };
    let d5 = DbState { bids: set_bid_status(d4.bids, bid_id, BidStatus::Confirmed), ..d4 };
    match live_key(req) {
        Some(k) => DbState {
            keys: d5.keys.filter(KeyFilter::AllBut(k).pred()).push(new_key_record(k, bid_id, now)),
            ..d5
        },
        None => d5,
    }
}

/// The report of a bid placed at `now` under identifier `bid_id`.
pub open spec fn placed_response(req: PlaceBidRequest, now: i64, bid_id: u128) -> BidResponse {
    BidResponse {
        id: bid_id,
        product_id: req.product_id,
        user_id: req.user_id,
        bid_price: req.bid_price,
        quantity: req.quantity,
        status: BidStatus::Confirmed,
        lock_expires_at: (now + LOCK_DURATION_MILLIS) as i64,
        created_at: now,
    }
}

/// The contract of placing a bid at `now` under identifiers `bid_id` and
/// `lock_id`: the checks in order, each refusal leaving the tables as they
/// were, and otherwise the placement.
pub open spec fn place_bid_post(
    d: DbState,
    req: PlaceBidRequest,
    now: i64,
    bid_id: u128,
    lock_id: u128,
    r: AppResult<BidResponse>,
    e: DbState,
) -> bool {
    let replay = replayed_bid(d, req, now);
    if req.quantity <= 0 {
        refused_with(r, "Quantity must be greater than 0"@) && e == d
    } else if req.bid_price <= 0 {
        refused_with(r, "Bid price must be greater than 0"@) && e == d
    } else if replay is Some {
        r == bid_lookup(d, replay->0) && e == d
    } else if !d.has_product(req.product_id) {
        r == Err::<BidResponse, AppError>(AppError::ProductNotFound) && e == d
    } else {
        let p = d.find_product(req.product_id)->0;
        if p.status_at(now) == AuctionStatus::Ended {
            refused_with(r, "Auction has ended, cannot place bid"@) && e == d
        } else if p.status_at(now) == AuctionStatus::Upcoming {
            refused_with(r, "Auction has not started yet"@) && e == d
        } else if req.bid_price < p.current_price {
            r == Err::<BidResponse, AppError>(AppError::BidPriceTooLow) && e == d
        } else if req.bid_price < p.current_price + p.min_increment {
            r == Err::<BidResponse, AppError>(AppError::InvalidBidIncrement) && e == d
        } else if released_for(d, req, now).find_product(req.product_id)->0.available_stock
            < req.quantity {
            r == Err::<BidResponse, AppError>(AppError::InsufficientStock) && e == d
        } else if d.has_bid(bid_id) {
            db::db_error(r, "UNIQUE constraint failed: bid_records.id"@) && e == d
        } else if d.has_lock(lock_id) {
            db::db_error(r, "UNIQUE constraint failed: stock_locks.id"@) && e == d
        } else {
            r == Ok::<BidResponse, AppError>(placed_response(req, now, bid_id)) && e
                == placed_state(d, req, now, bid_id, lock_id)
        }
    }
}

/// The tables after the active lock `l` of bid `bid_id` is confirmed at `now`
/// and the bid marked confirmed.
pub open spec fn confirmed_state(d: DbState, l: StockLock, bid_id: u128, now: i64) -> DbState {
    let s = db::settle_lock(d, d.lock_index(l.id), LockStatus::Confirmed, None, true, now);
    DbState { bids: set_bid_status(s.bids, bid_id, BidStatus::Confirmed), ..s }
}

/// The tables after the active lock `l` of bid `bid_id` is released at `now`
/// and the bid cancelled.
pub open spec fn cancelled_state(d: DbState, l: StockLock, bid_id: u128, now: i64) -> DbState {
    let s = db::settle_lock(d, d.lock_index(l.id), LockStatus::Released, None, false, now);
    DbState { bids: set_bid_status(s.bids, bid_id, BidStatus::Cancelled), ..s }
}

/// The tables after every lock that lapsed before `now` expires.
pub open spec fn expired_state(d: DbState, now: i64) -> DbState {
    settle_picked(
        d,
        LockFilter::ExpiredBefore(now),
        LockStatus::Expired,
        BidStatus::Expired,
        now,
        d.locks.len(),
    )
}

/// The contract of confirming the purchase of bid `bid_id` for user `user` at
/// `now`: only the bidder may, only a confirmed bid, and only while its lock
/// holds; a lock found lapsed makes every lapsed lock expire.
pub open spec fn confirm_purchase_post(
    d: DbState,
    bid_id: u128,
    user: Seq<char>,
    now: i64,
    r: AppResult<()>,
    e: DbState,
) -> bool {
    match d.find_bid(bid_id) {
        None => r == Err::<(), AppError>(AppError::BidNotFound) && e == d,
        Some(b) => if b.user_id@ != user {
            refused_with(r, "Not authorized to confirm this bid"@) && e == d
        } else if b.status != BidStatus::Confirmed {
            refused_with(r, "Bid status is "@ + b.status.name() + ", cannot confirm"@) && e == d
        } else {
            match d.active_lock_of_bid(bid_id) {
                None => r == Err::<(), AppError>(AppError::LockExpired) && e == d,
                Some(l) => if l.expires_at < now {
                    r == Err::<(), AppError>(AppError::LockExpired) && e == expired_state(d, now)
                } else {
                    r == Ok::<(), AppError>(()) && e == confirmed_state(d, l, bid_id, now)
                },
            }
        },
    }
}

/// The contract of cancelling bid `bid_id` for user `user` at `now`: only the
/// bidder may, only a confirmed bid that still holds a lock.
pub open spec fn cancel_bid_post(
    d: DbState,
    bid_id: u128,
    user: Seq<char>,
    now: i64,
    r: AppResult<()>,
    e: DbState,
) -> bool {
    match d.find_bid(bid_id) {
        None => r == Err::<(), AppError>(AppError::BidNotFound) && e == d,
        Some(b) => if b.user_id@ != user {
            refused_with(r, "Not authorized to cancel this bid"@) && e == d
        } else if b.status != BidStatus::Confirmed {
            refused_with(r, "Bid status is "@ + b.status.name() + ", cannot cancel"@) && e == d
        } else {
            match d.active_lock_of_bid(bid_id) {
                None => refused_with(r, "No active lock for this bid"@) && e == d,
                Some(l) => r == Ok::<(), AppError>(()) && e == cancelled_state(d, l, bid_id, now),
            }
        },
    }
}

/// The tables after every active lock on each product of `ids` is
/// released at `now`, one product after the other.
pub open spec fn release_products(d: DbState, ids: Seq<u128>, now: i64) -> DbState
    decreases ids.len(),
{
    if ids.len() == 0 {
        d
    } else {
        let prev = release_products(d, ids.drop_last(), now);
        settle_picked(
            prev,
            LockFilter::OnProduct(ids.last()),
            LockStatus::Released,
            BidStatus::Cancelled,
            now,
            prev.locks.len(),
        )
    }
}

/// How many locks `release_products` releases.
pub open spec fn released_count(d: DbState, ids: Seq<u128>, now: i64) -> nat
    decreases ids.len(),
{
    if ids.len() == 0 {
        0
    } else {
        let prev = release_products(d, ids.drop_last(), now);
        released_count(d, ids.drop_last(), now) + db::count_picked(
            prev.locks,
            LockFilter::OnProduct(ids.last()),
            prev.locks.len(),
        )
    }
}

/// The identifiers of the products whose auction has ended at `now` while
/// locks on them are still active.
pub open spec fn ended_ids(d: DbState, now: i64) -> Seq<u128> {
    d.products.filter(db::ended_with_active_locks(d.locks, now)).map_values(|p: Product| p.id)
}

/// The reports, at `now`, of products `ps`.
pub open spec fn responses_of(ps: Seq<Product>, now: i64) -> Seq<ProductResponse> {
    ps.map_values(|p: Product| ProductResponse::of(p, now))
}

/// Placing a bid under a fresh bid identifier keeps bids tracking locks: the
/// new lock belongs to the new bid, which ends up confirmed.
pub proof fn lemma_placed_state_tracks(
    d: DbState,
    req: PlaceBidRequest,
    now: i64,
    bid_id: u128,
    lock_id: u128,
)
    requires
        d.wf(),
        bids_track_locks(d),
        !d.has_bid(bid_id),
    ensures
        bids_track_locks(placed_state(d, req, now, bid_id, lock_id)),
{
    let f = LockFilter::HeldBy(req.product_id, req.user_id);
    let d1 = released_for(d, req, now);
    db::lemma_settle_picked_tracks(d, f, LockStatus::Released, BidStatus::Cancelled, now, d.locks.len());
    db::lemma_settle_picked_keeps_ids(d, f, LockStatus::Released, BidStatus::Cancelled, now, d.locks.len());
    assert(!d1.has_bid(bid_id)) by {
        if d1.has_bid(bid_id) {
            let j = d1.bid_index(bid_id);
            assert(d.bids[j].id == bid_id);
        }
    }
    let e = placed_state(d, req, now, bid_id, lock_id);
    let nb = new_bid(req.product_id, req.user_id, req.bid_price, req.quantity, bid_id, now);
    let nl = new_lock(req.product_id, bid_id, req.user_id, req.quantity, lock_id, now);
    let last = d1.locks.len() as int;
    let nbi = d1.bids.len() as int;
    assert(e.locks == d1.locks.push(nl));
    assert(e.bids == set_bid_status(d1.bids.push(nb), bid_id, BidStatus::Confirmed));
    assert(e.bids[nbi].id == bid_id && e.bids[nbi].status == BidStatus::Confirmed);
    assert forall|a: int, b: int| 0 <= a < b < e.locks.len() implies e.locks[a].bid_id
        != e.locks[b].bid_id by {
        assert(e.locks[a] == d1.locks[a]);
        if b == last {
            assert(d1.has_bid(d1.locks[a].bid_id));
        } else {
            assert(e.locks[b] == d1.locks[b]);
        }
    }
    assert forall|k: int| 0 <= k < e.locks.len() implies e.has_bid(#[trigger] e.locks[k].bid_id) by {
        if k == last {
            assert(e.bids[nbi].id == e.locks[k].bid_id);
        } else {
            assert(e.locks[k] == d1.locks[k]);
            let b = d1.locks[k].bid_id;
            assert(d1.has_bid(b));
            let j = choose|j: int| 0 <= j < d1.bids.len() && d1.bids[j].id == b;
            assert(e.bids[j].id == b);
        }
    }
    assert forall|k: int|
        0 <= k < e.locks.len() && (#[trigger] e.locks[k]).status == LockStatus::Active
            implies exists|j: int|
            0 <= j < e.bids.len() && e.bids[j].id == e.locks[k].bid_id && #[trigger] e.bids[j].status
                == BidStatus::Confirmed by {
        if k == last {
            assert(e.bids[nbi].id == e.locks[k].bid_id);
        } else {
            assert(e.locks[k] == d1.locks[k]);
            let j = choose|j: int|
                0 <= j < d1.bids.len() && d1.bids[j].id == d1.locks[k].bid_id && #[trigger] d1.bids[j].status
                    == BidStatus::Confirmed;
            assert(d1.has_bid(d1.bids[j].id));
            assert(e.bids[j] == d1.bids[j]);
        }
    }
}

/// Placing a bid under a fresh bid identifier keeps every bid without an
/// active lock as it was: the bidder's released locks were active, and the
/// new lock belongs to the new bid.
pub proof fn lemma_placed_state_keeps_settled(
    d: DbState,
    req: PlaceBidRequest,
    now: i64,
    bid_id: u128,
    lock_id: u128,
)
    requires
        d.wf(),
        !d.has_bid(bid_id),
        placed_state(d, req, now, bid_id, lock_id).keyed(),
    ensures
        db::settled_bids_kept(d, placed_state(d, req, now, bid_id, lock_id)),
{
    let f = LockFilter::HeldBy(req.product_id, req.user_id);
    let n = d.locks.len();
    let d1 = released_for(d, req, now);
    let e = placed_state(d, req, now, bid_id, lock_id);
    db::lemma_settle_picked_keeps_settled(d, f, LockStatus::Released, BidStatus::Cancelled, now);
    db::lemma_settle_picked_keyed(d, f, LockStatus::Released, BidStatus::Cancelled, now, n);
    db::lemma_settle_picked_keeps_ids(d, f, LockStatus::Released, BidStatus::Cancelled, now, n);
    let nb = new_bid(req.product_id, req.user_id, req.bid_price, req.quantity, bid_id, now);
    let nl = new_lock(req.product_id, bid_id, req.user_id, req.quantity, lock_id, now);
    assert(e.locks == d1.locks.push(nl));
    assert(e.bids == set_bid_status(d1.bids.push(nb), bid_id, BidStatus::Confirmed));
    assert(!d1.has_bid(bid_id)) by {
        if d1.has_bid(bid_id) {
            let j = d1.bid_index(bid_id);
            assert(d.bids[j].id == bid_id);
        }
    }
    assert forall|j: int| 0 <= j < d1.bids.len() && !d1.bid_has_active_lock(d1.bids[j].id) implies #[trigger] e.bids[j]
        == d1.bids[j] by {
        assert(d1.bids[j].id != bid_id);
    }
    db::lemma_settled_bids_kept_by(d1, e);
    db::lemma_settled_bids_kept_trans(d, d1, e);
}

impl View for AuctionService {
    type V = DbState;

    closed spec fn view(&self) -> DbState {
        self.db@
    }
}

impl AuctionService {
    #[verifier::type_invariant]
    spec fn inv(self) -> bool {
        &&& self.db@.wf()
        &&& bids_track_locks(self.db@)
    }

    /// A service over tables `db`.
    pub fn new(db: Database) -> (s: AuctionService)
        requires
            db@.wf(),
            bids_track_locks(db@),
        ensures
            s@ == db@,
    {
        AuctionService { db }
    }

    /// The tables; they are always well formed, and bids track locks.
    pub fn db(&self) -> (r: &Database)
        ensures
            r@ == self@,
            r@.wf(),
            bids_track_locks(r@),
    {
        proof {
            use_type_invariant(self);
        }
        &self.db
    }

    /// Takes the tables out, leaving empty ones in their place.
    fn take_db(&mut self) -> (d: Database)
        ensures
            d@ == old(self)@,
            d@.wf(),
            bids_track_locks(d@),
    {
        proof {
            use_type_invariant(&*self);
        }
        let mut d = db::init_db();
        std::mem::swap(&mut self.db, &mut d);
        d
    }

    /// Lists a product at `now` under identifier `id`, once the request passes
    /// its checks: positive stock, prices and duration.
    pub fn create_product_at(&mut self, req: &CreateProductRequest, id: u128, now: i64) -> (r:
        AppResult<ProductResponse>)
        requires
            -TIME_BOUND <= now <= TIME_BOUND,
        ensures
            create_product_post(old(self)@, *req, id, now, r, final(self)@),
            final(self)@.wf(),
            lock_history_kept(old(self)@, final(self)@),
            db::live_keys_kept(old(self)@.keys, final(self)@.keys, now),
            db::settled_bids_kept(old(self)@, final(self)@),
    {
        proof {
            use_type_invariant(&*self);
        }
        if req.total_stock <= 0 {
            return Err(AppError::InvalidRequest("Total stock must be greater than 0".to_string()));
        }
        if req.start_price <= 0 {
            return Err(AppError::InvalidRequest("Start price must be greater than 0".to_string()));
        }
        if req.min_increment <= 0 {
            return Err(AppError::InvalidRequest("Min increment must be greater than 0".to_string()));
        }
        if let Some(duration) = req.auction_duration_minutes {
            if duration <= 0 {
                return Err(
                    AppError::InvalidRequest("Auction duration must be greater than 0".to_string()),
                );
            }
        }
        if !db::check_duration(now, req.auction_duration_minutes) {
            return Err(AppError::InvalidRequest("Auction duration is too long".to_string()));
        }
        let mut d = self.take_db();
        let created = db::create_product_at(&mut d, req, id, now);
        self.db = d;
        match created {
            Ok(product) => Ok(ProductResponse::from_product(product, now)),
            Err(e) => Err(e),
        }
    }

    /// Lists a product now, under a fresh identifier.
    pub fn create_product(&mut self, req: &CreateProductRequest) -> (r: AppResult<ProductResponse>)
        ensures
            exists|id: u128, now: i64|
                -TIME_BOUND <= now <= TIME_BOUND && #[trigger] create_product_post(
                    old(self)@,
                    *req,
                    id,
                    now,
                    r,
                    final(self)@,
                ) && db::live_keys_kept(old(self)@.keys, final(self)@.keys, now),
            final(self)@.wf(),
            db::settled_bids_kept(old(self)@, final(self)@),
            lock_history_kept(old(self)@, final(self)@),
    {
        let now = now_millis();
        let id = new_id();
        self.create_product_at(req, id, now)
    }

    /// Product `product_id` as reported at `now`.
    pub fn get_product_at(&self, product_id: u128, now: i64) -> (r: AppResult<ProductResponse>)
        ensures
            r == product_lookup(self@, product_id, now),
    {
        proof {
            use_type_invariant(self);
        }
        match db::get_product(&self.db, product_id) {
            Some(p) => Ok(ProductResponse::from_product(p, now)),
            None => Err(AppError::ProductNotFound),
        }
    }

    /// Product `product_id` as reported now.
    pub fn get_product(&self, product_id: u128) -> (r: AppResult<ProductResponse>)
        ensures
            exists|now: i64|
                -TIME_BOUND <= now <= TIME_BOUND && r == #[trigger] product_lookup(self@, product_id, now),
    {
        let now = now_millis();
        self.get_product_at(product_id, now)
    }

    /// Places the bid that `req` describes at `now`, under bid identifier
    /// `bid_id` and lock identifier `lock_id`. A request whose idempotency key
    /// already stands for a bid is answered with that bid. Otherwise the bid
    /// must be for a product whose auction is ongoing, at no less than its
    /// price plus its minimum increment; the bidder's earlier locks on the
    /// product are released first, and the whole placement is undone if the
    /// stock then available does not cover the quantity.
    pub fn place_bid_at(
        &mut self,
        req: &PlaceBidRequest,
        now: i64,
        bid_id: u128,
        lock_id: u128,
    ) -> (r: AppResult<BidResponse>)
        requires
            -TIME_BOUND <= now <= TIME_BOUND,
        ensures
            place_bid_post(old(self)@, *req, now, bid_id, lock_id, r, final(self)@),
            final(self)@.wf(),
            lock_history_kept(old(self)@, final(self)@),
            db::live_keys_kept(old(self)@.keys, final(self)@.keys, now),
            db::settled_bids_kept(old(self)@, final(self)@),
    {
        proof {
            use_type_invariant(&*self);
        }
        let ghost d = self@;
        if req.quantity <= 0 {
            return Err(AppError::InvalidRequest("Quantity must be greater than 0".to_string()));
        }
        if req.bid_price <= 0 {
            return Err(AppError::InvalidRequest("Bid price must be greater than 0".to_string()));
        }
        let key: Option<&String> = match &req.idempotency_key {
            Some(k) => if k.as_str().unicode_len() > 0 {
                Some(k)
            } else {
                None
            },
            None => None,
        };
        assert(match live_key(*req) {
            Some(k) => key matches Some(kk) && *kk == k,
            None => key is None,
        });
        if let Some(k) = key {
            if let Some(existing) = db::get_idempotency_result_at(&self.db, k.as_str(), now) {
                return self.get_bid(existing);
            }
        }
        let product = match db::get_product(&self.db, req.product_id) {
            Some(p) => p,
            None => return Err(AppError::ProductNotFound),
        };
        let status = product.auction_status(now);
        if status == AuctionStatus::Ended {
            return Err(
                AppError::InvalidRequest("Auction has ended, cannot place bid".to_string()),
            );
        }
        if status == AuctionStatus::Upcoming {
            return Err(AppError::InvalidRequest("Auction has not started yet".to_string()));
        }
        if req.bid_price < product.current_price {
            return Err(AppError::BidPriceTooLow);
        }
        if (req.bid_price as i128) < (product.current_price as i128) + (
        product.min_increment as i128) {
            return Err(AppError::InvalidBidIncrement);
        }
        let mut tx = self.db.duplicate();
        proof {
            db::lemma_wf_picked_fits(
                tx@,
                LockFilter::HeldBy(req.product_id, req.user_id),
                LockStatus::Released,
                BidStatus::Cancelled,
                now,
            );
        }
        db::release_user_active_locks_at(&mut tx, req.product_id, &req.user_id, now);
        let ghost d1 = tx@;
        proof {
            db::lemma_settle_picked_keeps_ids(
                d,
                LockFilter::HeldBy(req.product_id, req.user_id),
                LockStatus::Released,
                BidStatus::Cancelled,
                now,
                d.locks.len(),
            );
            assert(d1 == released_for(d, *req, now));
            let k = d.product_index(req.product_id);
            assert(d1.products[k].id == req.product_id);
            assert(d1.has_product(req.product_id));
            if d.has_bid(bid_id) {
                let m = d.bid_index(bid_id);
                assert(d1.bids[m].id == bid_id);
            }
            if d1.has_bid(bid_id) {
                let m = d1.bid_index(bid_id);
                assert(d.bids[m].id == bid_id);
            }
            if d.has_lock(lock_id) {
                let m = d.lock_index(lock_id);
                assert(d1.locks[m].id == lock_id);
            }
            if d1.has_lock(lock_id) {
                let m = d1.lock_index(lock_id);
                assert(d.locks[m].id == lock_id);
            }
        }
        let after = match db::get_product(&tx, req.product_id) {
            Some(p) => p,
            None => return Err(AppError::ProductNotFound),
        };
        if after.available_stock < req.quantity {
            return Err(AppError::InsufficientStock);
        }
        let bid = match db::create_bid_at(
            &mut tx,
            req.product_id,
            &req.user_id,
            req.bid_price,
            req.quantity,
            bid_id,
            now,
        ) {
            Ok(b) => b,
            Err(e) => return Err(e),
        };
        let ghost d2 = tx@;
        proof {
            assert(d2.bids[d2.bids.len() - 1].id == bid_id);
            assert(d2.has_bid(bid_id));
            assert forall|k: int|
                0 <= k < d2.products.len() && (#[trigger] d2.products[k]).id == req.product_id
                    && StockChange::Reserve(req.quantity).applies(d2.products[k]) implies StockChange::Reserve(
                req.quantity,
            ).fits(d2.products[k]) by {
                assert(db::stock_balanced(d2.products[k], d2.locks));
            }
        }
        let lock = match db::lock_stock_at(
            &mut tx,
            req.product_id,
            bid.id,
            &req.user_id,
            req.quantity,
            lock_id,
            now,
        ) {
            Ok(l) => l,
            Err(e) => return Err(e),
        };
        db::update_product_price_at(&mut tx, req.product_id, req.bid_price, now);
        db::update_bid_status(&mut tx, bid.id, BidStatus::Confirmed);
        if let Some(k) = key {
            db::set_idempotency_result_at(&mut tx, k, bid.id, now);
        }
        proof {
            db::lemma_settle_picked_history(
                d,
                LockFilter::HeldBy(req.product_id, req.user_id),
                LockStatus::Released,
                BidStatus::Cancelled,
                now,
            );
            assert(lock_history_kept(d1, tx@));
            db::lemma_lock_history_trans(d, d1, tx@);
            assert(tx@ == placed_state(d, *req, now, bid_id, lock_id));
            lemma_placed_state_tracks(d, *req, now, bid_id, lock_id);
            lemma_placed_state_keeps_settled(d, *req, now, bid_id, lock_id);
            if let Some(k) = live_key(*req) {
                assert(d1.keys == d.keys);
                assert(tx@.keys == d.keys.filter(KeyFilter::AllBut(k).pred()).push(
                    new_key_record(k, bid_id, now),
                ));
                db::lemma_replace_keeps_live_keys(d.keys, k, new_key_record(k, bid_id, now), now);
            }
        }
        self.db = tx;
        Ok(
            BidResponse {
                id: bid.id,
                product_id: bid.product_id,
                user_id: bid.user_id,
                bid_price: bid.bid_price,
                quantity: bid.quantity,
                status: BidStatus::Confirmed,
                lock_expires_at: lock.expires_at,
                created_at: bid.created_at,
            },
        )
    }

    /// Places the bid that `req` describes now, under fresh identifiers.
    pub fn place_bid(&mut self, req: &PlaceBidRequest) -> (r: AppResult<BidResponse>)
        ensures
            exists|now: i64, bid_id: u128, lock_id: u128|
                -TIME_BOUND <= now <= TIME_BOUND && #[trigger] place_bid_post(
                    old(self)@,
                    *req,
                    now,
                    bid_id,
                    lock_id,
                    r,
                    final(self)@,
                ) && db::live_keys_kept(old(self)@.keys, final(self)@.keys, now),
            final(self)@.wf(),
            db::settled_bids_kept(old(self)@, final(self)@),
            lock_history_kept(old(self)@, final(self)@),
    {
        let now = now_millis();
        let bid_id = new_id();
        let lock_id = new_id();
        self.place_bid_at(req, now, bid_id, lock_id)
    }

    /// The first active lock held for bid `bid_id` of `user_id`, or why the
    /// bid cannot be settled by that user.
    fn owned_confirmed_bid(&self, bid_id: u128, user_id: &str) -> (r: Result<StockLock, BidCheck>)
        ensures
            match self@.find_bid(bid_id) {
                None => r == Err::<StockLock, BidCheck>(BidCheck::NotFound),
                Some(b) => if b.user_id@ != user_id@ {
                    r == Err::<StockLock, BidCheck>(BidCheck::NotOwner)
                } else if b.status != BidStatus::Confirmed {
                    r == Err::<StockLock, BidCheck>(BidCheck::NotConfirmed(b.status))
                } else {
                    match self@.active_lock_of_bid(bid_id) {
                        None => r == Err::<StockLock, BidCheck>(BidCheck::NoLock),
                        Some(l) => r == Ok::<StockLock, BidCheck>(l),
                    }
                },
            },
            r is Ok ==> self@.has_active_lock(r->Ok_0.id) && r->Ok_0 == self@.locks[self@.lock_index(
                r->Ok_0.id,
            )],
    {
        proof {
            use_type_invariant(self);
        }
        let bid = match db::get_bid(&self.db, bid_id) {
            Some(b) => b,
            None => return Err(BidCheck::NotFound),
        };
        if !crate::text::str_eq(bid.user_id.as_str(), user_id) {
            return Err(BidCheck::NotOwner);
        }
        if bid.status != BidStatus::Confirmed {
            return Err(BidCheck::NotConfirmed(bid.status));
        }
        match db::get_active_lock_by_bid(&self.db, bid_id) {
            Some(l) => {
                proof {
                    db::lemma_active_lock_of_bid_row(self@, bid_id);
                }
                Ok(l)
            },
            None => Err(BidCheck::NoLock),
        }
    }

    /// Confirms the purchase of bid `bid_id` for user `user_id` at `now`: the
    /// stock its lock holds is sold.
    pub fn confirm_purchase_at(&mut self, bid_id: u128, user_id: &str, now: i64) -> (r: AppResult<
        (),
    >)
        ensures
            confirm_purchase_post(old(self)@, bid_id, user_id@, now, r, final(self)@),
            final(self)@.wf(),
            lock_history_kept(old(self)@, final(self)@),
            db::live_keys_kept(old(self)@.keys, final(self)@.keys, now),
            db::settled_bids_kept(old(self)@, final(self)@),
    {
        proof {
            use_type_invariant(&*self);
        }
        let ghost d = self@;
        let lock = match self.owned_confirmed_bid(bid_id, user_id) {
            Ok(l) => l,
            Err(BidCheck::NotFound) => return Err(AppError::BidNotFound),
            Err(BidCheck::NotOwner) => return Err(
                AppError::InvalidRequest("Not authorized to confirm this bid".to_string()),
            ),
            Err(BidCheck::NotConfirmed(status)) => {
                let mut m = "Bid status is ".to_string();
                m.append(status.as_str());
                m.append(", cannot confirm");
                return Err(AppError::InvalidRequest(m));
            },
            Err(BidCheck::NoLock) => return Err(AppError::LockExpired),
        };
        if lock.expires_at < now {
            let mut t = self.take_db();
            proof {
                db::lemma_wf_picked_fits(
                    d,
                    LockFilter::ExpiredBefore(now),
                    LockStatus::Expired,
                    BidStatus::Expired,
                    now,
                );
            }
            db::expire_old_locks_at(&mut t, now);
            proof {
                db::lemma_settle_picked_history(
                    d,
                    LockFilter::ExpiredBefore(now),
                    LockStatus::Expired,
                    BidStatus::Expired,
                    now,
                );
                db::lemma_settle_picked_tracks(
                    d,
                    LockFilter::ExpiredBefore(now),
                    LockStatus::Expired,
                    BidStatus::Expired,
                    now,
                    d.locks.len(),
                );
                db::lemma_settle_picked_keeps_ids(
                    d,
                    LockFilter::ExpiredBefore(now),
                    LockStatus::Expired,
                    BidStatus::Expired,
                    now,
                    d.locks.len(),
                );
                db::lemma_settle_picked_keeps_settled(
                    d,
                    LockFilter::ExpiredBefore(now),
                    LockStatus::Expired,
                    BidStatus::Expired,
                    now,
                );
            }
            self.db = t;
            return Err(AppError::LockExpired);
        }
        let mut t = self.take_db();
        proof {
            db::lemma_settle_lock_history(
                d,
                d.lock_index(lock.id),
                LockStatus::Confirmed,
                None,
                true,
                now,
            );
            db::lemma_settle_lock_tracks(d, d.lock_index(lock.id), LockStatus::Confirmed, None, true, now);
        }
        proof {
            db::lemma_wf_settle_fits(d, d.lock_index(lock.id), true);
        }
        match db::confirm_lock_at(&mut t, lock.id, now) {
            Ok(()) => {},
            Err(e) => {
                self.db = t;
                return Err(e);
            },
        }
        let ghost s1 = t@;
        db::update_bid_status(&mut t, bid_id, BidStatus::Confirmed);
        proof {
            db::lemma_set_bid_status_tracks(s1, t@, bid_id, BidStatus::Confirmed);
            db::lemma_active_lock_of_bid_row(d, bid_id);
            db::lemma_settle_lock_keeps_settled(
                d,
                d.lock_index(lock.id),
                LockStatus::Confirmed,
                true,
                now,
                Some(BidStatus::Confirmed),
            );
        }
        self.db = t;
        Ok(())
    }

    /// Confirms the purchase of bid `bid_id` for user `user_id` now.
    pub fn confirm_purchase(&mut self, bid_id: u128, user_id: &str) -> (r: AppResult<()>)
        ensures
            exists|now: i64|
                -TIME_BOUND <= now <= TIME_BOUND && #[trigger] confirm_purchase_post(
                    old(self)@,
                    bid_id,
                    user_id@,
                    now,
                    r,
                    final(self)@,
                ) && db::live_keys_kept(old(self)@.keys, final(self)@.keys, now),
            final(self)@.wf(),
            db::settled_bids_kept(old(self)@, final(self)@),
            lock_history_kept(old(self)@, final(self)@),
    {
        let now = now_millis();
        self.confirm_purchase_at(bid_id, user_id, now)
    }

    /// Cancels bid `bid_id` for user `user_id` at `now`: its lock is released.
    pub fn cancel_bid_at(&mut self, bid_id: u128, user_id: &str, now: i64) -> (r: AppResult<()>)
        ensures
            cancel_bid_post(old(self)@, bid_id, user_id@, now, r, final(self)@),
            final(self)@.wf(),
            lock_history_kept(old(self)@, final(self)@),
            db::live_keys_kept(old(self)@.keys, final(self)@.keys, now),
            db::settled_bids_kept(old(self)@, final(self)@),
    {
        proof {
            use_type_invariant(&*self);
        }
        let ghost d = self@;
        let lock = match self.owned_confirmed_bid(bid_id, user_id) {
            Ok(l) => l,
            Err(BidCheck::NotFound) => return Err(AppError::BidNotFound),
            Err(BidCheck::NotOwner) => return Err(
                AppError::InvalidRequest("Not authorized to cancel this bid".to_string()),
            ),
            Err(BidCheck::NotConfirmed(status)) => {
                let mut m = "Bid status is ".to_string();
                m.append(status.as_str());
                m.append(", cannot cancel");
                return Err(AppError::InvalidRequest(m));
            },
            Err(BidCheck::NoLock) => return Err(
                AppError::InvalidRequest("No active lock for this bid".to_string()),
            ),
        };
        let mut t = self.take_db();
        proof {
            db::lemma_settle_lock_history(
                d,
                d.lock_index(lock.id),
                LockStatus::Released,
                None,
                false,
                now,
            );
            db::lemma_settle_lock_tracks(d, d.lock_index(lock.id), LockStatus::Released, None, false, now);
        }
        proof {
            db::lemma_wf_settle_fits(d, d.lock_index(lock.id), false);
        }
        match db::release_lock_at(&mut t, lock.id, now) {
            Ok(()) => {},
            Err(e) => {
                self.db = t;
                return Err(e);
            },
        }
        let ghost s1 = t@;
        proof {
            let i = d.lock_index(lock.id);
            let c = choose|c: int| is_first_active_of_bid(d.locks, bid_id, c);
            assert(lock.bid_id == bid_id);
            assert forall|k: int|
                0 <= k < s1.locks.len() && (#[trigger] s1.locks[k]).status == LockStatus::Active
                    implies s1.locks[k].bid_id != bid_id by {
                assert(k != i);
                assert(s1.locks[k] == d.locks[k]);
                if k < i {
                    assert(d.locks[k].bid_id != d.locks[i].bid_id);
                } else {
                    assert(d.locks[i].bid_id != d.locks[k].bid_id);
                }
            }
        }
        db::update_bid_status(&mut t, bid_id, BidStatus::Cancelled);
        proof {
            db::lemma_set_bid_status_tracks(s1, t@, bid_id, BidStatus::Cancelled);
            db::lemma_active_lock_of_bid_row(d, bid_id);
            db::lemma_settle_lock_keeps_settled(
                d,
                d.lock_index(lock.id),
                LockStatus::Released,
                false,
                now,
                Some(BidStatus::Cancelled),
            );
        }
        self.db = t;
        Ok(())
    }

    /// Cancels bid `bid_id` for user `user_id` now.
    pub fn cancel_bid(&mut self, bid_id: u128, user_id: &str) -> (r: AppResult<()>)
        ensures
            exists|now: i64|
                -TIME_BOUND <= now <= TIME_BOUND && #[trigger] cancel_bid_post(
                    old(self)@,
                    bid_id,
                    user_id@,
                    now,
                    r,
                    final(self)@,
                ) && db::live_keys_kept(old(self)@.keys, final(self)@.keys, now),
            final(self)@.wf(),
            db::settled_bids_kept(old(self)@, final(self)@),
            lock_history_kept(old(self)@, final(self)@),
    {
        let now = now_millis();
        self.cancel_bid_at(bid_id, user_id, now)
    }

    /// The products of room `room_id` as reported at `now`, newest first.
    pub fn get_products_by_room_at(&self, room_id: &str, now: i64) -> (r: Vec<ProductResponse>)
        ensures
            exists|ps: Seq<Product>|
                #[trigger] responses_of(ps, now) == r@ && db::newest_products_first(ps)
                    && ps.to_multiset() == self@.products.filter(db::in_room(room_id@)).to_multiset(),
    {
        let products = db::get_products_by_room(&self.db, room_id);
        let mut out: Vec<ProductResponse> = Vec::new();
        let mut i: usize = 0;
        while i < products.len()
            invariant
                i <= products@.len(),
                out@ =~= responses_of(products@.take(i as int), now),
            decreases products@.len() - i,
        {
            out.push(ProductResponse::from_product(products[i].copied(), now));
            i = i + 1;
        }
        proof {
            assert(products@.take(products@.len() as int) =~= products@);
        }
        out
    }

    /// The products of room `room_id` as reported now, newest first.
    pub fn get_products_by_room(&self, room_id: &str) -> (r: Vec<ProductResponse>)
        ensures
            exists|now: i64, ps: Seq<Product>|
                -TIME_BOUND <= now <= TIME_BOUND && #[trigger] responses_of(ps, now) == r@
                    && db::newest_products_first(ps) && ps.to_multiset() == self@.products.filter(
                    db::in_room(room_id@),
                ).to_multiset(),
    {
        let now = now_millis();
        self.get_products_by_room_at(room_id, now)
    }

    /// Every lock on product `product_id`, newest first.
    pub fn get_product_locks(&self, product_id: u128) -> (r: AppResult<Vec<StockLock>>)
        ensures
            !self@.has_product(product_id) ==> r == Err::<Vec<StockLock>, AppError>(
                AppError::ProductNotFound,
            ),
            self@.has_product(product_id) ==> r is Ok && db::newest_locks_first(r->Ok_0@)
                && r->Ok_0@.to_multiset() == self@.locks.filter(
                db::lock_query(product_id, None),
            ).to_multiset(),
    {
        proof {
            use_type_invariant(self);
        }
        match db::get_product(&self.db, product_id) {
            Some(_) => Ok(db::get_product_locks(&self.db, product_id)),
            None => Err(AppError::ProductNotFound),
        }
    }

    /// The auction status of product `product_id` at `now`.
    pub fn get_auction_status_at(&self, product_id: u128, now: i64) -> (r: AppResult<AuctionStatus>)
        ensures
            r == match self@.find_product(product_id) {
                Some(p) => Ok::<AuctionStatus, AppError>(p.status_at(now)),
                None => Err(AppError::ProductNotFound),
            },
    {
        proof {
            use_type_invariant(self);
        }
        match db::get_product(&self.db, product_id) {
            Some(p) => Ok(p.auction_status(now)),
            None => Err(AppError::ProductNotFound),
        }
    }

    /// The auction status of product `product_id` now.
    pub fn get_auction_status(&self, product_id: u128) -> (r: AppResult<AuctionStatus>)
        ensures
            !self@.has_product(product_id) ==> r == Err::<AuctionStatus, AppError>(
                AppError::ProductNotFound,
            ),
            self@.has_product(product_id) ==> exists|now: i64|
                -TIME_BOUND <= now <= TIME_BOUND && r == Ok::<AuctionStatus, AppError>(
                    #[trigger] self@.find_product(product_id)->0.status_at(now),
                ),
    {
        let now = now_millis();
        self.get_auction_status_at(product_id, now)
    }

    /// Expires every lock that lapsed before `now`; answers how many.
    pub fn cleanup_expired_locks_at(&mut self, now: i64) -> (count: usize)
        ensures
            final(self)@ == expired_state(old(self)@, now),
            count == db::count_picked(
                old(self)@.locks,
                LockFilter::ExpiredBefore(now),
                old(self)@.locks.len(),
            ),
            final(self)@.wf(),
            forall|k: int|
                0 <= k < final(self)@.locks.len() && (#[trigger] final(self)@.locks[k]).status
                    == LockStatus::Active ==> final(self)@.locks[k].expires_at >= now,
            count + db::active_count(final(self)@.locks) == db::active_count(old(self)@.locks),
            lock_history_kept(old(self)@, final(self)@),
            db::live_keys_kept(old(self)@.keys, final(self)@.keys, now),
            db::settled_bids_kept(old(self)@, final(self)@),
    {
        let mut t = self.take_db();
        let ghost d0 = t@;
        proof {
            db::lemma_wf_picked_fits(
                d0,
                LockFilter::ExpiredBefore(now),
                LockStatus::Expired,
                BidStatus::Expired,
                now,
            );
        }
        let count = db::expire_old_locks_at(&mut t, now);
        proof {
            db::lemma_settle_picked_history(
                d0,
                LockFilter::ExpiredBefore(now),
                LockStatus::Expired,
                BidStatus::Expired,
                now,
            );
            db::lemma_settle_picked_tracks(
                d0,
                LockFilter::ExpiredBefore(now),
                LockStatus::Expired,
                BidStatus::Expired,
                now,
                d0.locks.len(),
            );
            db::lemma_settle_picked_active_count(
                d0,
                LockFilter::ExpiredBefore(now),
                LockStatus::Expired,
                BidStatus::Expired,
                now,
            );
            db::lemma_settle_picked_keeps_ids(
                d0,
                LockFilter::ExpiredBefore(now),
                LockStatus::Expired,
                BidStatus::Expired,
                now,
                d0.locks.len(),
            );
            db::lemma_settle_picked_keeps_settled(
                d0,
                LockFilter::ExpiredBefore(now),
                LockStatus::Expired,
                BidStatus::Expired,
                now,
            );
        }
        self.db = t;
        count
    }

    /// Expires every lock that has lapsed by now; answers how many.
    pub fn cleanup_expired_locks(&mut self) -> (count: usize)
        ensures
            exists|now: i64|
                -TIME_BOUND <= now <= TIME_BOUND && final(self)@ == #[trigger] expired_state(
                    old(self)@,
                    now,
                ) && count == db::count_picked(
                    old(self)@.locks,
                    LockFilter::ExpiredBefore(now),
                    old(self)@.locks.len(),
                ) && db::live_keys_kept(old(self)@.keys, final(self)@.keys, now),
            final(self)@.wf(),
            db::settled_bids_kept(old(self)@, final(self)@),
            lock_history_kept(old(self)@, final(self)@),
    {
        let now = now_millis();
        self.cleanup_expired_locks_at(now)
    }

    /// Deletes the idempotency records that expired before `now`; answers how many.
    pub fn cleanup_expired_idempotency_keys_at(&mut self, now: i64) -> (count: usize)
        ensures
            final(self)@ == (DbState {
                keys: old(self)@.keys.filter(KeyFilter::LiveAt(now).pred()),
                ..old(self)@
            }),
            count == old(self)@.keys.len() - final(self)@.keys.len(),
            final(self)@.wf(),
            lock_history_kept(old(self)@, final(self)@),
            db::live_keys_kept(old(self)@.keys, final(self)@.keys, now),
            db::settled_bids_kept(old(self)@, final(self)@),
    {
        let mut t = self.take_db();
        let ghost d0 = t@;
        let count = db::cleanup_expired_idempotency_keys_at(&mut t, now);
        proof {
            db::lemma_cleanup_keeps_live_keys(d0.keys, now);
        }
        self.db = t;
        count
    }

    /// Deletes the idempotency records that have expired by now; answers how many.
    pub fn cleanup_expired_idempotency_keys(&mut self) -> (count: usize)
        ensures
            exists|now: i64|
                final(self)@ == (DbState {
                    keys: old(self)@.keys.filter(#[trigger] KeyFilter::LiveAt(now).pred()),
                    ..old(self)@
                }) && db::live_keys_kept(old(self)@.keys, final(self)@.keys, now),
            count == old(self)@.keys.len() - final(self)@.keys.len(),
            final(self)@.wf(),
            db::settled_bids_kept(old(self)@, final(self)@),
            lock_history_kept(old(self)@, final(self)@),
    {
        let now = now_millis();
        self.cleanup_expired_idempotency_keys_at(now)
    }

    /// Releases, at `now`, the active locks on every product whose auction has
    /// ended; answers how many.
    pub fn cleanup_ended_auctions_at(&mut self, now: i64) -> (count: usize)
        ensures
            final(self)@ == release_products(old(self)@, ended_ids(old(self)@, now), now),
            count == released_count(old(self)@, ended_ids(old(self)@, now), now),
            final(self)@.wf(),
            count + db::active_count(final(self)@.locks) == db::active_count(old(self)@.locks),
            forall|k: int, j: int|
                0 <= k < final(self)@.locks.len() && (#[trigger] final(self)@.locks[k]).status
                    == LockStatus::Active && 0 <= j < old(self)@.products.len()
                    && (#[trigger] old(self)@.products[j]).id == final(self)@.locks[k].product_id
                    ==> old(self)@.products[j].status_at(now) != AuctionStatus::Ended,
            lock_history_kept(old(self)@, final(self)@),
            db::live_keys_kept(old(self)@.keys, final(self)@.keys, now),
            db::settled_bids_kept(old(self)@, final(self)@),
    {
        proof {
            use_type_invariant(&*self);
        }
        let ghost d0 = self@;
        let ended = db::get_ended_auctions_with_active_locks_at(&self.db, now);
        let lock_count = self.db.locks().len();
        let ghost ids = ended@.map_values(|p: Product| p.id);
        let mut t = self.take_db();
        let mut total: usize = 0;
        let mut i: usize = 0;
        proof {
            db::lemma_active_count_bound(d0.locks);
            assert(ids.take(0) =~= Seq::<u128>::empty());
        }
        while i < ended.len()
            invariant
                i <= ended@.len(),
                ids == ended@.map_values(|p: Product| p.id),
                t@ == release_products(d0, ids.take(i as int), now),
                total == released_count(d0, ids.take(i as int), now),
                t@.wf(),
                t@.keys == d0.keys,
                db::settled_bids_kept(d0, t@),
                t@.locks.len() == d0.locks.len(),
                total + db::active_count(t@.locks) == db::active_count(d0.locks),
                db::active_count(d0.locks) <= d0.locks.len(),
                d0.locks.len() == lock_count,
                lock_history_kept(d0, t@),
                bids_track_locks(t@),
                forall|k: int|
                    0 <= k < d0.locks.len() && (#[trigger] t@.locks[k]).status == LockStatus::Active
                        ==> t@.locks[k] == d0.locks[k] && !ids.take(i as int).contains(
                        t@.locks[k].product_id,
                    ),
            decreases ended@.len() - i,
        {
            let ghost prev = t@;
            proof {
                assert(ids.take(i + 1).drop_last() =~= ids.take(i as int));
                assert(ids.take(i + 1).last() == ended@[i as int].id);
                db::lemma_settle_picked_active_count(
                    prev,
                    LockFilter::OnProduct(ended@[i as int].id),
                    LockStatus::Released,
                    BidStatus::Cancelled,
                    now,
                );
                db::lemma_settle_picked_keeps_ids(
                    prev,
                    LockFilter::OnProduct(ended@[i as int].id),
                    LockStatus::Released,
                    BidStatus::Cancelled,
                    now,
                    prev.locks.len(),
                );
            }
            proof {
                db::lemma_wf_picked_fits(
                    prev,
                    LockFilter::OnProduct(ended@[i as int].id),
                    LockStatus::Released,
                    BidStatus::Cancelled,
                    now,
                );
            }
            let released = db::release_all_active_locks_for_product_at(&mut t, ended[i].id, now);
            proof {
                db::lemma_settle_picked_history(
                    prev,
                    LockFilter::OnProduct(ended@[i as int].id),
                    LockStatus::Released,
                    BidStatus::Cancelled,
                    now,
                );
                db::lemma_lock_history_trans(d0, prev, t@);
                db::lemma_settle_picked_keeps_settled(
                    prev,
                    LockFilter::OnProduct(ended@[i as int].id),
                    LockStatus::Released,
                    BidStatus::Cancelled,
                    now,
                );
                db::lemma_settled_bids_kept_trans(d0, prev, t@);
                db::lemma_settle_picked_tracks(
                    prev,
                    LockFilter::OnProduct(ended@[i as int].id),
                    LockStatus::Released,
                    BidStatus::Cancelled,
                    now,
                    prev.locks.len(),
                );
                db::lemma_settle_picked_locks(
                    prev,
                    LockFilter::OnProduct(ended@[i as int].id),
                    LockStatus::Released,
                    BidStatus::Cancelled,
                    now,
                    prev.locks.len(),
                );
                assert forall|k: int|
                    0 <= k < d0.locks.len() && (#[trigger] t@.locks[k]).status == LockStatus::Active
                        implies t@.locks[k] == d0.locks[k] && !ids.take(i + 1).contains(
                        t@.locks[k].product_id,
                    ) by {
                    assert(t@.locks[k] == prev.locks[k]);
                    assert(ids.take(i + 1) =~= ids.take(i as int).push(ended@[i as int].id));
                }
            }
            total = total + released;
            i = i + 1;
        }
        proof {
            assert(ids.take(ended@.len() as int) =~= ids);
            let fin = t@;
            let pred = db::ended_with_active_locks(d0.locks, now);
            assert forall|k: int, j: int|
                0 <= k < fin.locks.len() && (#[trigger] fin.locks[k]).status == LockStatus::Active
                    && 0 <= j < d0.products.len() && (#[trigger] d0.products[j]).id
                    == fin.locks[k].product_id implies d0.products[j].status_at(now)
                    != AuctionStatus::Ended by {
                if d0.products[j].status_at(now) == AuctionStatus::Ended {
                    assert(fin.locks[k] == d0.locks[k]);
                    assert(d0.locks[k].product_id == d0.products[j].id);
                    assert(pred(d0.products[j]));
                    d0.products.lemma_filter_contains(pred, j);
                    let fl = d0.products.filter(pred);
                    let x = choose|x: int| 0 <= x < fl.len() && fl[x] == d0.products[j];
                    assert(ids[x] == d0.products[j].id);
                    assert(ids.contains(fin.locks[k].product_id));
                }
            }
        }
        self.db = t;
        total
    }

    /// Releases, now, the active locks on every product whose auction has
    /// ended; answers how many.
    pub fn cleanup_ended_auctions(&mut self) -> (count: usize)
        ensures
            exists|now: i64|
                -TIME_BOUND <= now <= TIME_BOUND && final(self)@ == #[trigger] release_products(
                    old(self)@,
                    ended_ids(old(self)@, now),
                    now,
                ) && count == released_count(old(self)@, ended_ids(old(self)@, now), now) && db::live_keys_kept(old(self)@.keys, final(self)@.keys, now),
            final(self)@.wf(),
            db::settled_bids_kept(old(self)@, final(self)@),
            lock_history_kept(old(self)@, final(self)@),
    {
        let now = now_millis();
        self.cleanup_ended_auctions_at(now)
    }

    /// Bid `bid_id` as reported.
    pub fn get_bid(&self, bid_id: u128) -> (r: AppResult<BidResponse>)
        ensures
            r == bid_lookup(self@, bid_id),
    {
        proof {
            use_type_invariant(self);
        }
        let bid = match db::get_bid(&self.db, bid_id) {
            Some(b) => b,
            None => return Err(AppError::BidNotFound),
        };
        let lock = db::get_active_lock_by_bid(&self.db, bid_id);
        let lock_expires_at = match lock {
            Some(l) => l.expires_at,
            None => bid.created_at,
        };
        Ok(
            BidResponse {
                id: bid.id,
                product_id: bid.product_id,
                user_id: bid.user_id,
                bid_price: bid.bid_price,
                quantity: bid.quantity,
                status: bid.status,
                lock_expires_at,
                created_at: bid.created_at,
            },
        )
    }
}

} // verus!
