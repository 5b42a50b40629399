use auction_lock_service::db;
use auction_lock_service::db::{Database, IdempotencyRecord};
use auction_lock_service::errors::AppError;
use auction_lock_service::handlers::{cancel_bid, confirm_purchase, health_check, CancelBidRequest, ConfirmPurchaseRequest};
use auction_lock_service::models::{
    AuctionStatus, BidStatus, CreateProductRequest, LockStatus, PlaceBidRequest,
};
use auction_lock_service::services::AuctionService;

const MINUTE: i64 = 60_000;
const T0: i64 = 1_700_000_000_000;

fn request(total_stock: i64, start_price: i64, min_increment: i64, minutes: Option<i64>) -> CreateProductRequest {
    CreateProductRequest {
        name: "lamp".to_string(),
        description: "a brass lamp".to_string(),
        total_stock,
        start_price,
        min_increment,
        room_id: "room_a".to_string(),
        auction_duration_minutes: minutes,
    }
}

fn bid(product_id: u128, user: &str, bid_price: i64, quantity: i64, key: Option<&str>) -> PlaceBidRequest {
    PlaceBidRequest {
        product_id,
        user_id: user.to_string(),
        bid_price,
        quantity,
        idempotency_key: key.map(|k| k.to_string()),
    }
}

fn service_with_product(total_stock: i64, minutes: Option<i64>) -> (AuctionService, u128) {
    let mut service = AuctionService::new(db::init_db());
    let p = service.create_product_at(&request(total_stock, 1000, 100, minutes), 7, T0).unwrap();
    (service, p.id)
}

fn invalid_message(e: AppError) -> String {
    match e {
        AppError::InvalidRequest(m) => m,
        other => panic!("expected a refused request, got {:?}", other),
    }
}

#[test]
fn status_names_round_trip() {
    for s in [BidStatus::Pending, BidStatus::Confirmed, BidStatus::Expired, BidStatus::Cancelled] {
        assert_eq!(BidStatus::from_str(s.as_str()), Some(s));
    }
    for s in [LockStatus::Active, LockStatus::Released, LockStatus::Confirmed, LockStatus::Expired] {
        assert_eq!(LockStatus::from_str(s.as_str()), Some(s));
    }
    assert_eq!(BidStatus::Cancelled.as_str(), "Cancelled");
    assert_eq!(LockStatus::Released.as_str(), "Released");
    assert_eq!(BidStatus::from_str("Active"), None);
    assert_eq!(LockStatus::from_str("Pending"), None);
    assert_eq!(BidStatus::from_str("pending"), None);
    assert_eq!(LockStatus::from_str(""), None);
}

#[test]
fn error_answers() {
    assert_eq!(AppError::ProductNotFound.into_response(), (404, "Product not found".to_string()));
    assert_eq!(AppError::InsufficientStock.into_response(), (400, "Insufficient stock".to_string()));
    assert_eq!(AppError::BidPriceTooLow.into_response(), (400, "Bid price too low".to_string()));
    assert_eq!(AppError::InvalidBidIncrement.into_response(), (400, "Invalid bid increment".to_string()));
    assert_eq!(AppError::LockExpired.into_response(), (410, "Lock expired".to_string()));
    assert_eq!(AppError::BidNotFound.into_response(), (404, "Bid not found".to_string()));
    assert_eq!(AppError::InvalidRequest("nope".to_string()).into_response(), (400, "nope".to_string()));
    assert_eq!(
        AppError::DatabaseError("disk full".to_string()).into_response(),
        (500, "Internal server error".to_string())
    );
    assert_eq!(AppError::InternalError.into_response(), (500, "Internal server error".to_string()));
    assert_eq!(AppError::InvalidRequest("nope".to_string()).message(), "Invalid request: nope");
    assert_eq!(AppError::DatabaseError("disk full".to_string()).message(), "Database error: disk full");
}

#[test]
fn product_request_checks() {
    let mut service = AuctionService::new(db::init_db());
    let cases = [
        (request(0, 1000, 100, None), "Total stock must be greater than 0"),
        (request(5, 0, 100, None), "Start price must be greater than 0"),
        (request(5, 1000, 0, None), "Min increment must be greater than 0"),
        (request(5, 1000, 100, Some(0)), "Auction duration must be greater than 0"),
        (request(5, 1000, 100, Some(i64::MAX)), "Auction duration is too long"),
    ];
    for (req, message) in cases {
        let e = service.create_product_at(&req, 1, T0).unwrap_err();
        assert_eq!(invalid_message(e), message);
    }
    assert_eq!(service.db().products().len(), 0);
}

#[test]
fn created_product_terms() {
    let (service, id) = service_with_product(4, Some(30));
    let p = service.get_product_at(id, T0).unwrap();
    assert_eq!(p.id, 7);
    assert_eq!(p.end_time, Some(T0 + 30 * MINUTE));
    assert_eq!(p.created_at, T0);
    assert_eq!(p.available_stock, 4);
    assert_eq!(p.current_price, 1000);
    assert_eq!(p.auction_status, AuctionStatus::Ongoing);
}

#[test]
fn duplicate_product_id_is_refused() {
    let (mut service, _) = service_with_product(4, None);
    let e = service.create_product_at(&request(4, 1000, 100, None), 7, T0).unwrap_err();
    assert!(matches!(e, AppError::DatabaseError(_)));
    assert_eq!(service.db().products().len(), 1);
}

#[test]
fn fresh_identifiers_differ() {
    let mut service = AuctionService::new(db::init_db());
    let a = service.create_product(&request(1, 1000, 100, None)).unwrap();
    let b = service.create_product(&request(1, 1000, 100, None)).unwrap();
    assert_ne!(a.id, b.id);
    assert!(a.created_at > 1_600_000_000_000);
}

#[test]
fn auction_status_over_time() {
    let (mut service, id) = service_with_product(4, Some(30));
    assert_eq!(service.get_auction_status_at(id, T0 - 1).unwrap(), AuctionStatus::Upcoming);
    assert_eq!(service.get_auction_status_at(id, T0 + 29 * MINUTE).unwrap(), AuctionStatus::Ongoing);
    assert_eq!(service.get_auction_status_at(id, T0 + 30 * MINUTE).unwrap(), AuctionStatus::Ended);
    assert_eq!(service.get_auction_status_at(99, T0), Err(AppError::ProductNotFound));

    let e = service.place_bid_at(&bid(id, "u1", 1100, 1, None), T0 + 31 * MINUTE, 1, 2).unwrap_err();
    assert_eq!(invalid_message(e), "Auction has ended, cannot place bid");
    let e = service.place_bid_at(&bid(id, "u1", 1100, 1, None), T0 - MINUTE, 1, 2).unwrap_err();
    assert_eq!(invalid_message(e), "Auction has not started yet");
}

#[test]
fn open_ended_auction_never_ends() {
    let (service, id) = service_with_product(4, None);
    assert_eq!(service.get_auction_status_at(id, i64::MAX).unwrap(), AuctionStatus::Ongoing);
}

#[test]
fn bid_request_checks() {
    let (mut service, id) = service_with_product(4, None);
    let e = service.place_bid_at(&bid(id, "u1", 1100, 0, None), T0, 1, 2).unwrap_err();
    assert_eq!(invalid_message(e), "Quantity must be greater than 0");
    let e = service.place_bid_at(&bid(id, "u1", 0, 1, None), T0, 1, 2).unwrap_err();
    assert_eq!(invalid_message(e), "Bid price must be greater than 0");
    assert_eq!(service.place_bid_at(&bid(99, "u1", 1100, 1, None), T0, 1, 2), Err(AppError::ProductNotFound));
    assert_eq!(service.place_bid_at(&bid(id, "u1", 999, 1, None), T0, 1, 2), Err(AppError::BidPriceTooLow));
    assert_eq!(service.place_bid_at(&bid(id, "u1", 1099, 1, None), T0, 1, 2), Err(AppError::InvalidBidIncrement));
    assert_eq!(service.place_bid_at(&bid(id, "u1", 1100, 5, None), T0, 1, 2), Err(AppError::InsufficientStock));
    assert_eq!(service.db().bids().len(), 0);
    assert_eq!(service.db().locks().len(), 0);
    // Exactly the price plus the increment is enough.
    let placed = service.place_bid_at(&bid(id, "u1", 1100, 4, None), T0, 1, 2).unwrap();
    assert_eq!(placed.lock_expires_at, T0 + db::LOCK_DURATION_MINUTES * MINUTE);
    let p = service.get_product_at(id, T0).unwrap();
    assert_eq!((p.available_stock, p.locked_stock, p.total_stock), (0, 4, 4));
}

#[test]
fn placed_bid_reads_back() {
    let (mut service, id) = service_with_product(4, None);
    let placed = service.place_bid_at(&bid(id, "u1", 1200, 2, None), T0, 11, 12).unwrap();
    assert_eq!(service.get_bid(11), Ok(placed.clone()));
    assert_eq!(placed.status, BidStatus::Confirmed);
    assert_eq!(placed.created_at, T0);
    assert_eq!(service.get_bid(99), Err(AppError::BidNotFound));
}

#[test]
fn identifier_collision_changes_nothing() {
    let (mut service, id) = service_with_product(4, None);
    service.place_bid_at(&bid(id, "u1", 1200, 1, None), T0, 11, 12).unwrap();
    let e = service.place_bid_at(&bid(id, "u2", 1400, 1, None), T0, 11, 13).unwrap_err();
    assert!(matches!(e, AppError::DatabaseError(_)));
    let e = service.place_bid_at(&bid(id, "u2", 1400, 1, None), T0, 14, 12).unwrap_err();
    assert!(matches!(e, AppError::DatabaseError(_)));
    let p = service.get_product_at(id, T0).unwrap();
    assert_eq!((p.available_stock, p.locked_stock, p.current_price), (3, 1, 1200));
    assert_eq!(service.db().bids().len(), 1);
}

#[test]
fn idempotent_bid_is_placed_once() {
    let (mut service, id) = service_with_product(4, None);
    let req = bid(id, "u1", 1200, 2, Some("key-1"));
    let first = service.place_bid_at(&req, T0, 11, 12).unwrap();
    let again = service.place_bid_at(&req, T0 + MINUTE, 21, 22).unwrap();
    assert_eq!(first, again);
    assert_eq!(service.db().bids().len(), 1);
    let p = service.get_product_at(id, T0).unwrap();
    assert_eq!((p.available_stock, p.locked_stock), (2, 2));
}

#[test]
fn idempotency_key_lapses_after_a_day() {
    let (mut service, id) = service_with_product(4, None);
    let req = bid(id, "u1", 1200, 1, Some("key-1"));
    service.place_bid_at(&req, T0, 11, 12).unwrap();
    let day = 24 * 60 * MINUTE;
    let second = service.place_bid_at(&bid(id, "u1", 1300, 1, Some("key-1")), T0 + day, 21, 22).unwrap();
    assert_eq!(second.id, 21);
    assert_eq!(service.db().idempotency_keys().len(), 1);
    assert_eq!(service.db().idempotency_keys()[0].bid_id, 21);
}

#[test]
fn empty_idempotency_key_is_ignored() {
    let (mut service, id) = service_with_product(4, None);
    service.place_bid_at(&bid(id, "u1", 1200, 1, Some("")), T0, 11, 12).unwrap();
    let second = service.place_bid_at(&bid(id, "u2", 1300, 1, Some("")), T0, 21, 22).unwrap();
    assert_eq!(second.id, 21);
    assert_eq!(service.db().idempotency_keys().len(), 0);
}

#[test]
fn rebid_releases_earlier_lock() {
    let (mut service, id) = service_with_product(5, None);
    service.place_bid_at(&bid(id, "u1", 1200, 3, None), T0, 11, 12).unwrap();
    service.place_bid_at(&bid(id, "u1", 1300, 4, None), T0, 21, 22).unwrap();
    let p = service.get_product_at(id, T0).unwrap();
    assert_eq!((p.available_stock, p.locked_stock, p.total_stock), (1, 4, 5));
    assert_eq!(service.get_bid(11).unwrap().status, BidStatus::Cancelled);
    assert_eq!(service.get_bid(11).unwrap().lock_expires_at, T0);
    let locks = service.db().locks();
    assert_eq!(locks[0].status, LockStatus::Released);
    assert_eq!(locks[1].status, LockStatus::Active);
}

#[test]
fn refused_rebid_keeps_earlier_lock() {
    let (mut service, id) = service_with_product(5, None);
    service.place_bid_at(&bid(id, "u1", 1200, 3, None), T0, 11, 12).unwrap();
    assert_eq!(
        service.place_bid_at(&bid(id, "u1", 1300, 6, None), T0, 21, 22),
        Err(AppError::InsufficientStock)
    );
    let p = service.get_product_at(id, T0).unwrap();
    assert_eq!((p.available_stock, p.locked_stock), (2, 3));
    assert_eq!(service.get_bid(11).unwrap().status, BidStatus::Confirmed);
    assert_eq!(service.db().locks()[0].status, LockStatus::Active);
}

#[test]
fn confirm_checks_owner_and_status() {
    let (mut service, id) = service_with_product(5, None);
    service.place_bid_at(&bid(id, "u1", 1200, 2, None), T0, 11, 12).unwrap();
    let e = service.confirm_purchase_at(11, "u2", T0).unwrap_err();
    assert_eq!(invalid_message(e), "Not authorized to confirm this bid");
    assert_eq!(service.confirm_purchase_at(99, "u1", T0), Err(AppError::BidNotFound));
    service.cancel_bid_at(11, "u1", T0).unwrap();
    let e = service.confirm_purchase_at(11, "u1", T0).unwrap_err();
    assert_eq!(invalid_message(e), "Bid status is Cancelled, cannot confirm");
    let e = service.cancel_bid_at(11, "u1", T0).unwrap_err();
    assert_eq!(invalid_message(e), "Bid status is Cancelled, cannot cancel");
}

#[test]
fn confirmed_bid_has_no_lock_to_cancel() {
    let (mut service, id) = service_with_product(5, None);
    service.place_bid_at(&bid(id, "u1", 1200, 2, None), T0, 11, 12).unwrap();
    service.confirm_purchase_at(11, "u1", T0).unwrap();
    assert_eq!(service.db().locks()[0].status, LockStatus::Confirmed);
    let e = service.cancel_bid_at(11, "u2", T0).unwrap_err();
    assert_eq!(invalid_message(e), "Not authorized to cancel this bid");
    let e = service.cancel_bid_at(11, "u1", T0).unwrap_err();
    assert_eq!(invalid_message(e), "No active lock for this bid");
    assert_eq!(service.confirm_purchase_at(11, "u1", T0), Err(AppError::LockExpired));
    let p = service.get_product_at(id, T0).unwrap();
    assert_eq!((p.available_stock, p.locked_stock, p.total_stock), (3, 0, 3));
}

#[test]
fn confirm_after_lapse_expires_locks() {
    let (mut service, id) = service_with_product(5, None);
    let placed = service.place_bid_at(&bid(id, "u1", 1200, 2, None), T0, 11, 12).unwrap();
    assert_eq!(
        service.confirm_purchase_at(11, "u1", placed.lock_expires_at + 1),
        Err(AppError::LockExpired)
    );
    assert_eq!(service.get_bid(11).unwrap().status, BidStatus::Expired);
    assert_eq!(service.db().locks()[0].status, LockStatus::Expired);
    let p = service.get_product_at(id, T0).unwrap();
    assert_eq!((p.available_stock, p.locked_stock, p.total_stock), (5, 0, 5));
}

#[test]
fn success_answers() {
    let (mut service, id) = service_with_product(5, None);
    let a = service.place_bid(&bid(id, "u1", 1200, 2, None)).unwrap();
    let b = service.place_bid(&bid(id, "u2", 1300, 2, None)).unwrap();
    let ok = confirm_purchase(&mut service, a.id, &ConfirmPurchaseRequest { user_id: "u1".to_string() }).unwrap();
    assert!(ok.success);
    assert_eq!(ok.message, "Purchase confirmed successfully");
    let ok = cancel_bid(&mut service, b.id, &CancelBidRequest { user_id: "u2".to_string() }).unwrap();
    assert_eq!(ok.message, "Bid cancelled successfully");
    let refused = cancel_bid(&mut service, b.id, &CancelBidRequest { user_id: "u2".to_string() });
    assert!(refused.is_err());
    let p = service.get_product(id).unwrap();
    assert_eq!((p.available_stock, p.locked_stock, p.total_stock), (3, 0, 3));
}

#[test]
fn locks_are_listed_newest_first() {
    let (mut service, id) = service_with_product(9, None);
    service.place_bid_at(&bid(id, "u1", 1200, 1, None), T0, 11, 12).unwrap();
    service.place_bid_at(&bid(id, "u2", 1300, 1, None), T0 + 2 * MINUTE, 21, 22).unwrap();
    service.place_bid_at(&bid(id, "u3", 1400, 1, None), T0 + MINUTE, 31, 32).unwrap();
    let locks = service.get_product_locks(id).unwrap();
    let order: Vec<u128> = locks.iter().map(|l| l.id).collect();
    assert_eq!(order, vec![22, 32, 12]);
    assert_eq!(service.get_product_locks(99), Err(AppError::ProductNotFound));
    let mine = db::get_active_locks_by_user_and_product(service.db(), id, "u2");
    assert_eq!(mine.len(), 1);
    assert_eq!(mine[0].bid_id, 21);
}

#[test]
fn products_are_listed_newest_first() {
    let mut service = AuctionService::new(db::init_db());
    service.create_product_at(&request(1, 1000, 100, None), 1, T0 + 2).unwrap();
    service.create_product_at(&request(1, 1000, 100, None), 2, T0 + 5).unwrap();
    service.create_product_at(&request(1, 1000, 100, None), 3, T0 + 1).unwrap();
    let listed = service.get_products_by_room_at("room_a", T0 + 10);
    let order: Vec<u128> = listed.iter().map(|p| p.id).collect();
    assert_eq!(order, vec![2, 1, 3]);
    assert!(service.get_products_by_room_at("room_b", T0).is_empty());
}

#[test]
fn ended_auctions_give_back_their_stock() {
    let (mut service, id) = service_with_product(5, Some(10));
    service.place_bid_at(&bid(id, "u1", 1200, 2, None), T0, 11, 12).unwrap();
    assert_eq!(service.cleanup_ended_auctions_at(T0 + 5 * MINUTE), 0);
    assert_eq!(service.cleanup_ended_auctions_at(T0 + 10 * MINUTE), 1);
    assert_eq!(service.get_bid(11).unwrap().status, BidStatus::Cancelled);
    assert_eq!(service.db().locks()[0].status, LockStatus::Released);
    let p = service.get_product_at(id, T0).unwrap();
    assert_eq!((p.available_stock, p.locked_stock), (5, 0));
    assert_eq!(service.cleanup_ended_auctions_at(T0 + 20 * MINUTE), 0);
}

#[test]
fn expired_keys_are_deleted() {
    let (mut service, id) = service_with_product(5, None);
    service.place_bid_at(&bid(id, "u1", 1200, 1, Some("k1")), T0, 11, 12).unwrap();
    service.place_bid_at(&bid(id, "u2", 1300, 1, Some("k2")), T0 + 60 * MINUTE, 21, 22).unwrap();
    let day = 24 * 60 * MINUTE;
    assert_eq!(service.cleanup_expired_idempotency_keys_at(T0 + day), 0);
    assert_eq!(service.cleanup_expired_idempotency_keys_at(T0 + day + 1), 1);
    assert_eq!(service.db().idempotency_keys()[0].key, "k2");
    assert_eq!(service.cleanup_expired_idempotency_keys(), 1);
}

#[test]
fn cleanup_counts_only_lapsed_locks() {
    let (mut service, id) = service_with_product(5, None);
    service.place_bid_at(&bid(id, "u1", 1200, 1, None), T0, 11, 12).unwrap();
    service.place_bid_at(&bid(id, "u2", 1300, 1, None), T0 + 10 * MINUTE, 21, 22).unwrap();
    let lapse = T0 + db::LOCK_DURATION_MINUTES * MINUTE;
    assert_eq!(service.cleanup_expired_locks_at(lapse), 0);
    assert_eq!(service.cleanup_expired_locks_at(lapse + 1), 1);
    assert_eq!(service.get_bid(11).unwrap().status, BidStatus::Expired);
    assert_eq!(service.get_bid(21).unwrap().status, BidStatus::Confirmed);
    let p = service.get_product_at(id, T0).unwrap();
    assert_eq!((p.available_stock, p.locked_stock), (4, 1));
}

#[test]
fn health_reports_the_time() {
    let h = health_check();
    assert_eq!(h.status, "ok");
    let t = chrono::DateTime::parse_from_rfc3339(&h.timestamp).unwrap();
    let drift = (chrono::Utc::now().timestamp_millis() - t.timestamp_millis()).abs();
    assert!(drift < 60_000);
}

#[test]
fn lock_stock_moves_only_available_stock() {
    let mut d = db::init_db();
    let p = db::create_product_at(&mut d, &request(3, 1000, 100, None), 1, T0).unwrap();
    let b = db::create_bid_at(&mut d, p.id, &"u1".to_string(), 1100, 2, 5, T0).unwrap();
    let l = db::lock_stock_at(&mut d, p.id, b.id, &"u1".to_string(), 2, 9, T0).unwrap();
    assert_eq!(l.expires_at, T0 + 15 * MINUTE);
    assert_eq!(db::get_product(&d, 1).unwrap().available_stock, 1);
    assert_eq!(db::get_active_lock_by_bid(&d, 5).unwrap().id, 9);
    // Not enough available: the product is left alone, the lock is still recorded.
    db::lock_stock_at(&mut d, p.id, b.id, &"u1".to_string(), 2, 10, T0).unwrap();
    let after = db::get_product(&d, 1).unwrap();
    assert_eq!((after.available_stock, after.locked_stock), (1, 2));
    assert_eq!(d.locks().len(), 2);
    assert!(matches!(db::release_lock_at(&mut d, 77, T0), Err(AppError::DatabaseError(_))));
}

#[test]
fn restore_takes_only_balanced_tables() {
    let (mut service, id) = service_with_product(5, None);
    service.place_bid_at(&bid(id, "u1", 1200, 2, Some("k")), T0, 11, 12).unwrap();
    let d = service.db();
    let copy = Database::restore(
        d.products().clone(),
        d.bids().clone(),
        d.locks().clone(),
        d.idempotency_keys().clone(),
    );
    assert!(copy.is_some());
    let mut products = d.products().clone();
    products[0].locked_stock = 1;
    products[0].available_stock = 4;
    assert!(Database::restore(products, d.bids().clone(), d.locks().clone(), d.idempotency_keys().clone()).is_none());
    let mut bids = d.bids().clone();
    bids[0].status = BidStatus::Cancelled;
    assert!(Database::restore(d.products().clone(), bids, d.locks().clone(), d.idempotency_keys().clone()).is_none());
    let mut keys: Vec<IdempotencyRecord> = d.idempotency_keys().clone();
    keys.push(keys[0].clone());
    assert!(Database::restore(d.products().clone(), d.bids().clone(), d.locks().clone(), keys).is_none());
}

#[test]
fn listing_now_succeeds_and_refuses_endless_auctions() {
    let mut d = db::init_db();
    let p = db::create_product(&mut d, &request(4, 1000, 100, None)).unwrap();
    assert_eq!((p.available_stock, p.locked_stock, p.total_stock), (4, 0, 4));
    assert_eq!(p.end_time, None);
    assert_eq!(db::get_product(&d, p.id).unwrap().name, "lamp");
    let too_long = db::create_product(&mut d, &request(4, 1000, 100, Some(i64::MAX))).unwrap_err();
    assert_eq!(invalid_message(too_long), "Auction duration is too long");
    let past_calendar = db::create_product(&mut d, &request(4, 1000, 100, Some(140_000_000_000))).unwrap_err();
    assert_eq!(invalid_message(past_calendar), "Auction duration is too long");
    assert_eq!(d.products().len(), 1);
}

#[test]
fn auction_end_must_be_a_calendar_date() {
    let mut service = AuctionService::new(db::init_db());
    let e = service.create_product_at(&request(4, 1000, 100, Some(140_000_000_000)), 1, T0).unwrap_err();
    assert_eq!(invalid_message(e), "Auction duration is too long");
    let p = service.create_product_at(&request(4, 1000, 100, Some(100_000_000_000)), 2, T0).unwrap();
    assert_eq!(p.end_time, Some(T0 + 100_000_000_000 * MINUTE));
}

#[test]
fn bid_recorded_now_is_pending() {
    let mut d = db::init_db();
    db::create_product_at(&mut d, &request(4, 1000, 100, None), 3, T0).unwrap();
    let b = db::create_bid(&mut d, 3, &"u1".to_string(), 1500, 2).unwrap();
    assert_eq!(b.status, BidStatus::Pending);
    assert_eq!((b.product_id, b.bid_price, b.quantity), (3, 1500, 2));
    assert_eq!(db::get_bid(&d, b.id).unwrap().user_id, "u1");
    assert_eq!(d.bids().len(), 1);
}

#[test]
fn own_locks_cover_a_larger_rebid() {
    let (mut service, id) = service_with_product(5, None);
    service.place_bid_at(&bid(id, "u1", 1200, 3, None), T0, 11, 12).unwrap();
    // Two available and three held by u1's own lock cover a bid of five.
    service.place_bid_at(&bid(id, "u1", 1300, 5, None), T0, 21, 22).unwrap();
    let p = service.get_product_at(id, T0).unwrap();
    assert_eq!((p.available_stock, p.locked_stock, p.total_stock), (0, 5, 5));
    assert_eq!(p.current_price, 1300);
    assert_eq!(service.get_bid(11).unwrap().status, BidStatus::Cancelled);
    assert_eq!(service.db().locks()[0].status, LockStatus::Released);
}

#[test]
fn refused_bids_keep_totals_and_prices() {
    let (mut service, id) = service_with_product(5, None);
    service.place_bid_at(&bid(id, "u1", 1200, 2, None), T0, 11, 12).unwrap();
    assert_eq!(service.place_bid_at(&bid(id, "u2", 1100, 1, None), T0, 21, 22), Err(AppError::BidPriceTooLow));
    assert_eq!(service.place_bid_at(&bid(id, "u2", 1250, 1, None), T0, 21, 22), Err(AppError::InvalidBidIncrement));
    let p = service.get_product_at(id, T0).unwrap();
    assert_eq!((p.current_price, p.total_stock, p.available_stock, p.locked_stock), (1200, 5, 3, 2));
}

#[test]
fn place_then_cancel_restores_stock() {
    let (mut service, id) = service_with_product(5, None);
    let before = service.get_product_at(id, T0).unwrap();
    service.place_bid_at(&bid(id, "u1", 1400, 3, None), T0, 11, 12).unwrap();
    service.cancel_bid_at(11, "u1", T0 + MINUTE).unwrap();
    let after = service.get_product_at(id, T0).unwrap();
    assert_eq!(
        (after.available_stock, after.locked_stock, after.total_stock),
        (before.available_stock, before.locked_stock, before.total_stock)
    );
    assert_eq!(after.current_price, 1400);
    assert_eq!(service.get_bid(11).unwrap().status, BidStatus::Cancelled);
    assert_eq!(service.db().locks()[0].status, LockStatus::Released);
}

#[test]
fn second_confirm_sells_nothing_more() {
    let (mut service, id) = service_with_product(5, None);
    service.place_bid_at(&bid(id, "u1", 1200, 2, None), T0, 11, 12).unwrap();
    service.confirm_purchase_at(11, "u1", T0).unwrap();
    assert_eq!(service.confirm_purchase_at(11, "u1", T0 + MINUTE), Err(AppError::LockExpired));
    let p = service.get_product_at(id, T0).unwrap();
    assert_eq!((p.available_stock, p.locked_stock, p.total_stock), (3, 0, 3));
}

#[test]
fn lock_then_release_round_trip() {
    let mut d = db::init_db();
    let p = db::create_product_at(&mut d, &request(3, 1000, 100, None), 1, T0).unwrap();
    let b = db::create_bid_at(&mut d, p.id, &"u1".to_string(), 1100, 2, 5, T0).unwrap();
    let l = db::lock_stock_at(&mut d, p.id, b.id, &"u1".to_string(), 2, 9, T0).unwrap();
    db::release_lock_at(&mut d, l.id, T0 + MINUTE).unwrap();
    let after = db::get_product(&d, 1).unwrap();
    assert_eq!((after.available_stock, after.locked_stock), (3, 0));
    assert_eq!(d.locks()[0].status, LockStatus::Released);
    assert!(matches!(db::release_lock_at(&mut d, l.id, T0 + MINUTE), Err(AppError::DatabaseError(_))));
    assert_eq!(db::get_product(&d, 1).unwrap().available_stock, 3);
}

#[test]
fn later_request_with_same_key_is_answered_from_the_key() {
    let (mut service, id) = service_with_product(5, None);
    let first = service.place_bid_at(&bid(id, "u1", 1200, 2, Some("k1")), T0, 11, 12).unwrap();
    service.cleanup_expired_idempotency_keys_at(T0 + 60 * MINUTE);
    let other = bid(id, "u9", 5000, 1, Some("k1"));
    let again = service.place_bid_at(&other, T0 + 120 * MINUTE, 21, 22).unwrap();
    assert_eq!(again.id, first.id);
    assert_eq!(again.user_id, "u1");
    assert_eq!(service.db().bids().len(), 1);
    assert_eq!(service.get_product_at(id, T0).unwrap().current_price, 1200);
}

#[test]
fn recorded_key_answers_until_it_expires() {
    let mut d = db::init_db();
    db::set_idempotency_result_at(&mut d, &"k".to_string(), 4, T0);
    db::set_idempotency_result_at(&mut d, &"k".to_string(), 5, T0 + MINUTE);
    assert_eq!(db::get_idempotency_result_at(&d, "k", T0 + 2 * MINUTE), Some(5));
    assert_eq!(db::get_idempotency_result_at(&d, "k", T0 + MINUTE + 24 * 60 * MINUTE - 1), Some(5));
    assert_eq!(db::get_idempotency_result_at(&d, "k", T0 + MINUTE + 24 * 60 * MINUTE), None);
    assert_eq!(d.idempotency_keys().len(), 1);
}

#[test]
fn product_with_negative_stock_reads_back() {
    let mut d = db::init_db();
    let p = db::create_product_at(&mut d, &request(-3, 1000, 100, None), 4, T0).unwrap();
    assert_eq!((p.available_stock, p.locked_stock, p.total_stock), (-3, 0, -3));
    assert_eq!(db::get_product(&d, 4), Some(p.clone()));
    db::update_product_price_at(&mut d, 4, 1500, T0 + MINUTE);
    assert_eq!(db::get_product(&d, 4).unwrap().current_price, 1500);
}

#[test]
fn zero_and_negative_locks_release_back() {
    let mut d = db::init_db();
    db::create_product_at(&mut d, &request(3, 1000, 100, None), 1, T0).unwrap();
    db::create_bid_at(&mut d, 1, &"u1".to_string(), 1100, 0, 5, T0).unwrap();
    let zero = db::lock_stock_at(&mut d, 1, 5, &"u1".to_string(), 0, 9, T0).unwrap();
    let negative = db::lock_stock_at(&mut d, 1, 5, &"u1".to_string(), -2, 10, T0).unwrap();
    let mid = db::get_product(&d, 1).unwrap();
    assert_eq!((mid.available_stock, mid.locked_stock), (5, -2));
    db::release_lock_at(&mut d, zero.id, T0 + MINUTE).unwrap();
    db::release_lock_at(&mut d, negative.id, T0 + MINUTE).unwrap();
    let after = db::get_product(&d, 1).unwrap();
    assert_eq!((after.available_stock, after.locked_stock), (3, 0));
    assert_eq!(d.locks()[0].status, LockStatus::Released);
    assert_eq!(d.locks()[1].status, LockStatus::Released);
}

#[test]
fn foreign_keys_refuse_missing_rows() {
    let mut d = db::init_db();
    let e = db::create_bid_at(&mut d, 42, &"u1".to_string(), 1100, 1, 5, T0).unwrap_err();
    assert_eq!(e, AppError::DatabaseError("FOREIGN KEY constraint failed".to_string()));
    assert_eq!(d.bids().len(), 0);
    db::create_product_at(&mut d, &request(3, 1000, 100, None), 1, T0).unwrap();
    let e = db::lock_stock_at(&mut d, 1, 77, &"u1".to_string(), 2, 9, T0).unwrap_err();
    assert_eq!(e, AppError::DatabaseError("FOREIGN KEY constraint failed".to_string()));
    assert_eq!(d.locks().len(), 0);
    // The stock moved before the lock was refused, as the separate update did.
    assert_eq!(db::get_product(&d, 1).unwrap().available_stock, 1);
}

#[test]
fn settling_a_missing_lock_finds_no_row() {
    let mut d = db::init_db();
    let message = "no rows returned by a query that expected to return at least one row".to_string();
    assert_eq!(db::confirm_lock_at(&mut d, 3, T0), Err(AppError::DatabaseError(message.clone())));
    assert_eq!(db::release_lock_at(&mut d, 3, T0), Err(AppError::DatabaseError(message)));
}
