use auction_lock_service::db;
use auction_lock_service::models::{BidStatus, CreateProductRequest, PlaceBidRequest};
use auction_lock_service::services::AuctionService;

/// Prices are kept in hundredths of the currency unit.
fn price(amount: f64) -> i64 {
    (amount * 100.0).round() as i64
}

fn now_millis() -> i64 {
    chrono::Utc::now().timestamp_millis()
}

fn setup_service() -> AuctionService {
    AuctionService::new(db::init_db())
}

fn product_request(name: &str, description: &str, total_stock: i64, start_price: f64, min_increment: f64, room_id: &str) -> CreateProductRequest {
    CreateProductRequest {
        name: name.to_string(),
        description: description.to_string(),
        total_stock,
        start_price: price(start_price),
        min_increment: price(min_increment),
        room_id: room_id.to_string(),
        auction_duration_minutes: None,
    }
}

fn bid_request(product_id: u128, user_id: &str, bid_price: f64, quantity: i64) -> PlaceBidRequest {
    PlaceBidRequest {
        product_id,
        user_id: user_id.to_string(),
        bid_price: price(bid_price),
        quantity,
        idempotency_key: None,
    }
}

#[test]
fn test_create_product() {
    let mut service = setup_service();
    let req = product_request("测试商品", "这是一个测试商品", 100, 10.0, 1.0, "room_001");

    let product = service.create_product(&req).unwrap();
    assert_eq!(product.name, "测试商品");
    assert_eq!(product.total_stock, 100);
    assert_eq!(product.available_stock, 100);
    assert_eq!(product.locked_stock, 0);
    assert_eq!(product.current_price, price(10.0));
    assert_eq!(product.room_id, "room_001");
}

#[test]
fn test_place_bid_success() {
    let mut service = setup_service();
    let req = product_request("测试商品", "这是一个测试商品", 100, 10.0, 1.0, "room_001");
    let product = service.create_product(&req).unwrap();

    let bid_req = bid_request(product.id, "user_001", 15.0, 2);
    let bid = service.place_bid(&bid_req).unwrap();
    assert_eq!(bid.bid_price, price(15.0));
    assert_eq!(bid.quantity, 2);
    assert_eq!(bid.status, BidStatus::Confirmed);

    let expected_expiry = now_millis() + db::LOCK_DURATION_MINUTES * 60_000;
    assert!(bid.lock_expires_at > now_millis());
    assert!(bid.lock_expires_at <= expected_expiry + 5_000);

    let updated_product = service.get_product(product.id).unwrap();
    assert_eq!(updated_product.available_stock, 98);
    assert_eq!(updated_product.locked_stock, 2);
    assert_eq!(updated_product.current_price, price(15.0));
}

#[test]
fn test_place_bid_insufficient_stock() {
    let mut service = setup_service();
    let req = product_request("测试商品", "这是一个测试商品", 5, 10.0, 1.0, "room_001");
    let product = service.create_product(&req).unwrap();

    let bid_req = bid_request(product.id, "user_001", 15.0, 10);
    let result = service.place_bid(&bid_req);
    assert!(result.is_err());
}

#[test]
fn test_place_bid_price_too_low() {
    let mut service = setup_service();
    let req = product_request("测试商品", "这是一个测试商品", 100, 10.0, 1.0, "room_001");
    let product = service.create_product(&req).unwrap();

    let bid_req = bid_request(product.id, "user_001", 5.0, 1);
    let result = service.place_bid(&bid_req);
    assert!(result.is_err());
}

#[test]
fn test_place_bid_invalid_increment() {
    let mut service = setup_service();
    let req = product_request("测试商品", "这是一个测试商品", 100, 10.0, 5.0, "room_001");
    let product = service.create_product(&req).unwrap();

    let bid_req = bid_request(product.id, "user_001", 12.0, 1);
    let result = service.place_bid(&bid_req);
    assert!(result.is_err());
}

#[test]
fn test_confirm_purchase() {
    let mut service = setup_service();
    let req = product_request("测试商品", "这是一个测试商品", 100, 10.0, 1.0, "room_001");
    let product = service.create_product(&req).unwrap();

    let bid_req = bid_request(product.id, "user_001", 15.0, 3);
    let bid = service.place_bid(&bid_req).unwrap();

    service.confirm_purchase(bid.id, "user_001").unwrap();

    let updated_product = service.get_product(product.id).unwrap();
    assert_eq!(updated_product.total_stock, 97);
    assert_eq!(updated_product.locked_stock, 0);
    assert_eq!(updated_product.available_stock, 97);
}

#[test]
fn test_cancel_bid() {
    let mut service = setup_service();
    let req = product_request("测试商品", "这是一个测试商品", 100, 10.0, 1.0, "room_001");
    let product = service.create_product(&req).unwrap();

    let bid_req = bid_request(product.id, "user_001", 15.0, 3);
    let bid = service.place_bid(&bid_req).unwrap();

    let product_after_bid = service.get_product(product.id).unwrap();
    assert_eq!(product_after_bid.available_stock, 97);
    assert_eq!(product_after_bid.locked_stock, 3);

    service.cancel_bid(bid.id, "user_001").unwrap();

    let updated_product = service.get_product(product.id).unwrap();
    assert_eq!(updated_product.available_stock, 100);
    assert_eq!(updated_product.locked_stock, 0);
    assert_eq!(updated_product.total_stock, 100);
}

#[test]
fn test_expired_locks_cleanup() {
    let mut service = setup_service();
    let req = product_request("测试商品", "这是一个测试商品", 100, 10.0, 1.0, "room_001");
    let product = service.create_product(&req).unwrap();

    let bid_req = bid_request(product.id, "user_001", 15.0, 5);
    let bid = service.place_bid(&bid_req).unwrap();

    let product_after_bid = service.get_product(product.id).unwrap();
    assert_eq!(product_after_bid.available_stock, 95);
    assert_eq!(product_after_bid.locked_stock, 5);

    // An hour after the lock lapsed.
    let later = bid.lock_expires_at + 60 * 60_000;
    let cleaned = service.cleanup_expired_locks_at(later);
    assert_eq!(cleaned, 1);

    let updated_product = service.get_product(product.id).unwrap();
    assert_eq!(updated_product.available_stock, 100);
    assert_eq!(updated_product.locked_stock, 0);
}

#[test]
fn test_concurrent_bids() {
    let mut service = setup_service();
    let req = product_request("限量商品", "限量商品，库存紧张", 5, 100.0, 10.0, "room_001");
    let product = service.create_product(&req).unwrap();

    let mut results = Vec::new();
    for i in 0..10 {
        let bid_req = PlaceBidRequest {
            product_id: product.id,
            user_id: format!("user_{:03}", i),
            bid_price: price(100.0 + (i as f64) * 10.0),
            quantity: 1,
            idempotency_key: None,
        };
        results.push(service.place_bid(&bid_req));
    }
    let success_count = results.iter().filter(|r| r.is_ok()).count();

    assert_eq!(success_count, 5);

    let updated_product = service.get_product(product.id).unwrap();
    assert_eq!(updated_product.available_stock, 0);
    assert_eq!(updated_product.locked_stock, 5);
    assert_eq!(updated_product.total_stock, 5);
}

#[test]
fn test_get_products_by_room() {
    let mut service = setup_service();

    for i in 0..3 {
        let req = product_request(&format!("商品{}", i), &format!("描述{}", i), 10, 10.0, 1.0, "room_001");
        service.create_product(&req).unwrap();
    }

    let req = product_request("其他房间商品", "其他房间", 10, 10.0, 1.0, "room_002");
    service.create_product(&req).unwrap();

    let products = service.get_products_by_room("room_001");
    assert_eq!(products.len(), 3);

    let products = service.get_products_by_room("room_002");
    assert_eq!(products.len(), 1);
}
