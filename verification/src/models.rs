//! Products, bids, stock locks, their statuses and the auction status.
use vstd::prelude::*;

use crate::clock::{now_millis, TIME_BOUND};
use crate::text::str_eq;

verus! {

/// A product put up for auction. Prices are amounts in the smallest unit of
/// the currency; instants are milliseconds since the Unix epoch.
#[derive(Clone, Debug, PartialEq, Eq)]
pub struct Product {
    pub id: u128,
    pub name: String,
    pub description: String,
    pub total_stock: i64,
    pub available_stock: i64,
    pub locked_stock: i64,
    pub start_price: i64,
    pub current_price: i64,
    pub min_increment: i64,
    pub room_id: String,
    pub end_time: Option<i64>,
    pub created_at: i64,
    pub updated_at: i64,
}

/// What a seller asks for when listing a product.
#[derive(Clone, Debug, PartialEq, Eq)]
pub struct CreateProductRequest {
    pub name: String,
    pub description: String,
    pub total_stock: i64,
    pub start_price: i64,
    pub min_increment: i64,
    pub room_id: String,
    pub auction_duration_minutes: Option<i64>,
}

/// A product as it is reported to clients, with its auction status.
#[derive(Clone, Debug, PartialEq, Eq)]
pub struct ProductResponse {
    pub id: u128,
    pub name: String,
    pub description: String,
    pub total_stock: i64,
    pub available_stock: i64,
    pub locked_stock: i64,
    pub start_price: i64,
    pub current_price: i64,
    pub min_increment: i64,
    pub room_id: String,
    pub end_time: Option<i64>,
    pub auction_status: AuctionStatus,
    pub created_at: i64,
}

/// A bid as it is recorded.
#[derive(Clone, Debug, PartialEq, Eq)]
pub struct BidRecord {
    pub id: u128,
    pub product_id: u128,
    pub user_id: String,
    pub bid_price: i64,
    pub quantity: i64,
    pub status: BidStatus,
    pub created_at: i64,
}

/// What a bidder sends to place a bid.
#[derive(Clone, Debug, PartialEq, Eq)]
pub struct PlaceBidRequest {
    pub product_id: u128,
    pub user_id: String,
    pub bid_price: i64,
    pub quantity: i64,
    pub idempotency_key: Option<String>,
}

/// A bid as it is reported to clients, with the expiry of its stock lock.
#[derive(Clone, Debug, PartialEq, Eq)]
pub struct BidResponse {
    pub id: u128,
    pub product_id: u128,
    pub user_id: String,
    pub bid_price: i64,
    pub quantity: i64,
    pub status: BidStatus,
    pub lock_expires_at: i64,
    pub created_at: i64,
}

/// Stock held back for one bid until it is confirmed, released or expires.
#[derive(Clone, Debug, PartialEq, Eq)]
pub struct StockLock {
    pub id: u128,
    pub product_id: u128,
    pub bid_id: u128,
    pub user_id: String,
    pub quantity: i64,
    pub locked_at: i64,
    pub expires_at: i64,
    pub status: LockStatus,
}

/// The status of an auction at instant `now`: one without an end time runs
/// for ever; otherwise it is upcoming before its creation, ongoing until its
/// end time and ended from then on.
pub open spec fn auction_status_at(end_time: Option<i64>, created_at: i64, now: i64) -> AuctionStatus {
    match end_time {
        None => AuctionStatus::Ongoing,
        Some(end) => if now < created_at {
            AuctionStatus::Upcoming
        } else if now < end {
            AuctionStatus::Ongoing
        } else {
            AuctionStatus::Ended
        },
    }
}

impl Product {
    pub open spec fn status_at(self, now: i64) -> AuctionStatus {
        auction_status_at(self.end_time, self.created_at, now)
    }

    /// The auction status at the instant `now`.
    pub fn auction_status(&self, now: i64) -> (r: AuctionStatus)
        ensures
            r == self.status_at(now),
    {
        match self.end_time {
            None => AuctionStatus::Ongoing,
            Some(end_time) => {
                if now < self.created_at {
                    AuctionStatus::Upcoming
                } else if now < end_time {
                    AuctionStatus::Ongoing
                } else {
                    AuctionStatus::Ended
                }
            },
        }
    }

    /// The auction status now, by the system clock.
    pub fn get_auction_status(&self) -> (r: AuctionStatus)
        ensures
            exists|now: i64| -TIME_BOUND <= now <= TIME_BOUND && r == self.status_at(now),
            self.end_time is None ==> r == AuctionStatus::Ongoing,
    {
        let now = now_millis();
        self.auction_status(now)
    }

    /// A field-by-field copy.
    pub fn copied(&self) -> (r: Product)
        ensures
            r == *self,
    {
        Product {
            id: self.id,
            name: self.name.clone(),
            description: self.description.clone(),
            total_stock: self.total_stock,
            available_stock: self.available_stock,
            locked_stock: self.locked_stock,
            start_price: self.start_price,
            current_price: self.current_price,
            min_increment: self.min_increment,
            room_id: self.room_id.clone(),
            end_time: self.end_time,
            created_at: self.created_at,
            updated_at: self.updated_at,
        }
    }
}

impl ProductResponse {
    /// The report of product `p` at instant `now`.
    pub open spec fn of(p: Product, now: i64) -> ProductResponse {
        ProductResponse {
            id: p.id,
            name: p.name,
            description: p.description,
            total_stock: p.total_stock,
            available_stock: p.available_stock,
            locked_stock: p.locked_stock,
            start_price: p.start_price,
            current_price: p.current_price,
            min_increment: p.min_increment,
            room_id: p.room_id,
            end_time: p.end_time,
            auction_status: p.status_at(now),
            created_at: p.created_at,
        }
    }

    pub fn from_product(p: Product, now: i64) -> (r: ProductResponse)
        ensures
            r == ProductResponse::of(p, now),
    {
        let auction_status = p.auction_status(now);
        ProductResponse {
            id: p.id,
            name: p.name,
            description: p.description,
            total_stock: p.total_stock,
            available_stock: p.available_stock,
            locked_stock: p.locked_stock,
            start_price: p.start_price,
            current_price: p.current_price,
            min_increment: p.min_increment,
            room_id: p.room_id,
            end_time: p.end_time,
            auction_status,
            created_at: p.created_at,
        }
    }
}

impl BidRecord {
    /// A field-by-field copy.
    pub fn copied(&self) -> (r: BidRecord)
        ensures
            r == *self,
    {
        BidRecord {
            id: self.id,
            product_id: self.product_id,
            user_id: self.user_id.clone(),
            bid_price: self.bid_price,
            quantity: self.quantity,
            status: self.status,
            created_at: self.created_at,
        }
    }
}

impl StockLock {
    /// A field-by-field copy.
    pub fn copied(&self) -> (r: StockLock)
        ensures
            r == *self,
    {
        StockLock {
            id: self.id,
            product_id: self.product_id,
            bid_id: self.bid_id,
            user_id: self.user_id.clone(),
            quantity: self.quantity,
            locked_at: self.locked_at,
            expires_at: self.expires_at,
            status: self.status,
        }
    }
}

/// Where an auction stands relative to a point in time.
#[derive(Clone, Copy, Debug, PartialEq, Eq, Structural)]
pub enum AuctionStatus {
    Upcoming,
    Ongoing,
    Ended,
}

/// Life cycle of a bid.
#[derive(Clone, Copy, Debug, PartialEq, Eq, Structural)]
pub enum BidStatus {
    Pending,
    Confirmed,
    Expired,
    Cancelled,
}

/// Life cycle of a stock lock.
#[derive(Clone, Copy, Debug, PartialEq, Eq, Structural)]
pub enum LockStatus {
    Active,
    Released,
    Confirmed,
    Expired,
}

impl BidStatus {
    /// The name under which the status is stored.
    pub open spec fn name(self) -> Seq<char> {
        match self {
            BidStatus::Pending => "Pending"@,
            BidStatus::Confirmed => "Confirmed"@,
            BidStatus::Expired => "Expired"@,
            BidStatus::Cancelled => "Cancelled"@,
        }
    }

    /// The status whose name is `s`, if any.
    pub open spec fn parse(s: Seq<char>) -> Option<BidStatus> {
        if s == "Pending"@ {
            Some(BidStatus::Pending)
        } else if s == "Confirmed"@ {
            Some(BidStatus::Confirmed)
        } else if s == "Expired"@ {
            Some(BidStatus::Expired)
        } else if s == "Cancelled"@ {
            Some(BidStatus::Cancelled)
        } else {
            None
        }
    }

    pub fn as_str(&self) -> (r: &'static str)
        ensures
            r@ == self.name(),
    {
        match self {
            BidStatus::Pending => "Pending",
            BidStatus::Confirmed => "Confirmed",
            BidStatus::Expired => "Expired",
            BidStatus::Cancelled => "Cancelled",
        }
    }

    pub fn from_str(s: &str) -> (r: Option<BidStatus>)
        ensures
            r == BidStatus::parse(s@),
    {
        if str_eq(s, "Pending") {
            Some(BidStatus::Pending)
        } else if str_eq(s, "Confirmed") {
            Some(BidStatus::Confirmed)
        } else if str_eq(s, "Expired") {
            Some(BidStatus::Expired)
        } else if str_eq(s, "Cancelled") {
            Some(BidStatus::Cancelled)
        } else {
            None
        }
    }

    /// Reading back the stored name of a status gives the status.
    pub proof fn lemma_name_round_trip(self)
        ensures
            BidStatus::parse(self.name()) == Some(self),
    {
        reveal_strlit("Pending");
        reveal_strlit("Confirmed");
        reveal_strlit("Expired");
        reveal_strlit("Cancelled");
        assert("Pending"@[0] != "Confirmed"@[0]);
        assert("Pending"@[0] != "Expired"@[0]);
        assert("Pending"@[0] != "Cancelled"@[0]);
        assert("Confirmed"@[0] != "Expired"@[0]);
        assert("Confirmed"@[1] != "Cancelled"@[1]);
        assert("Expired"@[0] != "Cancelled"@[0]);
    }

    /// A name that parses is the stored name of the status it parses to.
    pub proof fn lemma_parse_inverse(s: Seq<char>)
        ensures
            BidStatus::parse(s) matches Some(st) ==> st.name() == s,
    {
    }
}

impl LockStatus {
    /// The name under which the status is stored.
    pub open spec fn name(self) -> Seq<char> {
        match self {
            LockStatus::Active => "Active"@,
            LockStatus::Released => "Released"@,
            LockStatus::Confirmed => "Confirmed"@,
            LockStatus::Expired => "Expired"@,
        }
    }

    /// The status whose name is `s`, if any.
    pub open spec fn parse(s: Seq<char>) -> Option<LockStatus> {
        if s == "Active"@ {
            Some(LockStatus::Active)
        } else if s == "Released"@ {
            Some(LockStatus::Released)
        } else if s == "Confirmed"@ {
            Some(LockStatus::Confirmed)
        } else if s == "Expired"@ {
            Some(LockStatus::Expired)
        } else {
            None
        }
    }

    pub fn as_str(&self) -> (r: &'static str)
        ensures
            r@ == self.name(),
    {
        match self {
            LockStatus::Active => "Active",
            LockStatus::Released => "Released",
            LockStatus::Confirmed => "Confirmed",
            LockStatus::Expired => "Expired",
        }
    }

    pub fn from_str(s: &str) -> (r: Option<LockStatus>)
        ensures
            r == LockStatus::parse(s@),
    {
        if str_eq(s, "Active") {
            Some(LockStatus::Active)
        } else if str_eq(s, "Released") {
            Some(LockStatus::Released)
        } else if str_eq(s, "Confirmed") {
            Some(LockStatus::Confirmed)
        } else if str_eq(s, "Expired") {
            Some(LockStatus::Expired)
        } else {
            None
        }
    }

    /// Reading back the stored name of a status gives the status.
    pub proof fn lemma_name_round_trip(self)
        ensures
            LockStatus::parse(self.name()) == Some(self),
    {
        reveal_strlit("Active");
        reveal_strlit("Released");
        reveal_strlit("Confirmed");
        reveal_strlit("Expired");
        assert("Active"@[0] != "Released"@[0]);
        assert("Active"@[0] != "Confirmed"@[0]);
        assert("Active"@[0] != "Expired"@[0]);
        assert("Released"@[0] != "Confirmed"@[0]);
        assert("Released"@[0] != "Expired"@[0]);
        assert("Confirmed"@[0] != "Expired"@[0]);
    }

    /// A name that parses is the stored name of the status it parses to.
    pub proof fn lemma_parse_inverse(s: Seq<char>)
        ensures
            LockStatus::parse(s) matches Some(st) ==> st.name() == s,
    {
    }
}

} // verus!
