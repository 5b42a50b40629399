//! Request bodies and answers, and the answers to settling a bid.
use vstd::prelude::*;

use crate::clock::{format_rfc3339, now_millis, rfc3339_of_millis, EARLIEST_MILLIS, LATEST_MILLIS, TIME_BOUND};
use crate::errors::AppResult;
use crate::services::AuctionService;

verus! {

broadcast use vstd::string::to_string_from_display_ensures_for_str;

/// Who asks to confirm a purchase.
#[derive(Clone, Debug, PartialEq, Eq)]
pub struct ConfirmPurchaseRequest {
    pub user_id: String,
}

/// Who asks to cancel a bid.
#[derive(Clone, Debug, PartialEq, Eq)]
pub struct CancelBidRequest {
    pub user_id: String,
}

/// The answer to a request that succeeded.
#[derive(Clone, Debug, PartialEq, Eq)]
pub struct SuccessResponse {
    pub success: bool,
    pub message: String,
}

/// The answer to a health probe.
#[derive(Clone, Debug, PartialEq, Eq)]
pub struct HealthResponse {
    pub status: String,
    pub timestamp: String,
}

/// Whether a request that answers `r` succeeded, and else why not.
pub open spec fn outcome_of(r: AppResult<SuccessResponse>) -> AppResult<()> {
    match r {
        Ok(_) => Ok(()),
        Err(e) => Err(e),
    }
}

/// Confirms the purchase of bid `bid_id` for the user in `body`.
pub fn confirm_purchase(
    service: &mut AuctionService,
    bid_id: u128,
    body: &ConfirmPurchaseRequest,
) -> (r: AppResult<SuccessResponse>)
    ensures
        exists|now: i64|
            -TIME_BOUND <= now <= TIME_BOUND && #[trigger] crate::services::confirm_purchase_post(
                old(service)@,
                bid_id,
                body.user_id@,
                now,
                outcome_of(r),
                final(service)@,
            ),
        r matches Ok(s) ==> s.success && s.message@ == "Purchase confirmed successfully"@,
{
    let res = service.confirm_purchase(bid_id, body.user_id.as_str());
    match res {
        Ok(()) => Ok(
            SuccessResponse {
                success: true,
                message: "Purchase confirmed successfully".to_string(),
            },
        ),
        Err(e) => Err(e),
    }
}

/// Cancels bid `bid_id` for the user in `body`.
pub fn cancel_bid(service: &mut AuctionService, bid_id: u128, body: &CancelBidRequest) -> (r:
    AppResult<SuccessResponse>)
    ensures
        exists|now: i64|
            -TIME_BOUND <= now <= TIME_BOUND && #[trigger] crate::services::cancel_bid_post(
                old(service)@,
                bid_id,
                body.user_id@,
                now,
                outcome_of(r),
                final(service)@,
            ),
        r matches Ok(s) ==> s.success && s.message@ == "Bid cancelled successfully"@,
{
    let res = service.cancel_bid(bid_id, body.user_id.as_str());
    match res {
        Ok(()) => Ok(
            SuccessResponse { success: true, message: "Bid cancelled successfully".to_string() },
        ),
        Err(e) => Err(e),
    }
}

/// The service is up, as of now.
pub fn health_check() -> (r: HealthResponse)
    ensures
        r.status@ == "ok"@,
        exists|now: i64|
            EARLIEST_MILLIS <= now <= LATEST_MILLIS && r.timestamp@ == #[trigger] rfc3339_of_millis(now),
{
    let now = now_millis();
    let timestamp = match format_rfc3339(now) {
        Some(t) => t,
        None => String::new(),
    };
    HealthResponse { status: "ok".to_string(), timestamp }
}

} // verus!
