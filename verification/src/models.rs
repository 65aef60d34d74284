//! Plain data types shared by the library and the program around it.
use vstd::prelude::*;

verus! {

/// A user's Credits balance.
pub struct CasinoBalance {
    pub username: String,
    pub credits: i64,
}

/// The result of one roulette spin.
pub struct RouletteResponse {
    pub number: u8,
    pub color: String,
    pub won: bool,
    pub payout: i64,
    pub mesadmin: String,
    pub balance: CasinoBalance,
}

/// The result of one slots pull.
pub struct SlotsResponse {
    pub reels: Vec<String>,
    pub won: bool,
    pub payout: i64,
    pub mesadmin: String,
    pub balance: CasinoBalance,
}

/// The state of a blackjack hand as shown to the player.
pub struct BlackjackResponse {
    pub player_cards: Vec<String>,
    pub dealer_cards: Vec<String>,
    pub player_total: u8,
    pub dealer_total: Option<u8>,
    pub finished: bool,
    pub outcome: String,
    pub mesadmin: String,
    pub balance: CasinoBalance,
}

/// One row of the VIP leaderboard.
pub struct VipTableEntry {
    pub rank: usize,
    pub username: String,
    pub credits: i64,
}

/// A request to set a balance.
pub struct UpdateBankBalanceRequest {
    pub username: String,
    pub credits: i64,
}

/// A roulette bet.
pub struct RouletteRequest {
    pub bet: i64,
    pub choice: String,
}

/// A slots bet.
pub struct SlotsRequest {
    pub bet: i64,
}

/// A blackjack opening bet.
pub struct BlackjackStartRequest {
    pub bet: i64,
}

} // verus!
