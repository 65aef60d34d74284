//! The bot configuration, the ledger-chest settings and the plain records
//! that the command center answers with.
use vstd::prelude::*;
use vstd::std_specs::convert::FromSpecImpl;
use crate::chests::LedgerChestEntry;
use crate::models::CasinoBalance;
use crate::text::lit;

verus! {

// ---------------------------------------------------------------------------
// Bot accounts and configuration
// ---------------------------------------------------------------------------
/// One Minecraft account that the program can connect.
pub struct BotAccountConfig {
    pub name: String,
    pub host: String,
    pub port: u16,
    pub username_or_email: String,
    pub auth_mode: String,
    pub enabled: bool,
}

impl BotAccountConfig {
    /// A copy of this account.
    pub fn duplicate(&self) -> (r: BotAccountConfig)
        ensures
            r == *self,
    {
        BotAccountConfig {
            name: self.name.clone(),
            host: self.host.clone(),
            port: self.port,
            username_or_email: self.username_or_email.clone(),
            auth_mode: self.auth_mode.clone(),
            enabled: self.enabled,
        }
    }
}

/// What `config.json` holds.
pub struct BotConfig {
    pub host: String,
    pub port: u16,
    pub username_or_email: String,
    pub auth_mode: String,
    pub gui_host: String,
    pub gui_port: u16,
    pub pull_mode: String,
    pub casino_public_chat: bool,
    pub auto_walk_home_after_pearl: bool,
    /// The id of the waypoint to walk back to, as its 128-bit value.
    pub auto_walk_home_waypoint_id: Option<u128>,
    pub waypoint_categories: Vec<String>,
    pub faq_whisper_add_enabled: bool,
    pub faq_whisper_cooldown_seconds: u64,
    pub faq_output_mode: String,
    pub login_greeter_enabled: bool,
    pub login_greeter_cooldown_seconds: u64,
    pub greeter_output_mode: String,
    pub accounts: Vec<BotAccountConfig>,
}

/// Accounts `a` and `b` hold the same values.
pub open spec fn same_accounts(a: Seq<BotAccountConfig>, b: Seq<BotAccountConfig>) -> bool {
    a.len() == b.len() && forall|i: int| 0 <= i < a.len() ==> #[trigger] a[i] == b[i]
}

/// The one account that a configuration without an account list stands for.
pub open spec fn legacy_account(c: BotConfig) -> (Seq<char>, Seq<char>, u16, Seq<char>, Seq<char>, bool) {
    ("UtilityBot"@, c.host@, c.port, c.username_or_email@, c.auth_mode@, true)
}

/// An account's values.
pub open spec fn account_values(a: BotAccountConfig) -> (Seq<char>, Seq<char>, u16, Seq<char>, Seq<char>, bool) {
    (a.name@, a.host@, a.port, a.username_or_email@, a.auth_mode@, a.enabled)
}

impl BotConfig {
    /// The accounts to connect: the account list, or, when it is empty, one
    /// "UtilityBot" account made of the single-bot fields.
    pub fn normalized_accounts(&self) -> (r: Vec<BotAccountConfig>)
        ensures
            self.accounts@.len() > 0 ==> same_accounts(r@, self.accounts@),
            self.accounts@.len() == 0 ==> r@.len() == 1 && account_values(r@[0]) == legacy_account(*self),
    {
        if self.accounts.len() > 0 {
            let mut r: Vec<BotAccountConfig> = Vec::new();
            let mut i: usize = 0;
            while i < self.accounts.len()
                invariant
                    i <= self.accounts.len(),
                    r@.len() == i,
                    forall|j: int| 0 <= j < i ==> #[trigger] r@[j] == self.accounts@[j],
                decreases self.accounts.len() - i,
            {
                r.push(self.accounts[i].duplicate());
                i += 1;
            }
            return r;
        }
        let mut r: Vec<BotAccountConfig> = Vec::new();
        r.push(
            BotAccountConfig {
                name: lit("UtilityBot"),
                host: self.host.clone(),
                port: self.port,
                username_or_email: self.username_or_email.clone(),
                auth_mode: self.auth_mode.clone(),
                enabled: true,
            },
        );
        r
    }
}

/// The waypoint categories that a new configuration offers.
pub open spec fn default_categories() -> Seq<Seq<char>> {
    seq![
        "Uncategorized"@,
        "Pearl Chambers"@,
        "Bases"@,
        "Travel"@,
        "Bank Butler"@,
        "Ledger Chests"@,
        "Book Writer"@,
    ]
}

/// The waypoint categories that a new configuration offers.
pub fn default_waypoint_categories() -> (r: Vec<String>)
    ensures
        r.deep_view() == default_categories(),
{
    let mut r: Vec<String> = Vec::new();
    r.push(lit("Uncategorized"));
    r.push(lit("Pearl Chambers"));
    r.push(lit("Bases"));
    r.push(lit("Travel"));
    r.push(lit("Bank Butler"));
    r.push(lit("Ledger Chests"));
    r.push(lit("Book Writer"));
    assert(r.deep_view() =~= default_categories());
    r
}

/// The category of a waypoint saved without one.
pub fn default_waypoint_category() -> (r: String)
    ensures
        r@ == "Uncategorized"@,
{
    lit("Uncategorized")
}

/// How FAQ answers are sent unless configured: by whisper.
pub fn default_faq_output_mode() -> (r: String)
    ensures
        r@ == "whisper"@,
{
    lit("whisper")
}

/// How greetings are sent unless configured: by whisper.
pub fn default_greeter_output_mode() -> (r: String)
    ensures
        r@ == "whisper"@,
{
    lit("whisper")
}

/// The stasis kind of a pearl saved without one.
pub fn default_stasis_kind() -> (r: String)
    ensures
        r@ == "block"@,
{
    lit("block")
}

/// Whether an account saved without the flag is enabled: it is.
pub fn default_enabled() -> (r: bool)
    ensures
        r,
{
    true
}

/// The smallest book amount a ledger chest accepts unless configured.
pub fn default_min_credits() -> (r: i64)
    ensures
        r == 1,
{
    1
}

/// The largest book amount a ledger chest accepts unless configured.
pub fn default_max_credits() -> (r: i64)
    ensures
        r == 100_000_000,
{
    100_000_000
}

/// The viewport radius in chunks unless requested otherwise.
pub fn default_viewport_chunks() -> (r: u8)
    ensures
        r == 12,
{
    12
}

/// Whether a written book is placed in the chest unless requested otherwise.
pub fn default_place_signed_book() -> (r: bool)
    ensures
        r,
{
    true
}

/// The purpose of a ledger chest saved without one.
pub fn default_ledger_purpose() -> (r: String)
    ensures
        r@ == "banking"@,
{
    lit("banking")
}

/// The status of a bounty saved without one.
pub fn default_bounty_status() -> (r: String)
    ensures
        r@ == "open"@,
{
    lit("open")
}

/// The reward type of a shop item saved without one.
pub fn default_shop_reward_type() -> (r: String)
    ensures
        r@ == "manual"@,
{
    lit("manual")
}

/// The configuration of a fresh install holds these values.
pub open spec fn is_default_config(c: BotConfig) -> bool {
    &&& c.host@ == "minecraft.example.org"@
    &&& c.port == 25565
    &&& c.username_or_email@ == "bot@example.com"@
    &&& c.auth_mode@ == "microsoft"@
    &&& c.gui_host@ == "0.0.0.0"@
    &&& c.gui_port == 8081
    &&& c.pull_mode@ == "block"@
    &&& !c.casino_public_chat
    &&& !c.auto_walk_home_after_pearl
    &&& c.auto_walk_home_waypoint_id is None
    &&& c.waypoint_categories.deep_view() == default_categories()
    &&& c.faq_whisper_add_enabled
    &&& c.faq_whisper_cooldown_seconds == 60
    &&& c.faq_output_mode@ == "whisper"@
    &&& c.login_greeter_enabled
    &&& c.login_greeter_cooldown_seconds == 300
    &&& c.greeter_output_mode@ == "whisper"@
    &&& c.accounts@.len() == 1
    &&& account_values(c.accounts@[0]) == ("UtilityBot"@, "minecraft.example.org"@, 25565u16, "bot@example.com"@,
        "microsoft"@, true)
}

impl Default for BotConfig {
    fn default() -> (r: BotConfig)
        ensures
            is_default_config(r),
    {
        let mut accounts: Vec<BotAccountConfig> = Vec::new();
        accounts.push(
            BotAccountConfig {
                name: lit("UtilityBot"),
                host: lit("minecraft.example.org"),
                port: 25565,
                username_or_email: lit("bot@example.com"),
                auth_mode: lit("microsoft"),
                enabled: true,
            },
        );
        BotConfig {
            host: lit("minecraft.example.org"),
            port: 25565,
            username_or_email: lit("bot@example.com"),
            auth_mode: lit("microsoft"),
            gui_host: lit("0.0.0.0"),
            gui_port: 8081,
            pull_mode: lit("block"),
            casino_public_chat: false,
            auto_walk_home_after_pearl: false,
            auto_walk_home_waypoint_id: None,
            waypoint_categories: default_waypoint_categories(),
            faq_whisper_add_enabled: true,
            faq_whisper_cooldown_seconds: 60,
            faq_output_mode: default_faq_output_mode(),
            login_greeter_enabled: true,
            login_greeter_cooldown_seconds: 300,
            greeter_output_mode: default_greeter_output_mode(),
            accounts,
        }
    }
}

// ---------------------------------------------------------------------------
// Ledger chests
// ---------------------------------------------------------------------------
/// Where the bot reads Credits books and which it accepts.
pub struct ChestLedgerConfig {
    pub bot_name: String,
    pub label: String,
    pub chest_x: i32,
    pub chest_y: i32,
    pub chest_z: i32,
    pub processed_chest_x: Option<i32>,
    pub processed_chest_y: Option<i32>,
    pub processed_chest_z: Option<i32>,
    pub allowed_players: Vec<String>,
    pub min_credits: i64,
    pub max_credits: i64,
    pub remove_processed_book: bool,
}

impl Default for ChestLedgerConfig {
    fn default() -> (r: ChestLedgerConfig)
        ensures
            r.bot_name@ == "UtilityBot"@,
            r.label@ == "Credits Bank"@,
            r.chest_x == 0 && r.chest_y == 64 && r.chest_z == 0,
            r.processed_chest_x is None && r.processed_chest_y is None && r.processed_chest_z is None,
            r.allowed_players@.len() == 0,
            r.min_credits == 1,
            r.max_credits == 100_000_000,
            r.remove_processed_book,
    {
        ChestLedgerConfig {
            bot_name: lit("UtilityBot"),
            label: lit("Credits Bank"),
            chest_x: 0,
            chest_y: 64,
            chest_z: 0,
            processed_chest_x: None,
            processed_chest_y: None,
            processed_chest_z: None,
            allowed_players: Vec::new(),
            min_credits: 1,
            max_credits: 100_000_000,
            remove_processed_book: true,
        }
    }
}

impl From<LedgerChestEntry> for ChestLedgerConfig {
    fn from(entry: LedgerChestEntry) -> (r: ChestLedgerConfig) {
        ChestLedgerConfig {
            bot_name: entry.bot_name,
            label: entry.label,
            chest_x: entry.chest_x,
            chest_y: entry.chest_y,
            chest_z: entry.chest_z,
            processed_chest_x: entry.processed_chest_x,
            processed_chest_y: entry.processed_chest_y,
            processed_chest_z: entry.processed_chest_z,
            allowed_players: entry.allowed_players,
            min_credits: entry.min_credits,
            max_credits: entry.max_credits,
            remove_processed_book: entry.remove_processed_book,
        }
    }
}

impl FromSpecImpl<LedgerChestEntry> for ChestLedgerConfig {
    open spec fn obeys_from_spec() -> bool {
        true
    }

    open spec fn from_spec(entry: LedgerChestEntry) -> ChestLedgerConfig {
        ChestLedgerConfig {
            bot_name: entry.bot_name,
            label: entry.label,
            chest_x: entry.chest_x,
            chest_y: entry.chest_y,
            chest_z: entry.chest_z,
            processed_chest_x: entry.processed_chest_x,
            processed_chest_y: entry.processed_chest_y,
            processed_chest_z: entry.processed_chest_z,
            allowed_players: entry.allowed_players,
            min_credits: entry.min_credits,
            max_credits: entry.max_credits,
            remove_processed_book: entry.remove_processed_book,
        }
    }
}

/// One Credits book that a ledger chest run paid out.
pub struct ChestLedgerEntry {
    pub slot: usize,
    pub author: String,
    pub recipient: String,
    pub title: String,
    pub amount: i64,
    pub page_text: String,
    pub balance: CasinoBalance,
}

/// What a ledger chest run did.
pub struct ChestLedgerResponse {
    pub mesadmin: String,
    pub processed: Vec<ChestLedgerEntry>,
    pub skipped: Vec<String>,
}

// ---------------------------------------------------------------------------
// Requests and answers of bot actions
// ---------------------------------------------------------------------------
/// A book to write, sign and place.
pub struct BookWriterRequest {
    pub bot_name: String,
    pub recipient: String,
    pub chest_x: i32,
    pub chest_y: i32,
    pub chest_z: i32,
    pub inventory_slot: Option<u8>,
    pub title: String,
    pub pages: Vec<String>,
    pub place_in_chest: bool,
}

/// What writing a book did.
pub struct BookWriterResponse {
    pub mesadmin: String,
    pub bot_name: String,
    pub title: String,
    pub page_count: usize,
    pub inventory_slot: u8,
    pub placed_in_chest: bool,
}

/// Move a named shulker box from a butler chest to a butler waypoint; the
/// ids are 128-bit values.
pub struct ButlerTransferRequest {
    pub source_chest_id: u128,
    pub destination_waypoint_id: u128,
    pub shulker_name: String,
}

/// What a butler transfer did.
pub struct ButlerTransferResponse {
    pub mesadmin: String,
    pub bot_name: String,
    pub shulker_name: String,
    pub source_label: String,
    pub destination_label: String,
}

/// What a walk to a waypoint did.
pub struct WalkToWaypointResponse {
    pub mesadmin: String,
    pub bot_name: String,
    pub label: String,
    pub x: i32,
    pub y: i32,
    pub z: i32,
}

/// The world clock as the command center shows it.
pub struct WorldClockStatus {
    pub day_time: i64,
    pub time_of_day: i64,
    pub time_label: String,
    pub is_day: bool,
}

} // verus!
