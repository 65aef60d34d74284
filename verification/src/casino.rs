//! The Credits casino: balances, roulette, slots and blackjack.
//!
//! Every game takes the table of balances that `bank.json` holds and changes it
//! as the game goes: the stake is charged first, winnings are paid after.
use vstd::prelude::*;
use rand::seq::SliceRandom;
use rand::Rng;
use crate::bank::{BalanceRow, Balances};
use crate::models::{BlackjackResponse, CasinoBalance, RouletteResponse, SlotsResponse, VipTableEntry};
use crate::num::{i64_text, int_decimal, nat_digits, parse_u8, parse_u8_seq, u64_text};
use crate::text::{
    append, chars_of, lemma_text_lt_irreflexive, lemma_text_lt_total, lemma_text_lt_transitive, lit, lower_of,
    same_text, text_less, text_lt, to_lower, trim, trim_seq,
};

verus! {

/// Credits that a user starts with.
pub const STARTING_CREDITS: i64 = 1000;

/// Largest accepted bet.
pub const MAX_BET: i64 = 100000;

/// Why a casino action was refused.
pub enum CasinoError {
    UsernameRequired,
    BetTooSmall,
    BetTooLarge,
    NotEnoughCredits,
    InvalidRouletteChoice,
    RouletteNumberOutOfRange,
    DeckEmpty,
}

impl CasinoError {
    /// The message shown for this error.
    pub fn message(&self) -> (s: String)
        ensures
            s@ == error_text(*self),
    {
        match self {
            CasinoError::UsernameRequired => lit("username is required"),
            CasinoError::BetTooSmall => lit("bet must be at least 1 Credits"),
            CasinoError::BetTooLarge => lit("bet is too large"),
            CasinoError::NotEnoughCredits => lit("not enough Credits"),
            CasinoError::InvalidRouletteChoice => lit("invalid roulette choice"),
            CasinoError::RouletteNumberOutOfRange => lit("roulette number must be 0-36"),
            CasinoError::DeckEmpty => lit("deck is empty"),
        }
    }
}

/// The message of each error.
pub open spec fn error_text(e: CasinoError) -> Seq<char> {
    match e {
        CasinoError::UsernameRequired => "username is required"@,
        CasinoError::BetTooSmall => "bet must be at least 1 Credits"@,
        CasinoError::BetTooLarge => "bet is too large"@,
        CasinoError::NotEnoughCredits => "not enough Credits"@,
        CasinoError::InvalidRouletteChoice => "invalid roulette choice"@,
        CasinoError::RouletteNumberOutOfRange => "roulette number must be 0-36"@,
        CasinoError::DeckEmpty => "deck is empty"@,
    }
}

// ---------------------------------------------------------------------------
// Balances
// ---------------------------------------------------------------------------
/// The key under which a username's balance is kept: trimmed, then lowercased.
pub open spec fn user_key(u: Seq<char>) -> Seq<char> {
    lower_of(trim_seq(u))
}

/// The balance for `k`, or the starting Credits when there is none yet.
pub open spec fn credits_or_start(m: Map<Seq<char>, i64>, k: Seq<char>) -> i64 {
    if m.dom().contains(k) {
        m[k]
    } else {
        STARTING_CREDITS
    }
}

/// Paying `amount` to `user` cannot overflow.
pub open spec fn has_room(m: Map<Seq<char>, i64>, user: Seq<char>, amount: int) -> bool {
    credits_or_start(m, user_key(user)) + amount <= i64::MAX
}

/// `bet` is within the accepted range.
pub open spec fn valid_bet(bet: i64) -> bool {
    1 <= bet <= MAX_BET
}

/// The verdict on a bet.
pub open spec fn bet_check(bet: i64) -> Option<CasinoError> {
    if bet <= 0 {
        Some(CasinoError::BetTooSmall)
    } else if bet > MAX_BET {
        Some(CasinoError::BetTooLarge)
    } else {
        None
    }
}

/// The username under which a balance is stored.
pub fn clean_username(username: &str) -> (r: String)
    ensures
        r@ == user_key(username@),
{
    let t = trim(username);
    to_lower(t.as_str())
}

/// Checks a bet.
pub fn validate_bet(bet: i64) -> (r: Result<(), CasinoError>)
    ensures
        r is Ok <==> bet_check(bet) is None,
        r matches Err(e) ==> bet_check(bet) == Some(e),
{
    if bet <= 0 {
        return Err(CasinoError::BetTooSmall);
    }
    if bet > MAX_BET {
        return Err(CasinoError::BetTooLarge);
    }
    Ok(())
}

fn balance_for_key(bank: &mut Balances, key: &str) -> (r: CasinoBalance)
    requires
        old(bank).wf(),
    ensures
        final(bank).wf(),
        final(bank)@ == old(bank)@.insert(key@, credits_or_start(old(bank)@, key@)),
        r.username@ == key@,
        r.credits == credits_or_start(old(bank)@, key@),
{
    let credits = match bank.get(key) {
        Some(c) => c,
        None => STARTING_CREDITS,
    };
    bank.set(key, credits);
    CasinoBalance { username: key.to_owned(), credits }
}

/// The balance of `username`, opening an account with the starting Credits
/// when there is none.
pub fn balance(bank: &mut Balances, username: &str) -> (r: CasinoBalance)
    requires
        old(bank).wf(),
    ensures
        final(bank).wf(),
        final(bank)@ == old(bank)@.insert(user_key(username@), credits_or_start(old(bank)@, user_key(username@))),
        r.username@ == user_key(username@),
        r.credits == credits_or_start(old(bank)@, user_key(username@)),
{
    let key = clean_username(username);
    balance_for_key(bank, key.as_str())
}

/// Sets the balance of `username`; refused for an empty username.
pub fn set_balance(bank: &mut Balances, username: &str, credits: i64) -> (r: Result<CasinoBalance, CasinoError>)
    requires
        old(bank).wf(),
    ensures
        final(bank).wf(),
        user_key(username@).len() == 0 ==> (r matches Err(CasinoError::UsernameRequired) && final(bank)@ == old(bank)@),
        user_key(username@).len() > 0 ==> (r matches Ok(b) && b.username@ == user_key(username@) && b.credits == credits
            && final(bank)@ == old(bank)@.insert(user_key(username@), credits)),
{
    let key = clean_username(username);
    if key.as_str().is_empty() {
        return Err(CasinoError::UsernameRequired);
    }
    bank.set(key.as_str(), credits);
    Ok(CasinoBalance { username: key, credits })
}

fn add_credits_key(bank: &mut Balances, key: &str, amount: i64)
    requires
        old(bank).wf(),
        credits_or_start(old(bank)@, key@) + amount <= i64::MAX,
        credits_or_start(old(bank)@, key@) + amount >= i64::MIN,
    ensures
        final(bank).wf(),
        final(bank)@ == old(bank)@.insert(key@, (credits_or_start(old(bank)@, key@) + amount) as i64),
{
    let current = match bank.get(key) {
        Some(c) => c,
        None => STARTING_CREDITS,
    };
    bank.set(key, current + amount);
}

/// Adds `amount` Credits to `username` (which may open the account).
pub fn add_credits(bank: &mut Balances, username: &str, amount: i64)
    requires
        old(bank).wf(),
        has_room(old(bank)@, username@, amount as int),
        credits_or_start(old(bank)@, user_key(username@)) + amount >= i64::MIN,
    ensures
        final(bank).wf(),
        final(bank)@ == old(bank)@.insert(
            user_key(username@),
            (credits_or_start(old(bank)@, user_key(username@)) + amount) as i64,
        ),
{
    let key = clean_username(username);
    add_credits_key(bank, key.as_str(), amount);
}

/// Takes `bet` Credits from `key`; refused, with nothing changed, when the
/// balance is smaller than the bet.
fn charge_bet_key(bank: &mut Balances, key: &str, bet: i64) -> (r: Result<(), CasinoError>)
    requires
        old(bank).wf(),
        bet >= 0,
    ensures
        final(bank).wf(),
        credits_or_start(old(bank)@, key@) < bet ==> (r matches Err(CasinoError::NotEnoughCredits) && final(bank)@ == old(bank)@),
        credits_or_start(old(bank)@, key@) >= bet ==> r is Ok && final(bank)@ == old(bank)@.insert(
            key@,
            (credits_or_start(old(bank)@, key@) - bet) as i64,
        ),
{
    let current = match bank.get(key) {
        Some(c) => c,
        None => STARTING_CREDITS,
    };
    if current < bet {
        return Err(CasinoError::NotEnoughCredits);
    }
    bank.set(key, current - bet);
    Ok(())
}

/// Takes `bet` Credits from `username`; refused, with nothing changed, when
/// the balance is smaller than the bet.
pub fn charge_bet(bank: &mut Balances, username: &str, bet: i64) -> (r: Result<(), CasinoError>)
    requires
        old(bank).wf(),
        bet >= 0,
    ensures
        final(bank).wf(),
        credits_or_start(old(bank)@, user_key(username@)) < bet ==> (r matches Err(CasinoError::NotEnoughCredits)
            && final(bank)@ == old(bank)@),
        credits_or_start(old(bank)@, user_key(username@)) >= bet ==> r is Ok && final(bank)@ == old(bank)@.insert(
            user_key(username@),
            (credits_or_start(old(bank)@, user_key(username@)) - bet) as i64,
        ),
{
    let key = clean_username(username);
    charge_bet_key(bank, key.as_str(), bet)
}

/// The help line for the chat casino.
pub fn casino_help() -> (s: &'static str)
    ensures
        s@ == casino_help_text(),
{
    "Casino commands: !credits, !slots <bet>, !roulette <bet> <red|black|green|odd|even|0-36>, !blackjack <bet>. Currency: Credits."
}

/// The help line for the chat casino.
pub open spec fn casino_help_text() -> Seq<char> {
    "Casino commands: !credits, !slots <bet>, !roulette <bet> <red|black|green|odd|even|0-36>, !blackjack <bet>. Currency: Credits."@
}

// ---------------------------------------------------------------------------
// Roulette
// ---------------------------------------------------------------------------
/// The red numbers of the wheel.
pub open spec fn is_red(n: u8) -> bool {
    n == 1 || n == 3 || n == 5 || n == 7 || n == 9 || n == 12 || n == 14 || n == 16 || n == 18
        || n == 19 || n == 21 || n == 23 || n == 25 || n == 27 || n == 30 || n == 32 || n == 34
        || n == 36
}

/// The color of a pocket.
pub open spec fn color_of(n: u8) -> Seq<char> {
    if n == 0 {
        "green"@
    } else if is_red(n) {
        "red"@
    } else {
        "black"@
    }
}

/// The color of a pocket.
pub fn roulette_color(number: u8) -> (s: &'static str)
    ensures
        s@ == color_of(number),
{
    if number == 0 {
        "green"
    } else if number == 1 || number == 3 || number == 5 || number == 7 || number == 9 || number == 12
        || number == 14 || number == 16 || number == 18 || number == 19 || number == 21 || number == 23
        || number == 25 || number == 27 || number == 30 || number == 32 || number == 34 || number == 36 {
        "red"
    } else {
        "black"
    }
}

/// Whether a (cleaned) choice wins on `number`.
pub open spec fn roulette_outcome(number: u8, choice: Seq<char>) -> Result<bool, CasinoError> {
    if choice == "red"@ || choice == "black"@ || choice == "green"@ {
        Ok(color_of(number) == choice)
    } else if choice == "odd"@ {
        Ok(number != 0 && number % 2 == 1)
    } else if choice == "even"@ {
        Ok(number != 0 && number % 2 == 0)
    } else {
        match parse_u8_seq(choice) {
            None => Err(CasinoError::InvalidRouletteChoice),
            Some(p) => if p > 36 {
                Err(CasinoError::RouletteNumberOutOfRange)
            } else {
                Ok(number == p)
            },
        }
    }
}

/// Whether `choice` wins on `number`.
pub fn roulette_wins(number: u8, choice: &str) -> (r: Result<bool, CasinoError>)
    ensures
        r == roulette_outcome(number, choice@),
{
    let c = chars_of(choice);
    if same_text(&c, "red") || same_text(&c, "black") || same_text(&c, "green") {
        let color = roulette_color(number);
        return Ok(crate::text::str_eq(color, choice));
    }
    if same_text(&c, "odd") {
        return Ok(number != 0 && number % 2 == 1);
    }
    if same_text(&c, "even") {
        return Ok(number != 0 && number % 2 == 0);
    }
    match parse_u8(&c) {
        None => Err(CasinoError::InvalidRouletteChoice),
        Some(picked) => {
            if picked > 36 {
                Err(CasinoError::RouletteNumberOutOfRange)
            } else {
                Ok(number == picked)
            }
        },
    }
}

/// What a winning roulette bet pays: a straight number or green pays 36
/// times the bet, a color or parity twice the bet.
pub open spec fn roulette_payout(bet: i64, choice: Seq<char>, won: bool) -> int {
    if won {
        if choice == "green"@ || parse_u8_seq(choice) is Some {
            bet * 36
        } else {
            bet * 2
        }
    } else {
        0
    }
}

/// `" Credits."` closing every casino line that names an amount.
pub open spec fn win_or_loss(won: bool, payout: int, bet: int) -> Seq<char> {
    if won {
        ". You won "@ + int_decimal(payout) + " Credits."@
    } else {
        ". You lost "@ + int_decimal(bet) + " Credits."@
    }
}

/// The line that reports a spin.
pub open spec fn roulette_text(number: u8, won: bool, payout: int, bet: int) -> Seq<char> {
    "Roulette hit "@ + nat_digits(number as nat) + " "@ + color_of(number) + win_or_loss(won, payout, bet)
}

/// One roulette spin that landed on `number`, as the table sees it: the state
/// of the balances afterwards (`new`) and the answer (`r`).
pub open spec fn roulette_spec(
    old: Map<Seq<char>, i64>,
    user: Seq<char>,
    bet: i64,
    choice: Seq<char>,
    number: u8,
    new: Map<Seq<char>, i64>,
    r: Result<RouletteResponse, CasinoError>,
) -> bool {
    let key = user_key(user);
    let c0 = credits_or_start(old, key);
    let ch = lower_of(trim_seq(choice));
    if bet_check(bet) is Some {
        new == old && r == Err::<RouletteResponse, CasinoError>(bet_check(bet)->Some_0)
    } else if c0 < bet {
        new == old && r matches Err(CasinoError::NotEnoughCredits)
    } else {
        let charged = old.insert(key, (c0 - bet) as i64);
        match roulette_outcome(number, ch) {
            Err(e) => new == charged && r == Err::<RouletteResponse, CasinoError>(e),
            Ok(won) => {
                let payout = roulette_payout(bet, ch, won);
                let after = if payout > 0 { charged.insert(key, (c0 - bet + payout) as i64) } else { charged };
                &&& new == after
                &&& r matches Ok(resp)
                &&& resp.number == number
                &&& resp.color@ == color_of(number)
                &&& resp.won == won
                &&& resp.payout == payout
                &&& resp.balance.username@ == key
                &&& resp.balance.credits == after[key]
                &&& resp.mesadmin@ == roulette_text(number, won, payout, bet as int)
            },
        }
    }
}

fn outcome_text(won: bool, payout: i64, bet: i64) -> (s: String)
    ensures
        s@ == win_or_loss(won, payout as int, bet as int),
{
    let mut s = if won { lit(". You won ") } else { lit(". You lost ") };
    let n = if won { i64_text(payout) } else { i64_text(bet) };
    append(&mut s, n.as_str());
    append(&mut s, " Credits.");
    s
}

/// One roulette spin that landed on `number`.
pub fn roulette_round(bank: &mut Balances, username: &str, bet: i64, choice: &str, number: u8) -> (r: Result<
    RouletteResponse,
    CasinoError,
>)
    requires
        old(bank).wf(),
        number <= 36,
        valid_bet(bet) ==> has_room(old(bank)@, username@, 35 * bet),
    ensures
        final(bank).wf(),
        roulette_spec(old(bank)@, username@, bet, choice@, number, final(bank)@, r),
{
    let ghost old_bank = bank@;
    if let Err(e) = validate_bet(bet) {
        return Err(e);
    }
    let key = clean_username(username);
    if let Err(e) = charge_bet_key(bank, key.as_str(), bet) {
        return Err(e);
    }
    let color = roulette_color(number);
    let t = trim(choice);
    let ch = to_lower(t.as_str());
    let won = match roulette_wins(number, ch.as_str()) {
        Ok(w) => w,
        Err(e) => return Err(e),
    };
    let chv = chars_of(ch.as_str());
    let payout: i64 = if won {
        if same_text(&chv, "green") || parse_u8(&chv).is_some() {
            bet * 36
        } else {
            bet * 2
        }
    } else {
        0
    };
    if payout > 0 {
        add_credits_key(bank, key.as_str(), payout);
    }
    let balance = balance_for_key(bank, key.as_str());
    let mut mesadmin = lit("Roulette hit ");
    let num = u64_text(number as u64);
    append(&mut mesadmin, num.as_str());
    append(&mut mesadmin, " ");
    append(&mut mesadmin, color);
    let tail = outcome_text(won, payout, bet);
    append(&mut mesadmin, tail.as_str());
    proof {
        let key_s = user_key(username@);
        let c0 = credits_or_start(old_bank, key_s);
        let chs = lower_of(trim_seq(choice@));
        assert(ch@ == chs);
        assert(payout == roulette_payout(bet, chs, won));
        let charged = old_bank.insert(key_s, (c0 - bet) as i64);
        let after = if payout > 0 { charged.insert(key_s, (c0 - bet + payout) as i64) } else { charged };
        assert(bank@ =~= after);
        assert(mesadmin@ =~= roulette_text(number, won, payout as int, bet as int));
    }
    Ok(RouletteResponse { number, color: lit(color), won, payout, mesadmin, balance })
}

/// Draws a pocket of the wheel: `gen_range(0..=36)` of `rand`'s thread RNG.
#[verifier::external_body]
fn random_pocket() -> (n: u8)
    ensures
        n <= 36,
{
    rand::thread_rng().gen_range(0..=36)
}

/// Spins the wheel for `username`, who bets `bet` on `choice`.
pub fn play_roulette(bank: &mut Balances, username: &str, bet: i64, choice: &str) -> (r: Result<
    RouletteResponse,
    CasinoError,
>)
    requires
        old(bank).wf(),
        valid_bet(bet) ==> has_room(old(bank)@, username@, 35 * bet),
    ensures
        final(bank).wf(),
        exists|n: u8|
            n <= 36 && #[trigger] roulette_spec(old(bank)@, username@, bet, choice@, n, final(bank)@, r),
{
    let number = random_pocket();
    let r = roulette_round(bank, username, bet, choice, number);
    assert(roulette_spec(old(bank)@, username@, bet, choice@, number, bank@, r));
    r
}

// ---------------------------------------------------------------------------
// Slots
// ---------------------------------------------------------------------------
/// The symbol on reel face `i` (six faces).
pub open spec fn slot_symbol(i: int) -> Seq<char> {
    if i == 0 {
        "Crown"@
    } else if i == 1 {
        "Pearl"@
    } else if i == 2 {
        "Admin"@
    } else if i == 3 {
        "Sword"@
    } else if i == 4 {
        "Shield"@
    } else {
        "Gold"@
    }
}

/// Number of faces on a reel.
pub const SLOT_FACES: usize = 6;

/// The symbol on reel face `i`.
pub fn slot_symbol_text(i: usize) -> (s: &'static str)
    requires
        i < SLOT_FACES,
    ensures
        s@ == slot_symbol(i as int),
{
    if i == 0 {
        "Crown"
    } else if i == 1 {
        "Pearl"
    } else if i == 2 {
        "Admin"
    } else if i == 3 {
        "Sword"
    } else if i == 4 {
        "Shield"
    } else {
        "Gold"
    }
}

/// What a pull pays: three Crowns 25 times the bet, three of another symbol
/// 10 times, any pair twice the bet.
pub open spec fn slots_payout(bet: i64, a: int, b: int, c: int) -> int {
    if a == b && b == c {
        if a == 0 {
            bet * 25
        } else {
            bet * 10
        }
    } else if a == b || a == c || b == c {
        bet * 2
    } else {
        0
    }
}

/// The line that reports a pull.
pub open spec fn slots_text(a: int, b: int, c: int, won: bool, payout: int, bet: int) -> Seq<char> {
    "Slots: "@ + slot_symbol(a) + " | "@ + slot_symbol(b) + " | "@ + slot_symbol(c) + win_or_loss(won, payout, bet)
}

/// One pull that showed faces `a`, `b`, `c`.
pub open spec fn slots_spec(
    old: Map<Seq<char>, i64>,
    user: Seq<char>,
    bet: i64,
    a: int,
    b: int,
    c: int,
    new: Map<Seq<char>, i64>,
    r: Result<SlotsResponse, CasinoError>,
) -> bool {
    let key = user_key(user);
    let c0 = credits_or_start(old, key);
    if bet_check(bet) is Some {
        new == old && r == Err::<SlotsResponse, CasinoError>(bet_check(bet)->Some_0)
    } else if c0 < bet {
        new == old && r matches Err(CasinoError::NotEnoughCredits)
    } else {
        let payout = slots_payout(bet, a, b, c);
        let after = old.insert(key, (c0 - bet + payout) as i64);
        &&& new == after
        &&& r matches Ok(resp)
        &&& resp.reels.deep_view() == seq![slot_symbol(a), slot_symbol(b), slot_symbol(c)]
        &&& resp.won == (payout > 0)
        &&& resp.payout == payout
        &&& resp.balance.username@ == key
        &&& resp.balance.credits == after[key]
        &&& resp.mesadmin@ == slots_text(a, b, c, payout > 0, payout, bet as int)
    }
}

/// One slots pull that showed faces `a`, `b`, `c`.
pub fn slots_round(bank: &mut Balances, username: &str, bet: i64, a: usize, b: usize, c: usize) -> (r: Result<
    SlotsResponse,
    CasinoError,
>)
    requires
        old(bank).wf(),
        a < SLOT_FACES && b < SLOT_FACES && c < SLOT_FACES,
        valid_bet(bet) ==> has_room(old(bank)@, username@, 24 * bet),
    ensures
        final(bank).wf(),
        slots_spec(old(bank)@, username@, bet, a as int, b as int, c as int, final(bank)@, r),
{
    let ghost old_bank = bank@;
    if let Err(e) = validate_bet(bet) {
        return Err(e);
    }
    let key = clean_username(username);
    if let Err(e) = charge_bet_key(bank, key.as_str(), bet) {
        return Err(e);
    }
    let sa = slot_symbol_text(a);
    let sb = slot_symbol_text(b);
    let sc = slot_symbol_text(c);
    let payout: i64 = if a == b && b == c {
        if a == 0 { bet * 25 } else { bet * 10 }
    } else if a == b || a == c || b == c {
        bet * 2
    } else {
        0
    };
    if payout > 0 {
        add_credits_key(bank, key.as_str(), payout);
    }
    let balance = balance_for_key(bank, key.as_str());
    let won = payout > 0;
    let mut mesadmin = lit("Slots: ");
    append(&mut mesadmin, sa);
    append(&mut mesadmin, " | ");
    append(&mut mesadmin, sb);
    append(&mut mesadmin, " | ");
    append(&mut mesadmin, sc);
    let tail = outcome_text(won, payout, bet);
    append(&mut mesadmin, tail.as_str());
    let mut reels: Vec<String> = Vec::new();
    reels.push(lit(sa));
    reels.push(lit(sb));
    reels.push(lit(sc));
    proof {
        let key_s = user_key(username@);
        let c0 = credits_or_start(old_bank, key_s);
        let after = old_bank.insert(key_s, (c0 - bet + payout) as i64);
        assert(bank@ =~= after);
        assert(mesadmin@ =~= slots_text(a as int, b as int, c as int, won, payout as int, bet as int));
        assert(reels.deep_view() =~= seq![slot_symbol(a as int), slot_symbol(b as int), slot_symbol(c as int)]);
    }
    Ok(SlotsResponse { reels, won, payout, mesadmin, balance })
}

/// A uniform index below `len`: `gen_range(0..len)` of `rand`'s thread RNG.
#[verifier::external_body]
fn random_index(len: usize) -> (i: usize)
    requires
        len > 0,
    ensures
        i < len,
{
    rand::thread_rng().gen_range(0..len)
}

/// Pulls the slot machine for `username`, who bets `bet`.
pub fn play_slots(bank: &mut Balances, username: &str, bet: i64) -> (r: Result<SlotsResponse, CasinoError>)
    requires
        old(bank).wf(),
        valid_bet(bet) ==> has_room(old(bank)@, username@, 24 * bet),
    ensures
        final(bank).wf(),
        exists|a: int, b: int, c: int|
            0 <= a < 6 && 0 <= b < 6 && 0 <= c < 6 && #[trigger] slots_spec(old(bank)@, username@, bet, a, b, c, final(bank)@, r),
{
    let a = random_index(SLOT_FACES);
    let b = random_index(SLOT_FACES);
    let c = random_index(SLOT_FACES);
    let r = slots_round(bank, username, bet, a, b, c);
    assert(slots_spec(old(bank)@, username@, bet, a as int, b as int, c as int, bank@, r));
    r
}

// ---------------------------------------------------------------------------
// Blackjack
// ---------------------------------------------------------------------------
/// A blackjack hand in progress. Cards are ranks 1 (ace) to 13 (king); the
/// top of the deck is its last card.
pub struct BlackjackGame {
    pub bet: i64,
    pub deck: Vec<u8>,
    pub player_cards: Vec<u8>,
    pub dealer_cards: Vec<u8>,
}

/// Points a card counts before aces are softened: an ace 11, face cards 10.
pub open spec fn card_points(c: u8) -> int {
    if c == 1 {
        11
    } else if c < 10 {
        c as int
    } else {
        10
    }
}

/// Sum of `card_points`.
pub open spec fn raw_total(s: Seq<u8>) -> int
    decreases s.len(),
{
    if s.len() == 0 {
        0
    } else {
        raw_total(s.drop_last()) + card_points(s.last())
    }
}

/// Number of aces.
pub open spec fn ace_count(s: Seq<u8>) -> int
    decreases s.len(),
{
    if s.len() == 0 {
        0
    } else {
        ace_count(s.drop_last()) + if s.last() == 1 { 1int } else { 0int }
    }
}

/// Counts an ace as 1 instead of 11 while the total is over 21 and aces are left.
pub open spec fn soften(total: int, aces: int) -> int
    decreases aces,
{
    if total > 21 && aces > 0 {
        soften(total - 10, aces - 1)
    } else {
        total
    }
}

/// The value of a hand.
pub open spec fn hand_value(s: Seq<u8>) -> int {
    soften(raw_total(s), ace_count(s))
}

proof fn lemma_raw_total_prefix(s: Seq<u8>, k: int)
    requires
        0 <= k <= s.len(),
    ensures
        0 <= raw_total(s.take(k)) <= raw_total(s),
        0 <= ace_count(s.take(k)) <= ace_count(s),
    decreases s.len() - k,
{
    if k < s.len() {
        lemma_raw_total_prefix(s, k + 1);
        assert(s.take(k + 1).drop_last() == s.take(k));
    } else {
        assert(s.take(k) == s);
    }
    lemma_raw_total_nonneg(s.take(k));
}

proof fn lemma_raw_total_nonneg(s: Seq<u8>)
    ensures
        raw_total(s) >= 0,
        ace_count(s) >= 0,
        ace_count(s) * 11 <= raw_total(s),
    decreases s.len(),
{
    if s.len() > 0 {
        lemma_raw_total_nonneg(s.drop_last());
    }
}

proof fn lemma_soften_bounds(total: int, aces: int)
    requires
        aces >= 0,
    ensures
        total - 10 * aces <= soften(total, aces) <= total,
        soften(total, aces) < 17 ==> total <= 16 + 10 * aces,
    decreases aces,
{
    if total > 21 && aces > 0 {
        lemma_soften_bounds(total - 10, aces - 1);
    }
}

/// The value of a hand of cards.
pub fn hand_total(cards: &Vec<u8>) -> (t: u8)
    requires
        raw_total(cards@) <= 255,
    ensures
        t as int == hand_value(cards@),
{
    let mut total: u8 = 0;
    let mut aces: u8 = 0;
    let mut i: usize = 0;
    while i < cards.len()
        invariant
            i <= cards.len(),
            raw_total(cards@) <= 255,
            total as int == raw_total(cards@.take(i as int)),
            aces as int == ace_count(cards@.take(i as int)),
        decreases cards.len() - i,
    {
        proof {
            lemma_raw_total_prefix(cards@, i + 1);
            lemma_raw_total_nonneg(cards@.take(i + 1));
            assert(cards@.take(i + 1).drop_last() == cards@.take(i as int));
        }
        let card = cards[i];
        if card == 1 {
            aces += 1;
            total += 11;
        } else if card < 10 {
            total += card;
        } else {
            total += 10;
        }
        i += 1;
    }
    assert(cards@.take(cards@.len() as int) == cards@);
    while total > 21 && aces > 0
        invariant
            soften(total as int, aces as int) == hand_value(cards@),
        decreases aces,
    {
        total -= 10;
        aces -= 1;
    }
    total
}

/// The name of a card.
pub open spec fn card_label(c: u8) -> Seq<char> {
    if c == 1 {
        "A"@
    } else if c == 11 {
        "J"@
    } else if c == 12 {
        "Q"@
    } else if c == 13 {
        "K"@
    } else {
        nat_digits(c as nat)
    }
}

/// The names of a hand.
pub open spec fn card_labels(s: Seq<u8>) -> Seq<Seq<char>> {
    s.map_values(|c: u8| card_label(c))
}

/// The name of a card.
pub fn card_name(card: u8) -> (s: String)
    ensures
        s@ == card_label(card),
{
    if card == 1 {
        lit("A")
    } else if card == 11 {
        lit("J")
    } else if card == 12 {
        lit("Q")
    } else if card == 13 {
        lit("K")
    } else {
        u64_text(card as u64)
    }
}

fn card_names(cards: &Vec<u8>) -> (r: Vec<String>)
    ensures
        r.deep_view() == card_labels(cards@),
{
    let mut r: Vec<String> = Vec::new();
    let mut i: usize = 0;
    while i < cards.len()
        invariant
            i <= cards.len(),
            r.deep_view() == card_labels(cards@.take(i as int)),
        decreases cards.len() - i,
    {
        r.push(card_name(cards[i]));
        proof {
            assert(card_labels(cards@.take(i + 1)) =~= card_labels(cards@.take(i as int)).push(card_label(cards@[i as int])));
            assert(r.deep_view() =~= card_labels(cards@.take(i + 1)));
        }
        i += 1;
    }
    assert(cards@.take(cards@.len() as int) == cards@);
    r
}

/// Moves the top card of `deck` into `hand`; refused, with nothing moved, on
/// an empty deck.
pub fn draw_to(deck: &mut Vec<u8>, hand: &mut Vec<u8>) -> (r: Result<(), CasinoError>)
    ensures
        old(deck)@.len() == 0 ==> (r matches Err(CasinoError::DeckEmpty) && final(deck)@ == old(deck)@ && final(hand)@
            == old(hand)@),
        old(deck)@.len() > 0 ==> (r is Ok && final(deck)@ == old(deck)@.drop_last() && final(hand)@ == old(hand)@.push(
            old(deck)@.last(),
        )),
{
    match deck.pop() {
        Some(card) => {
            hand.push(card);
            Ok(())
        },
        None => Err(CasinoError::DeckEmpty),
    }
}

/// What a blackjack answer shows: cards, totals, outcome, line and balance.
pub open spec fn shows_hand(
    resp: BlackjackResponse,
    player: Seq<u8>,
    dealer: Seq<u8>,
    finished: bool,
    outcome: Seq<char>,
    text: Seq<char>,
    key: Seq<char>,
    credits: i64,
) -> bool {
    &&& resp.player_cards.deep_view() == card_labels(player)
    &&& resp.dealer_cards.deep_view() == (if finished {
        card_labels(dealer)
    } else {
        seq![card_label(dealer[0]), "Hidden"@]
    })
    &&& resp.player_total as int == hand_value(player)
    &&& resp.dealer_total == (if finished { Some(hand_value(dealer) as u8) } else { None::<u8> })
    &&& resp.finished == finished
    &&& resp.outcome@ == outcome
    &&& resp.mesadmin@ == text
    &&& resp.balance.username@ == key
    &&& resp.balance.credits == credits
}

fn blackjack_response(
    bank: &mut Balances,
    key: &str,
    game: &BlackjackGame,
    finished: bool,
    outcome: &str,
    mesadmin: String,
) -> (r: BlackjackResponse)
    requires
        old(bank).wf(),
        raw_total(game.player_cards@) <= 255,
        raw_total(game.dealer_cards@) <= 255,
        !finished ==> game.dealer_cards@.len() > 0,
    ensures
        final(bank).wf(),
        final(bank)@ == old(bank)@.insert(key@, credits_or_start(old(bank)@, key@)),
        shows_hand(
            r,
            game.player_cards@,
            game.dealer_cards@,
            finished,
            outcome@,
            mesadmin@,
            key@,
            credits_or_start(old(bank)@, key@),
        ),
{
    let dealer_cards = if finished {
        card_names(&game.dealer_cards)
    } else {
        let mut d: Vec<String> = Vec::new();
        d.push(card_name(game.dealer_cards[0]));
        d.push(lit("Hidden"));
        assert(d.deep_view() =~= seq![card_label(game.dealer_cards@[0]), "Hidden"@]);
        d
    };
    let player_total = hand_total(&game.player_cards);
    let dealer_total = if finished { Some(hand_total(&game.dealer_cards)) } else { None };
    let balance = balance_for_key(bank, key);
    BlackjackResponse {
        player_cards: card_names(&game.player_cards),
        dealer_cards,
        player_total,
        dealer_total,
        finished,
        outcome: lit(outcome),
        mesadmin,
        balance,
    }
}

/// The start of a hand dealt from `deck`.
pub open spec fn blackjack_start_spec(
    old: Map<Seq<char>, i64>,
    user: Seq<char>,
    bet: i64,
    deck: Seq<u8>,
    new: Map<Seq<char>, i64>,
    r: Result<(BlackjackGame, BlackjackResponse), CasinoError>,
) -> bool {
    let key = user_key(user);
    let c0 = credits_or_start(old, key);
    if bet_check(bet) is Some {
        new == old && r == Err::<(BlackjackGame, BlackjackResponse), CasinoError>(bet_check(bet)->Some_0)
    } else if c0 < bet {
        new == old && r matches Err(CasinoError::NotEnoughCredits)
    } else if deck.len() < 4 {
        new == old.insert(key, (c0 - bet) as i64) && r matches Err(CasinoError::DeckEmpty)
    } else {
        let n = deck.len() as int;
        let player = seq![deck[n - 1], deck[n - 3]];
        let dealer = seq![deck[n - 2], deck[n - 4]];
        let natural = hand_value(player) == 21;
        let credits = if natural { c0 - bet + 3 * bet } else { c0 - bet };
        &&& new == old.insert(key, credits as i64)
        &&& r matches Ok((g, resp))
        &&& g.bet == bet
        &&& g.deck@ == deck.take(n - 4)
        &&& g.player_cards@ == player
        &&& g.dealer_cards@ == dealer
        &&& shows_hand(
            resp,
            player,
            dealer,
            natural,
            if natural { "blackjack"@ } else { "playing"@ },
            if natural {
                "Blackjack. You won "@ + int_decimal(3 * bet) + " Credits."@
            } else {
                "Blackjack started. Hit or stand."@
            },
            key,
            credits as i64,
        )
    }
}

proof fn lemma_two_card_totals(a: u8, b: u8)
    ensures
        raw_total(seq![a, b]) <= 22,
        raw_total(seq![a, b]) >= 0,
{
    assert(seq![a, b].drop_last() == seq![a]);
    assert(seq![a].drop_last() == Seq::<u8>::empty());
    assert(raw_total(Seq::<u8>::empty()) == 0);
    assert(raw_total(seq![a]) == card_points(a));
    assert(raw_total(seq![a, b]) == card_points(a) + card_points(b));
}

/// Deals a hand of blackjack to `username` from `deck`, after charging the bet.
pub fn blackjack_start_with_deck(bank: &mut Balances, username: &str, bet: i64, deck: Vec<u8>) -> (r: Result<
    (BlackjackGame, BlackjackResponse),
    CasinoError,
>)
    requires
        old(bank).wf(),
        valid_bet(bet) ==> has_room(old(bank)@, username@, 2 * bet),
    ensures
        final(bank).wf(),
        blackjack_start_spec(old(bank)@, username@, bet, deck@, final(bank)@, r),
{
    let ghost old_bank = bank@;
    if let Err(e) = validate_bet(bet) {
        return Err(e);
    }
    let key = clean_username(username);
    if let Err(e) = charge_bet_key(bank, key.as_str(), bet) {
        return Err(e);
    }
    let ghost d = deck@;
    let mut game = BlackjackGame { bet, deck, player_cards: Vec::new(), dealer_cards: Vec::new() };
    if game.deck.len() < 4 {
        return Err(CasinoError::DeckEmpty);
    }
    let _ = draw_to(&mut game.deck, &mut game.player_cards);
    let _ = draw_to(&mut game.deck, &mut game.dealer_cards);
    let _ = draw_to(&mut game.deck, &mut game.player_cards);
    let _ = draw_to(&mut game.deck, &mut game.dealer_cards);
    proof {
        let n = d.len() as int;
        assert(game.player_cards@ =~= seq![d[n - 1], d[n - 3]]);
        assert(game.dealer_cards@ =~= seq![d[n - 2], d[n - 4]]);
        assert(game.deck@ =~= d.take(n - 4));
        lemma_two_card_totals(d[n - 1], d[n - 3]);
        lemma_two_card_totals(d[n - 2], d[n - 4]);
    }
    if hand_total(&game.player_cards) == 21 {
        let payout = bet * 3;
        add_credits_key(bank, key.as_str(), payout);
        let mut text = lit("Blackjack. You won ");
        let p = i64_text(payout);
        append(&mut text, p.as_str());
        append(&mut text, " Credits.");
        let response = blackjack_response(bank, key.as_str(), &game, true, "blackjack", text);
        proof {
            let key_s = user_key(username@);
            let c0 = credits_or_start(old_bank, key_s);
            assert(bank@ =~= old_bank.insert(key_s, (c0 - bet + 3 * bet) as i64));
        }
        return Ok((game, response));
    }
    let response = blackjack_response(bank, key.as_str(), &game, false, "playing", lit("Blackjack started. Hit or stand."));
    proof {
        let key_s = user_key(username@);
        let c0 = credits_or_start(old_bank, key_s);
        assert(bank@ =~= old_bank.insert(key_s, (c0 - bet) as i64));
    }
    Ok((game, response))
}

/// The standard deck: ranks 1 to 13, four times.
pub open spec fn standard_deck() -> Seq<u8> {
    Seq::new(52, |i: int| ((i % 13) + 1) as u8)
}

/// Shuffles a deck in place: `SliceRandom::shuffle` with `rand`'s thread RNG,
/// which only swaps cards, so the cards are the same afterwards.
#[verifier::external_body]
fn shuffle_cards(deck: &mut Vec<u8>)
    ensures
        final(deck)@.len() == old(deck)@.len(),
        final(deck)@.to_multiset() == old(deck)@.to_multiset(),
{
    deck.shuffle(&mut rand::thread_rng());
}

/// A freshly shuffled standard deck.
pub fn shuffled_deck() -> (d: Vec<u8>)
    ensures
        d@.len() == 52,
        d@.to_multiset() == standard_deck().to_multiset(),
{
    let mut deck: Vec<u8> = Vec::new();
    let mut i: u8 = 0;
    while i < 52
        invariant
            i <= 52,
            deck@ == standard_deck().take(i as int),
        decreases 52 - i,
    {
        deck.push(i % 13 + 1);
        assert(deck@ =~= standard_deck().take(i + 1));
        i += 1;
    }
    assert(standard_deck().take(52) == standard_deck());
    shuffle_cards(&mut deck);
    deck
}

/// Deals a hand of blackjack to `username` from a freshly shuffled deck.
pub fn blackjack_start(bank: &mut Balances, username: &str, bet: i64) -> (r: Result<
    (BlackjackGame, BlackjackResponse),
    CasinoError,
>)
    requires
        old(bank).wf(),
        valid_bet(bet) ==> has_room(old(bank)@, username@, 2 * bet),
    ensures
        final(bank).wf(),
        exists|deck: Seq<u8>|
            deck.len() == 52 && deck.to_multiset() == standard_deck().to_multiset()
                && #[trigger] blackjack_start_spec(old(bank)@, username@, bet, deck, final(bank)@, r),
{
    let deck = shuffled_deck();
    let ghost d = deck@;
    let r = blackjack_start_with_deck(bank, username, bet, deck);
    assert(blackjack_start_spec(old(bank)@, username@, bet, d, bank@, r));
    r
}

/// The player takes a card.
pub open spec fn blackjack_hit_spec(
    old: Map<Seq<char>, i64>,
    user: Seq<char>,
    g0: BlackjackGame,
    g1: BlackjackGame,
    new: Map<Seq<char>, i64>,
    r: Result<BlackjackResponse, CasinoError>,
) -> bool {
    let key = user_key(user);
    let c0 = credits_or_start(old, key);
    if g0.deck@.len() == 0 {
        g1 == g0 && new == old && r matches Err(CasinoError::DeckEmpty)
    } else {
        let player = g0.player_cards@.push(g0.deck@.last());
        let total = hand_value(player);
        let bust = total > 21;
        &&& g1.bet == g0.bet
        &&& g1.deck@ == g0.deck@.drop_last()
        &&& g1.player_cards@ == player
        &&& g1.dealer_cards@ == g0.dealer_cards@
        &&& new == old.insert(key, c0)
        &&& r matches Ok(resp)
        &&& shows_hand(
            resp,
            player,
            g0.dealer_cards@,
            bust,
            if bust { "lost"@ } else { "playing"@ },
            if bust {
                "You busted with "@ + nat_digits(total as nat) + "."@
            } else {
                "Card drawn. Hit or stand."@
            },
            key,
            c0,
        )
    }
}

proof fn lemma_raw_total_push(s: Seq<u8>, c: u8)
    ensures
        raw_total(s.push(c)) == raw_total(s) + card_points(c),
        ace_count(s.push(c)) == ace_count(s) + if c == 1 { 1int } else { 0int },
{
    assert(s.push(c).drop_last() == s);
}

/// The player of `game` takes a card.
pub fn blackjack_hit(bank: &mut Balances, username: &str, game: &mut BlackjackGame) -> (r: Result<
    BlackjackResponse,
    CasinoError,
>)
    requires
        old(bank).wf(),
        raw_total(old(game).player_cards@) <= 244,
        raw_total(old(game).dealer_cards@) <= 255,
        old(game).dealer_cards@.len() > 0 || old(game).deck@.len() == 0 || hand_value(
            old(game).player_cards@.push(old(game).deck@.last()),
        ) > 21,
    ensures
        final(bank).wf(),
        blackjack_hit_spec(old(bank)@, username@, *old(game), *final(game), final(bank)@, r),
{
    let ghost g0 = *game;
    let key = clean_username(username);
    if game.deck.len() == 0 {
        return Err(CasinoError::DeckEmpty);
    }
    let _ = draw_to(&mut game.deck, &mut game.player_cards);
    proof {
        lemma_raw_total_push(g0.player_cards@, g0.deck@.last());
    }
    let total = hand_total(&game.player_cards);
    if total > 21 {
        let mut text = lit("You busted with ");
        let t = u64_text(total as u64);
        append(&mut text, t.as_str());
        append(&mut text, ".");
        return Ok(blackjack_response(bank, key.as_str(), game, true, "lost", text));
    }
    Ok(blackjack_response(bank, key.as_str(), game, false, "playing", lit("Card drawn. Hit or stand.")))
}

/// The dealer draws from `deck` until the hand is worth 17 or more: the hand
/// and deck afterwards, and whether the deck lasted.
pub open spec fn dealer_draw(dealer: Seq<u8>, deck: Seq<u8>) -> (Seq<u8>, Seq<u8>, bool)
    decreases deck.len(),
{
    if hand_value(dealer) >= 17 {
        (dealer, deck, true)
    } else if deck.len() == 0 {
        (dealer, deck, false)
    } else {
        dealer_draw(dealer.push(deck.last()), deck.drop_last())
    }
}

/// How a finished hand is settled: outcome, payout and line.
pub open spec fn settle_outcome(bet: i64, player: int, dealer: int) -> (Seq<char>, int, Seq<char>) {
    if dealer > 21 || player > dealer {
        ("won"@, bet * 2, "You beat the dealer "@ + nat_digits(player as nat) + " to "@ + nat_digits(dealer as nat) + "."@)
    } else if player == dealer {
        ("push"@, bet as int, "Push. You and the dealer both have "@ + nat_digits(player as nat) + "."@)
    } else {
        ("lost"@, 0, "Dealer wins "@ + nat_digits(dealer as nat) + " to "@ + nat_digits(player as nat) + "."@)
    }
}

/// The player stands: the dealer draws, then the hand is settled.
pub open spec fn blackjack_stand_spec(
    old: Map<Seq<char>, i64>,
    user: Seq<char>,
    g0: BlackjackGame,
    g1: BlackjackGame,
    new: Map<Seq<char>, i64>,
    r: Result<BlackjackResponse, CasinoError>,
) -> bool {
    let key = user_key(user);
    let c0 = credits_or_start(old, key);
    let drawn = dealer_draw(g0.dealer_cards@, g0.deck@);
    &&& g1.bet == g0.bet
    &&& g1.player_cards@ == g0.player_cards@
    &&& g1.dealer_cards@ == drawn.0
    &&& g1.deck@ == drawn.1
    &&& if !drawn.2 {
        new == old && r matches Err(CasinoError::DeckEmpty)
    } else {
        let p = hand_value(g0.player_cards@);
        let d = hand_value(drawn.0);
        let s = settle_outcome(g0.bet, p, d);
        let credits = if s.1 > 0 { c0 + s.1 } else { c0 as int };
        &&& new == old.insert(key, credits as i64)
        &&& r matches Ok(resp)
        &&& shows_hand(resp, g0.player_cards@, drawn.0, true, s.0, s.2, key, credits as i64)
    }
}

proof fn lemma_dealer_draw_step(dealer: Seq<u8>, deck: Seq<u8>)
    requires
        hand_value(dealer) < 17,
        deck.len() > 0,
    ensures
        dealer_draw(dealer, deck) == dealer_draw(dealer.push(deck.last()), deck.drop_last()),
{
}

/// Drawing only adds cards: the drawn hand counts at least as much.
proof fn lemma_draw_grows(d: Seq<u8>, k: Seq<u8>)
    ensures
        raw_total(d) <= raw_total(dealer_draw(d, k).0),
    decreases k.len(),
{
    if hand_value(d) < 17 && k.len() > 0 {
        lemma_raw_total_push(d, k.last());
        lemma_draw_grows(d.push(k.last()), k.drop_last());
    }
}

/// The dealer draws only below 17, which a hand of more than 176 raw points
/// never is; so a hand within 255 points stays within 255 points.
proof fn lemma_draw_bounded(d: Seq<u8>, k: Seq<u8>)
    requires
        raw_total(d) <= 255,
    ensures
        raw_total(dealer_draw(d, k).0) <= 255,
    decreases k.len(),
{
    if hand_value(d) < 17 && k.len() > 0 {
        lemma_raw_total_nonneg(d);
        lemma_soften_bounds(raw_total(d), ace_count(d));
        assert(raw_total(d) <= 176);
        lemma_raw_total_push(d, k.last());
        lemma_draw_bounded(d.push(k.last()), k.drop_last());
    }
}

/// The player of `game` stands: the dealer draws to 17, then the hand is
/// settled and paid.
pub fn blackjack_stand(bank: &mut Balances, username: &str, game: &mut BlackjackGame) -> (r: Result<
    BlackjackResponse,
    CasinoError,
>)
    requires
        old(bank).wf(),
        raw_total(old(game).player_cards@) <= 255,
        raw_total(old(game).dealer_cards@) <= 255,
        -4611686018427387904 <= old(game).bet <= 4611686018427387903,
        old(game).bet > 0 ==> has_room(old(bank)@, username@, 2 * old(game).bet),
    ensures
        final(bank).wf(),
        blackjack_stand_spec(old(bank)@, username@, *old(game), *final(game), final(bank)@, r),
{
    let ghost g0 = *game;
    let ghost old_bank = bank@;
    proof {
        lemma_draw_bounded(g0.dealer_cards@, g0.deck@);
    }
    loop
        invariant
            g0 == *old(game),
            old_bank == old(bank)@,
            game.bet == g0.bet,
            game.player_cards@ == g0.player_cards@,
            dealer_draw(game.dealer_cards@, game.deck@) == dealer_draw(g0.dealer_cards@, g0.deck@),
            raw_total(dealer_draw(g0.dealer_cards@, g0.deck@).0) <= 255,
            raw_total(game.dealer_cards@) <= 255,
            bank@ == old_bank,
            bank.wf(),
        ensures
            game.bet == g0.bet,
            game.player_cards@ == g0.player_cards@,
            dealer_draw(game.dealer_cards@, game.deck@) == dealer_draw(g0.dealer_cards@, g0.deck@),
            raw_total(game.dealer_cards@) <= 255,
            hand_value(game.dealer_cards@) >= 17,
            bank@ == old_bank,
            bank.wf(),
        decreases game.deck@.len(),
    {
        if hand_total(&game.dealer_cards) >= 17 {
            break;
        }
        if game.deck.len() == 0 {
            assert(dealer_draw(game.dealer_cards@, game.deck@) == (game.dealer_cards@, game.deck@, false));
            assert(game.dealer_cards@ == dealer_draw(g0.dealer_cards@, g0.deck@).0);
            return Err(CasinoError::DeckEmpty);
        }
        proof {
            let dl = game.dealer_cards@;
            let dk = game.deck@;
            lemma_dealer_draw_step(dl, dk);
            lemma_draw_grows(dl.push(dk.last()), dk.drop_last());
        }
        let _ = draw_to(&mut game.deck, &mut game.dealer_cards);
    }
    assert(dealer_draw(game.dealer_cards@, game.deck@) == (game.dealer_cards@, game.deck@, true));
    let key = clean_username(username);
    let player = hand_total(&game.player_cards);
    let dealer = hand_total(&game.dealer_cards);
    let bet = game.bet;
    let (outcome, payout): (&str, i64) = if dealer > 21 || player > dealer {
        ("won", bet * 2)
    } else if player == dealer {
        ("push", bet)
    } else {
        ("lost", 0)
    };
    let p_text = u64_text(player as u64);
    let d_text = u64_text(dealer as u64);
    let mut text = if dealer > 21 || player > dealer {
        let mut t = lit("You beat the dealer ");
        append(&mut t, p_text.as_str());
        append(&mut t, " to ");
        append(&mut t, d_text.as_str());
        append(&mut t, ".");
        t
    } else if player == dealer {
        let mut t = lit("Push. You and the dealer both have ");
        append(&mut t, p_text.as_str());
        append(&mut t, ".");
        t
    } else {
        let mut t = lit("Dealer wins ");
        append(&mut t, d_text.as_str());
        append(&mut t, " to ");
        append(&mut t, p_text.as_str());
        append(&mut t, ".");
        t
    };
    proof {
        let s = settle_outcome(bet, player as int, dealer as int);
        assert(text@ =~= s.2);
        assert(outcome@ == s.0);
        assert(payout == s.1);
    }
    if payout > 0 {
        add_credits_key(bank, key.as_str(), payout);
    }
    let response = blackjack_response(bank, key.as_str(), game, true, outcome, text);
    proof {
        let key_s = user_key(username@);
        let c0 = credits_or_start(old_bank, key_s);
        let credits = if payout > 0 { c0 + payout } else { c0 as int };
        assert(bank@ =~= old_bank.insert(key_s, credits as i64));
    }
    Ok(response)
}

/// A quick game: deal from `deck`, then stand at once unless the hand is
/// already finished.
pub open spec fn blackjack_quick_spec(
    old: Map<Seq<char>, i64>,
    user: Seq<char>,
    bet: i64,
    deck: Seq<u8>,
    new: Map<Seq<char>, i64>,
    r: Result<BlackjackResponse, CasinoError>,
) -> bool {
    exists|mid: Map<Seq<char>, i64>, rs: Result<(BlackjackGame, BlackjackResponse), CasinoError>|
        #[trigger] blackjack_start_spec(old, user, bet, deck, mid, rs) && match rs {
            Err(e) => new == mid && r == Err::<BlackjackResponse, CasinoError>(e),
            Ok((g, resp)) => if resp.finished {
                new == mid && r == Ok::<BlackjackResponse, CasinoError>(resp)
            } else {
                exists|g1: BlackjackGame| #[trigger] blackjack_stand_spec(mid, user, g, g1, new, r)
            },
        }
}

/// Deals from `deck` and stands at once unless the hand is already finished.
pub fn blackjack_quick_with_deck(bank: &mut Balances, username: &str, bet: i64, deck: Vec<u8>) -> (r: Result<
    BlackjackResponse,
    CasinoError,
>)
    requires
        old(bank).wf(),
        valid_bet(bet) ==> has_room(old(bank)@, username@, 2 * bet),
    ensures
        final(bank).wf(),
        blackjack_quick_spec(old(bank)@, username@, bet, deck@, final(bank)@, r),
{
    let ghost d = deck@;
    let ghost old_bank = bank@;
    let started = blackjack_start_with_deck(bank, username, bet, deck);
    let ghost mid = bank@;
    let ghost rs = started;
    match started {
        Err(e) => {
            assert(blackjack_start_spec(old_bank, username@, bet, d, mid, rs));
            Err(e)
        },
        Ok((mut game, response)) => {
            if response.finished {
                assert(blackjack_start_spec(old_bank, username@, bet, d, mid, rs));
                return Ok(response);
            }
            proof {
                let n = d.len() as int;
                lemma_two_card_totals(d[n - 1], d[n - 3]);
                lemma_two_card_totals(d[n - 2], d[n - 4]);
                lemma_draw_bounded(game.dealer_cards@, game.deck@);
            }
            let ghost g = game;
            let r = blackjack_stand(bank, username, &mut game);
            assert(blackjack_stand_spec(mid, username@, g, game, bank@, r));
            assert(blackjack_start_spec(old_bank, username@, bet, d, mid, rs));
            r
        },
    }
}

/// A quick game of blackjack from a freshly shuffled deck.
pub fn play_blackjack_quick(bank: &mut Balances, username: &str, bet: i64) -> (r: Result<BlackjackResponse, CasinoError>)
    requires
        old(bank).wf(),
        valid_bet(bet) ==> has_room(old(bank)@, username@, 2 * bet),
    ensures
        final(bank).wf(),
        exists|deck: Seq<u8>|
            deck.len() == 52 && deck.to_multiset() == standard_deck().to_multiset()
                && #[trigger] blackjack_quick_spec(old(bank)@, username@, bet, deck, final(bank)@, r),
{
    let deck = shuffled_deck();
    let ghost d = deck@;
    let r = blackjack_quick_with_deck(bank, username, bet, deck);
    assert(blackjack_quick_spec(old(bank)@, username@, bet, d, bank@, r));
    r
}

// ---------------------------------------------------------------------------
// Games with the payout room tested first
// ---------------------------------------------------------------------------
/// Whether a game paying up to `k` times `bet` leaves the balance of
/// `username` within the range of `i64` (no test is needed for a bet that
/// the game refuses).
pub fn payout_room(bank: &Balances, username: &str, bet: i64, k: i64) -> (r: bool)
    requires
        bank.wf(),
        1 <= k <= 36,
    ensures
        r == (valid_bet(bet) ==> has_room(bank@, username@, k * bet)),
{
    if bet < 1 || bet > MAX_BET {
        return true;
    }
    assert(k * bet <= 36 * MAX_BET) by (nonlinear_arith)
        requires
            1 <= k <= 36,
            1 <= bet <= MAX_BET,
    ;
    let key = clean_username(username);
    let credits = match bank.get(key.as_str()) {
        Some(c) => c,
        None => STARTING_CREDITS,
    };
    credits <= i64::MAX - k * bet
}

/// Spins the wheel when the largest payout fits in the player's balance;
/// `None`, with nothing changed, when it would not.
pub fn try_play_roulette(bank: &mut Balances, username: &str, bet: i64, choice: &str) -> (r: Option<
    Result<RouletteResponse, CasinoError>,
>)
    requires
        old(bank).wf(),
    ensures
        final(bank).wf(),
        !(valid_bet(bet) ==> has_room(old(bank)@, username@, 35 * bet)) ==> r is None && final(bank)@ == old(bank)@,
        (valid_bet(bet) ==> has_room(old(bank)@, username@, 35 * bet)) ==> (r matches Some(res) && exists|n: u8|
            n <= 36 && #[trigger] roulette_spec(old(bank)@, username@, bet, choice@, n, final(bank)@, res)),
{
    if !payout_room(bank, username, bet, 35) {
        return None;
    }
    Some(play_roulette(bank, username, bet, choice))
}

/// Pulls the slots when the largest payout fits in the player's balance;
/// `None`, with nothing changed, when it would not.
pub fn try_play_slots(bank: &mut Balances, username: &str, bet: i64) -> (r: Option<Result<SlotsResponse, CasinoError>>)
    requires
        old(bank).wf(),
    ensures
        final(bank).wf(),
        !(valid_bet(bet) ==> has_room(old(bank)@, username@, 24 * bet)) ==> r is None && final(bank)@ == old(bank)@,
        (valid_bet(bet) ==> has_room(old(bank)@, username@, 24 * bet)) ==> (r matches Some(res) && exists|a: int, b: int, c: int|
            0 <= a < 6 && 0 <= b < 6 && 0 <= c < 6 && #[trigger] slots_spec(old(bank)@, username@, bet, a, b, c, final(bank)@, res)),
{
    if !payout_room(bank, username, bet, 24) {
        return None;
    }
    Some(play_slots(bank, username, bet))
}

/// Deals a hand of blackjack when a win fits in the player's balance;
/// `None`, with nothing changed, when it would not.
pub fn try_blackjack_start(bank: &mut Balances, username: &str, bet: i64) -> (r: Option<
    Result<(BlackjackGame, BlackjackResponse), CasinoError>,
>)
    requires
        old(bank).wf(),
    ensures
        final(bank).wf(),
        !(valid_bet(bet) ==> has_room(old(bank)@, username@, 2 * bet)) ==> r is None && final(bank)@ == old(bank)@,
        (valid_bet(bet) ==> has_room(old(bank)@, username@, 2 * bet)) ==> (r matches Some(res) && exists|deck: Seq<u8>|
            deck.len() == 52 && deck.to_multiset() == standard_deck().to_multiset()
                && #[trigger] blackjack_start_spec(old(bank)@, username@, bet, deck, final(bank)@, res)),
{
    if !payout_room(bank, username, bet, 2) {
        return None;
    }
    Some(blackjack_start(bank, username, bet))
}

/// Plays a quick hand of blackjack when a win fits in the player's balance;
/// `None`, with nothing changed, when it would not.
pub fn try_play_blackjack_quick(bank: &mut Balances, username: &str, bet: i64) -> (r: Option<
    Result<BlackjackResponse, CasinoError>,
>)
    requires
        old(bank).wf(),
    ensures
        final(bank).wf(),
        !(valid_bet(bet) ==> has_room(old(bank)@, username@, 2 * bet)) ==> r is None && final(bank)@ == old(bank)@,
        (valid_bet(bet) ==> has_room(old(bank)@, username@, 2 * bet)) ==> (r matches Some(res) && exists|deck: Seq<u8>|
            deck.len() == 52 && deck.to_multiset() == standard_deck().to_multiset()
                && #[trigger] blackjack_quick_spec(old(bank)@, username@, bet, deck, final(bank)@, res)),
{
    if !payout_room(bank, username, bet, 2) {
        return None;
    }
    Some(play_blackjack_quick(bank, username, bet))
}

/// Stands on `game` when a win fits in the player's balance; `None`, with
/// nothing changed, when it would not.
pub fn try_blackjack_stand(bank: &mut Balances, username: &str, game: &mut BlackjackGame) -> (r: Option<
    Result<BlackjackResponse, CasinoError>,
>)
    requires
        old(bank).wf(),
        raw_total(old(game).player_cards@) <= 255,
        raw_total(old(game).dealer_cards@) <= 255,
        -4611686018427387904 <= old(game).bet <= 4611686018427387903,
    ensures
        final(bank).wf(),
        !(old(game).bet > 0 ==> has_room(old(bank)@, username@, 2 * old(game).bet)) ==> r is None
            && final(bank)@ == old(bank)@ && *final(game) == *old(game),
        (old(game).bet > 0 ==> has_room(old(bank)@, username@, 2 * old(game).bet)) ==> (r matches Some(res)
            && blackjack_stand_spec(old(bank)@, username@, *old(game), *final(game), final(bank)@, res)),
{
    if game.bet > 0 {
        let key = clean_username(username);
        let credits = match bank.get(key.as_str()) {
            Some(c) => c,
            None => STARTING_CREDITS,
        };
        if credits > i64::MAX - 2 * game.bet {
            return None;
        }
    }
    Some(blackjack_stand(bank, username, game))
}

// ---------------------------------------------------------------------------
// Leaderboards
// ---------------------------------------------------------------------------
/// `a` ranks above `b`: more Credits, or as many and a smaller username.
pub open spec fn ranks_before(a: (Seq<char>, i64), b: (Seq<char>, i64)) -> bool {
    a.1 > b.1 || (a.1 == b.1 && text_lt(a.0, b.0))
}

/// No entry ranks above an earlier one.
pub open spec fn ranked(s: Seq<(Seq<char>, i64)>) -> bool {
    forall|i: int, j: int| 0 <= i < j < s.len() ==> !ranks_before(#[trigger] s[j], #[trigger] s[i])
}

/// A balance as a `(username, credits)` pair.
pub open spec fn balance_pair(b: CasinoBalance) -> (Seq<char>, i64) {
    (b.username@, b.credits)
}

/// A stored row as a `(username, credits)` pair.
pub open spec fn row_pair(r: BalanceRow) -> (Seq<char>, i64) {
    (r.username@, r.credits)
}

/// The pairs of a list of balances.
pub open spec fn balance_pairs(s: Seq<CasinoBalance>) -> Seq<(Seq<char>, i64)> {
    s.map_values(|b: CasinoBalance| balance_pair(b))
}

proof fn lemma_ranks_total(x: (Seq<char>, i64), y: (Seq<char>, i64))
    ensures
        !ranks_before(x, y) ==> (ranks_before(y, x) || x == y),
        !(ranks_before(x, y) && ranks_before(y, x)),
        !ranks_before(x, x),
{
    lemma_text_lt_total(x.0, y.0);
    lemma_text_lt_irreflexive(x.0);
}

proof fn lemma_ranks_transitive(x: (Seq<char>, i64), y: (Seq<char>, i64), z: (Seq<char>, i64))
    requires
        ranks_before(x, y),
        ranks_before(y, z),
    ensures
        ranks_before(x, z),
{
    if x.1 == y.1 && y.1 == z.1 {
        lemma_text_lt_transitive(x.0, y.0, z.0);
    }
}

proof fn lemma_ranked_insert(s: Seq<(Seq<char>, i64)>, p: int, x: (Seq<char>, i64))
    requires
        ranked(s),
        0 <= p <= s.len(),
        forall|i: int| 0 <= i < p ==> !ranks_before(x, #[trigger] s[i]),
        p < s.len() ==> ranks_before(x, s[p]),
    ensures
        ranked(s.insert(p, x)),
{
    let t = s.insert(p, x);
    assert forall|i: int, j: int| 0 <= i < j < t.len() implies !ranks_before(#[trigger] t[j], #[trigger] t[i]) by {
        if i < p && j < p {
            assert(t[i] == s[i] && t[j] == s[j]);
        } else if i < p && j == p {
            assert(t[i] == s[i] && t[j] == x);
        } else if i < p {
            assert(t[i] == s[i] && t[j] == s[j - 1]);
        } else if i == p {
            assert(t[i] == x && t[j] == s[j - 1]);
            if ranks_before(s[j - 1], x) {
                lemma_ranks_transitive(s[j - 1], x, s[p]);
                lemma_ranks_total(s[p], s[p]);
            }
        } else {
            assert(t[i] == s[i - 1] && t[j] == s[j - 1]);
        }
    }
}

proof fn lemma_insert_multiset<A>(s: Seq<A>, p: int, x: A)
    requires
        0 <= p <= s.len(),
    ensures
        s.insert(p, x).to_multiset() == s.to_multiset().insert(x),
{
    broadcast use vstd::seq_lib::group_to_multiset_ensures;
    let t = s.insert(p, x);
    assert(t.remove(p) == s);
    assert(t.to_multiset().count(x) > 0) by {
        assert(t[p] == x);
        assert(t.contains(x));
    }
    assert(t.to_multiset() =~= s.to_multiset().insert(x));
}

/// Every balance, richest first; equal balances by username.
pub fn all_balances(bank: &Balances) -> (r: Vec<CasinoBalance>)
    requires
        bank.wf(),
    ensures
        balance_pairs(r@).to_multiset() == bank.entries().map_values(|e: BalanceRow| row_pair(e)).to_multiset(),
        ranked(balance_pairs(r@)),
{
    let rows = bank.rows();
    let ghost entries = bank.entries().map_values(|e: BalanceRow| row_pair(e));
    let mut out: Vec<CasinoBalance> = Vec::new();
    let mut k: usize = 0;
    assert(balance_pairs(out@) =~= Seq::<(Seq<char>, i64)>::empty());
    assert(entries.take(0) =~= Seq::<(Seq<char>, i64)>::empty());
    while k < rows.len()
        invariant
            k <= rows.len(),
            rows@.len() == entries.len(),
            forall|i: int| 0 <= i < rows@.len() ==> (#[trigger] rows@[i]).0@ == entries[i].0 && rows@[i].1 == entries[i].1,
            balance_pairs(out@).to_multiset() == entries.take(k as int).to_multiset(),
            ranked(balance_pairs(out@)),
        decreases rows.len() - k,
    {
        let name = rows[k].0.clone();
        let credits = rows[k].1;
        let name_chars = chars_of(name.as_str());
        let ghost x = (name@, credits);
        let mut p: usize = 0;
        while p < out.len()
            invariant
                p <= out.len(),
                x == (name_chars@, credits),
                forall|i: int| 0 <= i < p ==> !ranks_before(x, #[trigger] balance_pairs(out@)[i]),
            ensures
                p <= out.len(),
                forall|i: int| 0 <= i < p ==> !ranks_before(x, #[trigger] balance_pairs(out@)[i]),
                p < out.len() ==> ranks_before(x, balance_pairs(out@)[p as int]),
            decreases out.len() - p,
        {
            let other = chars_of(out[p].username.as_str());
            let before = credits > out[p].credits || (credits == out[p].credits && text_less(&name_chars, &other));
            assert(balance_pairs(out@)[p as int] == balance_pair(out@[p as int]));
            if before {
                break;
            }
            p += 1;
        }
        proof {
            if p < out.len() {
                let other = out@[p as int];
                assert(balance_pairs(out@)[p as int] == balance_pair(other));
            }
        }
        let ghost old_pairs = balance_pairs(out@);
        out.insert(p, CasinoBalance { username: name, credits });
        proof {
            assert(balance_pairs(out@) =~= old_pairs.insert(p as int, x));
            lemma_ranked_insert(old_pairs, p as int, x);
            lemma_insert_multiset(old_pairs, p as int, x);
            assert(entries.take(k + 1) =~= entries.take(k as int).push(entries[k as int]));
            broadcast use vstd::seq_lib::group_to_multiset_ensures;
        }
        k += 1;
    }
    assert(entries.take(rows@.len() as int) == entries);
    out
}

/// The leaderboard: the first 25 rows of a ranked list of balances (as
/// `all_balances` gives it), numbered from 1.
pub fn vip_table(rows: &Vec<CasinoBalance>) -> (r: Vec<VipTableEntry>)
    ensures
        r@.len() == if rows@.len() < 25 { rows@.len() as int } else { 25 },
        forall|i: int|
            0 <= i < r@.len() ==> (#[trigger] r@[i]).rank == i + 1 && r@[i].username@ == rows@[i].username@
                && r@[i].credits == rows@[i].credits,
{
    let mut out: Vec<VipTableEntry> = Vec::new();
    let mut i: usize = 0;
    while i < rows.len() && i < 25
        invariant
            i <= rows.len(),
            i <= 25,
            out@.len() == i,
            forall|j: int|
                0 <= j < i ==> (#[trigger] out@[j]).rank == j + 1 && out@[j].username@ == rows@[j].username@
                    && out@[j].credits == rows@[j].credits,
        decreases 25 - i,
    {
        out.push(VipTableEntry { rank: i + 1, username: rows[i].username.clone(), credits: rows[i].credits });
        i += 1;
    }
    out
}

} // verus!
