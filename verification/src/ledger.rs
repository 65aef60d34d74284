//! The bank ledger: paying out the signed Credits books found in a chest.
use vstd::prelude::*;
use crate::bank::Balances;
use crate::bot_rules::{credits_book_spec, read_credits_book, BookStack};
use crate::casino::{add_credits, balance, credits_or_start, has_room, user_key};
use crate::config::{ChestLedgerConfig, ChestLedgerEntry};
use crate::num::nat_digits;
use crate::text::{append, clean_name_list, clean_names, lit};

verus! {

/// The accepted writers of a ledger chest: its allowed players, trimmed and
/// lowercased, blank ones dropped; refused when none is left.
pub fn ledger_allowed_writers(config: &ChestLedgerConfig) -> (r: Result<Vec<String>, String>)
    ensures
        clean_names(config.allowed_players.deep_view(), true).len() == 0 ==> (r matches Err(m)
            && m@ == "add at least one allowed book writer/signer"@),
        clean_names(config.allowed_players.deep_view(), true).len() > 0 ==> (r matches Ok(v) && v.deep_view()
            == clean_names(config.allowed_players.deep_view(), true)),
{
    let mut names: Vec<String> = Vec::new();
    let mut i: usize = 0;
    while i < config.allowed_players.len()
        invariant
            i <= config.allowed_players.len(),
            names@.len() == i,
            forall|j: int| 0 <= j < i ==> (#[trigger] names@[j])@ == config.allowed_players@[j]@,
        decreases config.allowed_players.len() - i,
    {
        names.push(config.allowed_players[i].clone());
        i += 1;
    }
    assert(names.deep_view() =~= config.allowed_players.deep_view());
    let cleaned = clean_name_list(names, true);
    if cleaned.len() == 0 {
        Err(lit("add at least one allowed book writer/signer"))
    } else {
        Ok(cleaned)
    }
}

/// What the ledger did with one chest slot.
pub enum SlotOutcome {
    /// A book was paid out.
    Credited(ChestLedgerEntry),
    /// The slot holds no written book.
    Nothing,
    /// The book was refused, for this reason.
    Skipped(String),
}

/// Crediting `amount` to `user` keeps the balance within `i64`.
pub open spec fn credit_fits(m: Map<Seq<char>, i64>, user: Seq<char>, amount: i64) -> bool {
    has_room(m, user, amount as int) && credits_or_start(m, user_key(user)) + amount >= i64::MIN
}

/// What paying out the book in slot `slot` does: the balances before and
/// after, and the outcome.
pub open spec fn ledger_slot_outcome(
    old: Map<Seq<char>, i64>,
    new: Map<Seq<char>, i64>,
    book: BookStack,
    slot: usize,
    allowed: Seq<Seq<char>>,
    min_credits: i64,
    max_credits: i64,
    r: Option<SlotOutcome>,
) -> bool {
    match credits_book_spec(book, slot, allowed, min_credits, max_credits) {
        Ok(None) => r matches Some(SlotOutcome::Nothing) && new == old,
        Err(m) => r matches Some(SlotOutcome::Skipped(s)) && s@ == m && new == old,
        Ok(Some(b)) => if credit_fits(old, b.0, b.3) {
            let key = user_key(b.0);
            let credits = credits_or_start(old, key) + b.3;
            &&& r matches Some(SlotOutcome::Credited(e))
            &&& e.slot == slot
            &&& e.author@ == b.0 && e.recipient@ == b.1 && e.title@ == b.2 && e.amount == b.3 && e.page_text@
                == b.4
            &&& e.balance.username@ == key && e.balance.credits == credits
            &&& new == old.insert(key, credits as i64)
        } else {
            r is None && new == old
        },
    }
}

/// Pays out the book in chest slot `slot`: its author is credited and the
/// entry returned; a refused book gives its reason. `None` (with nothing
/// changed) where the credit would overflow the author's balance.
pub fn credit_ledger_slot(
    bank: &mut Balances,
    book: &BookStack,
    slot: usize,
    allowed: &Vec<String>,
    config: &ChestLedgerConfig,
) -> (r: Option<SlotOutcome>)
    requires
        old(bank).wf(),
    ensures
        final(bank).wf(),
        ledger_slot_outcome(
            old(bank)@,
            final(bank)@,
            *book,
            slot,
            allowed.deep_view(),
            config.min_credits,
            config.max_credits,
            r,
        ),
{
    match read_credits_book(book, slot, allowed, config.min_credits, config.max_credits) {
        Ok(None) => Some(SlotOutcome::Nothing),
        Err(m) => Some(SlotOutcome::Skipped(m)),
        Ok(Some(b)) => {
            let key = crate::casino::clean_username(b.author.as_str());
            let c0 = match bank.get(key.as_str()) {
                Some(c) => c,
                None => crate::casino::STARTING_CREDITS,
            };
            if (b.amount > 0 && c0 > i64::MAX - b.amount) || (b.amount < 0 && c0 < i64::MIN - b.amount) {
                return None;
            }
            let ghost before = bank@;
            add_credits(bank, b.author.as_str(), b.amount);
            let after = balance(bank, b.author.as_str());
            proof {
                let k = user_key(b.author@);
                assert(bank@ =~= before.insert(k, (credits_or_start(before, k) + b.amount) as i64));
            }
            Some(
                SlotOutcome::Credited(
                    ChestLedgerEntry {
                        slot,
                        author: b.author,
                        recipient: b.recipient,
                        title: b.title,
                        amount: b.amount,
                        page_text: b.page_text,
                        balance: after,
                    },
                ),
            )
        },
    }
}

/// "Chest ledger processed n signed book(s), skipped m item(s)."
pub fn ledger_summary(processed: usize, skipped: usize) -> (r: String)
    ensures
        r@ == "Chest ledger processed "@ + nat_digits(processed as nat) + " signed book(s), skipped "@ + nat_digits(
            skipped as nat,
        ) + " item(s)."@,
{
    let mut s = lit("Chest ledger processed ");
    append(&mut s, crate::num::u64_text(processed as u64).as_str());
    append(&mut s, " signed book(s), skipped ");
    append(&mut s, crate::num::u64_text(skipped as u64).as_str());
    append(&mut s, " item(s).");
    s
}

/// The note left when paid books were moved to the archive chest.
pub fn moved_books_message(moved: usize) -> (r: String)
    ensures
        r@ == "banking: moved "@ + nat_digits(moved as nat)
            + " verified Credits bill(s) into the trash/archive chest"@,
{
    let mut s = lit("banking: moved ");
    append(&mut s, crate::num::u64_text(moved as u64).as_str());
    append(&mut s, " verified Credits bill(s) into the trash/archive chest");
    s
}

} // verus!
