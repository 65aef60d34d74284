use rust_pearl_stasis_bot::bank::Balances;
use rust_pearl_stasis_bot::book_writer::{book_inventory_slot, prepare_book};
use rust_pearl_stasis_bot::bot_rules::{parse_book_recipient, BookStack, WrittenBook};
use rust_pearl_stasis_bot::config::ChestLedgerConfig;
use rust_pearl_stasis_bot::ledger::{
    credit_ledger_slot, ledger_allowed_writers, ledger_summary, moved_books_message, SlotOutcome,
};

fn book(author: &str, pages: &[&str]) -> BookStack {
    BookStack::Written(Some(WrittenBook {
        author: author.to_string(),
        title: "Bill".to_string(),
        pages: pages.iter().map(|p| p.to_string()).collect(),
    }))
}

#[test]
fn allowed_writers_are_cleaned() {
    let mut c = ChestLedgerConfig::default();
    assert_eq!(ledger_allowed_writers(&c).err(), Some("add at least one allowed book writer/signer".to_string()));
    c.allowed_players = vec![" Banker ".to_string(), "  ".to_string()];
    assert_eq!(ledger_allowed_writers(&c).ok(), Some(vec!["banker".to_string()]));
}

#[test]
fn a_valid_book_credits_its_author() {
    let mut bank = Balances::new();
    let c = ChestLedgerConfig::default();
    let allowed = vec!["banker".to_string()];
    let b = book("Banker", &["Deposit\nTo: Steve\nCredits: 40"]);
    match credit_ledger_slot(&mut bank, &b, 3, &allowed, &c) {
        Some(SlotOutcome::Credited(e)) => {
            assert_eq!(e.slot, 3);
            assert_eq!(e.author, "Banker");
            assert_eq!(e.recipient, "Steve");
            assert_eq!(e.amount, 40);
            assert_eq!(e.balance.username, "banker");
            assert_eq!(e.balance.credits, 1040);
        }
        _ => panic!("expected a credit"),
    }
    assert_eq!(bank.get("banker"), Some(1040));
    assert_eq!(bank.get("steve"), None);
}

#[test]
fn a_book_without_a_recipient_is_still_paid() {
    let mut bank = Balances::new();
    let c = ChestLedgerConfig::default();
    let allowed = vec!["alice".to_string()];
    let b = book("Alice", &["Credits Deposit\nRecipient: Bob\nCredits: 50"]);
    assert!(matches!(credit_ledger_slot(&mut bank, &b, 0, &allowed, &c), Some(SlotOutcome::Credited(_))));
    assert_eq!(bank.get("alice"), Some(1050));
    let b = book("Alice", &["Credits: 25"]);
    match credit_ledger_slot(&mut bank, &b, 1, &allowed, &c) {
        Some(SlotOutcome::Credited(e)) => assert_eq!((e.recipient.as_str(), e.amount), ("", 25)),
        _ => panic!("expected a credit"),
    }
    assert_eq!(bank.get("alice"), Some(1075));
}

#[test]
fn refused_books_are_skipped() {
    let mut bank = Balances::new();
    let c = ChestLedgerConfig::default();
    let allowed = vec!["banker".to_string()];
    let b = book("Banker", &["No number here"]);
    match credit_ledger_slot(&mut bank, &b, 0, &allowed, &c) {
        Some(SlotOutcome::Skipped(m)) => assert_eq!(m, "slot 0: no Credits amount found in book"),
        _ => panic!("expected a skip"),
    }
    let b = book("Mallory", &["Credits: 5"]);
    match credit_ledger_slot(&mut bank, &b, 2, &allowed, &c) {
        Some(SlotOutcome::Skipped(m)) => assert_eq!(m, "slot 2: writer/signer 'Mallory' is not on the allowed list"),
        _ => panic!("expected a skip"),
    }
    assert!(matches!(credit_ledger_slot(&mut bank, &BookStack::Other, 1, &allowed, &c), Some(SlotOutcome::Nothing)));
    assert_eq!(bank.get("banker"), None);
}

#[test]
fn an_overflowing_credit_is_not_made() {
    let mut bank = Balances::from_pairs(vec![("banker".to_string(), i64::MAX - 5)]);
    let c = ChestLedgerConfig::default();
    let allowed = vec!["banker".to_string()];
    let b = book("Banker", &["Deposit\nTo: Steve\nCredits: 40"]);
    assert!(credit_ledger_slot(&mut bank, &b, 0, &allowed, &c).is_none());
    assert_eq!(bank.get("banker"), Some(i64::MAX - 5));
}

#[test]
fn ledger_messages() {
    assert_eq!(ledger_summary(2, 1), "Chest ledger processed 2 signed book(s), skipped 1 item(s).");
    assert_eq!(moved_books_message(3), "banking: moved 3 verified Credits bill(s) into the trash/archive chest");
}

#[test]
fn books_are_prepared_for_writing() {
    let (title, pages) = prepare_book("  Deposit  ", &vec!["Hello  ".to_string(), "   ".to_string()], " Steve ").ok().unwrap();
    assert_eq!(title, "Deposit");
    assert_eq!(pages, vec!["Hello\nRecipient: Steve".to_string()]);
    let (_, pages) = prepare_book("T", &vec![], "Steve").ok().unwrap();
    assert_eq!(pages, vec!["Credits Deposit\nRecipient: Steve".to_string()]);
    let (_, pages) = prepare_book("T", &vec!["a\nb".to_string()], "Steve").ok().unwrap();
    assert_eq!(pages, vec!["a\nb".to_string()]);
}

#[test]
fn bad_books_are_refused() {
    assert_eq!(prepare_book("  ", &vec!["x".to_string()], "").err(), Some("book title is required to sign the book".to_string()));
    assert_eq!(
        prepare_book(&"t".repeat(33), &vec!["x".to_string()], "").err(),
        Some("book title must be 32 characters or fewer".to_string())
    );
    assert_eq!(prepare_book("T", &vec![" ".to_string()], "").err(), Some("add at least one non-empty book page".to_string()));
    let many: Vec<String> = (0..101).map(|i| format!("p{i}")).collect();
    assert_eq!(prepare_book("T", &many, "").err(), Some("a signed book can have at most 100 pages".to_string()));
    let long = vec!["ok".to_string(), "y".repeat(1025)];
    assert_eq!(
        prepare_book("T", &long, "").err(),
        Some("page 2 is too long; keep each page at 1024 characters or fewer".to_string())
    );
}

#[test]
fn book_slots_stop_at_thirty_five() {
    assert_eq!(book_inventory_slot(Some(40)), Some(35));
    assert_eq!(book_inventory_slot(Some(3)), Some(3));
    assert_eq!(book_inventory_slot(None), None);
}

#[test]
fn a_recipient_page_reads_back_its_recipient() {
    for name in ["Steve", "Alex_99", "a b", "x"] {
        let (_, pages) = prepare_book("T", &vec![], &format!("  {name} ")).ok().unwrap();
        assert_eq!(parse_book_recipient(&pages[0]), Some(name.to_string()));
    }
}
