use rust_pearl_stasis_bot::bank::Balances;
use rust_pearl_stasis_bot::casino::{
    add_credits, all_balances, balance, blackjack_hit, blackjack_quick_with_deck, blackjack_stand,
    blackjack_start_with_deck, card_name, casino_help, charge_bet, clean_username, hand_total, play_roulette,
    payout_room, play_blackjack_quick, play_slots, try_blackjack_start, try_blackjack_stand, try_play_blackjack_quick,
    try_play_roulette, try_play_slots, roulette_color, roulette_round, roulette_wins, set_balance, slots_round, validate_bet, vip_table,
    CasinoError,
};
use rust_pearl_stasis_bot::casino_chat::{handle_casino_chat_checked, handle_casino_chat_command, sender_has_headroom};
use rust_pearl_stasis_bot::models::CasinoBalance;

fn bank_with(rows: &[(&str, i64)]) -> Balances {
    Balances::from_pairs(rows.iter().map(|(u, c)| (u.to_string(), *c)).collect())
}

#[test]
fn new_players_start_with_a_thousand_credits() {
    let mut bank = Balances::new();
    let b = balance(&mut bank, "  Steve ");
    assert_eq!(b.username, "steve");
    assert_eq!(b.credits, 1000);
    assert_eq!(bank.get("steve"), Some(1000));
}

#[test]
fn set_balance_reads_back() {
    let mut bank = Balances::new();
    let r = set_balance(&mut bank, "Alex", 250).ok().unwrap();
    assert_eq!(r.username, "alex");
    assert_eq!(balance(&mut bank, "ALEX").credits, 250);
}

#[test]
fn set_balance_needs_a_username() {
    let mut bank = Balances::new();
    match set_balance(&mut bank, "   ", 5) {
        Err(CasinoError::UsernameRequired) => {}
        _ => panic!("expected UsernameRequired"),
    }
    assert_eq!(CasinoError::UsernameRequired.message(), "username is required");
}

#[test]
fn bets_are_checked() {
    assert!(matches!(validate_bet(0), Err(CasinoError::BetTooSmall)));
    assert!(matches!(validate_bet(100_001), Err(CasinoError::BetTooLarge)));
    assert!(validate_bet(100_000).is_ok());
    assert_eq!(CasinoError::BetTooSmall.message(), "bet must be at least 1 Credits");
    assert_eq!(CasinoError::BetTooLarge.message(), "bet is too large");
}

#[test]
fn charging_more_than_the_balance_is_refused() {
    let mut bank = bank_with(&[("bob", 10)]);
    assert!(matches!(charge_bet(&mut bank, "bob", 11), Err(CasinoError::NotEnoughCredits)));
    assert_eq!(bank.get("bob"), Some(10));
    assert!(charge_bet(&mut bank, "Bob", 4).is_ok());
    assert_eq!(bank.get("bob"), Some(6));
    add_credits(&mut bank, "bob", 10);
    assert_eq!(bank.get("bob"), Some(16));
}

#[test]
fn roulette_colors() {
    assert_eq!(roulette_color(0), "green");
    assert_eq!(roulette_color(1), "red");
    assert_eq!(roulette_color(2), "black");
    assert_eq!(roulette_color(36), "red");
}

#[test]
fn roulette_choices() {
    assert_eq!(roulette_wins(7, "red").ok(), Some(true));
    assert_eq!(roulette_wins(7, "odd").ok(), Some(true));
    assert_eq!(roulette_wins(0, "even").ok(), Some(false));
    assert_eq!(roulette_wins(17, "17").ok(), Some(true));
    assert!(matches!(roulette_wins(17, "purple"), Err(CasinoError::InvalidRouletteChoice)));
    assert!(matches!(roulette_wins(17, "37"), Err(CasinoError::RouletteNumberOutOfRange)));
}

#[test]
fn roulette_red_win_pays_double() {
    let mut bank = Balances::new();
    let r = roulette_round(&mut bank, "Steve", 10, " RED ", 7).ok().unwrap();
    assert!(r.won);
    assert_eq!(r.payout, 20);
    assert_eq!(r.color, "red");
    assert_eq!(r.mesadmin, "Roulette hit 7 red. You won 20 Credits.");
    assert_eq!(r.balance.credits, 1010);
    assert_eq!(bank.get("steve"), Some(1010));
}

#[test]
fn roulette_straight_number_pays_thirty_six() {
    let mut bank = Balances::new();
    let r = roulette_round(&mut bank, "Steve", 10, "17", 17).ok().unwrap();
    assert_eq!(r.payout, 360);
    assert_eq!(r.balance.credits, 1350);
}

#[test]
fn roulette_loss_keeps_the_stake() {
    let mut bank = Balances::new();
    let r = roulette_round(&mut bank, "Steve", 10, "black", 7).ok().unwrap();
    assert!(!r.won);
    assert_eq!(r.mesadmin, "Roulette hit 7 red. You lost 10 Credits.");
    assert_eq!(r.balance.credits, 990);
}

#[test]
fn roulette_invalid_choice_still_charges() {
    let mut bank = Balances::new();
    assert!(matches!(roulette_round(&mut bank, "Steve", 10, "purple", 7), Err(CasinoError::InvalidRouletteChoice)));
    assert_eq!(bank.get("steve"), Some(990));
}

#[test]
fn roulette_refused_bet_changes_nothing() {
    let mut bank = bank_with(&[("poor", 5)]);
    assert!(matches!(roulette_round(&mut bank, "poor", 10, "red", 7), Err(CasinoError::NotEnoughCredits)));
    assert_eq!(bank.get("poor"), Some(5));
}

#[test]
fn random_roulette_keeps_the_books() {
    let mut bank = Balances::new();
    let r = play_roulette(&mut bank, "Steve", 10, "red").ok().unwrap();
    assert!(r.number <= 36);
    assert_eq!(bank.get("steve"), Some(r.balance.credits));
    assert!(r.balance.credits == 990 || r.balance.credits == 1010);
}

#[test]
fn slots_three_crowns_pay_twenty_five() {
    let mut bank = Balances::new();
    let r = slots_round(&mut bank, "Steve", 10, 0, 0, 0).ok().unwrap();
    assert_eq!(r.payout, 250);
    assert_eq!(r.reels, vec!["Crown".to_string(), "Crown".to_string(), "Crown".to_string()]);
    assert_eq!(r.mesadmin, "Slots: Crown | Crown | Crown. You won 250 Credits.");
    assert_eq!(r.balance.credits, 1240);
}

#[test]
fn slots_pair_and_miss() {
    let mut bank = Balances::new();
    let r = slots_round(&mut bank, "Steve", 10, 1, 2, 1).ok().unwrap();
    assert_eq!(r.payout, 20);
    assert_eq!(r.balance.credits, 1010);
    let r = slots_round(&mut bank, "Steve", 10, 1, 2, 3).ok().unwrap();
    assert_eq!(r.payout, 0);
    assert_eq!(r.mesadmin, "Slots: Pearl | Admin | Sword. You lost 10 Credits.");
    assert_eq!(r.balance.credits, 1000);
    let r = slots_round(&mut bank, "Steve", 10, 5, 5, 5).ok().unwrap();
    assert_eq!(r.payout, 100);
}

#[test]
fn random_slots_keep_the_books() {
    let mut bank = Balances::new();
    let r = play_slots(&mut bank, "Steve", 10).ok().unwrap();
    assert_eq!(r.reels.len(), 3);
    assert_eq!(r.balance.credits, 990 + r.payout);
    assert!([0, 20, 100, 250].contains(&r.payout));
}

#[test]
fn card_names_and_totals() {
    assert_eq!(card_name(1), "A");
    assert_eq!(card_name(10), "10");
    assert_eq!(card_name(12), "Q");
    assert_eq!(hand_total(&vec![1, 13]), 21);
    assert_eq!(hand_total(&vec![1, 1, 9]), 21);
    assert_eq!(hand_total(&vec![10, 9, 5]), 24);
}

#[test]
fn blackjack_hand_from_a_known_deck() {
    let mut bank = Balances::new();
    // The top of the deck is its last card: player 5, dealer 6, player 7, dealer 10.
    let deck = vec![2, 3, 10, 7, 6, 5];
    let (mut game, r) = blackjack_start_with_deck(&mut bank, "Steve", 10, deck).ok().unwrap();
    assert_eq!(r.player_cards, vec!["5".to_string(), "7".to_string()]);
    assert_eq!(r.player_total, 12);
    assert!(!r.finished);
    assert_eq!(bank.get("steve"), Some(990));
    let hit = blackjack_hit(&mut bank, "Steve", &mut game).ok().unwrap();
    assert_eq!(hit.player_total, 15);
    assert_eq!(game.deck.len() + game.player_cards.len() + game.dealer_cards.len(), 6);
    let stood = blackjack_stand(&mut bank, "Steve", &mut game).ok().unwrap();
    assert!(stood.finished);
    assert_eq!(game.deck.len() + game.player_cards.len() + game.dealer_cards.len(), 6);
}

#[test]
fn quick_blackjack_from_a_known_deck() {
    let mut bank = Balances::new();
    let deck = vec![2, 3, 10, 7, 6, 5];
    let r = blackjack_quick_with_deck(&mut bank, "Steve", 10, deck).ok().unwrap();
    assert!(r.finished);
}

#[test]
fn leaderboard_ranks_by_credits_then_name() {
    let bank = bank_with(&[("carol", 50), ("alice", 70), ("bob", 50)]);
    let rows = all_balances(&bank);
    let names: Vec<String> = rows.iter().map(|r| r.username.clone()).collect();
    assert_eq!(names, vec!["alice".to_string(), "bob".to_string(), "carol".to_string()]);
    let table = vip_table(&rows);
    assert_eq!(table.len(), 3);
    assert_eq!(table[0].rank, 1);
    assert_eq!(table[2].rank, 3);
    assert_eq!(table[2].username, "carol");
}

#[test]
fn vip_table_keeps_twenty_five() {
    let rows: Vec<CasinoBalance> =
        (0..30).map(|i| CasinoBalance { username: format!("u{i:02}"), credits: 100 - i }).collect();
    let table = vip_table(&rows);
    assert_eq!(table.len(), 25);
    assert_eq!(table[24].rank, 25);
}

#[test]
fn usernames_are_trimmed_and_lowercased() {
    assert_eq!(clean_username("  MixedCase "), "mixedcase");
}

#[test]
fn chat_casino_commands() {
    let mut bank = Balances::new();
    assert!(sender_has_headroom(&bank, "<Steve> !credits"));
    let (who, reply) = handle_casino_chat_command(&mut bank, "<Steve> !credits").unwrap();
    assert_eq!(who, "Steve");
    assert_eq!(reply, "steve has 1000 Credits in the Server Project treasury.");
    let (_, reply) = handle_casino_chat_command(&mut bank, "<Steve> !casino").unwrap();
    assert_eq!(reply, casino_help());
    let (_, reply) = handle_casino_chat_command(&mut bank, "<Steve> !slots").unwrap();
    assert_eq!(reply, "Uadmin: !slots <bet>");
    let (_, reply) = handle_casino_chat_command(&mut bank, "<Steve> !roulette 10").unwrap();
    assert_eq!(reply, "Uadmin: !roulette <bet> <red|black|green|odd|even|0-36>");
    let (_, reply) = handle_casino_chat_command(&mut bank, "<Steve> !slots 0").unwrap();
    assert_eq!(reply, "Slots failed: bet must be at least 1 Credits");
    assert!(handle_casino_chat_command(&mut bank, "<Steve> !unknown").is_none());
    assert!(handle_casino_chat_command(&mut bank, "no command here").is_none());
}

#[test]
fn chat_blackjack_reply_names_the_hands() {
    let mut bank = Balances::new();
    let (_, reply) = handle_casino_chat_command(&mut bank, "<Steve> !blackjack 10").unwrap();
    assert!(reply.starts_with("Blackjack: "));
    assert!(reply.contains("Player ["));
    assert!(reply.ends_with(" Credits."));
}

#[test]
fn headroom_is_checked() {
    let bank = bank_with(&[("rich", i64::MAX)]);
    assert!(!payout_room(&bank, " Rich ", 5, 24));
    assert!(payout_room(&bank, " Rich ", 0, 24));
    assert!(!sender_has_headroom(&bank, "<Rich> !slots 5"));
    assert!(sender_has_headroom(&bank, "<Rich> !slots 0"));
}

#[test]
fn one_large_balance_leaves_other_players_free() {
    let mut bank = bank_with(&[("rich", i64::MAX)]);
    assert!(payout_room(&bank, "Steve", 100000, 36));
    assert!(sender_has_headroom(&bank, "<Steve> !slots 5"));
    assert!(sender_has_headroom(&bank, "no command here"));
    let (who, reply) = handle_casino_chat_command(&mut bank, "<Steve> !credits").unwrap();
    assert_eq!(who, "Steve");
    assert_eq!(reply, "steve has 1000 Credits in the Server Project treasury.");
}

#[test]
fn commands_that_pay_nothing_need_no_room() {
    let mut bank = bank_with(&[("steve", i64::MAX)]);
    assert!(sender_has_headroom(&bank, "<Steve> !Slots"));
    assert_eq!(
        handle_casino_chat_command(&mut bank, "<Steve> !Slots"),
        Some(("Steve".to_string(), "Uadmin: !slots <bet>".to_string()))
    );
    assert_eq!(handle_casino_chat_command(&mut bank, "<Steve> !casino"), Some(("Steve".to_string(), casino_help().to_string())));
    assert_eq!(
        handle_casino_chat_checked(&mut bank, "<Steve> !CreditsHelp"),
        Some(("Steve".to_string(), casino_help().to_string()))
    );
    assert_eq!(handle_casino_chat_checked(&mut bank, "!casino"), None);
    assert_eq!(
        handle_casino_chat_checked(&mut bank, "<Steve> !credits"),
        Some(("Steve".to_string(), format!("steve has {} Credits in the Server Project treasury.", i64::MAX)))
    );
    assert!(!sender_has_headroom(&bank, "<Steve> !blackjack 1"));
    assert_eq!(handle_casino_chat_checked(&mut bank, "<Steve> !blackjack 1"), None);
    assert_eq!(bank.get("steve"), Some(i64::MAX));
}

#[test]
fn checked_games_refuse_only_a_payout_that_would_not_fit() {
    let mut bank = bank_with(&[("rich", i64::MAX - 10)]);
    assert!(try_play_slots(&mut bank, "Rich", 1).is_none());
    assert!(try_play_roulette(&mut bank, "Rich", 1, "red").is_none());
    assert!(try_blackjack_start(&mut bank, "Rich", 6).is_none());
    assert!(try_play_blackjack_quick(&mut bank, "Rich", 6).is_none());
    assert_eq!(bank.get("rich"), Some(i64::MAX - 10));
    assert!(matches!(try_play_slots(&mut bank, "Rich", 0), Some(Err(CasinoError::BetTooSmall))));
    assert!(matches!(try_blackjack_start(&mut bank, "Rich", 5), Some(Ok(_))));
    let mut other = Balances::new();
    assert!(matches!(try_play_slots(&mut other, "Steve", 10), Some(Ok(_))));
    assert!(matches!(try_play_roulette(&mut other, "Steve", 10, "red"), Some(Ok(_))));
    assert!(matches!(try_play_blackjack_quick(&mut other, "Steve", 10), Some(Ok(_))));
    if let Some(Ok((mut game, resp))) = try_blackjack_start(&mut other, "Steve", 10) {
        if !resp.finished {
            assert!(matches!(try_blackjack_stand(&mut other, "Steve", &mut game), Some(Ok(r)) if r.finished));
        }
    }
}

#[test]
fn quick_blackjack_always_finishes() {
    let mut bank = Balances::new();
    for _ in 0..30 {
        let r = play_blackjack_quick(&mut bank, "Steve", 1).ok().unwrap();
        assert!(r.finished);
        assert!(["blackjack", "won", "push", "lost"].contains(&r.outcome.as_str()));
        assert!(r.dealer_total.is_some());
    }
}
