use rust_pearl_stasis_bot::bot_rules::{door_for_step, BlockSeen};
use rust_pearl_stasis_bot::bot_rules::{
    auto_return_waypoint_for_pearl, book_edit_slot_candidates, clean_bot_name, edit_slots_for_attempt,
    estimate_world_time, first_integer, humanize_identifier, is_hand_openable_pasadmin_id,
    minecraft_time_label, minecraft_user_has_permission, parse_book_recipient, parse_credits_amount,
    pearl_for_whisper_pull, read_credits_book, world_clock, split_lines, BookStack, PullError, WorldTimeSnapshot, WrittenBook,
};
use rust_pearl_stasis_bot::config::BotConfig;
use rust_pearl_stasis_bot::records::{PearlEntry, WaypointEntry};
use rust_pearl_stasis_bot::users::{AppUser, UserRole};

fn pearl(label: &str, player: &str, kind: &str, allowed: &[&str]) -> PearlEntry {
    PearlEntry {
        id: 1,
        player: player.to_string(),
        label: label.to_string(),
        category: "Pearl Chambers".to_string(),
        stasis_kind: kind.to_string(),
        item_name: String::new(),
        inventory_slot: 0,
        bot_name: "UtilityBot".to_string(),
        x: 0,
        y: 64,
        z: 0,
        notes: String::new(),
        created_at: String::new(),
        owner_user: String::new(),
        allowed_users: allowed.iter().map(|s| s.to_string()).collect(),
    }
}

#[test]
fn bot_display_names() {
    assert_eq!(clean_bot_name(" Main "), "UtilityBot");
    assert_eq!(clean_bot_name("IOSBot"), "UtilityBot");
    assert_eq!(clean_bot_name(" backup "), "backup");
}

#[test]
fn book_edit_slots() {
    assert_eq!(book_edit_slot_candidates(3), vec![3, 39]);
    assert_eq!(book_edit_slot_candidates(20), vec![8, 44]);
    assert_eq!(edit_slots_for_attempt(&vec![3, 39], 1), vec![3]);
    assert_eq!(edit_slots_for_attempt(&vec![3, 39], 2), vec![3]);
    assert_eq!(edit_slots_for_attempt(&vec![3, 39], 3), vec![3, 39]);
    assert_eq!(edit_slots_for_attempt(&vec![], 1), Vec::<u32>::new());
}

#[test]
fn doors_and_gates() {
    assert!(is_hand_openable_pasadmin_id("oak_door"));
    assert!(is_hand_openable_pasadmin_id("spruce_fence_gate"));
    assert!(!is_hand_openable_pasadmin_id("iron_door"));
    assert!(!is_hand_openable_pasadmin_id("stone"));
}

#[test]
fn time_labels() {
    assert_eq!(minecraft_time_label(0), "Sunrise 06:00 (0 ticks)");
    assert_eq!(minecraft_time_label(6000), "Day 12:00 (6000 ticks)");
    assert_eq!(minecraft_time_label(18000), "Midnight 00:00 (18000 ticks)");
    assert_eq!(minecraft_time_label(24000 + 13500), "Night 19:30 (13500 ticks)");
    assert_eq!(minecraft_time_label(23999), "Dawn 05:59 (23999 ticks)");
}

#[test]
fn world_time_advances_twenty_ticks_a_second() {
    let snap = WorldTimeSnapshot { day_time: 1000, time_of_day: 1000, time_label: String::new() };
    let later = estimate_world_time(&snap, 2500);
    assert_eq!(later.day_time, 1050);
    assert_eq!(later.time_of_day, 1050);
    assert_eq!(later.time_label, minecraft_time_label(1050));
    let top = WorldTimeSnapshot { day_time: u64::MAX - 1, time_of_day: 0, time_label: String::new() };
    assert_eq!(estimate_world_time(&top, 1000).day_time, u64::MAX);
}

#[test]
fn identifiers_read_as_words() {
    assert_eq!(humanize_identifier("minecraft:oak_door"), "Oak Door");
    assert_eq!(humanize_identifier("stone"), "Stone");
    assert_eq!(humanize_identifier("a:b:deep_slate__tiles"), "Deep Slate Tiles");
    assert_eq!(humanize_identifier(""), "");
}

#[test]
fn in_game_permissions() {
    let users = vec![
        AppUser {
            username: "steve".to_string(),
            password: "x".to_string(),
            role: UserRole::User,
            minecraft_name: "SteveMC".to_string(),
            discord_name: String::new(),
            permissions: vec!["FAQ_WHISPER".to_string()],
        },
        AppUser {
            username: "alex".to_string(),
            password: "x".to_string(),
            role: UserRole::User,
            minecraft_name: String::new(),
            discord_name: String::new(),
            permissions: vec!["faq_admin".to_string()],
        },
    ];
    assert!(minecraft_user_has_permission(&users, " stevemc ", "faq_whisper"));
    assert!(minecraft_user_has_permission(&users, "Alex", "anything"));
    assert!(!minecraft_user_has_permission(&users, "steve", "bank"));
    assert!(!minecraft_user_has_permission(&users, "nobody", "faq_whisper"));
}

#[test]
fn whisper_pulls_pick_one_pearl() {
    let pearls = vec![
        pearl("Home", "Steve", "block", &[]),
        pearl("Nether", "Steve", "", &[]),
        pearl("Other", "Alex", "both", &["steve"]),
        pearl("Skip", "Steve", "throw", &[]),
    ];
    assert_eq!(pearl_for_whisper_pull(pearls.clone_all(), "steve", Some("home")).ok().unwrap().label, "Home");
    assert!(matches!(pearl_for_whisper_pull(pearls.clone_all(), "steve", None), Err(PullError::Ambiguous)));
    assert_eq!(pearl_for_whisper_pull(pearls.clone_all(), "STEVE", Some("oth")).ok().unwrap().label, "Other");
    match pearl_for_whisper_pull(pearls.clone_all(), "steve", Some("skip")) {
        Err(e) => assert_eq!(e.message(), "no allowed stasis pearl matched 'skip'"),
        Ok(_) => panic!("a throw pearl cannot be pulled"),
    }
    match pearl_for_whisper_pull(pearls.clone_all(), "bob", Some("  ")) {
        Err(e) => assert_eq!(e.message(), "no allowed stasis pearl matched"),
        Ok(_) => panic!("bob has no pearls"),
    }
    assert_eq!(
        PullError::Ambiguous.message(),
        "multiple pearls matched; whisper !pull <exact label or player>"
    );
}

trait CloneAll {
    fn clone_all(&self) -> Vec<PearlEntry>;
}

impl CloneAll for Vec<PearlEntry> {
    fn clone_all(&self) -> Vec<PearlEntry> {
        self.iter().map(|p| p.duplicate()).collect()
    }
}

#[test]
fn walking_home_after_a_pull() {
    let mut config = BotConfig::default();
    let home = WaypointEntry {
        id: 42,
        label: "Home".to_string(),
        category: "Bases".to_string(),
        bot_name: "backup".to_string(),
        x: 1,
        y: 2,
        z: 3,
        notes: String::new(),
        created_at: String::new(),
    };
    let p = pearl("Home", "Steve", "block", &[]);
    assert!(auto_return_waypoint_for_pearl(&config, vec![home.duplicate()], &p).is_none());
    config.auto_walk_home_after_pearl = true;
    assert!(auto_return_waypoint_for_pearl(&config, vec![home.duplicate()], &p).is_none());
    config.auto_walk_home_waypoint_id = Some(42);
    let w = auto_return_waypoint_for_pearl(&config, vec![home.duplicate()], &p).unwrap();
    assert_eq!(w.bot_name, "UtilityBot");
    assert_eq!(w.label, "Home");
    config.auto_walk_home_waypoint_id = Some(7);
    assert!(auto_return_waypoint_for_pearl(&config, vec![home.duplicate()], &p).is_none());
}

#[test]
fn lines_split_like_str_lines() {
    let v: Vec<char> = "a\r\nb\n\nc\r".chars().collect();
    let lines: Vec<String> = split_lines(&v).into_iter().map(|l| l.into_iter().collect()).collect();
    assert_eq!(lines, vec!["a".to_string(), "b".to_string(), String::new(), "c\r".to_string()]);
    let v: Vec<char> = "x\n".chars().collect();
    assert_eq!(split_lines(&v).len(), 1);
    assert_eq!(split_lines(&Vec::new()).len(), 0);
}

#[test]
fn first_integers() {
    assert_eq!(first_integer("Credits: 250"), Some(250));
    assert_eq!(first_integer("owe -40 now"), Some(-40));
    assert_eq!(first_integer("a-b 7"), Some(7));
    assert_eq!(first_integer("none"), None);
    assert_eq!(first_integer("99999999999999999999"), None);
}

#[test]
fn credits_amounts() {
    assert_eq!(parse_credits_amount("Deposit 5\nAmount: 300"), Some(300));
    assert_eq!(parse_credits_amount("Book 12\nfor Steve"), Some(12));
    assert_eq!(parse_credits_amount("no number"), None);
}

#[test]
fn recipients_are_on_the_second_line() {
    assert_eq!(parse_book_recipient("Credits Deposit\nRecipient: Steve"), Some("Steve".to_string()));
    assert_eq!(parse_book_recipient("\n  Title \n\n == Alex ==\n"), Some("Alex".to_string()));
    assert_eq!(parse_book_recipient("only one line"), None);
    assert_eq!(parse_book_recipient("a\nTo: --"), None);
}

#[test]
fn credits_books_are_read() {
    let book = BookStack::Written(Some(WrittenBook {
        author: " Banker ".to_string(),
        title: "Deposit".to_string(),
        pages: vec!["Credits Deposit".to_string(), "Recipient: Steve\nAmount: 250".to_string()],
    }));
    let allowed = vec!["banker".to_string()];
    let b = read_credits_book(&book, 4, &allowed, 1, 1000).ok().unwrap().unwrap();
    assert_eq!(b.author, "Banker");
    assert_eq!(b.recipient, "Steve");
    assert_eq!(b.amount, 250);
    assert_eq!(b.page_text, "Credits Deposit\nRecipient: Steve\nAmount: 250");
    match read_credits_book(&book, 4, &vec!["other".to_string()], 1, 1000) {
        Err(m) => assert_eq!(m, "slot 4: writer/signer 'Banker' is not on the allowed list"),
        Ok(_) => panic!("writer is not allowed"),
    }
    match read_credits_book(&book, 4, &allowed, 1, 100) {
        Err(m) => assert_eq!(m, "slot 4: amount 250 outside allowed range 1-100"),
        Ok(_) => panic!("amount is too large"),
    }
    assert!(read_credits_book(&BookStack::Empty, 0, &allowed, 1, 100).ok().unwrap().is_none());
    match read_credits_book(&BookStack::Written(None), 2, &allowed, 1, 100) {
        Err(m) => assert_eq!(m, "slot 2: written book had no signed-book content"),
        Ok(_) => panic!("book has no content"),
    }
}

#[test]
fn world_clock_tells_day_from_night() {
    let day = WorldTimeSnapshot { day_time: 30000, time_of_day: 6000, time_label: "Day 12:00 (6000 ticks)".to_string() };
    let c = world_clock(&day);
    assert_eq!((c.day_time, c.time_of_day, c.is_day), (30000, 6000, true));
    assert_eq!(c.time_label, "Day 12:00 (6000 ticks)");
    let night = WorldTimeSnapshot { day_time: 13000, time_of_day: 13000, time_label: String::new() };
    assert!(!world_clock(&night).is_day);
    let edge = WorldTimeSnapshot { day_time: 12000, time_of_day: 12000, time_label: String::new() };
    assert!(!world_clock(&edge).is_day);
}

#[test]
fn a_labelled_title_value_beats_a_bare_page_number() {
    let book = BookStack::Written(Some(WrittenBook {
        author: "Alice".to_string(),
        title: "Credits: 250".to_string(),
        pages: vec!["Bill 7\nRecipient: Steve".to_string()],
    }));
    let allowed = vec!["alice".to_string()];
    let b = read_credits_book(&book, 0, &allowed, 1, 1000).ok().unwrap().unwrap();
    assert_eq!((b.author.as_str(), b.recipient.as_str(), b.title.as_str(), b.amount), ("Alice", "Steve", "Credits: 250", 250));
    assert_eq!(b.page_text, "Bill 7\nRecipient: Steve");
    let plain = BookStack::Written(Some(WrittenBook {
        author: "Alice".to_string(),
        title: "Bill 9".to_string(),
        pages: vec!["Pay 7".to_string()],
    }));
    assert_eq!(read_credits_book(&plain, 0, &allowed, 1, 1000).ok().unwrap().unwrap().amount, 7);
}

#[test]
fn the_first_hand_door_near_a_step_is_picked_once() {
    let blocks = vec![
        BlockSeen { pos: (0, 64, 0), id: "stone".to_string(), open: None },
        BlockSeen { pos: (0, 65, 0), id: "iron_door".to_string(), open: Some(false) },
        BlockSeen { pos: (0, 63, 0), id: "oak_fence_gate".to_string(), open: Some(false) },
    ];
    assert_eq!(door_for_step(&blocks, &vec![]), Some(((0, 63, 0), true)));
    assert_eq!(door_for_step(&blocks, &vec![(0, 63, 0)]), None);
    let open_door = vec![BlockSeen { pos: (1, 64, 1), id: "spruce_door".to_string(), open: Some(true) }];
    assert_eq!(door_for_step(&open_door, &vec![]), Some(((1, 64, 1), false)));
    assert_eq!(door_for_step(&vec![], &vec![]), None);
}
